use zk::link::Link;
use zk::path::{resolve, DocumentId, PathError};

fn id(parts: &[&str]) -> DocumentId {
    DocumentId { segments: parts.iter().map(|s| s.to_string()).collect() }
}

fn link(url: &str) -> Link {
    Link { text: "t".to_string(), url: url.to_string() }
}

#[test]
fn equivalent_references_resolve_equal() {
    let dir = id(&["notes"]);
    let a = resolve(&dir, "./note.md").unwrap();
    let b = resolve(&dir, "sub/../note.md").unwrap();
    assert!(a == b);
    assert_eq!(a.segments, vec!["notes".to_string(), "note.md".to_string()]);
}

#[test]
fn redundant_separators_collapse() {
    let dir = id(&[]);
    let a = resolve(&dir, "a//b/./c.md").unwrap();
    assert_eq!(a.segments, vec!["a".to_string(), "b".to_string(), "c.md".to_string()]);
}

#[test]
fn parent_steps_climb() {
    let dir = id(&["a", "b"]);
    let r = resolve(&dir, "../c.md").unwrap();
    assert_eq!(r.segments, vec!["a".to_string(), "c.md".to_string()]);
}

#[test]
fn escaping_the_root_is_outside_vault() {
    let dir = id(&["a"]);
    assert_eq!(resolve(&dir, "../../x.md").unwrap_err(), PathError::OutsideVault);
}

#[test]
fn empty_or_absolute_reference_is_invalid() {
    let dir = id(&["a"]);
    assert_eq!(resolve(&dir, "").unwrap_err(), PathError::InvalidReference);
    assert_eq!(resolve(&dir, "/etc/x.md").unwrap_err(), PathError::InvalidReference);
}

#[test]
fn external_link_does_not_resolve() {
    let dir = id(&["notes"]);
    assert!(link("https://example.com/x").to_markdown_path(&dir).is_none());
}

#[test]
fn relative_link_resolves() {
    let dir = id(&["notes"]);
    let p = link("note.md").to_markdown_path(&dir).unwrap();
    assert_eq!(p.segments, vec!["notes".to_string(), "note.md".to_string()]);
}

#[test]
fn points_to_reads_from_linking_directory() {
    let target = id(&["notes", "note.md"]);
    let notes = id(&["notes"]);
    let root = DocumentId::root();
    assert!(link("note.md").points_to(&target, &notes));
    assert!(link("./sub/../note.md").points_to(&target, &notes));
    assert!(!link("other.md").points_to(&target, &notes));
    assert!(!link("https://example.com/note.md").points_to(&target, &notes));
    assert!(link("notes/note.md").points_to(&target, &root));
    assert!(!link("note.md").points_to(&target, &root));
}

#[test]
fn references_without_extension_are_not_documents() {
    let dir = id(&["notes"]);
    assert_eq!(resolve(&dir, "note").unwrap_err(), PathError::NotADocument);
    assert_eq!(resolve(&dir, "sub/").unwrap_err(), PathError::NotADocument);
    assert_eq!(resolve(&dir, ".md").unwrap_err(), PathError::NotADocument);
    assert_eq!(resolve(&dir, "..").unwrap_err(), PathError::NotADocument);
    assert!(link("picture.png").to_markdown_path(&dir).is_none());
    assert!(resolve(&dir, "n.md").unwrap().is_document());
}

#[test]
fn scheme_links_never_resolve() {
    let dir = id(&[]);
    assert!(link("mailto:someone.md").to_markdown_path(&dir).is_none());
    assert!(link("HTTP://x/y.md").to_markdown_path(&dir).is_none());
}

#[test]
fn display_url_decodes_escapes() {
    assert_eq!(link("my%20note.md").display_url(), "my note.md");
    assert_eq!(link("plain.md").display_url(), "plain.md");
}

#[test]
fn parent_of_root_is_root() {
    assert!(DocumentId::root().parent() == DocumentId::root());
    assert!(id(&["a", "b.md"]).parent() == id(&["a"]));
}
