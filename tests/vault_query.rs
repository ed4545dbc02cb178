use zk::document::{Document, DocumentError};
use zk::path::DocumentId;
use zk::query::{Query, QueryError};
use zk::vault::{forward_links, Vault, VaultError};

fn id(parts: &[&str]) -> DocumentId {
    DocumentId { segments: parts.iter().map(|s| s.to_string()).collect() }
}

fn doc(path: &[&str], text: &str) -> Document {
    Document::parse(id(path), text).unwrap()
}

#[test]
fn parse_reads_header_body_and_links() {
    let d = doc(&["a.md"], "---\ntitle: Alpha \n\ntags:  x, y\n---\nSee [B](b.md) and [web](https://e.com).\nEnd");
    assert_eq!(d.get_metadata("title").unwrap(), "Alpha");
    assert_eq!(d.get_metadata("tags").unwrap(), "x, y");
    assert!(d.get_metadata("missing").is_none());
    assert_eq!(d.body, "See [B](b.md) and [web](https://e.com).\nEnd");
    assert_eq!(d.links().len(), 2);
    assert_eq!(d.links()[0].text, "B");
    assert_eq!(d.links()[0].url, "b.md");
    assert_eq!(d.links()[1].url, "https://e.com");
}

#[test]
fn text_without_header_is_all_body() {
    let d = doc(&["a.md"], "just text [x](y.md)");
    assert!(d.metadata.is_empty());
    assert_eq!(d.body, "just text [x](y.md)");
    assert_eq!(d.links().len(), 1);
}

#[test]
fn malformed_header_is_an_error() {
    let r = Document::parse(id(&["a.md"]), "---\nno colon here\n---\nbody");
    assert_eq!(r.unwrap_err(), DocumentError::MalformedHeader);
}

fn sample_vault() -> Vault {
    let a = doc(&["a.md"], "[to b](b.md) [to c](sub/c.md) [web](https://example.com/x)");
    let b = doc(&["b.md"], "[back](a.md) [twice](./a.md)");
    let c = doc(&["sub", "c.md"], "[up](../b.md) [missing](nothing.md)");
    Vault::from_documents(vec![a, b, c]).unwrap()
}

#[test]
fn forward_links_drop_external_targets() {
    let v = sample_vault();
    let f = v.forward(0);
    assert_eq!(f.len(), 2);
    assert!(f[0] == id(&["b.md"]));
    assert!(f[1] == id(&["sub", "c.md"]));
    assert_eq!(forward_links(&v.documents()[2]).len(), 2);
}

#[test]
fn backlinks_invert_forward_links() {
    let v = sample_vault();
    let back = v.find_backlinks(&id(&["b.md"]));
    assert_eq!(back.len(), 2);
    assert!(back[0].source == id(&["a.md"]));
    assert_eq!(back[0].link.text, "to b");
    assert!(back[1].source == id(&["sub", "c.md"]));
    for (i, d) in v.documents().iter().enumerate() {
        for target in [id(&["a.md"]), id(&["b.md"]), id(&["sub", "c.md"])] {
            let forward = v.forward(i).iter().any(|t| *t == target);
            let backward = v.find_backlinks(&target).iter().any(|b| b.source == d.id);
            assert_eq!(forward, backward);
        }
    }
}

#[test]
fn backlinks_of_missing_document_are_listed() {
    let v = sample_vault();
    let back = v.find_backlinks(&id(&["sub", "nothing.md"]));
    assert_eq!(back.len(), 1);
    assert!(v.find_backlinks(&id(&["zzz.md"])).is_empty());
    assert!(v.get_document(&id(&["zzz.md"])).is_none());
    assert!(v.get_document(&id(&["b.md"])).is_some());
}

#[test]
fn duplicate_paths_are_refused() {
    let r = Vault::from_documents(vec![doc(&["a.md"], "x"), doc(&["a.md"], "y")]);
    assert_eq!(r.unwrap_err(), VaultError::DuplicateDocument);
}

#[test]
fn field_query_matches_substring_ignoring_case() {
    let d = doc(&["a.md"], "---\ntags: project, urgent\n---\nbody");
    assert!(Query::parse("tags:urgent").unwrap().evaluate(&d));
    assert!(Query::parse("tags:URGENT").unwrap().evaluate(&d));
    assert!(!Query::parse("tags:archived").unwrap().evaluate(&d));
    assert!(!Query::parse("title:urgent").unwrap().evaluate(&d));
}

#[test]
fn query_operators_combine() {
    let d = doc(&["a.md"], "---\ntags: project\nstatus: open\n---\nThe Quick fox");
    assert!(Query::parse("tags:project status:open").unwrap().evaluate(&d));
    assert!(!Query::parse("tags:project AND status:closed").unwrap().evaluate(&d));
    assert!(Query::parse("tags:nope OR status:open").unwrap().evaluate(&d));
    assert!(Query::parse("NOT status:closed").unwrap().evaluate(&d));
    assert!(Query::parse("\"quick fox\"").unwrap().evaluate(&d));
    assert!(!Query::parse("\"slow fox\"").unwrap().evaluate(&d));
}

#[test]
fn query_syntax_errors() {
    assert_eq!(Query::parse("\"open").unwrap_err(), QueryError::UnclosedQuote);
    assert_eq!(Query::parse("").unwrap_err(), QueryError::InvalidSyntax);
    assert_eq!(Query::parse("tags:x AND").unwrap_err(), QueryError::InvalidSyntax);
    assert_eq!(Query::parse("word").unwrap_err(), QueryError::InvalidSyntax);
    assert_eq!(Query::parse(":x").unwrap_err(), QueryError::InvalidSyntax);
}

#[test]
fn vault_query_keeps_order() {
    let a = doc(&["a.md"], "---\ntags: x\n---\n");
    let b = doc(&["b.md"], "---\ntags: y\n---\n");
    let c = doc(&["c.md"], "---\ntags: x y\n---\n");
    let v = Vault::from_documents(vec![a, b, c]).unwrap();
    let r = v.query(&Query::parse("tags:x").unwrap());
    assert_eq!(r.len(), 2);
    assert!(r[0].id == id(&["a.md"]));
    assert!(r[1].id == id(&["c.md"]));
}

#[test]
fn documents_compare_by_path_alone() {
    let a = doc(&["a.md"], "one");
    let b = doc(&["a.md"], "two [x](y.md)");
    let c = doc(&["c.md"], "one");
    assert!(a == b);
    assert!(a != c);
}
