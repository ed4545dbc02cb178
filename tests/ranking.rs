use zk::cli::{CliError, Subcommand};
use zk::document::Document;
use zk::path::DocumentId;
use zk::rank::{link_graph, top_indices};
use zk::search::{candidates, document_frequency, query_terms, shares_term, term_count, tokenize};

fn id(parts: &[&str]) -> DocumentId {
    DocumentId { segments: parts.iter().map(|s| s.to_string()).collect() }
}

fn doc(name: &str, text: &str) -> Document {
    Document::parse(id(&[name]), text).unwrap()
}

#[test]
fn cycle_graph_has_one_edge_each() {
    let docs = vec![doc("a.md", "[n](b.md)"), doc("b.md", "[n](c.md)"), doc("c.md", "[n](d.md)"), doc("d.md", "[n](a.md)")];
    let refs: Vec<&Document> = docs.iter().collect();
    let g = link_graph(&refs);
    assert_eq!(g, vec![vec![1], vec![2], vec![3], vec![0]]);
}

#[test]
fn graph_drops_self_duplicate_and_outside_links() {
    let docs = vec![
        doc("a.md", "[me](a.md) [b](b.md) [b again](./b.md) [out](z.md)"),
        doc("b.md", "nothing"),
    ];
    let refs: Vec<&Document> = docs.iter().collect();
    let g = link_graph(&refs);
    assert_eq!(g, vec![vec![1], vec![]]);
}

#[test]
fn tokenize_lowercases_and_splits() {
    assert_eq!(tokenize("Hello, World! x-y 42"), vec!["hello", "world", "x", "y", "42"]);
    assert!(tokenize("  ,;  ").is_empty());
}

#[test]
fn term_statistics() {
    let toks = tokenize("a b a c a");
    assert_eq!(term_count(&toks, &"a".to_string()), 3);
    assert_eq!(term_count(&toks, &"z".to_string()), 0);
    let corpus = vec![tokenize("a b"), tokenize("b c"), tokenize("c d")];
    assert_eq!(document_frequency(&corpus, &"b".to_string()), 2);
    assert_eq!(document_frequency(&corpus, &"z".to_string()), 0);
}

#[test]
fn documents_without_shared_terms_are_excluded() {
    let corpus = vec![tokenize("rust verification"), tokenize("cooking pasta"), tokenize("Rust borrow")];
    let q = tokenize("rust");
    assert!(!shares_term(&corpus[1], &q));
    assert_eq!(candidates(&corpus, &q), vec![0, 2]);
    assert!(candidates(&corpus, &tokenize("zebra")).is_empty());
}

#[test]
fn select_subcommands() {
    let s = |x: &str| Some(x.to_string());
    assert!(matches!(Subcommand::select(s("ls"), None, None, None), Ok(Subcommand::List)));
    assert!(matches!(Subcommand::select(s("inspect"), None, None, None), Ok(Subcommand::Inspect(None))));
    match Subcommand::select(s("search"), s("rust"), None, None) {
        Ok(Subcommand::Search(q)) => assert_eq!(q, "rust"),
        _ => panic!("expected a search"),
    }
    assert_eq!(Subcommand::select(None, None, None, None).unwrap_err(), CliError::MissingSubcommand);
    assert_eq!(Subcommand::select(s("links"), None, None, None).unwrap_err(), CliError::MissingArgument);
    assert_eq!(Subcommand::select(s("new"), s("p"), None, None).unwrap_err(), CliError::MissingArgument);
    assert_eq!(Subcommand::select(s("frobnicate"), None, None, None).unwrap_err(), CliError::UnknownSubcommand);
}

#[test]
fn blended_scores_order_results() {
    let w = 0.7f32;
    let first = w * 0.9 + (1.0 - w) * 0.1;
    let second = w * 0.2 + (1.0 - w) * 0.9;
    assert!((first - 0.66).abs() < 1e-6);
    assert!((second - 0.41).abs() < 1e-6);
    let keys = vec![second.to_bits(), first.to_bits()];
    assert_eq!(top_indices(&keys, 10), vec![1, 0]);
}

#[test]
fn result_cap_keeps_the_top_ten() {
    let keys: Vec<u32> = (0..25u32).map(|i| (i * 7) % 25 + 1).collect();
    let top = top_indices(&keys, 10);
    assert_eq!(top.len(), 10);
    let got: Vec<u32> = top.iter().map(|&i| keys[i]).collect();
    assert_eq!(got, (16..=25u32).rev().collect::<Vec<u32>>());
}

#[test]
fn equal_scores_keep_input_order() {
    assert_eq!(top_indices(&vec![5, 9, 5, 9, 1], 4), vec![1, 3, 0, 2]);
    assert!(top_indices(&vec![], 10).is_empty());
    assert!(top_indices(&vec![3, 4], 0).is_empty());
}

#[test]
fn query_terms_are_distinct_in_first_order() {
    assert_eq!(query_terms("Rust rust, verus RUST borrow verus"), vec!["rust", "verus", "borrow"]);
    assert!(query_terms("...").is_empty());
}
