//! Links as written in a document, and their resolution to vault paths.

use vstd::prelude::*;
use crate::path::{resolve, resolve_spec, DocumentId};

verus! {

/// Whether the URL parser finds `s` to be a reference without a scheme,
/// which needs a base to be resolved.
pub uninterp spec fn is_relative_url(s: Seq<char>) -> bool;

/// The text of `s` with its percent-escapes decoded.
pub uninterp spec fn percent_decoded(s: Seq<char>) -> Seq<char>;

/// A character that may follow the first letter of a URL scheme.
pub open spec fn is_scheme_char(c: char) -> bool {
    ('a' <= c && c <= 'z') || ('A' <= c && c <= 'Z') || ('0' <= c && c <= '9') || c == '+' || c
        == '-' || c == '.'
}

/// The text opens with a scheme: an ASCII letter, then scheme characters,
/// then `:`.
pub open spec fn has_scheme_prefix(s: Seq<char>) -> bool {
    exists|k: int| scheme_ends_at(s, k)
}

/// The first `k` characters of `s` are a scheme, and a `:` follows them.
pub open spec fn scheme_ends_at(s: Seq<char>, k: int) -> bool {
    &&& 0 < k < s.len()
    &&& s[k] == ':'
    &&& ('a' <= s[0] && s[0] <= 'z') || ('A' <= s[0] && s[0] <= 'Z')
    &&& forall|m: int| 0 < m < k ==> is_scheme_char(#[trigger] s[m])
}

/// Relies on `url::Url::parse`: whether it fails with
/// `RelativeUrlWithoutBase` depends on the text alone; it does exactly when
/// no scheme is read at the start, so a text without `:` is relative and a
/// text that opens with a scheme is not.
#[verifier::external_body]
fn url_is_relative(s: &str) -> (r: bool)
    ensures
        r == is_relative_url(s@),
        !s@.contains(':') ==> r,
        has_scheme_prefix(s@) ==> !r,
{
    matches!(url::Url::parse(s), Err(url::ParseError::RelativeUrlWithoutBase))
}

/// Relies on `percent_encoding::percent_decode_str` and `decode_utf8_lossy`:
/// escapes are decoded, and a text without `%` comes back as it was.
#[verifier::external_body]
fn decode_percent(s: &str) -> (r: String)
    ensures
        r@ == percent_decoded(s@),
        !s@.contains('%') ==> r@ == s@,
{
    percent_encoding::percent_decode_str(s).decode_utf8_lossy().to_string()
}

/// A link as written in a document: its text and its raw target.
#[derive(Debug, Clone, Hash, PartialEq, Eq)]
pub struct Link {
    pub text: String,
    pub url: String,
}

/// The vault path that a link with target `url`, written in a document of
/// directory `dir`, points to: only relative references resolve.
pub open spec fn link_target(url: Seq<char>, dir: Seq<Seq<char>>) -> Option<Seq<Seq<char>>> {
    if is_relative_url(url) {
        match resolve_spec(dir, url) {
            Ok(p) => Some(p),
            Err(_) => None,
        }
    } else {
        None
    }
}

impl Link {
    /// Resolves the link against the directory `base_path`; `None` for an
    /// external URL or a reference that does not resolve.
    pub fn to_markdown_path(&self, base_path: &DocumentId) -> (r: Option<DocumentId>)
        ensures
            match r {
                Some(p) => link_target(self.url@, base_path@) == Some(p@),
                None => link_target(self.url@, base_path@) is None,
            },
            base_path.wf() && r is Some ==> r->Some_0.wf(),
            has_scheme_prefix(self.url@) ==> r is None,
            !self.url@.contains(':') ==> (r is Some <==> resolve_spec(base_path@, self.url@) is Ok),
    {
        if url_is_relative(self.url.as_str()) {
            match resolve(base_path, self.url.as_str()) {
                Ok(p) => Some(p),
                Err(_) => None,
            }
        } else {
            None
        }
    }

    /// Whether the link, written in a document of directory `base_dir`,
    /// points to `target`.
    pub fn points_to(&self, target: &DocumentId, base_dir: &DocumentId) -> (r: bool)
        ensures
            r == (link_target(self.url@, base_dir@) == Some(target@)),
    {
        match self.to_markdown_path(base_dir) {
            Some(p) => p.same_as(target),
            None => false,
        }
    }

    /// The target with its percent-escapes decoded, for display.
    pub fn display_url(&self) -> (r: String)
        ensures
            r@ == percent_decoded(self.url@),
    {
        decode_percent(self.url.as_str())
    }
}

} // verus!
