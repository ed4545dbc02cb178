//! The discrete side of relevance scoring: word tokens, term counts, and the
//! documents that share a term with the query.

use vstd::prelude::*;
use crate::path::{chars_of, string_of};
use crate::query::{lower_of, lowercase};

verus! {

/// What `char::is_alphanumeric` says of `c`.
pub uninterp spec fn is_word_char(c: char) -> bool;

/// Relies on `char::is_alphanumeric`, which depends on the character alone.
#[verifier::external_body]
fn word_char(c: char) -> (r: bool)
    ensures
        r == is_word_char(c),
{
    c.is_alphanumeric()
}

/// Ends the current word, if any.
pub open spec fn flush(ws: Seq<Seq<char>>, cur: Seq<char>) -> Seq<Seq<char>> {
    if cur.len() > 0 {
        ws.push(cur)
    } else {
        ws
    }
}

/// The words completed within `s`, and the word still open at its end.
pub open spec fn word_scan(s: Seq<char>) -> (Seq<Seq<char>>, Seq<char>)
    decreases s.len(),
{
    if s.len() == 0 {
        (Seq::empty(), Seq::empty())
    } else {
        let (ws, cur) = word_scan(s.drop_last());
        if is_word_char(s.last()) {
            (ws, cur.push(s.last()))
        } else {
            (flush(ws, cur), Seq::empty())
        }
    }
}

/// The maximal runs of word characters of `s`, in order.
pub open spec fn words(s: Seq<char>) -> Seq<Seq<char>> {
    flush(word_scan(s).0, word_scan(s).1)
}

/// The lowercase word tokens of a text.
pub open spec fn tokens_of(text: Seq<char>) -> Seq<Seq<char>> {
    words(lower_of(text))
}

pub open spec fn views(v: Seq<String>) -> Seq<Seq<char>> {
    v.map_values(|s: String| s@)
}

/// How many times `t` occurs in `toks`.
pub open spec fn count(toks: Seq<Seq<char>>, t: Seq<char>) -> nat
    decreases toks.len(),
{
    if toks.len() == 0 {
        0
    } else {
        count(toks.drop_last(), t) + if toks.last() == t {
            1nat
        } else {
            0nat
        }
    }
}

/// Some token of `query` occurs in `doc`.
pub open spec fn shares_term_spec(doc: Seq<Seq<char>>, query: Seq<Seq<char>>) -> bool {
    exists|i: int| 0 <= i < query.len() && doc.contains(#[trigger] query[i])
}

/// How many of the token lists hold `t`.
pub open spec fn doc_freq(corpus: Seq<Vec<String>>, t: Seq<char>) -> nat
    decreases corpus.len(),
{
    if corpus.len() == 0 {
        0
    } else {
        doc_freq(corpus.drop_last(), t) + if views(corpus.last()@).contains(t) {
            1nat
        } else {
            0nat
        }
    }
}

/// The lowercase word tokens of `text`: the maximal runs of alphanumeric
/// characters, in order.
pub fn tokenize(text: &str) -> (r: Vec<String>)
    ensures
        views(r@) == tokens_of(text@),
{
    let low = lowercase(text);
    let cs = chars_of(low.as_str());
    let mut ws: Vec<String> = Vec::new();
    let mut cur: Vec<char> = Vec::new();
    let mut i: usize = 0;
    assert(cs@.take(0) =~= Seq::<char>::empty());
    assert(views(ws@) =~= Seq::<Seq<char>>::empty());
    while i < cs.len()
        invariant
            cs@ == lower_of(text@),
            0 <= i <= cs.len(),
            word_scan(cs@.take(i as int)) == (views(ws@), cur@),
        decreases cs.len() - i,
    {
        let c = cs[i];
        assert(cs@.take(i + 1).drop_last() =~= cs@.take(i as int));
        assert(cs@.take(i + 1).last() == c);
        if word_char(c) {
            cur.push(c);
        } else {
            if cur.len() > 0 {
                let ghost before = ws@;
                ws.push(string_of(&cur));
                assert(views(ws@) =~= views(before).push(cur@));
            }
            cur = Vec::new();
        }
        i = i + 1;
    }
    assert(cs@.take(cs.len() as int) =~= cs@);
    if cur.len() > 0 {
        let ghost before = ws@;
        ws.push(string_of(&cur));
        assert(views(ws@) =~= views(before).push(cur@));
    }
    ws
}

/// How many times `term` occurs among `toks`.
pub fn term_count(toks: &Vec<String>, term: &String) -> (r: usize)
    ensures
        r == count(views(toks@), term@),
{
    let mut n: usize = 0;
    let mut i: usize = 0;
    assert(views(toks@).take(0) =~= Seq::<Seq<char>>::empty());
    while i < toks.len()
        invariant
            0 <= i <= toks.len(),
            n == count(views(toks@).take(i as int), term@),
            n <= i,
        decreases toks.len() - i,
    {
        assert(views(toks@).take(i + 1).drop_last() =~= views(toks@).take(i as int));
        assert(views(toks@).take(i + 1).last() == toks@[i as int]@);
        if toks[i] == *term {
            n = n + 1;
        }
        i = i + 1;
    }
    assert(views(toks@).take(toks.len() as int) =~= views(toks@));
    n
}

/// Whether `term` occurs among `toks`.
pub fn has_term(toks: &Vec<String>, term: &String) -> (r: bool)
    ensures
        r == views(toks@).contains(term@),
{
    let mut i: usize = 0;
    while i < toks.len()
        invariant
            0 <= i <= toks.len(),
            forall|k: int| 0 <= k < i ==> toks@[k]@ != term@,
        decreases toks.len() - i,
    {
        if toks[i] == *term {
            assert(views(toks@)[i as int] == term@);
            return true;
        }
        i = i + 1;
    }
    let ghost v = views(toks@);
    assert forall|k: int| 0 <= k < v.len() implies #[trigger] v[k] != term@ by {
        assert(v[k] == toks@[k]@);
    }
    false
}

/// Whether some query token occurs among the document's tokens.
pub fn shares_term(doc: &Vec<String>, query: &Vec<String>) -> (r: bool)
    ensures
        r == shares_term_spec(views(doc@), views(query@)),
{
    let mut i: usize = 0;
    while i < query.len()
        invariant
            0 <= i <= query.len(),
            forall|k: int| 0 <= k < i ==> !views(doc@).contains(#[trigger] views(query@)[k]),
        decreases query.len() - i,
    {
        if has_term(doc, &query[i]) {
            assert(views(query@)[i as int] == query@[i as int]@);
            return true;
        }
        assert(views(query@)[i as int] == query@[i as int]@);
        i = i + 1;
    }
    false
}

/// How many of the documents' token lists hold `term`.
pub fn document_frequency(corpus: &Vec<Vec<String>>, term: &String) -> (r: usize)
    ensures
        r == doc_freq(corpus@, term@),
{
    let mut n: usize = 0;
    let mut i: usize = 0;
    assert(corpus@.take(0) =~= Seq::<Vec<String>>::empty());
    while i < corpus.len()
        invariant
            0 <= i <= corpus.len(),
            n == doc_freq(corpus@.take(i as int), term@),
            n <= i,
        decreases corpus.len() - i,
    {
        assert(corpus@.take(i + 1).drop_last() =~= corpus@.take(i as int));
        assert(corpus@.take(i + 1).last() == corpus@[i as int]);
        if has_term(&corpus[i], term) {
            n = n + 1;
        }
        i = i + 1;
    }
    assert(corpus@.take(corpus.len() as int) =~= corpus@);
    n
}

/// The positions of the documents that share a term with the query, in
/// increasing order: only these can score above zero, and every other
/// document is left out of a search.
pub fn candidates(corpus: &Vec<Vec<String>>, query: &Vec<String>) -> (r: Vec<usize>)
    ensures
        forall|a: int, b: int| 0 <= a < b < r@.len() ==> r@[a] < r@[b],
        forall|a: int| 0 <= a < r@.len() ==> r@[a] < corpus@.len(),
        forall|j: int|
            0 <= j < corpus@.len() ==> (r@.contains(j as usize) <==> shares_term_spec(
                views(#[trigger] corpus@[j]@),
                views(query@),
            )),
{
    let mut r: Vec<usize> = Vec::new();
    let mut j: usize = 0;
    while j < corpus.len()
        invariant
            0 <= j <= corpus.len(),
            forall|a: int, b: int| 0 <= a < b < r@.len() ==> r@[a] < r@[b],
            forall|a: int| 0 <= a < r@.len() ==> r@[a] < j,
            forall|k: int|
                0 <= k < corpus@.len() ==> (r@.contains(k as usize) <==> (k < j
                    && shares_term_spec(views(#[trigger] corpus@[k]@), views(query@)))),
        decreases corpus.len() - j,
    {
        let ghost before = r@;
        if shares_term(&corpus[j], query) {
            r.push(j);
            assert forall|k: int| 0 <= k < corpus@.len() implies (r@.contains(k as usize) <==> (k
                < j + 1 && shares_term_spec(views(#[trigger] corpus@[k]@), views(query@)))) by {
                if r@.contains(k as usize) && k != j {
                    let m = choose|m: int| 0 <= m < r@.len() && r@[m] == k as usize;
                    assert(m < before.len());
                    assert(before.contains(k as usize));
                }
                if k < j && shares_term_spec(views(corpus@[k]@), views(query@)) {
                    let m = choose|m: int| 0 <= m < before.len() && before[m] == k as usize;
                    assert(r@[m] == k as usize);
                }
                if k == j {
                    assert(r@[r@.len() - 1] == j);
                }
            }
        } else {
            assert forall|k: int| 0 <= k < corpus@.len() implies (r@.contains(k as usize) <==> (k
                < j + 1 && shares_term_spec(views(#[trigger] corpus@[k]@), views(query@)))) by {
                if k == j && r@.contains(k as usize) {
                    let m = choose|m: int| 0 <= m < r@.len() && r@[m] == k as usize;
                }
            }
        }
        j = j + 1;
    }
    r
}

/// The tokens of `toks` with later repeats removed, in order of first
/// appearance.
pub open spec fn distinct(toks: Seq<Seq<char>>) -> Seq<Seq<char>>
    decreases toks.len(),
{
    if toks.len() == 0 {
        Seq::empty()
    } else {
        let p = distinct(toks.drop_last());
        if p.contains(toks.last()) {
            p
        } else {
            p.push(toks.last())
        }
    }
}

/// The distinct lowercase word tokens of a query text, in order of first
/// appearance: each term counts once in a score.
pub fn query_terms(text: &str) -> (r: Vec<String>)
    ensures
        views(r@) == distinct(tokens_of(text@)),
{
    let toks = tokenize(text);
    let mut r: Vec<String> = Vec::new();
    let mut i: usize = 0;
    assert(views(toks@).take(0) =~= Seq::<Seq<char>>::empty());
    assert(views(r@) =~= Seq::<Seq<char>>::empty());
    while i < toks.len()
        invariant
            views(toks@) == tokens_of(text@),
            0 <= i <= toks.len(),
            views(r@) == distinct(views(toks@).take(i as int)),
        decreases toks.len() - i,
    {
        assert(views(toks@).take(i + 1).drop_last() =~= views(toks@).take(i as int));
        assert(views(toks@).take(i + 1).last() == toks@[i as int]@);
        if !has_term(&r, &toks[i]) {
            let ghost before = r@;
            r.push(toks[i].clone());
            assert(views(r@) =~= views(before).push(toks@[i as int]@));
        }
        i = i + 1;
    }
    assert(views(toks@).take(toks.len() as int) =~= views(toks@));
    r
}

} // verus!
