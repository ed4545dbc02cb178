//! The metadata query language: its syntax tree and its evaluation.

use vstd::prelude::*;
use crate::document::{lookup, Document};
use crate::path::{chars_of, string_of, string_of_range};

verus! {

/// What `str::to_lowercase` makes of a text.
pub uninterp spec fn lower_of(s: Seq<char>) -> Seq<char>;

/// Relies on `str::to_lowercase`: the result depends on the characters
/// alone, and an empty text stays empty.
#[verifier::external_body]
pub(crate) fn lowercase(s: &str) -> (r: String)
    ensures
        r@ == lower_of(s@),
        s@.len() == 0 ==> r@.len() == 0,
{
    s.to_lowercase()
}

/// A predicate over a document's metadata and body.
#[derive(Debug)]
pub enum Query {
    /// The metadata field holds `value`, ignoring case.
    Field { field: String, value: String },
    /// The body holds the phrase, ignoring case.
    Phrase(String),
    And(Box<Query>, Box<Query>),
    Or(Box<Query>, Box<Query>),
    Not(Box<Query>),
}

/// `needle` occurs in `hay` as a contiguous run.
pub open spec fn contains_text(hay: Seq<char>, needle: Seq<char>) -> bool {
    exists|i: int|
        0 <= i && i + needle.len() <= hay.len() && #[trigger] hay.subrange(i, i + needle.len())
            == needle
}

/// `needle` occurs in `hay`, ignoring case.
pub open spec fn contains_folded(hay: Seq<char>, needle: Seq<char>) -> bool {
    contains_text(lower_of(hay), lower_of(needle))
}

/// Whether a document with metadata `meta` and body `body` satisfies `q`;
/// a field that is missing makes its test false.
pub open spec fn satisfies(q: Query, meta: Seq<(String, String)>, body: Seq<char>) -> bool
    decreases q,
{
    match q {
        Query::Field { field, value } => match lookup(meta, field@) {
            Some(v) => contains_folded(v, value@),
            None => false,
        },
        Query::Phrase(p) => contains_folded(body, p@),
        Query::And(a, b) => satisfies(*a, meta, body) && satisfies(*b, meta, body),
        Query::Or(a, b) => satisfies(*a, meta, body) || satisfies(*b, meta, body),
        Query::Not(a) => !satisfies(*a, meta, body),
    }
}

/// Whether `needle` occurs in `hay` as a contiguous run.
pub fn contains_chars(hay: &Vec<char>, needle: &Vec<char>) -> (r: bool)
    ensures
        r == contains_text(hay@, needle@),
{
    if needle.len() > hay.len() {
        return false;
    }
    let last = hay.len() - needle.len();
    let mut i: usize = 0;
    while i <= last
        invariant
            last == hay.len() - needle.len(),
            needle.len() <= hay.len(),
            0 <= i <= last + 1,
            forall|k: int| 0 <= k < i ==> #[trigger] hay@.subrange(k, k + needle.len()) != needle@,
        decreases last + 1 - i,
    {
        let mut j: usize = 0;
        while j < needle.len() && hay[i + j] == needle[j]
            invariant
                0 <= i <= last,
                last == hay.len() - needle.len(),
                0 <= j <= needle.len(),
                forall|m: int| 0 <= m < j ==> hay@[i + m] == needle@[m],
            decreases needle.len() - j,
        {
            j = j + 1;
        }
        if j == needle.len() {
            assert(hay@.subrange(i as int, i + needle.len()) =~= needle@);
            return true;
        }
        assert(hay@.subrange(i as int, i + needle.len())[j as int] != needle@[j as int]);
        i = i + 1;
    }
    assert forall|k: int|
        0 <= k && k + needle.len() <= hay.len() implies #[trigger] hay@.subrange(
        k,
        k + needle.len(),
    ) != needle@ by {
        assert(k < i);
    }
    false
}

/// Whether `needle` occurs in `hay`, ignoring case.
pub fn contains_ignoring_case(hay: &str, needle: &str) -> (r: bool)
    ensures
        r == contains_folded(hay@, needle@),
{
    let h = lowercase(hay);
    let n = lowercase(needle);
    contains_chars(&chars_of(h.as_str()), &chars_of(n.as_str()))
}

impl Query {
    /// Whether `doc` satisfies the query.
    pub fn evaluate(&self, doc: &Document) -> (r: bool)
        ensures
            r == satisfies(*self, doc.metadata@, doc.body@),
        decreases self,
    {
        match self {
            Query::Field { field, value } => match doc.get_metadata(field.as_str()) {
                Some(v) => contains_ignoring_case(v.as_str(), value.as_str()),
                None => false,
            },
            Query::Phrase(p) => contains_ignoring_case(doc.body.as_str(), p.as_str()),
            Query::And(a, b) => a.evaluate(doc) && b.evaluate(doc),
            Query::Or(a, b) => a.evaluate(doc) || b.evaluate(doc),
            Query::Not(a) => !a.evaluate(doc),
        }
    }
}

/// Why a query text could not be parsed.
#[derive(Debug, Clone, Copy, PartialEq, Eq, Structural)]
pub enum QueryError {
    /// A quoted phrase is not closed.
    UnclosedQuote,
    /// The tokens do not form a query.
    InvalidSyntax,
}

/// The abstract form of a query, over character sequences.
pub enum QueryView {
    Field(Seq<char>, Seq<char>),
    Phrase(Seq<char>),
    And(Box<QueryView>, Box<QueryView>),
    Or(Box<QueryView>, Box<QueryView>),
    Not(Box<QueryView>),
}

impl Query {
    pub open spec fn view(&self) -> QueryView
        decreases self,
    {
        match self {
            Query::Field { field, value } => QueryView::Field(field@, value@),
            Query::Phrase(p) => QueryView::Phrase(p@),
            Query::And(a, b) => QueryView::And(Box::new(a.view()), Box::new(b.view())),
            Query::Or(a, b) => QueryView::Or(Box::new(a.view()), Box::new(b.view())),
            Query::Not(a) => QueryView::Not(Box::new(a.view())),
        }
    }
}

/// A token of the query text: a bare word or a quoted phrase.
pub enum Tok {
    Word(Seq<char>),
    Phrase(Seq<char>),
}

/// The tokenizer's state after a prefix of the text.
pub struct Scan {
    pub toks: Seq<Tok>,
    pub cur: Seq<char>,
    pub in_quote: bool,
}

pub open spec fn is_space(c: char) -> bool {
    c == ' ' || c == '\t' || c == '\n' || c == '\r'
}

/// Ends the current bare word, if any.
pub open spec fn flush_word(toks: Seq<Tok>, cur: Seq<char>) -> Seq<Tok> {
    if cur.len() > 0 {
        toks.push(Tok::Word(cur))
    } else {
        toks
    }
}

/// One character of the tokenizer: spaces separate words, and a `"` opens
/// or closes a phrase, inside which every other character is kept.
pub open spec fn scan_step(st: Scan, c: char) -> Scan {
    if st.in_quote {
        if c == '"' {
            Scan { toks: st.toks.push(Tok::Phrase(st.cur)), cur: Seq::empty(), in_quote: false }
        } else {
            Scan { toks: st.toks, cur: st.cur.push(c), in_quote: true }
        }
    } else if is_space(c) {
        Scan { toks: flush_word(st.toks, st.cur), cur: Seq::empty(), in_quote: false }
    } else if c == '"' {
        Scan { toks: flush_word(st.toks, st.cur), cur: Seq::empty(), in_quote: true }
    } else {
        Scan { toks: st.toks, cur: st.cur.push(c), in_quote: false }
    }
}

pub open spec fn scan(s: Seq<char>) -> Scan
    decreases s.len(),
{
    if s.len() == 0 {
        Scan { toks: Seq::empty(), cur: Seq::empty(), in_quote: false }
    } else {
        scan_step(scan(s.drop_last()), s.last())
    }
}

/// The tokens of a query text; `None` when a phrase is left open.
pub open spec fn tokens(s: Seq<char>) -> Option<Seq<Tok>> {
    let st = scan(s);
    if st.in_quote {
        None
    } else {
        Some(flush_word(st.toks, st.cur))
    }
}

pub open spec fn is_keyword(t: Tok, k: Seq<char>) -> bool {
    match t {
        Tok::Word(w) => w == k,
        Tok::Phrase(_) => false,
    }
}

pub open spec fn kw_and() -> Seq<char> {
    seq!['A', 'N', 'D']
}

pub open spec fn kw_or() -> Seq<char> {
    seq!['O', 'R']
}

pub open spec fn kw_not() -> Seq<char> {
    seq!['N', 'O', 'T']
}

/// The position of the first `:` in `w`, if any.
pub open spec fn colon_at(w: Seq<char>, k: int) -> bool {
    0 <= k < w.len() && w[k] == ':' && forall|m: int| 0 <= m < k ==> w[m] != ':'
}

/// A term starting at token `i`: `NOT term`, a phrase, or `field:value`
/// with a non-empty field; with the position after it.
pub open spec fn parse_term(toks: Seq<Tok>, i: int) -> Option<(QueryView, int)>
    decreases toks.len() - i,
{
    if i < 0 || i >= toks.len() {
        None
    } else if is_keyword(toks[i], kw_not()) {
        match parse_term(toks, i + 1) {
            Some((q, j)) => Some((QueryView::Not(Box::new(q)), j)),
            None => None,
        }
    } else {
        match toks[i] {
            Tok::Phrase(p) => Some((QueryView::Phrase(p), i + 1)),
            Tok::Word(w) => if is_keyword(toks[i], kw_and()) || is_keyword(toks[i], kw_or()) {
                None
            } else if exists|k: int| colon_at(w, k) && k > 0 {
                let k = choose|k: int| colon_at(w, k) && k > 0;
                Some((QueryView::Field(w.subrange(0, k), w.subrange(k + 1, w.len() as int)), i + 1))
            } else {
                None
            },
        }
    }
}

/// The terms from token `i` on, each joined to `acc` from the left: by `OR`
/// after an `OR`, by `AND` after an `AND` or with no word between.
pub open spec fn parse_rest(toks: Seq<Tok>, i: int, acc: QueryView) -> Option<QueryView>
    decreases toks.len() - i,
{
    if i < 0 || i >= toks.len() {
        Some(acc)
    } else {
        let is_or = is_keyword(toks[i], kw_or());
        let start = if is_or || is_keyword(toks[i], kw_and()) {
            i + 1
        } else {
            i
        };
        match parse_term(toks, start) {
            None => None,
            Some((t, j)) => if j <= i || j > toks.len() {
                None
            } else if is_or {
                parse_rest(toks, j, QueryView::Or(Box::new(acc), Box::new(t)))
            } else {
                parse_rest(toks, j, QueryView::And(Box::new(acc), Box::new(t)))
            },
        }
    }
}

/// The query that a text denotes, if any.
pub open spec fn parse_tokens(toks: Seq<Tok>) -> Option<QueryView> {
    match parse_term(toks, 0) {
        None => None,
        Some((t, j)) => parse_rest(toks, j, t),
    }
}

/// A token of the query text.
pub enum Token {
    Word(Vec<char>),
    Phrase(Vec<char>),
}

impl Token {
    pub open spec fn view(&self) -> Tok {
        match self {
            Token::Word(w) => Tok::Word(w@),
            Token::Phrase(p) => Tok::Phrase(p@),
        }
    }
}

pub open spec fn tok_views(t: Seq<Token>) -> Seq<Tok> {
    t.map_values(|x: Token| x.view())
}

fn flush_word_exec(toks: &mut Vec<Token>, cur: Vec<char>)
    ensures
        tok_views(final(toks)@) == flush_word(tok_views(old(toks)@), cur@),
{
    if cur.len() > 0 {
        let ghost before = toks@;
        toks.push(Token::Word(cur));
        assert(tok_views(toks@) =~= tok_views(before).push(Tok::Word(cur@)));
    }
}

/// Splits a query text into words and quoted phrases; `None` when a phrase
/// is left open.
pub fn tokenize_query(cs: &Vec<char>) -> (r: Option<Vec<Token>>)
    ensures
        match r {
            Some(t) => tokens(cs@) == Some(tok_views(t@)),
            None => tokens(cs@) is None,
        },
{
    let mut toks: Vec<Token> = Vec::new();
    let mut cur: Vec<char> = Vec::new();
    let mut in_quote = false;
    let mut i: usize = 0;
    assert(cs@.take(0) =~= Seq::<char>::empty());
    assert(tok_views(toks@) =~= Seq::<Tok>::empty());
    while i < cs.len()
        invariant
            0 <= i <= cs.len(),
            scan(cs@.take(i as int)) == (Scan { toks: tok_views(toks@), cur: cur@, in_quote }),
        decreases cs.len() - i,
    {
        let c = cs[i];
        assert(cs@.take(i + 1).drop_last() =~= cs@.take(i as int));
        assert(cs@.take(i + 1).last() == c);
        if in_quote {
            if c == '"' {
                let ghost before = toks@;
                let word = cur;
                cur = Vec::new();
                toks.push(Token::Phrase(word));
                assert(tok_views(toks@) =~= tok_views(before).push(Tok::Phrase(word@)));
                in_quote = false;
            } else {
                cur.push(c);
            }
        } else if c == ' ' || c == '\t' || c == '\n' || c == '\r' {
            let word = cur;
            cur = Vec::new();
            flush_word_exec(&mut toks, word);
        } else if c == '"' {
            let word = cur;
            cur = Vec::new();
            flush_word_exec(&mut toks, word);
            in_quote = true;
        } else {
            cur.push(c);
        }
        i = i + 1;
    }
    assert(cs@.take(cs.len() as int) =~= cs@);
    if in_quote {
        None
    } else {
        flush_word_exec(&mut toks, cur);
        Some(toks)
    }
}

fn is_keyword_exec(t: &Token, k: &str) -> (r: bool)
    ensures
        r == is_keyword(t.view(), k@),
{
    match t {
        Token::Word(w) => {
            assert(t.view() == Tok::Word(w@));
            let kc = chars_of(k);
            if w.len() != kc.len() {
                return false;
            }
            let mut i: usize = 0;
            while i < w.len()
                invariant
                    t.view() == Tok::Word(w@),
                    w.len() == kc.len(),
                    kc@ == k@,
                    0 <= i <= w.len(),
                    forall|m: int| 0 <= m < i ==> w@[m] == kc@[m],
                decreases w.len() - i,
            {
                if w[i] != kc[i] {
                    assert(w@[i as int] != k@[i as int]);
                    assert(w@ != k@);
                    return false;
                }
                i = i + 1;
            }
            assert(w@ =~= k@);
            true
        },
        Token::Phrase(_) => false,
    }
}

fn parse_term_exec(toks: &Vec<Token>, i: usize) -> (r: Option<(Query, usize)>)
    ensures
        match r {
            Some((q, j)) => parse_term(tok_views(toks@), i as int) == Some((q.view(), j as int)),
            None => parse_term(tok_views(toks@), i as int) is None,
        },
    decreases toks.len() - i,
{
    let ghost tv = tok_views(toks@);
    if i >= toks.len() {
        return None;
    }
    assert(tv[i as int] == toks@[i as int].view());
    proof {
        reveal_strlit("NOT");
        reveal_strlit("AND");
        reveal_strlit("OR");
        assert("NOT"@ =~= kw_not());
        assert("AND"@ =~= kw_and());
        assert("OR"@ =~= kw_or());
    }
    if is_keyword_exec(&toks[i], "NOT") {
        return match parse_term_exec(toks, i + 1) {
            Some((q, j)) => Some((Query::Not(Box::new(q)), j)),
            None => None,
        };
    }
    match &toks[i] {
        Token::Phrase(p) => Some((Query::Phrase(string_of(p)), i + 1)),
        Token::Word(w) => {
            if is_keyword_exec(&toks[i], "AND") || is_keyword_exec(&toks[i], "OR") {
                return None;
            }
            let mut k: usize = 0;
            while k < w.len() && w[k] != ':'
                invariant
                    0 <= k <= w.len(),
                    forall|m: int| 0 <= m < k ==> w@[m] != ':',
                decreases w.len() - k,
            {
                k = k + 1;
            }
            if k == w.len() || k == 0 {
                assert(!exists|k2: int| colon_at(w@, k2) && k2 > 0) by {
                    if exists|k2: int| colon_at(w@, k2) && k2 > 0 {
                        let k2 = choose|k2: int| colon_at(w@, k2) && k2 > 0;
                        if k == 0 {
                            assert(w@[0] == ':');
                        }
                    }
                }
                return None;
            }
            assert(colon_at(w@, k as int));
            assert forall|k2: int| colon_at(w@, k2) && k2 > 0 implies k2 == k by {
                if k2 < k {
                } else if k2 > k {
                    assert(w@[k as int] == ':');
                }
            }
            let field = string_of_range(w, 0, k);
            let value = string_of_range(w, k + 1, w.len());
            Some((Query::Field { field, value }, i + 1))
        },
    }
}

fn parse_rest_exec(toks: &Vec<Token>, i: usize, acc: Query) -> (r: Option<Query>)
    ensures
        match r {
            Some(q) => parse_rest(tok_views(toks@), i as int, acc.view()) == Some(q.view()),
            None => parse_rest(tok_views(toks@), i as int, acc.view()) is None,
        },
    decreases toks.len() - i,
{
    if i >= toks.len() {
        return Some(acc);
    }
    assert(tok_views(toks@)[i as int] == toks@[i as int].view());
    proof {
        reveal_strlit("AND");
        reveal_strlit("OR");
        assert("AND"@ =~= kw_and());
        assert("OR"@ =~= kw_or());
    }
    let is_or = is_keyword_exec(&toks[i], "OR");
    let start = if is_or || is_keyword_exec(&toks[i], "AND") {
        i + 1
    } else {
        i
    };
    match parse_term_exec(toks, start) {
        None => None,
        Some((t, j)) => {
            if j <= i || j > toks.len() {
                None
            } else if is_or {
                let next = Query::Or(Box::new(acc), Box::new(t));
                parse_rest_exec(toks, j, next)
            } else {
                let next = Query::And(Box::new(acc), Box::new(t));
                parse_rest_exec(toks, j, next)
            }
        },
    }
}

/// What parsing a query text gives.
pub open spec fn parse_spec(text: Seq<char>) -> Result<QueryView, QueryError> {
    match tokens(text) {
        None => Err(QueryError::UnclosedQuote),
        Some(t) => match parse_tokens(t) {
            Some(q) => Ok(q),
            None => Err(QueryError::InvalidSyntax),
        },
    }
}

impl Query {
    /// Parses a query: terms `field:value`, `"phrase"` or `NOT term`, joined
    /// from the left by `AND`, `OR`, or nothing (which means `AND`).
    pub fn parse(text: &str) -> (r: Result<Query, QueryError>)
        ensures
            match r {
                Ok(q) => parse_spec(text@) == Ok::<QueryView, QueryError>(q.view()),
                Err(e) => parse_spec(text@) == Err::<QueryView, QueryError>(e),
            },
    {
        let cs = chars_of(text);
        match tokenize_query(&cs) {
            None => Err(QueryError::UnclosedQuote),
            Some(toks) => match parse_term_exec(&toks, 0) {
                None => Err(QueryError::InvalidSyntax),
                Some((t, j)) => match parse_rest_exec(&toks, j, t) {
                    Some(q) => Ok(q),
                    None => Err(QueryError::InvalidSyntax),
                },
            },
        }
    }
}

} // verus!
