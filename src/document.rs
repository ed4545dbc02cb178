//! A parsed document: its identity, metadata, body and links.

use vstd::prelude::*;
use crate::link::Link;
use crate::path::{chars_of, string_of, string_of_range, text_eq, DocumentId};

verus! {

/// One parsed document of a vault.
#[derive(Debug, Clone)]
pub struct Document {
    pub id: DocumentId,
    /// Metadata entries, in the order of the header.
    pub metadata: Vec<(String, String)>,
    pub body: String,
    /// Links in order of appearance.
    pub links: Vec<Link>,
}

/// The value of the first metadata entry whose key is `key`.
pub open spec fn lookup(meta: Seq<(String, String)>, key: Seq<char>) -> Option<Seq<char>>
    decreases meta.len(),
{
    if meta.len() == 0 {
        None
    } else if meta[0].0@ == key {
        Some(meta[0].1@)
    } else {
        lookup(meta.drop_first(), key)
    }
}

/// Two documents are the same document when their paths are equal, whatever
/// their contents.
impl PartialEq for Document {
    fn eq(&self, other: &Document) -> (r: bool) {
        self.id.same_as(&other.id)
    }
}

impl vstd::std_specs::cmp::PartialEqSpecImpl for Document {
    open spec fn obeys_eq_spec() -> bool {
        true
    }

    open spec fn eq_spec(&self, other: &Document) -> bool {
        self.id@ == other.id@
    }
}

impl Eq for Document {

}

impl Document {
    /// The value of the first metadata entry named `key`.
    pub fn get_metadata(&self, key: &str) -> (r: Option<&String>)
        ensures
            match r {
                Some(v) => lookup(self.metadata@, key@) == Some(v@),
                None => lookup(self.metadata@, key@) is None,
            },
    {
        let mut i: usize = 0;
        assert(self.metadata@.skip(0) =~= self.metadata@);
        while i < self.metadata.len()
            invariant
                0 <= i <= self.metadata.len(),
                lookup(self.metadata@, key@) == lookup(self.metadata@.skip(i as int), key@),
            decreases self.metadata.len() - i,
        {
            let ghost rest = self.metadata@.skip(i as int);
            assert(rest.drop_first() =~= self.metadata@.skip(i + 1));
            assert(rest[0] == self.metadata@[i as int]);
            if text_eq(self.metadata[i].0.as_str(), key) {
                return Some(&self.metadata[i].1);
            }
            i = i + 1;
        }
        None
    }

    /// The links of the document, in order of appearance.
    pub fn links(&self) -> (r: &Vec<Link>)
        ensures
            r@ == self.links@,
    {
        &self.links
    }
}

/// Why a document's text could not be parsed.
#[derive(Debug, Clone, Copy, PartialEq, Eq, Structural)]
pub enum DocumentError {
    /// A line of the header holds no `:`.
    MalformedHeader,
}

/// The lines of `s`: the pieces between newlines, from left to right.
pub open spec fn lines_of(s: Seq<char>) -> Seq<Seq<char>>
    decreases s.len(),
{
    if s.len() == 0 {
        seq![Seq::<char>::empty()]
    } else {
        let p = lines_of(s.drop_last());
        if s.last() == '\n' {
            p.push(Seq::<char>::empty())
        } else {
            p.update(p.len() - 1, p.last().push(s.last()))
        }
    }
}

/// The lines joined with newlines.
pub open spec fn join_lines(ls: Seq<Seq<char>>) -> Seq<char>
    decreases ls.len(),
{
    if ls.len() == 0 {
        Seq::empty()
    } else if ls.len() == 1 {
        ls[0]
    } else {
        join_lines(ls.drop_last()) + seq!['\n'] + ls.last()
    }
}

pub open spec fn fence() -> Seq<char> {
    seq!['-', '-', '-']
}

/// The position of the line that closes a header opened by the first line.
pub open spec fn closes_header(ls: Seq<Seq<char>>, k: int) -> bool {
    &&& 0 < k < ls.len()
    &&& ls[k] == fence()
    &&& forall|m: int| 0 < m < k ==> ls[m] != fence()
}

/// Whether the text opens with a header: a line `---`, then some lines, then
/// another line `---`.
pub open spec fn has_header(ls: Seq<Seq<char>>) -> bool {
    ls.len() > 0 && ls[0] == fence() && exists|k: int| closes_header(ls, k)
}

pub open spec fn trim_start(s: Seq<char>) -> Seq<char>
    decreases s.len(),
{
    if s.len() > 0 && s[0] == ' ' {
        trim_start(s.drop_first())
    } else {
        s
    }
}

pub open spec fn trim_end(s: Seq<char>) -> Seq<char>
    decreases s.len(),
{
    if s.len() > 0 && s.last() == ' ' {
        trim_end(s.drop_last())
    } else {
        s
    }
}

/// `s` without the spaces at its two ends.
pub open spec fn trim(s: Seq<char>) -> Seq<char> {
    trim_end(trim_start(s))
}

/// The first `:` of `w` stands at `k`.
pub open spec fn first_colon(w: Seq<char>, k: int) -> bool {
    0 <= k < w.len() && w[k] == ':' && forall|m: int| 0 <= m < k ==> w[m] != ':'
}

/// A header line `key: value`, both trimmed; `None` without a `:`.
pub open spec fn entry_of(line: Seq<char>) -> Option<(Seq<char>, Seq<char>)> {
    if exists|k: int| first_colon(line, k) {
        let k = choose|k: int| first_colon(line, k);
        Some((trim(line.subrange(0, k)), trim(line.subrange(k + 1, line.len() as int))))
    } else {
        None
    }
}

/// The state of the link scanner.
pub enum LinkScan {
    Outside,
    InText(Seq<char>),
    AfterText(Seq<char>),
    InUrl(Seq<char>, Seq<char>),
}

/// One character of the link scanner: `[text](url)` is a link; a `[`
/// starts the text anew.
pub open spec fn link_step(st: LinkScan, c: char) -> (LinkScan, Option<(Seq<char>, Seq<char>)>) {
    match st {
        LinkScan::Outside => if c == '[' {
            (LinkScan::InText(Seq::empty()), None)
        } else {
            (LinkScan::Outside, None)
        },
        LinkScan::InText(t) => if c == ']' {
            (LinkScan::AfterText(t), None)
        } else if c == '[' {
            (LinkScan::InText(Seq::empty()), None)
        } else {
            (LinkScan::InText(t.push(c)), None)
        },
        LinkScan::AfterText(t) => if c == '(' {
            (LinkScan::InUrl(t, Seq::empty()), None)
        } else if c == '[' {
            (LinkScan::InText(Seq::empty()), None)
        } else {
            (LinkScan::Outside, None)
        },
        LinkScan::InUrl(t, u) => if c == ')' {
            (LinkScan::Outside, Some((t, u)))
        } else {
            (LinkScan::InUrl(t, u.push(c)), None)
        },
    }
}

/// The scanner's state after `s`, and the links found in it, in order.
pub open spec fn link_scan(s: Seq<char>) -> (LinkScan, Seq<(Seq<char>, Seq<char>)>)
    decreases s.len(),
{
    if s.len() == 0 {
        (LinkScan::Outside, Seq::empty())
    } else {
        let (st, found) = link_scan(s.drop_last());
        let (st2, out) = link_step(st, s.last());
        match out {
            Some(l) => (st2, found.push(l)),
            None => (st2, found),
        }
    }
}

/// The links `[text](url)` written in `s`, in order.
pub open spec fn links_in(s: Seq<char>) -> Seq<(Seq<char>, Seq<char>)> {
    link_scan(s).1
}

pub open spec fn link_views(ls: Seq<Link>) -> Seq<(Seq<char>, Seq<char>)> {
    ls.map_values(|l: Link| (l.text@, l.url@))
}

/// The lines of `s`, in order.
pub fn split_lines(s: &Vec<char>) -> (r: Vec<Vec<char>>)
    ensures
        r@.map_values(|l: Vec<char>| l@) == lines_of(s@),
{
    let mut r: Vec<Vec<char>> = Vec::new();
    let mut cur: Vec<char> = Vec::new();
    let mut i: usize = 0;
    assert(s@.take(0) =~= Seq::<char>::empty());
    while i < s.len()
        invariant
            0 <= i <= s.len(),
            r@.map_values(|l: Vec<char>| l@).push(cur@) == lines_of(s@.take(i as int)),
        decreases s.len() - i,
    {
        let c = s[i];
        let ghost before = r@.map_values(|l: Vec<char>| l@);
        assert(s@.take(i + 1).drop_last() =~= s@.take(i as int));
        assert(s@.take(i + 1).last() == c);
        if c == '\n' {
            let line = cur;
            cur = Vec::new();
            r.push(line);
            assert(r@.map_values(|l: Vec<char>| l@) =~= before.push(line@));
        } else {
            cur.push(c);
            assert(before.push(cur@) =~= before.push(cur@.drop_last()).update(
                before.len() as int,
                cur@,
            ));
        }
        i = i + 1;
    }
    assert(s@.take(s.len() as int) =~= s@);
    let ghost before = r@.map_values(|l: Vec<char>| l@);
    r.push(cur);
    assert(r@.map_values(|l: Vec<char>| l@) =~= before.push(cur@));
    r
}

/// The entries of the header lines `hs`, skipping blank lines; `None` when a
/// line is not an entry.
pub open spec fn header_entries(hs: Seq<Seq<char>>) -> Option<Seq<(Seq<char>, Seq<char>)>>
    decreases hs.len(),
{
    if hs.len() == 0 {
        Some(Seq::empty())
    } else {
        match header_entries(hs.drop_last()) {
            None => None,
            Some(es) => if trim(hs.last()).len() == 0 {
                Some(es)
            } else {
                match entry_of(hs.last()) {
                    None => None,
                    Some(e) => Some(es.push(e)),
                }
            },
        }
    }
}

/// The metadata and body of a document's text: a header fenced by `---`
/// lines gives the metadata, and what follows it is the body; without a
/// header the whole text is the body.
pub open spec fn parse_text(content: Seq<char>) -> Result<
    (Seq<(Seq<char>, Seq<char>)>, Seq<char>),
    DocumentError,
> {
    let ls = lines_of(content);
    if has_header(ls) {
        let k = choose|k: int| closes_header(ls, k);
        match header_entries(ls.subrange(1, k)) {
            None => Err(DocumentError::MalformedHeader),
            Some(es) => Ok((es, join_lines(ls.subrange(k + 1, ls.len() as int)))),
        }
    } else {
        Ok((Seq::empty(), content))
    }
}

pub open spec fn entry_views(m: Seq<(String, String)>) -> Seq<(Seq<char>, Seq<char>)> {
    m.map_values(|e: (String, String)| (e.0@, e.1@))
}

/// The characters of `cs` from `from` to `to`, without spaces at the ends.
pub fn trim_range(cs: &Vec<char>, from: usize, to: usize) -> (r: String)
    requires
        from <= to <= cs.len(),
    ensures
        r@ == trim(cs@.subrange(from as int, to as int)),
{
    let mut a = from;
    while a < to && cs[a] == ' '
        invariant
            from <= a <= to <= cs.len(),
            trim_start(cs@.subrange(from as int, to as int)) == trim_start(
                cs@.subrange(a as int, to as int),
            ),
        decreases to - a,
    {
        assert(cs@.subrange(a as int, to as int).drop_first() =~= cs@.subrange(a + 1, to as int));
        a = a + 1;
    }
    let mut b = to;
    assert(trim_start(cs@.subrange(a as int, to as int)) == cs@.subrange(a as int, to as int));
    while b > a && cs[b - 1] == ' '
        invariant
            from <= a <= b <= to <= cs.len(),
            trim_end(cs@.subrange(a as int, to as int)) == trim_end(
                cs@.subrange(a as int, b as int),
            ),
        decreases b - a,
    {
        assert(cs@.subrange(a as int, b as int).drop_last() =~= cs@.subrange(a as int, b - 1));
        b = b - 1;
    }
    string_of_range(cs, a, b)
}

/// The entry of one header line.
fn entry_exec(line: &Vec<char>) -> (r: Option<(String, String)>)
    ensures
        match r {
            Some(e) => entry_of(line@) == Some((e.0@, e.1@)),
            None => entry_of(line@) is None,
        },
{
    let mut k: usize = 0;
    while k < line.len() && line[k] != ':'
        invariant
            0 <= k <= line.len(),
            forall|m: int| 0 <= m < k ==> line@[m] != ':',
        decreases line.len() - k,
    {
        k = k + 1;
    }
    if k == line.len() {
        assert(!exists|k2: int| first_colon(line@, k2)) by {
            if exists|k2: int| first_colon(line@, k2) {
                let k2 = choose|k2: int| first_colon(line@, k2);
                assert(line@[k2] == ':');
            }
        }
        return None;
    }
    assert(first_colon(line@, k as int));
    assert forall|k2: int| first_colon(line@, k2) implies k2 == k by {
        if k2 > k {
            assert(line@[k as int] == ':');
        }
    }
    let key = trim_range(line, 0, k);
    let value = trim_range(line, k + 1, line.len());
    Some((key, value))
}

fn is_blank(line: &Vec<char>) -> (r: bool)
    ensures
        r == (trim(line@).len() == 0),
{
    let t = trim_range(line, 0, line.len());
    assert(line@.subrange(0, line.len() as int) =~= line@);
    t.unicode_len() == 0
}

fn is_fence(line: &Vec<char>) -> (r: bool)
    ensures
        r == (line@ == fence()),
{
    let r = line.len() == 3 && line[0] == '-' && line[1] == '-' && line[2] == '-';
    if r {
        assert(line@ =~= fence());
    }
    r
}

/// The links `[text](url)` of `body`, in order.
pub fn extract_links(body: &str) -> (r: Vec<Link>)
    ensures
        link_views(r@) == links_in(body@),
{
    let cs = chars_of(body);
    let mut r: Vec<Link> = Vec::new();
    let mut mode: u8 = 0;
    let mut t: Vec<char> = Vec::new();
    let mut u: Vec<char> = Vec::new();
    let mut i: usize = 0;
    assert(cs@.take(0) =~= Seq::<char>::empty());
    assert(link_views(r@) =~= Seq::<(Seq<char>, Seq<char>)>::empty());
    while i < cs.len()
        invariant
            cs@ == body@,
            0 <= i <= cs.len(),
            mode <= 3,
            link_scan(cs@.take(i as int)) == (scan_view(mode, t@, u@), link_views(r@)),
        decreases cs.len() - i,
    {
        let c = cs[i];
        assert(cs@.take(i + 1).drop_last() =~= cs@.take(i as int));
        assert(cs@.take(i + 1).last() == c);
        if mode == 0 {
            if c == '[' {
                mode = 1;
                t = Vec::new();
            }
        } else if mode == 1 {
            if c == ']' {
                mode = 2;
            } else if c == '[' {
                t = Vec::new();
            } else {
                t.push(c);
            }
        } else if mode == 2 {
            if c == '(' {
                mode = 3;
                u = Vec::new();
            } else if c == '[' {
                mode = 1;
                t = Vec::new();
            } else {
                mode = 0;
            }
        } else {
            if c == ')' {
                let ghost before = r@;
                r.push(Link { text: string_of(&t), url: string_of(&u) });
                assert(link_views(r@) =~= link_views(before).push((t@, u@)));
                mode = 0;
            } else {
                u.push(c);
            }
        }
        i = i + 1;
    }
    assert(cs@.take(cs.len() as int) =~= cs@);
    r
}

/// The scanner state that the executable state stands for.
pub open spec fn scan_view(mode: u8, t: Seq<char>, u: Seq<char>) -> LinkScan {
    if mode == 0 {
        LinkScan::Outside
    } else if mode == 1 {
        LinkScan::InText(t)
    } else if mode == 2 {
        LinkScan::AfterText(t)
    } else {
        LinkScan::InUrl(t, u)
    }
}

fn append_chars(acc: &mut Vec<char>, line: &Vec<char>)
    ensures
        final(acc)@ == old(acc)@ + line@,
{
    let ghost start = acc@;
    let mut i: usize = 0;
    while i < line.len()
        invariant
            0 <= i <= line.len(),
            acc@ == start + line@.take(i as int),
        decreases line.len() - i,
    {
        acc.push(line[i]);
        i = i + 1;
        assert(acc@ =~= start + line@.take(i as int));
    }
    assert(line@.take(line.len() as int) =~= line@);
}

impl Document {
    /// Parses the text of the document at `id`: an optional header between
    /// two `---` lines, of `key: value` lines, then the body, whose links
    /// `[text](url)` are collected in order.
    pub fn parse(id: DocumentId, content: &str) -> (r: Result<Document, DocumentError>)
        ensures
            match r {
                Ok(d) => {
                    &&& d.id@ == id@
                    &&& parse_text(content@) == Ok::<
                        (Seq<(Seq<char>, Seq<char>)>, Seq<char>),
                        DocumentError,
                    >((entry_views(d.metadata@), d.body@))
                    &&& link_views(d.links@) == links_in(d.body@)
                },
                Err(e) => parse_text(content@) == Err::<
                    (Seq<(Seq<char>, Seq<char>)>, Seq<char>),
                    DocumentError,
                >(e),
            },
    {
        let cs = chars_of(content);
        let ls = split_lines(&cs);
        let ghost lv = ls@.map_values(|l: Vec<char>| l@);
        let n = ls.len();
        let mut k: usize = 1;
        if n > 0 {
            assert(lv[0] == ls@[0]@);
        }
        if n > 0 && is_fence(&ls[0]) {
            while k < n && !is_fence(&ls[k])
                invariant
                    n == ls.len(),
                    lv == ls@.map_values(|l: Vec<char>| l@),
                    1 <= k <= n,
                    forall|m: int| 0 < m < k ==> lv[m] != fence(),
                decreases n - k,
            {
                assert(lv[k as int] == ls@[k as int]@);
                k = k + 1;
            }
        }
        if n == 0 || !is_fence(&ls[0]) || k == n {
            proof {
                if n > 0 && lv[0] == fence() && exists|k2: int| closes_header(lv, k2) {
                    let k2 = choose|k2: int| closes_header(lv, k2);
                    assert(lv[k2] == fence());
                }
            }
            let body = content.to_owned();
            let links = extract_links(body.as_str());
            let metadata: Vec<(String, String)> = Vec::new();
            assert(!has_header(lv));
            assert(entry_views(metadata@) =~= Seq::<(Seq<char>, Seq<char>)>::empty());
            return Ok(Document { id, metadata, body, links });
        }
        assert(lv[k as int] == ls@[k as int]@);
        assert(closes_header(lv, k as int));
        assert forall|k2: int| closes_header(lv, k2) implies k2 == k by {
            if k2 > k {
            } else if k2 < k {
                assert(lv[k2] != fence());
            }
        }
        let mut metadata: Vec<(String, String)> = Vec::new();
        let mut j: usize = 1;
        let mut failed = false;
        assert(lv.subrange(1, 1) =~= Seq::<Seq<char>>::empty());
        assert(entry_views(metadata@) =~= Seq::<(Seq<char>, Seq<char>)>::empty());
        while j < k
            invariant
                n == ls.len(),
                lv == ls@.map_values(|l: Vec<char>| l@),
                1 <= j <= k < n,
                !failed ==> header_entries(lv.subrange(1, j as int)) == Some(entry_views(metadata@)),
                failed ==> header_entries(lv.subrange(1, j as int)) is None,
            decreases k - j,
        {
            assert(lv.subrange(1, j + 1).drop_last() =~= lv.subrange(1, j as int));
            assert(lv.subrange(1, j + 1).last() == ls@[j as int]@);
            if !failed && !is_blank(&ls[j]) {
                match entry_exec(&ls[j]) {
                    None => {
                        failed = true;
                    },
                    Some(e) => {
                        let ghost before = metadata@;
                        metadata.push(e);
                        assert(entry_views(metadata@) =~= entry_views(before).push((e.0@, e.1@)));
                    },
                }
            }
            j = j + 1;
        }
        if failed {
            return Err(DocumentError::MalformedHeader);
        }
        let mut acc: Vec<char> = Vec::new();
        let mut m: usize = k + 1;
        assert(lv.subrange(k + 1, k + 1) =~= Seq::<Seq<char>>::empty());
        while m < n
            invariant
                n == ls.len(),
                lv == ls@.map_values(|l: Vec<char>| l@),
                k < n,
                k + 1 <= m <= n,
                acc@ == join_lines(lv.subrange(k + 1, m as int)),
            decreases n - m,
        {
            let ghost prev = lv.subrange(k + 1, m as int);
            assert(lv.subrange(k + 1, m + 1).drop_last() =~= prev);
            assert(lv.subrange(k + 1, m + 1).last() == ls@[m as int]@);
            if m > k + 1 {
                acc.push('\n');
            } else {
                assert(lv.subrange(k + 1, m + 1)[0] == ls@[m as int]@);
            }
            append_chars(&mut acc, &ls[m]);
            if m == k + 1 {
                assert(acc@ =~= ls@[m as int]@);
            } else {
                assert(acc@ =~= join_lines(prev) + seq!['\n'] + ls@[m as int]@);
            }
            m = m + 1;
        }
        let body = string_of(&acc);
        let links = extract_links(body.as_str());
        Ok(Document { id, metadata, body, links })
    }
}

} // verus!
