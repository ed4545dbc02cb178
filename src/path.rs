//! Lexical resolution of relative references into canonical vault paths.

use vstd::prelude::*;
use vstd::std_specs::iter::IteratorSpec;

verus! {

/// The character that separates path segments.
pub const SEPARATOR: char = '/';

/// Why a reference could not be resolved.
#[derive(Debug, Clone, Copy, PartialEq, Eq, Structural)]
pub enum PathError {
    /// Normalisation climbed above the vault root.
    OutsideVault,
    /// The reference is empty or absolute.
    InvalidReference,
    /// The path does not name a document: its last segment lacks the
    /// document extension.
    NotADocument,
}

/// The extension of document files.
pub open spec fn doc_extension() -> Seq<char> {
    seq!['.', 'm', 'd']
}

/// A file name with the document extension after a non-empty stem.
pub open spec fn is_document_name(s: Seq<char>) -> bool {
    s.len() > 3 && s.subrange(s.len() - 3, s.len() as int) == doc_extension()
}

/// A path that names a document: its last segment is a document file name.
pub open spec fn is_document_path(p: Seq<Seq<char>>) -> bool {
    p.len() > 0 && is_document_name(p.last())
}

/// A canonical location relative to the vault root: a sequence of segments,
/// none of which is empty, `.` or `..`.
#[derive(Debug, Clone, Hash)]
pub struct DocumentId {
    pub segments: Vec<String>,
}

/// A segment that names a file or a directory (not empty, `.` or `..`).
pub open spec fn is_plain_segment(s: Seq<char>) -> bool {
    s.len() > 0 && s != seq!['.'] && s != seq!['.', '.']
}

/// The segments of a canonical path are all plain.
pub open spec fn is_canonical(p: Seq<Seq<char>>) -> bool {
    forall|i: int| 0 <= i < p.len() ==> is_plain_segment(#[trigger] p[i])
}

/// The pieces of `s` between separators, from left to right.
pub open spec fn split_segments(s: Seq<char>) -> Seq<Seq<char>>
    decreases s.len(),
{
    if s.len() == 0 {
        seq![Seq::<char>::empty()]
    } else {
        let p = split_segments(s.drop_last());
        if s.last() == SEPARATOR {
            p.push(Seq::<char>::empty())
        } else {
            p.update(p.len() - 1, p.last().push(s.last()))
        }
    }
}

/// Applies one segment to a canonical path: empty and `.` segments do
/// nothing, `..` removes the last segment, anything else is appended.
pub open spec fn apply_segment(p: Seq<Seq<char>>, seg: Seq<char>) -> Option<Seq<Seq<char>>> {
    if seg.len() == 0 || seg == seq!['.'] {
        Some(p)
    } else if seg == seq!['.', '.'] {
        if p.len() == 0 {
            None
        } else {
            Some(p.drop_last())
        }
    } else {
        Some(p.push(seg))
    }
}

/// Applies the segments from left to right, starting from `dir`; `None` when
/// some `..` climbs above the root.
pub open spec fn normalize(dir: Seq<Seq<char>>, segs: Seq<Seq<char>>) -> Option<Seq<Seq<char>>>
    decreases segs.len(),
{
    if segs.len() == 0 {
        Some(dir)
    } else {
        match normalize(dir, segs.drop_last()) {
            None => None,
            Some(p) => apply_segment(p, segs.last()),
        }
    }
}

/// What resolving `reference` against the directory `dir` gives.
pub open spec fn resolve_spec(dir: Seq<Seq<char>>, reference: Seq<char>) -> Result<
    Seq<Seq<char>>,
    PathError,
> {
    if reference.len() == 0 || reference[0] == SEPARATOR {
        Err(PathError::InvalidReference)
    } else {
        match normalize(dir, split_segments(reference)) {
            None => Err(PathError::OutsideVault),
            Some(p) => if is_document_path(p) {
                Ok(p)
            } else {
                Err(PathError::NotADocument)
            },
        }
    }
}

/// The directory that holds a path: all segments but the last.
pub open spec fn parent_spec(p: Seq<Seq<char>>) -> Seq<Seq<char>> {
    if p.len() == 0 {
        p
    } else {
        p.drop_last()
    }
}

impl View for DocumentId {
    type V = Seq<Seq<char>>;

    open spec fn view(&self) -> Seq<Seq<char>> {
        self.segments@.map_values(|s: String| s@)
    }
}

impl PartialEq for DocumentId {
    fn eq(&self, other: &DocumentId) -> (r: bool) {
        self.same_as(other)
    }
}

impl vstd::std_specs::cmp::PartialEqSpecImpl for DocumentId {
    open spec fn obeys_eq_spec() -> bool {
        true
    }

    open spec fn eq_spec(&self, other: &DocumentId) -> bool {
        self@ == other@
    }
}

impl Eq for DocumentId {

}

impl DocumentId {
    /// The vault root itself.
    pub fn root() -> (r: DocumentId)
        ensures
            r@ == Seq::<Seq<char>>::empty(),
    {
        let r = DocumentId { segments: Vec::new() };
        assert(r@ =~= Seq::<Seq<char>>::empty());
        r
    }

    /// Whether every segment is plain.
    pub open spec fn wf(&self) -> bool {
        is_canonical(self@)
    }

    /// Whether the path names a document: its last segment ends in `.md`
    /// after a non-empty stem.
    pub fn is_document(&self) -> (r: bool)
        ensures
            r == is_document_path(self@),
    {
        let n = self.segments.len();
        if n == 0 {
            return false;
        }
        let cs = chars_of(self.segments[n - 1].as_str());
        let m = cs.len();
        assert(self@.last() == self.segments@[n - 1]@);
        if m <= 3 {
            return false;
        }
        let r = cs[m - 3] == '.' && cs[m - 2] == 'm' && cs[m - 1] == 'd';
        assert(r == (cs@.subrange(m - 3, m as int) =~= doc_extension())) by {
            if !r {
                let t = cs@.subrange(m - 3, m as int);
                assert(t[0] != '.' || t[1] != 'm' || t[2] != 'd');
            }
        }
        r
    }

    /// Whether the two paths have the same segments.
    pub fn same_as(&self, other: &DocumentId) -> (r: bool)
        ensures
            r == (self@ == other@),
    {
        if self.segments.len() != other.segments.len() {
            assert(self@.len() != other@.len());
            return false;
        }
        let n = self.segments.len();
        let mut i: usize = 0;
        while i < n
            invariant
                n == self.segments.len(),
                n == other.segments.len(),
                0 <= i <= n,
                forall|j: int| 0 <= j < i ==> self@[j] == other@[j],
            decreases n - i,
        {
            if self.segments[i] != other.segments[i] {
                assert(self@[i as int] != other@[i as int]);
                return false;
            }
            i = i + 1;
        }
        assert(self@ =~= other@);
        true
    }

    /// The directory that holds this path (the root is its own parent).
    pub fn parent(&self) -> (r: DocumentId)
        ensures
            r@ == parent_spec(self@),
            self.wf() ==> r.wf(),
    {
        let mut segments = self.segments.clone();
        if segments.len() > 0 {
            segments.pop();
        }
        let r = DocumentId { segments };
        assert(r@ =~= parent_spec(self@));
        r
    }
}

/// Applies one segment to `acc` in place; `false` when a `..` climbs above
/// the root (then `acc` is left as it was).
fn apply_segment_exec(acc: &mut Vec<String>, seg: &Vec<char>) -> (ok: bool)
    ensures
        ({
            let before = old(acc)@.map_values(|s: String| s@);
            let after = final(acc)@.map_values(|s: String| s@);
            match apply_segment(before, seg@) {
                None => !ok,
                Some(p) => ok && after == p,
            }
        }),
        is_canonical(old(acc)@.map_values(|s: String| s@)) ==> is_canonical(
            final(acc)@.map_values(|s: String| s@),
        ),
{
    let ghost before = acc@.map_values(|s: String| s@);
    let n = seg.len();
    if n == 0 || (n == 1 && seg[0] == '.') {
        if n == 1 {
            assert(seg@ =~= seq!['.']);
        }
        true
    } else if n == 2 && seg[0] == '.' && seg[1] == '.' {
        assert(seg@ =~= seq!['.', '.']);
        if acc.len() == 0 {
            false
        } else {
            acc.pop();
            assert(acc@.map_values(|s: String| s@) =~= before.drop_last());
            true
        }
    } else {
        assert(seg@ != seq!['.']) by {
            if n == 1 {
                assert(seg@[0] != seq!['.'][0]);
            }
        }
        assert(seg@ != seq!['.', '.']) by {
            if n == 2 {
                assert(seg@[0] != '.' || seg@[1] != '.');
            }
        }
        acc.push(string_of(seg));
        assert(acc@.map_values(|s: String| s@) =~= before.push(seg@));
        true
    }
}

proof fn lemma_split_nonempty(s: Seq<char>)
    ensures
        split_segments(s).len() >= 1,
    decreases s.len(),
{
    if s.len() > 0 {
        lemma_split_nonempty(s.drop_last());
    }
}

/// Resolves `reference` against the directory `dir`: joins the two and
/// collapses `.` and `..` segments lexically.
pub fn resolve(dir: &DocumentId, reference: &str) -> (r: Result<DocumentId, PathError>)
    ensures
        match r {
            Ok(p) => resolve_spec(dir@, reference@) == Ok::<Seq<Seq<char>>, PathError>(p@),
            Err(e) => resolve_spec(dir@, reference@) == Err::<Seq<Seq<char>>, PathError>(e),
        },
        dir.wf() && r is Ok ==> r->Ok_0.wf(),
        r is Ok ==> is_document_path(r->Ok_0@),
{
    let cs = chars_of(reference);
    if cs.len() == 0 || cs[0] == SEPARATOR {
        return Err(PathError::InvalidReference);
    }
    let mut acc = dir.segments.clone();
    let mut cur: Vec<char> = Vec::new();
    let mut failed = false;
    let mut i: usize = 0;
    proof {
        assert(cs@.take(0) =~= Seq::<char>::empty());
        assert(split_segments(cs@.take(0)).drop_last() =~= Seq::<Seq<char>>::empty());
    }
    while i < cs.len()
        invariant
            cs@ == reference@,
            0 <= i <= cs.len(),
            !failed ==> normalize(dir@, split_segments(cs@.take(i as int)).drop_last()) == Some(
                acc@.map_values(|s: String| s@),
            ),
            failed ==> normalize(dir@, split_segments(cs@.take(i as int)).drop_last()) is None,
            cur@ == split_segments(cs@.take(i as int)).last(),
            dir.wf() ==> is_canonical(acc@.map_values(|s: String| s@)),
        decreases cs.len() - i,
    {
        let ghost sp = split_segments(cs@.take(i as int));
        let c = cs[i];
        proof {
            assert(cs@.take(i + 1).drop_last() =~= cs@.take(i as int));
            assert(cs@.take(i + 1).last() == c);
            lemma_split_nonempty(cs@.take(i as int));
            lemma_split_nonempty(cs@.take(i + 1));
        }
        if c == SEPARATOR {
            if !failed && !apply_segment_exec(&mut acc, &cur) {
                failed = true;
            }
            cur = Vec::new();
            i = i + 1;
            assert(split_segments(cs@.take(i as int)).drop_last() =~= sp);
        } else {
            cur.push(c);
            i = i + 1;
            assert(split_segments(cs@.take(i as int)).drop_last() =~= sp.drop_last());
        }
    }
    assert(cs@.take(cs.len() as int) =~= cs@);
    proof {
        lemma_split_nonempty(cs@);
    }
    if failed || !apply_segment_exec(&mut acc, &cur) {
        return Err(PathError::OutsideVault);
    }
    let r = DocumentId { segments: acc };
    if !r.is_document() {
        return Err(PathError::NotADocument);
    }
    Ok(r)
}

proof fn lemma_split_concat(a: Seq<char>, b: Seq<char>)
    ensures
        split_segments(a + seq![SEPARATOR] + b) == split_segments(a) + split_segments(b),
    decreases b.len(),
{
    let s = a + seq![SEPARATOR] + b;
    if b.len() == 0 {
        assert(s.drop_last() =~= a);
        assert(split_segments(a) + split_segments(b) =~= split_segments(a).push(
            Seq::<char>::empty(),
        ));
    } else {
        assert(s.drop_last() =~= a + seq![SEPARATOR] + b.drop_last());
        lemma_split_concat(a, b.drop_last());
        lemma_split_nonempty(b.drop_last());
        lemma_split_nonempty(a);
        let x = split_segments(a);
        let y = split_segments(b.drop_last());
        if b.last() == SEPARATOR {
            assert((x + y).push(Seq::<char>::empty()) =~= x + y.push(Seq::<char>::empty()));
        } else {
            let z = (x + y).last().push(b.last());
            assert((x + y).update((x + y).len() - 1, z) =~= x + y.update(y.len() - 1, z));
        }
    }
}

proof fn lemma_split_single(x: Seq<char>)
    requires
        !x.contains(SEPARATOR),
    ensures
        split_segments(x) == seq![x],
    decreases x.len(),
{
    if x.len() > 0 {
        assert(!x.drop_last().contains(SEPARATOR)) by {
            if x.drop_last().contains(SEPARATOR) {
                let k = choose|k: int| 0 <= k < x.drop_last().len() && x.drop_last()[k] == SEPARATOR;
                assert(x[k] == SEPARATOR);
            }
        }
        lemma_split_single(x.drop_last());
        assert(x.last() != SEPARATOR) by {
            assert(x[x.len() - 1] == x.last());
        }
        assert(x.drop_last().push(x.last()) =~= x);
        assert(seq![x.drop_last()].update(0, x.drop_last().push(x.last())) =~= seq![x]);
    } else {
        assert(x =~= Seq::<char>::empty());
    }
}

proof fn lemma_normalize_concat(dir: Seq<Seq<char>>, a: Seq<Seq<char>>, b: Seq<Seq<char>>)
    ensures
        normalize(dir, a + b) == match normalize(dir, a) {
            None => None,
            Some(p) => normalize(p, b),
        },
    decreases b.len(),
{
    if b.len() == 0 {
        assert(a + b =~= a);
    } else {
        assert((a + b).drop_last() =~= a + b.drop_last());
        assert((a + b).last() == b.last());
        lemma_normalize_concat(dir, a, b.drop_last());
    }
}

/// A leading `./` changes nothing: `./r` and `r` resolve to the same path
/// from every directory.
pub proof fn law_current_dir_is_neutral(dir: Seq<Seq<char>>, r: Seq<char>)
    requires
        r.len() > 0,
        r[0] != SEPARATOR,
    ensures
        resolve_spec(dir, seq!['.', SEPARATOR] + r) == resolve_spec(dir, r),
{
    let dot = seq!['.'];
    assert(seq!['.', SEPARATOR] + r =~= dot + seq![SEPARATOR] + r);
    lemma_split_concat(dot, r);
    assert(!dot.contains(SEPARATOR)) by {
        assert(dot[0] != SEPARATOR);
    }
    lemma_split_single(dot);
    lemma_normalize_concat(dir, seq![dot], split_segments(r));
    assert(seq![dot].drop_last() =~= Seq::<Seq<char>>::empty());
    assert(normalize(dir, Seq::<Seq<char>>::empty()) == Some(dir));
    assert(seq![dot].last() == dot);
    assert(apply_segment(dir, dot) == Some(dir));
    assert(normalize(dir, seq![dot]) == Some(dir));
    assert(split_segments(seq!['.', SEPARATOR] + r) == seq![dot] + split_segments(r));
    assert((seq!['.', SEPARATOR] + r)[0] == '.');
    assert((seq!['.', SEPARATOR] + r).len() > 0);
}

/// Stepping into a directory and straight back out changes nothing:
/// `x/../r` and `r` resolve to the same path from every directory.
pub proof fn law_parent_step_cancels(dir: Seq<Seq<char>>, x: Seq<char>, r: Seq<char>)
    requires
        is_plain_segment(x),
        !x.contains(SEPARATOR),
        r.len() > 0,
        r[0] != SEPARATOR,
    ensures
        resolve_spec(dir, x + seq![SEPARATOR, '.', '.', SEPARATOR] + r) == resolve_spec(dir, r),
{
    let up = seq!['.', '.'];
    let tail = up + seq![SEPARATOR] + r;
    assert(x + seq![SEPARATOR, '.', '.', SEPARATOR] + r =~= x + seq![SEPARATOR] + tail);
    lemma_split_concat(x, tail);
    lemma_split_concat(up, r);
    assert(!up.contains(SEPARATOR)) by {
        assert(up[0] != SEPARATOR && up[1] != SEPARATOR);
    }
    lemma_split_single(up);
    lemma_split_single(x);
    let pre = seq![x, up];
    assert(seq![x] + (seq![up] + split_segments(r)) =~= pre + split_segments(r));
    lemma_normalize_concat(dir, pre, split_segments(r));
    assert(pre.drop_last() =~= seq![x]);
    assert(seq![x].drop_last() =~= Seq::<Seq<char>>::empty());
    assert(dir.push(x).drop_last() =~= dir);
    assert(normalize(dir, Seq::<Seq<char>>::empty()) == Some(dir));
    assert(seq![x].last() == x);
    assert(apply_segment(dir, x) == Some(dir.push(x)));
    assert(normalize(dir, seq![x]) == Some(dir.push(x)));
    assert(pre.last() == up);
    assert(apply_segment(dir.push(x), up) == Some(dir));
    assert(normalize(dir, pre) == Some(dir));
    assert(split_segments(x + seq![SEPARATOR, '.', '.', SEPARATOR] + r) == pre + split_segments(r));
    assert((x + seq![SEPARATOR, '.', '.', SEPARATOR] + r)[0] == x[0]);
}

/// Whether two strings hold the same characters.
pub fn text_eq(a: &str, b: &str) -> (r: bool)
    ensures
        r == (a@ == b@),
{
    let x = chars_of(a);
    let y = chars_of(b);
    if x.len() != y.len() {
        return false;
    }
    let mut i: usize = 0;
    while i < x.len()
        invariant
            x.len() == y.len(),
            x@ == a@,
            y@ == b@,
            0 <= i <= x.len(),
            forall|j: int| 0 <= j < i ==> a@[j] == b@[j],
        decreases x.len() - i,
    {
        if x[i] != y[i] {
            return false;
        }
        i = i + 1;
    }
    assert(a@ =~= b@);
    true
}

/// The characters of a string, in order.
pub fn chars_of(s: &str) -> (r: Vec<char>)
    ensures
        r@ == s@,
{
    broadcast use vstd::string::axiom_spec_iter, vstd::string::next_postcondition;

    let n = s.unicode_len();
    let mut it = s.chars();
    let mut r: Vec<char> = Vec::new();
    assert(r@ + it.remaining() =~= s@);
    while r.len() < n
        invariant
            n == s@.len(),
            r@ + it.remaining() == s@,
            it.obeys_prophetic_iter_laws(),
        decreases n - r.len(),
    {
        if let Some(c) = it.next() {
            r.push(c);
        }
    }
    assert(r@ =~= s@);
    r
}

/// Relies on `String::push`: the character is appended at the end.
#[verifier::external_body]
fn push_char(s: &mut String, c: char)
    ensures
        final(s)@ == old(s)@.push(c),
{
    s.push(c)
}

/// A string holding the characters of `cs` from `from` up to `to`.
pub fn string_of_range(cs: &Vec<char>, from: usize, to: usize) -> (r: String)
    requires
        from <= to <= cs.len(),
    ensures
        r@ == cs@.subrange(from as int, to as int),
{
    let mut r = String::new();
    let mut i: usize = from;
    while i < to
        invariant
            from <= i <= to <= cs.len(),
            r@ == cs@.subrange(from as int, i as int),
        decreases to - i,
    {
        push_char(&mut r, cs[i]);
        i = i + 1;
        assert(r@ =~= cs@.subrange(from as int, i as int));
    }
    r
}

/// A string holding the given characters.
pub fn string_of(cs: &Vec<char>) -> (r: String)
    ensures
        r@ == cs@,
{
    let mut r = String::new();
    let mut i: usize = 0;
    while i < cs.len()
        invariant
            0 <= i <= cs.len(),
            r@ == cs@.take(i as int),
        decreases cs.len() - i,
    {
        push_char(&mut r, cs[i]);
        i = i + 1;
        assert(r@ =~= cs@.take(i as int));
    }
    assert(cs@.take(cs.len() as int) =~= cs@);
    r
}

} // verus!
