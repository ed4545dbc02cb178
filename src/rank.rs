//! The link graph that authority ranking iterates over.

use vstd::prelude::*;
use crate::document::Document;
use crate::path::{parent_spec, DocumentId};
use crate::vault::{forward_links, targets};

verus! {

/// Whether the graph restricted to `docs` has an edge from `i` to `j`: the
/// `i`-th document links to the path of the `j`-th, and the two positions
/// differ (a link to oneself is no edge).
pub open spec fn has_edge(docs: Seq<&Document>, i: int, j: int) -> bool {
    0 <= j < docs.len() && j != i && targets(docs[i].links@, parent_spec(docs[i].id@)).contains(
        docs[j].id@,
    )
}

/// Whether `row` lists, in increasing order, exactly the positions that
/// position `i` has an edge to.
pub open spec fn is_out_row(docs: Seq<&Document>, i: int, row: Seq<usize>) -> bool {
    &&& forall|a: int, b: int| 0 <= a < b < row.len() ==> row[a] < row[b]
    &&& forall|j: int| row.contains(j as usize) && 0 <= j < docs.len() <==> has_edge(docs, i, j)
    &&& forall|a: int| 0 <= a < row.len() ==> row[a] < docs.len()
}

/// Whether `ids` holds the path `id`.
pub fn contains_id(ids: &Vec<DocumentId>, id: &DocumentId) -> (r: bool)
    ensures
        r == ids@.map_values(|p: DocumentId| p@).contains(id@),
{
    let mut i: usize = 0;
    while i < ids.len()
        invariant
            0 <= i <= ids.len(),
            forall|k: int| 0 <= k < i ==> ids@[k]@ != id@,
        decreases ids.len() - i,
    {
        if ids[i].same_as(id) {
            assert(ids@.map_values(|p: DocumentId| p@)[i as int] == id@);
            return true;
        }
        i = i + 1;
    }
    let ghost v = ids@.map_values(|p: DocumentId| p@);
    assert forall|k: int| 0 <= k < v.len() implies #[trigger] v[k] != id@ by {
        assert(v[k] == ids@[k]@);
    }
    false
}

/// The out-edges of each document within `docs`, by position: duplicate
/// links count once and links to oneself not at all. A document whose row
/// is empty is dangling.
pub fn link_graph(docs: &Vec<&Document>) -> (r: Vec<Vec<usize>>)
    ensures
        r@.len() == docs@.len(),
        forall|i: int| 0 <= i < r@.len() ==> is_out_row(docs@, i, #[trigger] r@[i]@),
{
    let n = docs.len();
    let mut r: Vec<Vec<usize>> = Vec::new();
    let mut i: usize = 0;
    while i < n
        invariant
            n == docs.len(),
            0 <= i <= n,
            r@.len() == i,
            forall|a: int| 0 <= a < i ==> is_out_row(docs@, a, #[trigger] r@[a]@),
        decreases n - i,
    {
        let out = forward_links(docs[i]);
        let mut row: Vec<usize> = Vec::new();
        let mut j: usize = 0;
        while j < n
            invariant
                n == docs.len(),
                0 <= i < n,
                0 <= j <= n,
                out@.map_values(|p: DocumentId| p@) == targets(
                    docs@[i as int].links@,
                    parent_spec(docs@[i as int].id@),
                ),
                forall|a: int, b: int| 0 <= a < b < row@.len() ==> row@[a] < row@[b],
                forall|a: int| 0 <= a < row@.len() ==> row@[a] < j,
                forall|k: int|
                    row@.contains(k as usize) && 0 <= k < n <==> (k < j && has_edge(
                        docs@,
                        i as int,
                        k,
                    )),
            decreases n - j,
        {
            let ghost before = row@;
            if j != i && contains_id(&out, &docs[j].id) {
                row.push(j);
                assert forall|k: int|
                    row@.contains(k as usize) && 0 <= k < n <==> (k < j + 1 && has_edge(
                        docs@,
                        i as int,
                        k,
                    )) by {
                    if row@.contains(k as usize) && 0 <= k < n && k != j {
                        let m = choose|m: int| 0 <= m < row@.len() && row@[m] == k as usize;
                        assert(m < before.len());
                        assert(before.contains(k as usize));
                    }
                    if k < j && has_edge(docs@, i as int, k) && 0 <= k {
                        let m = choose|m: int| 0 <= m < before.len() && before[m] == k as usize;
                        assert(row@[m] == k as usize);
                    }
                    if k == j {
                        assert(row@[row@.len() - 1] == j);
                    }
                }
            } else {
                assert forall|k: int|
                    row@.contains(k as usize) && 0 <= k < n <==> (k < j + 1 && has_edge(
                        docs@,
                        i as int,
                        k,
                    )) by {
                    if k == j && row@.contains(k as usize) {
                        let m = choose|m: int| 0 <= m < row@.len() && row@[m] == k as usize;
                    }
                }
            }
            j = j + 1;
        }
        r.push(row);
        i = i + 1;
    }
    r
}

/// Whether position `i` comes before position `j` in the ranking by `keys`:
/// a larger key first, and between equal keys the earlier position.
pub open spec fn ranks_before(keys: Seq<u32>, i: int, j: int) -> bool {
    keys[i] > keys[j] || (keys[i] == keys[j] && i < j)
}

/// Whether `r` is the ranking of the positions of `keys`, best first, cut
/// after `cap` entries.
pub open spec fn is_top(keys: Seq<u32>, cap: nat, r: Seq<usize>) -> bool {
    &&& r.len() == if keys.len() < cap {
        keys.len()
    } else {
        cap
    }
    &&& forall|a: int| 0 <= a < r.len() ==> r[a] < keys.len()
    &&& forall|a: int, b: int|
        0 <= a < b < r.len() ==> ranks_before(keys, r[a] as int, r[b] as int)
    &&& forall|a: int, j: int|
        0 <= a < r.len() && 0 <= j < keys.len() && !r.contains(j as usize) ==> ranks_before(
            keys,
            r[a] as int,
            j,
        )
}

/// The positions of `keys` from the largest key down, equal keys in their
/// order, at most `cap` of them.
pub fn top_indices(keys: &Vec<u32>, cap: usize) -> (r: Vec<usize>)
    ensures
        is_top(keys@, cap as nat, r@),
{
    let n = keys.len();
    let want = if n < cap {
        n
    } else {
        cap
    };
    let mut taken: Vec<bool> = Vec::new();
    let mut k: usize = 0;
    while k < n
        invariant
            0 <= k <= n,
            taken@.len() == k,
            forall|j: int| 0 <= j < k ==> !taken@[j],
        decreases n - k,
    {
        taken.push(false);
        k = k + 1;
    }
    let mut r: Vec<usize> = Vec::new();
    while r.len() < want
        invariant
            n == keys.len(),
            want <= n,
            want <= cap,
            r@.len() <= want,
            taken@.len() == n,
            forall|j: int| 0 <= j < n ==> (taken@[j] <==> r@.contains(j as usize)),
            forall|a: int| 0 <= a < r@.len() ==> r@[a] < n,
            forall|a: int, b: int|
                0 <= a < b < r@.len() ==> ranks_before(keys@, r@[a] as int, r@[b] as int),
            forall|a: int, j: int|
                0 <= a < r@.len() && 0 <= j < n && !r@.contains(j as usize) ==> ranks_before(
                    keys@,
                    r@[a] as int,
                    j,
                ),
        decreases want - r@.len(),
    {
        let mut best: usize = n;
        let mut j: usize = 0;
        while j < n
            invariant
                n == keys.len(),
                taken@.len() == n,
                0 <= j <= n,
                best == n || (best < j && !taken@[best as int]),
                forall|m: int|
                    0 <= m < j && !taken@[m] && m != best ==> ranks_before(keys@, best as int, m),
                best == n ==> forall|m: int| 0 <= m < j ==> taken@[m],
            decreases n - j,
        {
            if !taken[j] && (best == n || keys[j] > keys[best]) {
                best = j;
            }
            j = j + 1;
        }
        assert(best < n) by {
            if best == n {
                assert forall|m: usize| (m as int) < n implies #[trigger] r@.contains(m) by {
                    assert(taken@[m as int]);
                }
                assert(r@.no_duplicates()) by {
                    assert forall|a: int, b: int|
                        0 <= a < r@.len() && 0 <= b < r@.len() && a != b implies r@[a] != r@[b] by {
                        if a < b {
                            assert(ranks_before(keys@, r@[a] as int, r@[b] as int));
                        } else {
                            assert(ranks_before(keys@, r@[b] as int, r@[a] as int));
                        }
                    }
                }
                lemma_covering_seq_is_long(r@, n as nat);
            }
        }
        let ghost before = r@;
        r.push(best);
        taken.set(best, true);
        assert forall|j2: int| 0 <= j2 < n implies (taken@[j2] <==> r@.contains(j2 as usize)) by {
            if j2 != best {
                if r@.contains(j2 as usize) {
                    let m = choose|m: int| 0 <= m < r@.len() && r@[m] == j2 as usize;
                    assert(m < before.len());
                    assert(before.contains(j2 as usize));
                }
                if before.contains(j2 as usize) {
                    let m = choose|m: int| 0 <= m < before.len() && before[m] == j2 as usize;
                    assert(r@[m] == j2 as usize);
                }
            } else {
                assert(r@[before.len() as int] == best);
            }
        }
        assert forall|a: int, j2: int|
            0 <= a < r@.len() && 0 <= j2 < n && !r@.contains(j2 as usize) implies ranks_before(
            keys@,
            r@[a] as int,
            j2,
        ) by {
            assert(!taken@[j2]);
            if a < before.len() {
                assert(!before.contains(j2 as usize)) by {
                    if before.contains(j2 as usize) {
                        let m = choose|m: int| 0 <= m < before.len() && before[m] == j2 as usize;
                        assert(r@[m] == j2 as usize);
                    }
                }
            } else {
                assert(j2 != best as int) by {
                    assert(r@[before.len() as int] == best);
                }
            }
        }
        assert forall|a: int, b: int|
            0 <= a < b < r@.len() implies ranks_before(keys@, r@[a] as int, r@[b] as int) by {
            if b == before.len() {
                assert(!before.contains(best)) by {
                    if before.contains(best) {
                        let m = choose|m: int| 0 <= m < before.len() && before[m] == best;
                    }
                }
            }
        }
    }
    r
}

/// A sequence without repeats whose values cover `0..n` has at least `n`
/// entries.
proof fn lemma_covering_seq_is_long(r: Seq<usize>, n: nat)
    requires
        r.no_duplicates(),
        n <= usize::MAX,
        forall|m: usize| (m as int) < n ==> #[trigger] r.contains(m),
    ensures
        r.len() >= n,
{
    let ri = r.map_values(|x: usize| x as int);
    assert(ri.no_duplicates()) by {
        assert forall|a: int, b: int| 0 <= a < ri.len() && 0 <= b < ri.len() && a != b implies ri[a]
            != ri[b] by {
            assert(r[a] != r[b]);
        }
    }
    vstd::set_lib::lemma_int_range(0, n as int);
    assert(vstd::set_lib::set_int_range(0, n as int).subset_of(ri.to_set())) by {
        assert forall|m: int| vstd::set_lib::set_int_range(0, n as int).contains(m) implies ri.to_set().contains(m) by {
            let mu = m as usize;
            assert(mu as int == m);
            assert(r.contains(mu));
            let k = choose|k: int| 0 <= k < r.len() && r[k] == mu;
            assert(ri[k] == m);
        }
    }
    ri.unique_seq_to_set();
    vstd::seq_lib::seq_to_set_is_finite(ri);
    vstd::set_lib::lemma_len_subset(vstd::set_lib::set_int_range(0, n as int), ri.to_set());
}

} // verus!
