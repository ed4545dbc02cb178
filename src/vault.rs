//! The vault: a set of documents keyed by their paths, with the forward link
//! index and the backlink index derived from it.

use vstd::prelude::*;
use crate::document::Document;
use crate::link::{link_target, Link};
use crate::path::{parent_spec, DocumentId};
use crate::query::{satisfies, Query};

verus! {

/// Why a set of documents cannot form a vault.
#[derive(Debug, Clone, Copy, PartialEq, Eq, Structural)]
pub enum VaultError {
    /// Two documents share one path.
    DuplicateDocument,
}

/// A link of the vault that points to a given document, with the document it
/// is written in.
#[derive(Debug, Clone)]
pub struct Backlink {
    pub source: DocumentId,
    pub link: Link,
}

/// The documents of a vault, in a fixed order, no two with the same path.
#[derive(Debug, Clone)]
pub struct Vault {
    pub documents: Vec<Document>,
}

/// No two documents share a path.
pub open spec fn ids_distinct(docs: Seq<Document>) -> bool {
    forall|i: int, j: int|
        0 <= i < docs.len() && 0 <= j < docs.len() && i != j ==> docs[i].id@ != docs[j].id@
}

/// The paths that `links`, written in directory `dir`, resolve to, in order;
/// links that do not resolve are dropped.
pub open spec fn targets(links: Seq<Link>, dir: Seq<Seq<char>>) -> Seq<Seq<Seq<char>>>
    decreases links.len(),
{
    if links.len() == 0 {
        Seq::empty()
    } else {
        let p = targets(links.drop_last(), dir);
        match link_target(links.last().url@, dir) {
            Some(t) => p.push(t),
            None => p,
        }
    }
}

/// The links among `links`, written in the document at `src`, that resolve
/// to `target`, each with `src`.
pub open spec fn links_to(links: Seq<Link>, src: Seq<Seq<char>>, target: Seq<Seq<char>>) -> Seq<
    (Seq<Seq<char>>, Link),
>
    decreases links.len(),
{
    if links.len() == 0 {
        Seq::empty()
    } else {
        let p = links_to(links.drop_last(), src, target);
        if link_target(links.last().url@, parent_spec(src)) == Some(target) {
            p.push((src, links.last()))
        } else {
            p
        }
    }
}

/// Every link of `docs` that resolves to `target`, document by document.
pub open spec fn backlinks_of(docs: Seq<Document>, target: Seq<Seq<char>>) -> Seq<
    (Seq<Seq<char>>, Link),
>
    decreases docs.len(),
{
    if docs.len() == 0 {
        Seq::empty()
    } else {
        backlinks_of(docs.drop_last(), target) + links_to(
            docs.last().links@,
            docs.last().id@,
            target,
        )
    }
}

/// The source path and the link of each backlink.
pub open spec fn backlink_views(b: Seq<Backlink>) -> Seq<(Seq<Seq<char>>, Link)> {
    b.map_values(|x: Backlink| (x.source@, x.link))
}

impl Link {
    /// A copy of the link.
    pub fn duplicate(&self) -> (r: Link)
        ensures
            r == *self,
    {
        Link { text: self.text.clone(), url: self.url.clone() }
    }
}

impl DocumentId {
    /// A copy of the path.
    pub fn duplicate(&self) -> (r: DocumentId)
        ensures
            r@ == self@,
    {
        DocumentId { segments: self.segments.clone() }
    }
}

impl Vault {
    /// The documents, in the vault's order.
    pub open spec fn docs(&self) -> Seq<Document> {
        self.documents@
    }

    pub open spec fn wf(&self) -> bool {
        ids_distinct(self.documents@)
    }

    /// A vault of the given documents, in the given order; fails when two of
    /// them share a path.
    pub fn from_documents(documents: Vec<Document>) -> (r: Result<Vault, VaultError>)
        ensures
            match r {
                Ok(v) => v.docs() == documents@ && v.wf(),
                Err(e) => e == VaultError::DuplicateDocument && !ids_distinct(documents@),
            },
    {
        let n = documents.len();
        let mut i: usize = 0;
        while i < n
            invariant
                n == documents.len(),
                0 <= i <= n,
                forall|a: int, b: int|
                    0 <= a < i && 0 <= b < n && a != b ==> documents@[a].id@
                        != documents@[b].id@,
            decreases n - i,
        {
            let mut j: usize = 0;
            while j < n
                invariant
                    n == documents.len(),
                    0 <= i < n,
                    0 <= j <= n,
                    forall|a: int, b: int|
                        0 <= a < i && 0 <= b < n && a != b ==> documents@[a].id@
                            != documents@[b].id@,
                    forall|b: int| 0 <= b < j && b != i ==> documents@[i as int].id@ != documents@[b].id@,
                decreases n - j,
            {
                if j != i && documents[i].id.same_as(&documents[j].id) {
                    return Err(VaultError::DuplicateDocument);
                }
                j = j + 1;
            }
            i = i + 1;
        }
        Ok(Vault { documents })
    }

    /// The documents, in the vault's order.
    pub fn documents(&self) -> (r: &Vec<Document>)
        ensures
            r@ == self.docs(),
    {
        &self.documents
    }

    /// The document at path `id`, if the vault holds one.
    pub fn get_document(&self, id: &DocumentId) -> (r: Option<&Document>)
        ensures
            match r {
                Some(d) => exists|i: int|
                    0 <= i < self.docs().len() && self.docs()[i] == *d && d.id@ == id@,
                None => forall|i: int| 0 <= i < self.docs().len() ==> self.docs()[i].id@ != id@,
            },
    {
        let mut i: usize = 0;
        while i < self.documents.len()
            invariant
                0 <= i <= self.documents.len(),
                forall|k: int| 0 <= k < i ==> self.documents@[k].id@ != id@,
            decreases self.documents.len() - i,
        {
            if self.documents[i].id.same_as(id) {
                assert(self.docs()[i as int] == self.documents@[i as int]);
                return Some(&self.documents[i]);
            }
            i = i + 1;
        }
        None
    }
}

/// The paths that the links of `doc` resolve to, in order of appearance.
pub fn forward_links(doc: &Document) -> (r: Vec<DocumentId>)
    ensures
        r@.map_values(|p: DocumentId| p@) == targets(doc.links@, parent_spec(doc.id@)),
{
    let dir = doc.id.parent();
    let mut r: Vec<DocumentId> = Vec::new();
    let mut i: usize = 0;
    while i < doc.links.len()
        invariant
            0 <= i <= doc.links.len(),
            dir@ == parent_spec(doc.id@),
            r@.map_values(|p: DocumentId| p@) == targets(doc.links@.take(i as int), dir@),
        decreases doc.links.len() - i,
    {
        assert(doc.links@.take(i + 1).drop_last() =~= doc.links@.take(i as int));
        assert(doc.links@.take(i + 1).last() == doc.links@[i as int]);
        match doc.links[i].to_markdown_path(&dir) {
            Some(p) => {
                let ghost before = r@;
                r.push(p);
                assert(r@.map_values(|p: DocumentId| p@) =~= before.map_values(
                    |p: DocumentId| p@,
                ).push(p@));
            },
            None => {},
        }
        i = i + 1;
    }
    assert(doc.links@.take(doc.links.len() as int) =~= doc.links@);
    r
}

/// Appends to `out` every link of `doc` that points to `target`.
fn collect_links_to(doc: &Document, target: &DocumentId, out: &mut Vec<Backlink>)
    ensures
        backlink_views(final(out)@) == backlink_views(old(out)@) + links_to(
            doc.links@,
            doc.id@,
            target@,
        ),
{
    let dir = doc.id.parent();
    let ghost start = backlink_views(out@);
    let mut i: usize = 0;
    assert(start + links_to(doc.links@.take(0), doc.id@, target@) =~= start);
    while i < doc.links.len()
        invariant
            0 <= i <= doc.links.len(),
            dir@ == parent_spec(doc.id@),
            start == backlink_views(old(out)@),
            backlink_views(out@) == start + links_to(doc.links@.take(i as int), doc.id@, target@),
        decreases doc.links.len() - i,
    {
        assert(doc.links@.take(i + 1).drop_last() =~= doc.links@.take(i as int));
        assert(doc.links@.take(i + 1).last() == doc.links@[i as int]);
        if doc.links[i].points_to(target, &dir) {
            let ghost before = out@;
            out.push(Backlink { source: doc.id.duplicate(), link: doc.links[i].duplicate() });
            assert(backlink_views(out@) =~= backlink_views(before).push(
                (doc.id@, doc.links@[i as int]),
            ));
        }
        i = i + 1;
    }
    assert(doc.links@.take(doc.links.len() as int) =~= doc.links@);
}

impl Vault {
    /// The paths that the links of the `i`-th document resolve to.
    pub fn forward(&self, i: usize) -> (r: Vec<DocumentId>)
        requires
            i < self.docs().len(),
        ensures
            r@.map_values(|p: DocumentId| p@) == targets(
                self.docs()[i as int].links@,
                parent_spec(self.docs()[i as int].id@),
            ),
    {
        forward_links(&self.documents[i])
    }

    /// Every link of the vault that resolves to `id`, document by document
    /// in the vault's order; empty when there is none, whether or not the
    /// vault holds a document at `id`.
    pub fn find_backlinks(&self, id: &DocumentId) -> (r: Vec<Backlink>)
        ensures
            backlink_views(r@) == backlinks_of(self.docs(), id@),
    {
        let mut r: Vec<Backlink> = Vec::new();
        let mut i: usize = 0;
        assert(backlink_views(r@) =~= Seq::<(Seq<Seq<char>>, Link)>::empty());
        while i < self.documents.len()
            invariant
                0 <= i <= self.documents.len(),
                backlink_views(r@) == backlinks_of(self.documents@.take(i as int), id@),
            decreases self.documents.len() - i,
        {
            assert(self.documents@.take(i + 1).drop_last() =~= self.documents@.take(i as int));
            assert(self.documents@.take(i + 1).last() == self.documents@[i as int]);
            collect_links_to(&self.documents[i], id, &mut r);
            i = i + 1;
        }
        assert(self.documents@.take(self.documents.len() as int) =~= self.documents@);
        r
    }
}

/// The documents of `docs` that satisfy `q`, in their order.
pub open spec fn matching(docs: Seq<Document>, q: Query) -> Seq<Document>
    decreases docs.len(),
{
    if docs.len() == 0 {
        Seq::empty()
    } else {
        let p = matching(docs.drop_last(), q);
        if satisfies(q, docs.last().metadata@, docs.last().body@) {
            p.push(docs.last())
        } else {
            p
        }
    }
}

impl Vault {
    /// The documents that satisfy `query`, in the vault's order.
    pub fn query(&self, query: &Query) -> (r: Vec<&Document>)
        ensures
            r@.map_values(|d: &Document| *d) == matching(self.docs(), *query),
    {
        let mut r: Vec<&Document> = Vec::new();
        let mut i: usize = 0;
        assert(r@.map_values(|d: &Document| *d) =~= Seq::<Document>::empty());
        while i < self.documents.len()
            invariant
                0 <= i <= self.documents.len(),
                r@.map_values(|d: &Document| *d) == matching(self.documents@.take(i as int), *query),
            decreases self.documents.len() - i,
        {
            assert(self.documents@.take(i + 1).drop_last() =~= self.documents@.take(i as int));
            assert(self.documents@.take(i + 1).last() == self.documents@[i as int]);
            if query.evaluate(&self.documents[i]) {
                let ghost before = r@;
                r.push(&self.documents[i]);
                assert(r@.map_values(|d: &Document| *d) =~= before.map_values(|d: &Document| *d).push(
                    self.documents@[i as int],
                ));
            }
            i = i + 1;
        }
        assert(self.documents@.take(self.documents.len() as int) =~= self.documents@);
        r
    }
}

/// Some link among `links`, written in directory `dir`, resolves to `t`.
pub open spec fn has_link_to(links: Seq<Link>, dir: Seq<Seq<char>>, t: Seq<Seq<char>>) -> bool {
    exists|i: int| 0 <= i < links.len() && link_target(#[trigger] links[i].url@, dir) == Some(t)
}

/// Some entry of `b` has source `s`.
pub open spec fn has_source(b: Seq<(Seq<Seq<char>>, Link)>, s: Seq<Seq<char>>) -> bool {
    exists|k: int| 0 <= k < b.len() && (#[trigger] b[k]).0 == s
}

proof fn lemma_has_link_to_step(links: Seq<Link>, dir: Seq<Seq<char>>, t: Seq<Seq<char>>)
    requires
        links.len() > 0,
    ensures
        has_link_to(links, dir, t) == (has_link_to(links.drop_last(), dir, t) || link_target(
            links.last().url@,
            dir,
        ) == Some(t)),
{
    let d = links.drop_last();
    if has_link_to(links, dir, t) {
        let i = choose|i: int|
            0 <= i < links.len() && link_target(#[trigger] links[i].url@, dir) == Some(t);
        if i < d.len() {
            assert(d[i] == links[i]);
        }
    }
    if has_link_to(d, dir, t) {
        let i = choose|i: int| 0 <= i < d.len() && link_target(#[trigger] d[i].url@, dir) == Some(t);
        assert(links[i] == d[i]);
    }
    if link_target(links.last().url@, dir) == Some(t) {
        assert(links[links.len() - 1] == links.last());
    }
}

proof fn lemma_targets_contains(links: Seq<Link>, dir: Seq<Seq<char>>, t: Seq<Seq<char>>)
    ensures
        targets(links, dir).contains(t) == has_link_to(links, dir, t),
    decreases links.len(),
{
    if links.len() > 0 {
        lemma_targets_contains(links.drop_last(), dir, t);
        lemma_has_link_to_step(links, dir, t);
        let p = targets(links.drop_last(), dir);
        match link_target(links.last().url@, dir) {
            Some(x) => {
                if p.push(x).contains(t) {
                    let k = choose|k: int| 0 <= k < p.push(x).len() && p.push(x)[k] == t;
                    if k < p.len() {
                        assert(p[k] == t);
                    }
                }
                if p.contains(t) {
                    let k = choose|k: int| 0 <= k < p.len() && p[k] == t;
                    assert(p.push(x)[k] == t);
                }
                if x == t {
                    assert(p.push(x)[p.len() as int] == t);
                }
            },
            None => {},
        }
    }
}

proof fn lemma_links_to_sources(
    links: Seq<Link>,
    src: Seq<Seq<char>>,
    target: Seq<Seq<char>>,
    s: Seq<Seq<char>>,
)
    ensures
        has_source(links_to(links, src, target), s) == (s == src && has_link_to(
            links,
            parent_spec(src),
            target,
        )),
    decreases links.len(),
{
    if links.len() > 0 {
        lemma_links_to_sources(links.drop_last(), src, target, s);
        lemma_has_link_to_step(links, parent_spec(src), target);
        let p = links_to(links.drop_last(), src, target);
        if link_target(links.last().url@, parent_spec(src)) == Some(target) {
            let q = p.push((src, links.last()));
            if has_source(q, s) {
                let k = choose|k: int| 0 <= k < q.len() && (#[trigger] q[k]).0 == s;
                if k < p.len() {
                    assert(p[k] == q[k]);
                }
            }
            if has_source(p, s) {
                let k = choose|k: int| 0 <= k < p.len() && (#[trigger] p[k]).0 == s;
                assert(q[k] == p[k]);
            }
            if s == src {
                assert(q[p.len() as int].0 == s);
            }
        }
    } else {
        assert(!has_link_to(links, parent_spec(src), target));
    }
}

proof fn lemma_backlinks_sources(docs: Seq<Document>, target: Seq<Seq<char>>, s: Seq<Seq<char>>)
    ensures
        has_source(backlinks_of(docs, target), s) == exists|j: int|
            0 <= j < docs.len() && (#[trigger] docs[j]).id@ == s && has_link_to(
                docs[j].links@,
                parent_spec(s),
                target,
            ),
    decreases docs.len(),
{
    if docs.len() > 0 {
        let d = docs.drop_last();
        let a = backlinks_of(d, target);
        let b = links_to(docs.last().links@, docs.last().id@, target);
        lemma_backlinks_sources(d, target, s);
        lemma_links_to_sources(docs.last().links@, docs.last().id@, target, s);
        if has_source(a + b, s) {
            let k = choose|k: int| 0 <= k < (a + b).len() && (#[trigger] (a + b)[k]).0 == s;
            if k < a.len() {
                assert(a[k] == (a + b)[k]);
                let j = choose|j: int|
                    0 <= j < d.len() && (#[trigger] d[j]).id@ == s && has_link_to(
                        d[j].links@,
                        parent_spec(s),
                        target,
                    );
                assert(docs[j] == d[j]);
            } else {
                assert(b[k - a.len()] == (a + b)[k]);
                assert(docs[docs.len() - 1] == docs.last());
            }
        }
        if exists|j: int|
            0 <= j < docs.len() && (#[trigger] docs[j]).id@ == s && has_link_to(
                docs[j].links@,
                parent_spec(s),
                target,
            ) {
            let j = choose|j: int|
                0 <= j < docs.len() && (#[trigger] docs[j]).id@ == s && has_link_to(
                    docs[j].links@,
                    parent_spec(s),
                    target,
                );
            if j < d.len() {
                assert(d[j] == docs[j]);
                let k = choose|k: int| 0 <= k < a.len() && (#[trigger] a[k]).0 == s;
                assert((a + b)[k] == a[k]);
            } else {
                assert(docs[j] == docs.last());
                let k = choose|k: int| 0 <= k < b.len() && (#[trigger] b[k]).0 == s;
                assert((a + b)[a.len() + k] == b[k]);
            }
        }
    }
}

/// Forward links and backlinks are inverse: the `a`-th document of a vault
/// links to `target` exactly when some backlink of `target` comes from that
/// document.
pub proof fn law_backlinks_invert_forward(v: Vault, a: int, target: Seq<Seq<char>>)
    requires
        v.wf(),
        0 <= a < v.docs().len(),
    ensures
        targets(v.docs()[a].links@, parent_spec(v.docs()[a].id@)).contains(target)
            <==> has_source(backlinks_of(v.docs(), target), v.docs()[a].id@),
{
    let docs = v.docs();
    let s = docs[a].id@;
    lemma_targets_contains(docs[a].links@, parent_spec(s), target);
    lemma_backlinks_sources(docs, target, s);
    if has_source(backlinks_of(docs, target), s) {
        let j = choose|j: int|
            0 <= j < docs.len() && (#[trigger] docs[j]).id@ == s && has_link_to(
                docs[j].links@,
                parent_spec(s),
                target,
            );
        assert(j == a);
    }
}

} // verus!
