//! The tessellation cache: render parts kept per model identity for the
//! session, so that a model is triangulated at most once.

use vstd::prelude::*;
use vstd::string::StringExecFns;
use crate::cache::{has_key, key_index, keys_distinct, removed, Entries};
use crate::mesh::{
    assemble_parts, assembled, parts_view, parts_wf, shells_view, FaceMesh, PartView,
    RenderablePart,
};

verus! {

/// The triangulated faces of each shell of a model, as handed to assembly.
pub type ShellMeshes = Vec<Option<Vec<Option<FaceMesh>>>>;

/// Copies a list of parts.
pub fn clone_parts(parts: &Vec<RenderablePart>) -> (r: Vec<RenderablePart>)
    ensures
        parts_view(r@) == parts_view(parts@),
{
    let mut out: Vec<RenderablePart> = Vec::new();
    let mut i: usize = 0;
    while i < parts.len()
        invariant
            i <= parts.len(),
            parts_view(out@) == parts_view(parts@.subrange(0, i as int)),
        decreases parts.len() - i,
    {
        let c = parts[i].clone();
        let ghost before = out@;
        out.push(c);
        proof {
            assert(out@ == before.push(c));
            assert(parts_view(out@) =~= parts_view(before).push(c@));
            assert(parts_view(parts@.subrange(0, i + 1)) =~= parts_view(parts@.subrange(0, i as int)).push(
                parts@[i as int]@,
            ));
        }
        i = i + 1;
    }
    assert(parts@.subrange(0, i as int) =~= parts@);
    out
}

/// Render parts per model identity, without a bound on their number: the
/// caller drops an entry when the model leaves its other caches.
pub struct PartCache {
    entries: Vec<(String, Vec<RenderablePart>)>,
    builds: u64,
}

impl View for PartCache {
    type V = Entries<Seq<PartView>>;

    closed spec fn view(&self) -> Entries<Seq<PartView>> {
        self.entries@.map_values(|e: (String, Vec<RenderablePart>)| (e.0@, parts_view(e.1@)))
    }
}

impl PartCache {
    /// How many times assembly has run, saturating at the largest `u64`.
    pub closed spec fn build_count(&self) -> nat {
        self.builds as nat
    }

    /// Keys are distinct and every stored list of parts is well formed.
    pub open spec fn wf(&self) -> bool {
        &&& keys_distinct(self@)
        &&& forall|i: int| 0 <= i < self@.len() ==> parts_wf(#[trigger] self@[i].1)
    }

    pub fn new() -> (r: Self)
        ensures
            r.wf(),
            r@ == Seq::<(Seq<char>, Seq<PartView>)>::empty(),
            r.build_count() == 0,
    {
        PartCache { entries: Vec::new(), builds: 0 }
    }

    /// The number of models held.
    pub fn len(&self) -> (r: usize)
        ensures
            r == self@.len(),
    {
        self.entries.len()
    }

    /// The number of times assembly has run.
    pub fn builds(&self) -> (r: u64)
        ensures
            r == self.build_count(),
    {
        self.builds
    }

    fn position(&self, id: &String) -> (r: Option<usize>)
        requires
            self.wf(),
        ensures
            r.is_none() <==> !has_key(self@, id@),
            r matches Some(i) ==> i < self@.len() && self@[i as int].0 == id@ && key_index(self@, id@) == i,
    {
        let mut i: usize = 0;
        while i < self.entries.len()
            invariant
                0 <= i <= self.entries.len(),
                self.wf(),
                forall|j: int| 0 <= j < i ==> (#[trigger] self@[j]).0 != id@,
            decreases self.entries.len() - i,
        {
            if self.entries[i].0 == *id {
                assert(self@[i as int].0 == id@);
                let ghost k = key_index(self@, id@);
                assert(self@[k].0 == id@);
                return Some(i);
            }
            i = i + 1;
        }
        None
    }

    /// A copy of the parts stored under `id`, if any.
    pub fn lookup(&self, id: &str) -> (r: Option<Vec<RenderablePart>>)
        requires
            self.wf(),
        ensures
            r.is_some() == has_key(self@, id@),
            r matches Some(ps) ==> parts_view(ps@) == self@[key_index(self@, id@)].1,
    {
        let key = String::from_str(id);
        match self.position(&key) {
            Some(i) => {
                let ps = clone_parts(&self.entries[i].1);
                assert(self@[i as int].1 == parts_view(self.entries@[i as int].1@));
                Some(ps)
            },
            None => None,
        }
    }

    /// The parts of model `id`: the stored ones on a hit; on a miss, the
    /// assembly of what `triangulate` returns, which is then stored. Only a
    /// miss calls `triangulate`.
    pub fn get_or_build<F: FnOnce() -> ShellMeshes>(&mut self, id: &str, triangulate: F) -> (r: Vec<
        RenderablePart,
    >)
        requires
            old(self).wf(),
            triangulate.requires(()),
        ensures
            final(self).wf(),
            parts_wf(parts_view(r@)),
            has_key(old(self)@, id@) ==> {
                &&& parts_view(r@) == old(self)@[key_index(old(self)@, id@)].1
                &&& final(self)@ == old(self)@
                &&& final(self).build_count() == old(self).build_count()
            },
            !has_key(old(self)@, id@) ==> {
                &&& exists|s: ShellMeshes|
                    triangulate.ensures((), s) && parts_view(r@) == assembled(shells_view(s@))
                &&& final(self)@ == old(self)@.push((id@, parts_view(r@)))
                &&& final(self).build_count() == if old(self).build_count() < u64::MAX {
                    old(self).build_count() + 1
                } else {
                    old(self).build_count()
                }
            },
    {
        let key = String::from_str(id);
        match self.position(&key) {
            Some(i) => {
                let ps = clone_parts(&self.entries[i].1);
                assert(self@[i as int].1 == parts_view(self.entries@[i as int].1@));
                ps
            },
            None => {
                let shells = triangulate();
                let parts = assemble_parts(&shells);
                let stored = clone_parts(&parts);
                let ghost es = self@;
                self.entries.push((key, stored));
                if self.builds < u64::MAX {
                    self.builds = self.builds + 1;
                }
                proof {
                    assert(self@ =~= es.push((id@, parts_view(parts@))));
                    lemma_push_fresh_parts(es, id@, parts_view(parts@));
                    assert forall|j: int| 0 <= j < self@.len() implies parts_wf(#[trigger] self@[j].1) by {
                        if j < es.len() {
                            assert(self@[j] == es[j]);
                        }
                    }
                }
                parts
            },
        }
    }

    /// Drops the parts of model `id`, if any.
    pub fn remove(&mut self, id: &str)
        requires
            old(self).wf(),
        ensures
            final(self).wf(),
            final(self)@ == removed(old(self)@, id@),
            final(self).build_count() == old(self).build_count(),
    {
        let key = String::from_str(id);
        if let Some(i) = self.position(&key) {
            let ghost es = self@;
            self.entries.remove(i);
            proof {
                assert(self@ =~= es.remove(i as int));
                lemma_remove_parts_distinct(es, i as int);
                assert forall|j: int| 0 <= j < self@.len() implies parts_wf(#[trigger] self@[j].1) by {
                    assert(self@[j] == es[if j < i { j } else { j + 1 }]);
                }
            }
        }
    }

    /// Drops every entry.
    pub fn clear(&mut self)
        requires
            old(self).wf(),
        ensures
            final(self).wf(),
            final(self)@ == Seq::<(Seq<char>, Seq<PartView>)>::empty(),
            final(self).build_count() == old(self).build_count(),
    {
        self.entries.clear();
        assert(self@ =~= Seq::<(Seq<char>, Seq<PartView>)>::empty());
    }
}

proof fn lemma_push_fresh_parts(es: Entries<Seq<PartView>>, k: Seq<char>, ps: Seq<PartView>)
    requires
        keys_distinct(es),
        !has_key(es, k),
    ensures
        keys_distinct(es.push((k, ps))),
{
    let r = es.push((k, ps));
    assert forall|a: int, b: int|
        0 <= a < r.len() && 0 <= b < r.len() && a != b implies (#[trigger] r[a]).0 != (#[trigger] r[b]).0 by {
        if a < es.len() {
            assert(r[a] == es[a]);
        }
        if b < es.len() {
            assert(r[b] == es[b]);
        }
    }
}

proof fn lemma_remove_parts_distinct(es: Entries<Seq<PartView>>, i: int)
    requires
        keys_distinct(es),
        0 <= i < es.len(),
    ensures
        keys_distinct(es.remove(i)),
{
    let r = es.remove(i);
    assert forall|a: int, b: int|
        0 <= a < r.len() && 0 <= b < r.len() && a != b implies (#[trigger] r[a]).0 != (#[trigger] r[b]).0 by {
        assert(r[a] == es[if a < i { a } else { a + 1 }]);
        assert(r[b] == es[if b < i { b } else { b + 1 }]);
    }
}

/// The render parts of model `file_id`, triangulating only when `cache`
/// holds none for it.
pub fn step_extract_wsgl_reqs<F: FnOnce() -> ShellMeshes>(
    cache: &mut PartCache,
    file_id: &str,
    triangulate: F,
) -> (r: Vec<RenderablePart>)
    requires
        old(cache).wf(),
        triangulate.requires(()),
    ensures
        final(cache).wf(),
        parts_wf(parts_view(r@)),
        has_key(old(cache)@, file_id@) ==> {
            &&& parts_view(r@) == old(cache)@[key_index(old(cache)@, file_id@)].1
            &&& final(cache)@ == old(cache)@
            &&& final(cache).build_count() == old(cache).build_count()
        },
        !has_key(old(cache)@, file_id@) ==> {
            &&& exists|s: ShellMeshes|
                triangulate.ensures((), s) && parts_view(r@) == assembled(shells_view(s@))
            &&& final(cache)@ == old(cache)@.push((file_id@, parts_view(r@)))
        },
{
    cache.get_or_build(file_id, triangulate)
}

/// Forgets the parts of model `file_id`.
pub fn drop_cached_parts(cache: &mut PartCache, file_id: &str)
    requires
        old(cache).wf(),
    ensures
        final(cache).wf(),
        final(cache)@ == removed(old(cache)@, file_id@),
{
    cache.remove(file_id)
}

/// Forgets the parts of every model.
pub fn clear_cached_parts(cache: &mut PartCache)
    requires
        old(cache).wf(),
    ensures
        final(cache).wf(),
        final(cache)@ == Seq::<(Seq<char>, Seq<PartView>)>::empty(),
{
    cache.clear()
}

/// Once parts are stored for a new identity, the next request for it finds
/// exactly those parts, so it needs no triangulation.
pub proof fn lemma_second_request_hits(es: Entries<Seq<PartView>>, id: Seq<char>, ps: Seq<PartView>)
    requires
        keys_distinct(es),
        !has_key(es, id),
    ensures
        has_key(es.push((id, ps)), id),
        es.push((id, ps))[key_index(es.push((id, ps)), id)].1 == ps,
{
    let r = es.push((id, ps));
    assert(r[es.len() as int].0 == id);
    lemma_push_fresh_parts(es, id, ps);
    let k = key_index(r, id);
    assert(r[k].0 == id);
    if k != es.len() {
        assert(r[k] == es[k]);
    }
}

} // verus!
