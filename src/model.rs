//! Models as the viewer keeps them, the list of known files, and the
//! bookkeeping that the workspace does on them.

use vstd::prelude::*;
use crate::mesh::{parts_view, PartView, RenderablePart};
use crate::parser::StepHeader;

verus! {

/// Largest accepted file, in bytes (20 MiB).
pub const MAX_FILE_BYTES: u64 = 20 * 1024 * 1024;

/// Number of fully processed models kept in memory.
pub const CACHE_SIZE: usize = 5;

/// One entry of the list of known files.
#[derive(Clone, Debug, PartialEq, Eq)]
pub struct FileIndexItem {
    pub id: String,
    pub name: String,
    pub entity_count: usize,
    pub time_stamp: String,
}

/// An axis-aligned box, corners given as the bit patterns of 64-bit floats.
#[derive(Clone, Copy, Debug, PartialEq, Eq)]
pub struct BoundingBox {
    pub min: [u64; 3],
    pub max: [u64; 3],
}

/// What is known of a model besides its geometry.
#[derive(Clone, Debug, PartialEq, Eq)]
pub struct Metadata {
    pub header: StepHeader,
    pub entity_count: usize,
    pub bounding_box: Option<BoundingBox>,
    pub units: Option<String>,
    pub vertex_count: usize,
    pub triangle_count: usize,
}

/// A fully processed model.
#[derive(Clone, Debug, PartialEq, Eq)]
pub struct StepModel {
    pub id: String,
    pub metadata: Metadata,
    pub render_parts: Vec<RenderablePart>,
}

/// Whether a file of `size` bytes is refused.
pub fn file_too_large(size: u64) -> (r: bool)
    ensures
        r == (size > MAX_FILE_BYTES),
{
    size > MAX_FILE_BYTES
}

/// The items whose identity is not `id`, in order.
pub open spec fn without_id(s: Seq<FileIndexItem>, id: Seq<char>) -> Seq<FileIndexItem>
    decreases s.len(),
{
    if s.len() == 0 {
        s
    } else {
        let rest = without_id(s.drop_first(), id);
        if s[0].id@ == id {
            rest
        } else {
            seq![s[0]] + rest
        }
    }
}

/// Removes every item with identity `id`.
pub fn index_without(list: Vec<FileIndexItem>, id: &String) -> (r: Vec<FileIndexItem>)
    ensures
        r@ == without_id(list@, id@),
{
    let mut rest = list;
    let mut out: Vec<FileIndexItem> = Vec::new();
    while rest.len() > 0
        invariant
            without_id(list@, id@) == out@ + without_id(rest@, id@),
        decreases rest.len(),
    {
        let ghost before = rest@;
        let item = rest.remove(0);
        assert(before.drop_first() =~= rest@);
        if item.id != *id {
            out.push(item);
            assert(without_id(list@, id@) =~= out@ + without_id(rest@, id@));
        } else {
            assert(without_id(before, id@) == without_id(rest@, id@));
        }
    }
    assert(out@ + without_id(rest@, id@) =~= out@);
    out
}

/// The list after a file is opened: its item first, no other item with its
/// identity, the rest in order.
pub fn index_with_opened(list: Vec<FileIndexItem>, item: FileIndexItem) -> (r: Vec<FileIndexItem>)
    ensures
        r@ == seq![item] + without_id(list@, item.id@),
{
    let rest = index_without(list, &item.id);
    let mut out: Vec<FileIndexItem> = Vec::new();
    out.push(item);
    let mut r = rest;
    let ghost tail = r@;
    out.append(&mut r);
    assert(out@ =~= seq![item] + tail);
    out
}

/// The list after a known file is selected: its first item moves to the
/// front; without one the list is unchanged.
pub fn index_with_selected(list: Vec<FileIndexItem>, id: &String) -> (r: Vec<FileIndexItem>)
    ensures
        (forall|i: int| 0 <= i < list@.len() ==> (#[trigger] list@[i]).id@ != id@) ==> r@ == list@,
        forall|p: int|
            0 <= p < list@.len() && list@[p].id@ == id@ && (forall|j: int| 0 <= j < p ==> (#[trigger] list@[j]).id@ != id@)
            ==> r@ == seq![list@[p]] + list@.remove(p),
{
    let mut i: usize = 0;
    while i < list.len()
        invariant
            i <= list.len(),
            forall|j: int| 0 <= j < i ==> (#[trigger] list@[j]).id@ != id@,
        decreases list.len() - i,
    {
        if list[i].id == *id {
            let mut l = list;
            let item = l.remove(i);
            let mut out: Vec<FileIndexItem> = Vec::new();
            out.push(item);
            let ghost tail = l@;
            out.append(&mut l);
            proof {
                assert(out@ =~= seq![list@[i as int]] + list@.remove(i as int));
                assert forall|p: int|
                    0 <= p < list@.len() && list@[p].id@ == id@ && (forall|j: int| 0 <= j < p ==> (#[trigger] list@[j]).id@ != id@)
                    implies out@ == seq![list@[p]] + list@.remove(p) by {
                    if p < i {
                    } else if p > i {
                        assert(list@[i as int].id@ != id@);
                    }
                }
            }
            return out;
        }
        i = i + 1;
    }
    list
}

/// The sum of the vertex counts of parts.
pub open spec fn total_vertices(ps: Seq<PartView>) -> int
    decreases ps.len(),
{
    if ps.len() == 0 {
        0
    } else {
        total_vertices(ps.drop_last()) + ps.last().vertices.len()
    }
}

/// The sum of the whole triangles of parts.
pub open spec fn total_triangles(ps: Seq<PartView>) -> int
    decreases ps.len(),
{
    if ps.len() == 0 {
        0
    } else {
        total_triangles(ps.drop_last()) + ps.last().indices.len() / 3
    }
}

pub open spec fn capped(n: int) -> usize {
    if n <= usize::MAX {
        n as usize
    } else {
        usize::MAX
    }
}

/// The vertex and triangle counts of a model's parts, each capped at the
/// largest `usize`.
pub fn part_totals(parts: &Vec<RenderablePart>) -> (r: (usize, usize))
    ensures
        r.0 == capped(total_vertices(parts_view(parts@))),
        r.1 == capped(total_triangles(parts_view(parts@))),
{
    let mut v: usize = 0;
    let mut t: usize = 0;
    let mut i: usize = 0;
    while i < parts.len()
        invariant
            i <= parts.len(),
            v == capped(total_vertices(parts_view(parts@.subrange(0, i as int)))),
            t == capped(total_triangles(parts_view(parts@.subrange(0, i as int)))),
        decreases parts.len() - i,
    {
        proof {
            let ps = parts_view(parts@.subrange(0, i + 1));
            assert(ps.drop_last() =~= parts_view(parts@.subrange(0, i as int)));
            lemma_totals_nonneg(ps.drop_last());
        }
        let nv = parts[i].vertices.len();
        let nt = parts[i].indices.len() / 3;
        v = if v > usize::MAX - nv { usize::MAX } else { v + nv };
        t = if t > usize::MAX - nt { usize::MAX } else { t + nt };
        i = i + 1;
    }
    assert(parts@.subrange(0, i as int) =~= parts@);
    (v, t)
}

proof fn lemma_totals_nonneg(ps: Seq<PartView>)
    ensures
        total_vertices(ps) >= 0,
        total_triangles(ps) >= 0,
    decreases ps.len(),
{
    if ps.len() > 0 {
        lemma_totals_nonneg(ps.drop_last());
    }
}

/// The part with its visibility flag set to `visible`.
pub open spec fn with_visibility(p: PartView, visible: bool) -> PartView {
    PartView { visible, ..p }
}

/// Shows or hides the part at `index`; returns whether there is one.
pub fn set_part_visibility(parts: &mut Vec<RenderablePart>, index: usize, visible: bool) -> (r: bool)
    ensures
        r == (index < old(parts)@.len()),
        r ==> parts_view(final(parts)@) == parts_view(old(parts)@).update(
            index as int,
            with_visibility(parts_view(old(parts)@)[index as int], visible),
        ),
        !r ==> final(parts)@ == old(parts)@,
{
    if index < parts.len() {
        let mut p = parts.remove(index);
        p.visible = visible;
        parts.insert(index, p);
        assert(parts_view(parts@) =~= parts_view(old(parts)@).update(
            index as int,
            with_visibility(parts_view(old(parts)@)[index as int], visible),
        ));
        true
    } else {
        false
    }
}

/// Shows or hides every part.
pub fn set_all_visibility(parts: &mut Vec<RenderablePart>, visible: bool)
    ensures
        parts_view(final(parts)@) == parts_view(old(parts)@).map_values(
            |p: PartView| with_visibility(p, visible),
        ),
{
    let mut i: usize = 0;
    while i < parts.len()
        invariant
            i <= parts.len(),
            parts.len() == old(parts).len(),
            forall|j: int| 0 <= j < i ==> (#[trigger] parts_view(parts@)[j]) == with_visibility(parts_view(old(parts)@)[j], visible),
            forall|j: int| i <= j < parts.len() ==> (#[trigger] parts@[j]) == old(parts)@[j],
        decreases parts.len() - i,
    {
        let ghost prev = parts@;
        let mut p = parts.remove(i);
        p.visible = visible;
        parts.insert(i, p);
        proof {
            assert(parts@ =~= prev.update(i as int, p));
            assert(prev[i as int] == old(parts)@[i as int]);
            assert forall|j: int| 0 <= j <= i implies (#[trigger] parts_view(parts@)[j]) == with_visibility(
                parts_view(old(parts)@)[j],
                visible,
            ) by {
                assert(parts_view(parts@)[j] == parts@[j]@);
                assert(parts_view(old(parts)@)[j] == old(parts)@[j]@);
                if j < i {
                    assert(parts@[j] == prev[j]);
                    assert(parts_view(prev)[j] == prev[j]@);
                }
            }
        }
        i = i + 1;
    }
    assert(parts_view(parts@) =~= parts_view(old(parts)@).map_values(|p: PartView| with_visibility(p, visible)));
}

} // verus!
