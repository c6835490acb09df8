//! Render parts and their assembly from triangulated faces.
//!
//! Coordinates are carried as the bit patterns of 32-bit IEEE 754 floats:
//! the assembly only copies them, so no arithmetic on them is needed here.

use vstd::prelude::*;

verus! {

/// Number of entries in the display palette that parts cycle through.
pub const PALETTE_LEN: usize = 10;

/// Bit pattern of the 32-bit float 1.0.
pub const ONE_BITS: u32 = 0x3f80_0000;

/// Bit that holds the sign of a 32-bit float.
pub const SIGN_BIT: u32 = 0x8000_0000;

/// One vertex as the GPU reads it: a position and a normal, each three
/// 32-bit floats given by their bit patterns (24 bytes).
#[derive(Clone, Copy, Debug, PartialEq, Eq)]
pub struct GpuVertex {
    pub position: [u32; 3],
    pub normal: [u32; 3],
}

/// One drawable mesh: vertices, triangle indices into them, a column-major
/// model matrix (float bit patterns), a palette position and a visibility flag.
#[derive(Debug, PartialEq, Eq)]
pub struct RenderablePart {
    pub vertices: Vec<GpuVertex>,
    pub indices: Vec<u32>,
    pub model_matrix: [u32; 16],
    pub color: usize,
    pub visible: bool,
}

/// The content of a part as mathematical values.
pub struct PartView {
    pub vertices: Seq<GpuVertex>,
    pub indices: Seq<u32>,
    pub model_matrix: [u32; 16],
    pub color: usize,
    pub visible: bool,
}

impl View for RenderablePart {
    type V = PartView;

    open spec fn view(&self) -> PartView {
        PartView {
            vertices: self.vertices@,
            indices: self.indices@,
            model_matrix: self.model_matrix,
            color: self.color,
            visible: self.visible,
        }
    }
}

impl Clone for RenderablePart {
    fn clone(&self) -> (r: Self)
        ensures
            r@ == self@,
    {
        let mut vertices: Vec<GpuVertex> = Vec::new();
        let mut i: usize = 0;
        while i < self.vertices.len()
            invariant
                i <= self.vertices.len(),
                vertices@ == self.vertices@.subrange(0, i as int),
            decreases self.vertices.len() - i,
        {
            vertices.push(self.vertices[i]);
            i = i + 1;
            assert(vertices@ =~= self.vertices@.subrange(0, i as int));
        }
        let mut indices: Vec<u32> = Vec::new();
        let mut j: usize = 0;
        while j < self.indices.len()
            invariant
                j <= self.indices.len(),
                indices@ == self.indices@.subrange(0, j as int),
            decreases self.indices.len() - j,
        {
            indices.push(self.indices[j]);
            j = j + 1;
            assert(indices@ =~= self.indices@.subrange(0, j as int));
        }
        assert(vertices@ =~= self.vertices@);
        assert(indices@ =~= self.indices@);
        RenderablePart {
            vertices,
            indices,
            model_matrix: self.model_matrix,
            color: self.color,
            visible: self.visible,
        }
    }
}

/// The column-major identity matrix, as float bit patterns.
pub open spec fn identity_bits() -> [u32; 16] {
    [ONE_BITS, 0, 0, 0, 0, ONE_BITS, 0, 0, 0, 0, ONE_BITS, 0, 0, 0, 0, ONE_BITS]
}

pub fn identity_matrix() -> (r: [u32; 16])
    ensures
        r == identity_bits(),
{
    [ONE_BITS, 0, 0, 0, 0, ONE_BITS, 0, 0, 0, 0, ONE_BITS, 0, 0, 0, 0, ONE_BITS]
}

/// Every index names a vertex and indices come in whole triangles.
pub open spec fn part_wf(p: PartView) -> bool {
    &&& p.indices.len() % 3 == 0
    &&& forall|k: int| 0 <= k < p.indices.len() ==> (#[trigger] p.indices[k]) < p.vertices.len()
}

/// The triangulation of one face: positions and normals (float bit
/// patterns), triangles and quads as positions' indices, and whether the face
/// is reversed relative to its surface.
#[derive(Clone, Debug, PartialEq, Eq)]
pub struct FaceMesh {
    pub positions: Vec<[u32; 3]>,
    pub normals: Vec<[u32; 3]>,
    pub triangles: Vec<[usize; 3]>,
    pub quads: Vec<[usize; 4]>,
    pub reversed: bool,
}

/// A position is paired with the normal of the same index.
pub open spec fn vertex_count(f: FaceMesh) -> nat {
    if f.positions@.len() <= f.normals@.len() {
        f.positions@.len()
    } else {
        f.normals@.len()
    }
}

/// A reversed face has its normals negated: the sign bits flip.
pub open spec fn oriented_normal(n: [u32; 3], reversed: bool) -> [u32; 3] {
    if reversed {
        [n[0] ^ SIGN_BIT, n[1] ^ SIGN_BIT, n[2] ^ SIGN_BIT]
    } else {
        n
    }
}

pub open spec fn face_vertices(f: FaceMesh) -> Seq<GpuVertex> {
    Seq::new(
        vertex_count(f),
        |i: int| GpuVertex { position: f.positions@[i], normal: oriented_normal(f.normals@[i], f.reversed) },
    )
}

/// The corners of one triangle, with the winding inverted on a reversed face.
pub open spec fn tri_corners(t: [usize; 3], reversed: bool) -> Seq<int> {
    if reversed {
        seq![t[0] as int, t[2] as int, t[1] as int]
    } else {
        seq![t[0] as int, t[1] as int, t[2] as int]
    }
}

/// A quad split along the diagonal from its first to its third corner.
pub open spec fn quad_corners(q: [usize; 4], reversed: bool) -> Seq<int> {
    if reversed {
        seq![q[0] as int, q[2] as int, q[1] as int, q[0] as int, q[3] as int, q[2] as int]
    } else {
        seq![q[0] as int, q[1] as int, q[2] as int, q[0] as int, q[2] as int, q[3] as int]
    }
}

pub open spec fn tris_corners(ts: Seq<[usize; 3]>, reversed: bool) -> Seq<int>
    decreases ts.len(),
{
    if ts.len() == 0 {
        Seq::empty()
    } else {
        tris_corners(ts.drop_last(), reversed) + tri_corners(ts.last(), reversed)
    }
}

pub open spec fn quads_corners(qs: Seq<[usize; 4]>, reversed: bool) -> Seq<int>
    decreases qs.len(),
{
    if qs.len() == 0 {
        Seq::empty()
    } else {
        quads_corners(qs.drop_last(), reversed) + quad_corners(qs.last(), reversed)
    }
}

/// The face's triangle corners, triangles first, then the halves of quads.
pub open spec fn face_corners(f: FaceMesh) -> Seq<int> {
    tris_corners(f.triangles@, f.reversed) + quads_corners(f.quads@, f.reversed)
}

/// A face can join a part whose vertices number `base`: its corners name
/// its own vertices, and the shifted indices fit in 32 bits.
pub open spec fn face_fits(f: FaceMesh, base: int) -> bool {
    &&& forall|k: int| 0 <= k < face_corners(f).len() ==> 0 <= #[trigger] face_corners(f)[k] < vertex_count(f)
    &&& base + vertex_count(f) <= 0x1_0000_0000
}

pub open spec fn shifted(cs: Seq<int>, base: int) -> Seq<int> {
    cs.map_values(|c: int| c + base)
}

/// The vertices and indices that a shell's faces give, in face order; a face
/// without a mesh, or one that does not fit, adds nothing.
pub open spec fn shell_geometry(faces: Seq<Option<FaceMesh>>) -> (Seq<GpuVertex>, Seq<int>)
    decreases faces.len(),
{
    if faces.len() == 0 {
        (Seq::empty(), Seq::empty())
    } else {
        let (vs, is) = shell_geometry(faces.drop_last());
        match faces.last() {
            Some(f) => if face_fits(f, vs.len() as int) {
                (vs + face_vertices(f), is + shifted(face_corners(f), vs.len() as int))
            } else {
                (vs, is)
            },
            None => (vs, is),
        }
    }
}

pub open spec fn as_ints(s: Seq<u32>) -> Seq<int> {
    s.map_values(|x: u32| x as int)
}


pub open spec fn usizes_as_ints(s: Seq<usize>) -> Seq<int> {
    s.map_values(|x: usize| x as int)
}

/// The corners of a face's triangles, in the order they are drawn.
pub fn face_corner_list(f: &FaceMesh) -> (r: Vec<usize>)
    ensures
        usizes_as_ints(r@) == face_corners(*f),
{
    let rev = f.reversed;
    let mut out: Vec<usize> = Vec::new();
    let mut i: usize = 0;
    while i < f.triangles.len()
        invariant
            i <= f.triangles.len(),
            rev == f.reversed,
            usizes_as_ints(out@) == tris_corners(f.triangles@.subrange(0, i as int), rev),
        decreases f.triangles.len() - i,
    {
        let t = f.triangles[i];
        if rev {
            out.push(t[0]);
            out.push(t[2]);
            out.push(t[1]);
        } else {
            out.push(t[0]);
            out.push(t[1]);
            out.push(t[2]);
        }
        proof {
            let ts = f.triangles@.subrange(0, i + 1);
            assert(ts.drop_last() =~= f.triangles@.subrange(0, i as int));
            assert(ts.last() == t);
            assert(usizes_as_ints(out@) =~= tris_corners(ts, rev));
        }
        i = i + 1;
    }
    assert(f.triangles@.subrange(0, i as int) =~= f.triangles@);
    let ghost tri_part = usizes_as_ints(out@);
    let mut j: usize = 0;
    while j < f.quads.len()
        invariant
            j <= f.quads.len(),
            rev == f.reversed,
            tri_part == tris_corners(f.triangles@, rev),
            usizes_as_ints(out@) == tri_part + quads_corners(f.quads@.subrange(0, j as int), rev),
        decreases f.quads.len() - j,
    {
        let q = f.quads[j];
        let ghost before = out@;
        if rev {
            out.push(q[0]);
            out.push(q[2]);
            out.push(q[1]);
            out.push(q[0]);
            out.push(q[3]);
            out.push(q[2]);
        } else {
            out.push(q[0]);
            out.push(q[1]);
            out.push(q[2]);
            out.push(q[0]);
            out.push(q[2]);
            out.push(q[3]);
        }
        proof {
            let qs = f.quads@.subrange(0, j + 1);
            assert(qs.drop_last() =~= f.quads@.subrange(0, j as int));
            assert(qs.last() == q);
            let added = if rev {
                seq![q[0], q[2], q[1], q[0], q[3], q[2]]
            } else {
                seq![q[0], q[1], q[2], q[0], q[2], q[3]]
            };
            assert(out@ =~= before + added);
            assert(usizes_as_ints(added) =~= quad_corners(q, rev));
            assert(usizes_as_ints(out@) =~= usizes_as_ints(before) + usizes_as_ints(added));
            assert(quads_corners(qs, rev) == quads_corners(f.quads@.subrange(0, j as int), rev) + quad_corners(q, rev));
            assert(usizes_as_ints(out@) =~= tri_part + quads_corners(qs, rev));
        }
        j = j + 1;
    }
    assert(f.quads@.subrange(0, j as int) =~= f.quads@);
    out
}

/// Adds one face to the vertices and indices of a part under construction,
/// unless it does not fit; returns whether it was added.
pub fn append_face(vertices: &mut Vec<GpuVertex>, indices: &mut Vec<u32>, f: &FaceMesh) -> (added: bool)
    ensures
        added == face_fits(*f, old(vertices)@.len() as int),
        added ==> final(vertices)@ == old(vertices)@ + face_vertices(*f),
        added ==> as_ints(final(indices)@) == as_ints(old(indices)@) + shifted(
            face_corners(*f),
            old(vertices)@.len() as int,
        ),
        !added ==> final(vertices)@ == old(vertices)@ && final(indices)@ == old(indices)@,
{
    let count = if f.positions.len() <= f.normals.len() {
        f.positions.len()
    } else {
        f.normals.len()
    };
    let base = vertices.len();
    if count as u64 > 0x1_0000_0000u64 || base as u64 > 0x1_0000_0000u64 - count as u64 {
        return false;
    }
    let corners = face_corner_list(f);
    let mut k: usize = 0;
    while k < corners.len()
        invariant
            k <= corners.len(),
            count == vertex_count(*f),
            usizes_as_ints(corners@) == face_corners(*f),
            forall|m: int| 0 <= m < k ==> (#[trigger] corners@[m]) < count,
        decreases corners.len() - k,
    {
        if corners[k] >= count {
            assert(face_corners(*f)[k as int] == corners@[k as int] as int);
            return false;
        }
        k = k + 1;
    }
    assert forall|m: int| 0 <= m < face_corners(*f).len() implies 0 <= #[trigger] face_corners(*f)[m]
        < vertex_count(*f) by {
        assert(face_corners(*f)[m] == corners@[m] as int);
    }
    let rev = f.reversed;
    let mut i: usize = 0;
    while i < count
        invariant
            i <= count,
            count == vertex_count(*f),
            rev == f.reversed,
            vertices@ == old(vertices)@ + face_vertices(*f).subrange(0, i as int),
        decreases count - i,
    {
        let n = f.normals[i];
        let normal = if rev {
            [n[0] ^ SIGN_BIT, n[1] ^ SIGN_BIT, n[2] ^ SIGN_BIT]
        } else {
            n
        };
        vertices.push(GpuVertex { position: f.positions[i], normal });
        i = i + 1;
        assert(vertices@ =~= old(vertices)@ + face_vertices(*f).subrange(0, i as int));
    }
    assert(face_vertices(*f).subrange(0, i as int) =~= face_vertices(*f));
    let mut m: usize = 0;
    while m < corners.len()
        invariant
            m <= corners.len(),
            count == vertex_count(*f),
            base == old(vertices)@.len(),
            base + count <= 0x1_0000_0000,
            forall|t: int| 0 <= t < corners.len() ==> (#[trigger] corners@[t]) < count,
            usizes_as_ints(corners@) == face_corners(*f),
            as_ints(indices@) == as_ints(old(indices)@) + shifted(
                usizes_as_ints(corners@.subrange(0, m as int)),
                base as int,
            ),
        decreases corners.len() - m,
    {
        let c = corners[m];
        let ghost before = indices@;
        indices.push((base + c) as u32);
        proof {
            assert(corners@.subrange(0, m + 1) =~= corners@.subrange(0, m as int).push(c));
            assert(as_ints(indices@) =~= as_ints(before).push(base + c));
            assert(shifted(usizes_as_ints(corners@.subrange(0, m + 1)), base as int) =~= shifted(
                usizes_as_ints(corners@.subrange(0, m as int)),
                base as int,
            ).push(base + c));
        }
        m = m + 1;
        assert(as_ints(indices@) =~= as_ints(old(indices)@) + shifted(
            usizes_as_ints(corners@.subrange(0, m as int)),
            base as int,
        ));
    }
    assert(corners@.subrange(0, m as int) =~= corners@);
    true
}

proof fn lemma_tris_corners_len(ts: Seq<[usize; 3]>, reversed: bool)
    ensures
        tris_corners(ts, reversed).len() == 3 * ts.len(),
    decreases ts.len(),
{
    if ts.len() > 0 {
        lemma_tris_corners_len(ts.drop_last(), reversed);
    }
}

proof fn lemma_quads_corners_len(qs: Seq<[usize; 4]>, reversed: bool)
    ensures
        quads_corners(qs, reversed).len() == 6 * qs.len(),
    decreases qs.len(),
{
    if qs.len() > 0 {
        lemma_quads_corners_len(qs.drop_last(), reversed);
    }
}

/// Corners come in whole triangles.
pub proof fn lemma_face_corners_triples(f: FaceMesh)
    ensures
        face_corners(f).len() % 3 == 0,
{
    lemma_tris_corners_len(f.triangles@, f.reversed);
    lemma_quads_corners_len(f.quads@, f.reversed);
}

/// The part that a shell's faces give, in the color of its position among
/// the parts; none when the faces give no vertex or no index.
pub open spec fn shell_part(faces: Seq<Option<FaceMesh>>, color: nat) -> Option<PartView> {
    let (vs, is) = shell_geometry(faces);
    if vs.len() > 0 && is.len() > 0 {
        Some(
            PartView {
                vertices: vs,
                indices: is.map_values(|c: int| c as u32),
                model_matrix: identity_bits(),
                color: color as usize,
                visible: true,
            },
        )
    } else {
        None
    }
}

/// Builds the part of one shell from the meshes of its faces.
pub fn build_shell_part(faces: &Vec<Option<FaceMesh>>, color: usize) -> (r: Option<RenderablePart>)
    ensures
        r.is_some() == shell_part(faces@, color as nat).is_some(),
        r matches Some(p) ==> p@ == shell_part(faces@, color as nat)->Some_0 && part_wf(p@),
{
    let mut vertices: Vec<GpuVertex> = Vec::new();
    let mut indices: Vec<u32> = Vec::new();
    let mut i: usize = 0;
    while i < faces.len()
        invariant
            i <= faces.len(),
            (vertices@, as_ints(indices@)) == shell_geometry(faces@.subrange(0, i as int)),
            indices@.len() % 3 == 0,
            forall|k: int| 0 <= k < indices@.len() ==> (#[trigger] indices@[k]) < vertices@.len(),
        decreases faces.len() - i,
    {
        let ghost fs = faces@.subrange(0, i + 1);
        proof {
            assert(fs.drop_last() =~= faces@.subrange(0, i as int));
        }
        match &faces[i] {
            Some(f) => {
                let ghost old_v = vertices@;
                let ghost old_i = indices@;
                let added = append_face(&mut vertices, &mut indices, f);
                proof {
                    if added {
                        lemma_face_corners_triples(*f);
                        let cs = shifted(face_corners(*f), old_v.len() as int);
                        assert(as_ints(indices@).len() == indices@.len());
                        assert forall|k: int| 0 <= k < indices@.len() implies (#[trigger] indices@[k])
                            < vertices@.len() by {
                            assert(as_ints(indices@)[k] == indices@[k] as int);
                            if k >= old_i.len() {
                                assert(as_ints(indices@)[k] == cs[k - old_i.len()]);
                            } else {
                                assert(as_ints(indices@)[k] == as_ints(old_i)[k]);
                            }
                        }
                    }
                }
            },
            None => {},
        }
        i = i + 1;
    }
    assert(faces@.subrange(0, i as int) =~= faces@);
    if vertices.len() > 0 && indices.len() > 0 {
        let p = RenderablePart { vertices, indices, model_matrix: identity_matrix(), color, visible: true };
        proof {
            let is = shell_geometry(faces@).1;
            assert(p.indices@ =~= is.map_values(|c: int| c as u32)) by {
                assert forall|k: int| 0 <= k < is.len() implies p.indices@[k] == is[k] as u32 by {
                    assert(as_ints(p.indices@)[k] == p.indices@[k] as int);
                }
            }
        }
        Some(p)
    } else {
        None
    }
}

/// The faces of each shell as mathematical values; `None` stands for a shell
/// that could not be prepared for triangulation.
pub open spec fn shells_view(shells: Seq<Option<Vec<Option<FaceMesh>>>>) -> Seq<Option<Seq<Option<FaceMesh>>>> {
    shells.map_values(
        |s: Option<Vec<Option<FaceMesh>>>|
            match s {
                Some(v) => Some(v@),
                None => None,
            },
    )
}

/// The parts that a sequence of shells gives, in shell order: a shell that
/// failed or gives no geometry is skipped, and each part takes the palette
/// entry of the number of parts before it.
pub open spec fn assembled(shells: Seq<Option<Seq<Option<FaceMesh>>>>) -> Seq<PartView>
    decreases shells.len(),
{
    if shells.len() == 0 {
        Seq::empty()
    } else {
        let prev = assembled(shells.drop_last());
        match shells.last() {
            Some(fs) => match shell_part(fs, prev.len() % (PALETTE_LEN as nat)) {
                Some(p) => prev.push(p),
                None => prev,
            },
            None => prev,
        }
    }
}

pub open spec fn parts_view(parts: Seq<RenderablePart>) -> Seq<PartView> {
    parts.map_values(|p: RenderablePart| p@)
}

/// Every part is well formed, holds geometry, and is colored by its position.
pub open spec fn parts_wf(ps: Seq<PartView>) -> bool {
    forall|k: int|
        0 <= k < ps.len() ==> {
            &&& part_wf(#[trigger] ps[k])
            &&& ps[k].vertices.len() > 0
            &&& ps[k].indices.len() > 0
            &&& ps[k].color == k % (PALETTE_LEN as int)
            &&& ps[k].visible
            &&& ps[k].model_matrix == identity_bits()
        }
}

/// Any sequence of shells assembles into well-formed parts.
pub proof fn lemma_assembled_wf(shells: Seq<Option<Seq<Option<FaceMesh>>>>)
    ensures
        parts_wf(assembled(shells)),
    decreases shells.len(),
{
    if shells.len() > 0 {
        lemma_assembled_wf(shells.drop_last());
        let prev = assembled(shells.drop_last());
        if let Some(fs) = shells.last() {
            if let Some(p) = shell_part(fs, prev.len() % (PALETTE_LEN as nat)) {
                lemma_shell_part_wf(fs, prev.len() % (PALETTE_LEN as nat));
                let r = prev.push(p);
                assert forall|k: int| 0 <= k < r.len() implies {
                    &&& part_wf(#[trigger] r[k])
                    &&& r[k].vertices.len() > 0
                    &&& r[k].indices.len() > 0
                    &&& r[k].color == k % (PALETTE_LEN as int)
                    &&& r[k].visible
                    &&& r[k].model_matrix == identity_bits()
                } by {
                    if k < prev.len() {
                        assert(r[k] == prev[k]);
                    }
                }
            }
        }
    }
}

/// A part built from a shell is well formed.
pub proof fn lemma_shell_part_wf(faces: Seq<Option<FaceMesh>>, color: nat)
    requires
        shell_part(faces, color).is_some(),
    ensures
        part_wf(shell_part(faces, color)->Some_0),
    decreases faces.len(),
{
    lemma_shell_geometry_wf(faces);
    let (vs, is) = shell_geometry(faces);
    let p = shell_part(faces, color)->Some_0;
    assert forall|k: int| 0 <= k < p.indices.len() implies (#[trigger] p.indices[k]) < p.vertices.len() by {
        assert(0 <= is[k] < vs.len());
    }
}

/// The indices of a shell's geometry are whole triangles naming its vertices,
/// and all fit in 32 bits.
pub proof fn lemma_shell_geometry_wf(faces: Seq<Option<FaceMesh>>)
    ensures
        shell_geometry(faces).1.len() % 3 == 0,
        shell_geometry(faces).0.len() <= 0x1_0000_0000,
        forall|k: int|
            0 <= k < shell_geometry(faces).1.len() ==> 0 <= #[trigger] shell_geometry(faces).1[k]
                < shell_geometry(faces).0.len(),
    decreases faces.len(),
{
    if faces.len() > 0 {
        lemma_shell_geometry_wf(faces.drop_last());
        let (vs, is) = shell_geometry(faces.drop_last());
        if let Some(f) = faces.last() {
            if face_fits(f, vs.len() as int) {
                lemma_face_corners_triples(f);
                let cs = shifted(face_corners(f), vs.len() as int);
                let r = is + cs;
                assert forall|k: int| 0 <= k < r.len() implies 0 <= #[trigger] r[k] < vs.len()
                    + face_vertices(f).len() by {
                    if k >= is.len() {
                        assert(r[k] == cs[k - is.len()]);
                    } else {
                        assert(r[k] == is[k]);
                    }
                }
            }
        }
    }
}

/// Assembles the parts of a sequence of triangulated shells.
pub fn assemble_parts(shells: &Vec<Option<Vec<Option<FaceMesh>>>>) -> (r: Vec<RenderablePart>)
    ensures
        parts_view(r@) == assembled(shells_view(shells@)),
        parts_wf(parts_view(r@)),
{
    let mut parts: Vec<RenderablePart> = Vec::new();
    let mut i: usize = 0;
    while i < shells.len()
        invariant
            i <= shells.len(),
            parts_view(parts@) == assembled(shells_view(shells@.subrange(0, i as int))),
        decreases shells.len() - i,
    {
        proof {
            let ss = shells_view(shells@.subrange(0, i + 1));
            assert(ss.drop_last() =~= shells_view(shells@.subrange(0, i as int)));
        }
        match &shells[i] {
            Some(faces) => {
                let color = parts.len() % PALETTE_LEN;
                match build_shell_part(faces, color) {
                    Some(p) => {
                        parts.push(p);
                        assert(parts_view(parts@) =~= assembled(shells_view(shells@.subrange(0, i + 1))));
                    },
                    None => {},
                }
            },
            None => {},
        }
        i = i + 1;
    }
    assert(shells@.subrange(0, i as int) =~= shells@);
    proof {
        lemma_assembled_wf(shells_view(shells@));
    }
    parts
}

/// A shell whose faces give no index adds no part.
pub proof fn lemma_empty_shell_adds_no_part(
    shells: Seq<Option<Seq<Option<FaceMesh>>>>,
    faces: Seq<Option<FaceMesh>>,
)
    requires
        shell_geometry(faces).1.len() == 0,
    ensures
        assembled(shells.push(Some(faces))) == assembled(shells),
{
    assert(shells.push(Some(faces)).drop_last() =~= shells);
}

/// Each triangle of `a` with its second and third corners swapped.
pub open spec fn flip_each(a: Seq<int>) -> Seq<int>
    decreases a.len(),
{
    if a.len() < 3 {
        a
    } else {
        let n = a.len() as int;
        flip_each(a.subrange(0, n - 3)) + seq![a[n - 3], a[n - 1], a[n - 2]]
    }
}

/// The face as stored with the given orientation flag.
pub open spec fn with_reversed(f: FaceMesh, reversed: bool) -> FaceMesh {
    FaceMesh { reversed, ..f }
}

proof fn lemma_flip_each_concat(a: Seq<int>, b: Seq<int>)
    requires
        a.len() % 3 == 0,
        b.len() % 3 == 0,
    ensures
        flip_each(a + b) == flip_each(a) + flip_each(b),
    decreases b.len(),
{
    if b.len() == 0 {
        assert(a + b =~= a);
        assert(flip_each(a) + flip_each(b) =~= flip_each(a));
    } else {
        let n = b.len() as int;
        let c = b.subrange(0, n - 3);
        lemma_flip_each_concat(a, c);
        let ab = a + b;
        let m = ab.len() as int;
        assert(ab.subrange(0, m - 3) =~= a + c);
        assert(flip_each(ab) == flip_each(a + c) + seq![ab[m - 3], ab[m - 1], ab[m - 2]]);
        assert(flip_each(b) == flip_each(c) + seq![b[n - 3], b[n - 1], b[n - 2]]);
        assert(flip_each(ab) =~= flip_each(a) + flip_each(b));
    }
}

proof fn lemma_flip_triple(a: Seq<int>, x: int, y: int, z: int)
    requires
        a.len() % 3 == 0,
    ensures
        flip_each(a + seq![x, y, z]) == flip_each(a) + seq![x, z, y],
{
    let b = a + seq![x, y, z];
    let n = b.len() as int;
    assert(b.subrange(0, n - 3) =~= a);
}

proof fn lemma_tris_flipped(ts: Seq<[usize; 3]>)
    ensures
        tris_corners(ts, true) == flip_each(tris_corners(ts, false)),
        tris_corners(ts, false).len() % 3 == 0,
    decreases ts.len(),
{
    lemma_tris_corners_len(ts, false);
    if ts.len() > 0 {
        lemma_tris_flipped(ts.drop_last());
        let t = ts.last();
        lemma_flip_triple(tris_corners(ts.drop_last(), false), t[0] as int, t[1] as int, t[2] as int);
    }
}

proof fn lemma_quads_flipped(qs: Seq<[usize; 4]>)
    ensures
        quads_corners(qs, true) == flip_each(quads_corners(qs, false)),
        quads_corners(qs, false).len() % 3 == 0,
    decreases qs.len(),
{
    lemma_quads_corners_len(qs, false);
    if qs.len() > 0 {
        let prev = qs.drop_last();
        lemma_quads_flipped(prev);
        lemma_quads_corners_len(prev, false);
        let q = qs.last();
        let a = quads_corners(prev, false);
        let first = a + seq![q[0] as int, q[1] as int, q[2] as int];
        lemma_flip_triple(a, q[0] as int, q[1] as int, q[2] as int);
        lemma_flip_triple(first, q[0] as int, q[2] as int, q[3] as int);
        assert(quads_corners(qs, false) =~= first + seq![q[0] as int, q[2] as int, q[3] as int]);
        assert(quads_corners(qs, true) =~= flip_each(a) + seq![q[0] as int, q[2] as int, q[1] as int]
            + seq![q[0] as int, q[3] as int, q[2] as int]);
    }
}

/// The same triangulation stored as reversed gives every triangle with its
/// winding inverted, over the same vertex positions.
pub proof fn lemma_reversed_face_flips_winding(f: FaceMesh)
    ensures
        face_corners(with_reversed(f, true)) == flip_each(face_corners(with_reversed(f, false))),
        vertex_count(with_reversed(f, true)) == vertex_count(with_reversed(f, false)),
        forall|i: int|
            0 <= i < vertex_count(f) ==> (#[trigger] face_vertices(with_reversed(f, true))[i]).position
                == face_vertices(with_reversed(f, false))[i].position,
{
    lemma_tris_flipped(f.triangles@);
    lemma_quads_flipped(f.quads@);
    lemma_flip_each_concat(tris_corners(f.triangles@, false), quads_corners(f.quads@, false));
}

} // verus!
