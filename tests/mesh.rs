use std::cell::Cell;

use stepviz::mesh::{
    append_face, assemble_parts, build_shell_part, face_corner_list, identity_matrix, FaceMesh,
    GpuVertex, RenderablePart, PALETTE_LEN,
};
use stepviz::tessellation::{
    clear_cached_parts, drop_cached_parts, step_extract_wsgl_reqs, PartCache, ShellMeshes,
};

fn bits(v: [f32; 3]) -> [u32; 3] {
    [v[0].to_bits(), v[1].to_bits(), v[2].to_bits()]
}

fn square(reversed: bool) -> FaceMesh {
    FaceMesh {
        positions: vec![
            bits([0.0, 0.0, 0.0]),
            bits([1.0, 0.0, 0.0]),
            bits([1.0, 1.0, 0.0]),
            bits([0.0, 1.0, 0.0]),
        ],
        normals: vec![bits([0.0, 0.0, 1.0]); 4],
        triangles: vec![[0, 1, 2], [0, 2, 3]],
        quads: vec![],
        reversed,
    }
}

fn quad_face(reversed: bool) -> FaceMesh {
    FaceMesh { triangles: vec![], quads: vec![[0, 1, 2, 3]], ..square(reversed) }
}

#[test]
fn corners_of_forward_triangles() {
    assert_eq!(face_corner_list(&square(false)), vec![0, 1, 2, 0, 2, 3]);
}

#[test]
fn reversed_triangles_flip_winding() {
    assert_eq!(face_corner_list(&square(true)), vec![0, 2, 1, 0, 3, 2]);
}

#[test]
fn quad_split_on_fixed_diagonal() {
    assert_eq!(face_corner_list(&quad_face(false)), vec![0, 1, 2, 0, 2, 3]);
    assert_eq!(face_corner_list(&quad_face(true)), vec![0, 2, 1, 0, 3, 2]);
}

#[test]
fn triangles_come_before_quads() {
    let f = FaceMesh { quads: vec![[3, 2, 1, 0]], ..square(false) };
    assert_eq!(face_corner_list(&f), vec![0, 1, 2, 0, 2, 3, 3, 2, 1, 3, 1, 0]);
}

#[test]
fn reversed_face_negates_normals() {
    let mut vs = Vec::new();
    let mut is = Vec::new();
    assert!(append_face(&mut vs, &mut is, &square(true)));
    assert_eq!(vs.len(), 4);
    assert_eq!(vs[0].position, bits([0.0, 0.0, 0.0]));
    assert_eq!(vs[0].normal, bits([-0.0, -0.0, -1.0]));
}

#[test]
fn second_face_indices_are_offset() {
    let mut vs = Vec::new();
    let mut is = Vec::new();
    assert!(append_face(&mut vs, &mut is, &square(false)));
    assert!(append_face(&mut vs, &mut is, &square(false)));
    assert_eq!(vs.len(), 8);
    assert_eq!(is, vec![0, 1, 2, 0, 2, 3, 4, 5, 6, 4, 6, 7]);
}

#[test]
fn face_with_out_of_range_index_is_skipped() {
    let mut vs = Vec::new();
    let mut is = Vec::new();
    let bad = FaceMesh { triangles: vec![[0, 1, 4]], ..square(false) };
    assert!(!append_face(&mut vs, &mut is, &bad));
    assert!(vs.is_empty() && is.is_empty());
}

#[test]
fn vertices_pair_positions_with_normals() {
    let mut vs = Vec::new();
    let mut is = Vec::new();
    let f = FaceMesh { normals: vec![bits([0.0, 0.0, 1.0]); 3], triangles: vec![[0, 1, 2]], ..square(false) };
    assert!(append_face(&mut vs, &mut is, &f));
    assert_eq!(vs.len(), 3);
    assert_eq!(
        vs[2],
        GpuVertex { position: bits([1.0, 1.0, 0.0]), normal: bits([0.0, 0.0, 1.0]) }
    );
}

#[test]
fn shell_part_of_square() {
    let p = build_shell_part(&vec![Some(square(false))], 3).unwrap();
    assert_eq!(p.vertices.len(), 4);
    assert_eq!(p.indices, vec![0, 1, 2, 0, 2, 3]);
    assert_eq!(p.color, 3);
    assert!(p.visible);
    assert_eq!(p.model_matrix, identity_matrix());
    assert_eq!(identity_matrix()[0], 1.0f32.to_bits());
    assert_eq!(identity_matrix()[1], 0);
}

#[test]
fn shell_without_indices_gives_no_part() {
    let empty = FaceMesh { triangles: vec![], ..square(false) };
    assert!(build_shell_part(&vec![Some(empty.clone()), None], 0).is_none());
    let shells: ShellMeshes = vec![Some(vec![Some(empty)]), Some(vec![Some(square(false))])];
    let parts = assemble_parts(&shells);
    assert_eq!(parts.len(), 1);
    assert_eq!(parts[0].color, 0);
}

#[test]
fn colors_follow_emitted_parts() {
    let mut shells: ShellMeshes = Vec::new();
    shells.push(Some(vec![Some(square(false))]));
    shells.push(None);
    shells.push(Some(vec![]));
    for _ in 0..PALETTE_LEN {
        shells.push(Some(vec![Some(square(false))]));
    }
    let parts = assemble_parts(&shells);
    assert_eq!(parts.len(), PALETTE_LEN + 1);
    let colors: Vec<usize> = parts.iter().map(|p| p.color).collect();
    assert_eq!(colors, vec![0, 1, 2, 3, 4, 5, 6, 7, 8, 9, 0]);
}

#[test]
fn part_clone_is_equal() {
    let p = build_shell_part(&vec![Some(square(true))], 1).unwrap();
    let q: RenderablePart = p.clone();
    assert_eq!(p, q);
}

fn one_square_model() -> ShellMeshes {
    vec![Some(vec![Some(square(false))])]
}

#[test]
fn second_request_uses_cache() {
    let mut cache = PartCache::new();
    let calls = Cell::new(0);
    let first = step_extract_wsgl_reqs(&mut cache, "m1", || {
        calls.set(calls.get() + 1);
        one_square_model()
    });
    let second = step_extract_wsgl_reqs(&mut cache, "m1", || {
        calls.set(calls.get() + 1);
        one_square_model()
    });
    assert_eq!(calls.get(), 1);
    assert_eq!(cache.builds(), 1);
    assert_eq!(first, second);
    assert_eq!(first.len(), 1);
    assert_eq!(first[0].vertices.len(), 4);
    assert_eq!(first[0].indices.len(), 6);
}

#[test]
fn clearing_cache_rebuilds_same_geometry() {
    let mut cache = PartCache::new();
    let first = step_extract_wsgl_reqs(&mut cache, "m1", one_square_model);
    let second = step_extract_wsgl_reqs(&mut cache, "m1", one_square_model);
    assert_eq!(first, second);
    clear_cached_parts(&mut cache);
    assert_eq!(cache.len(), 0);
    let third = step_extract_wsgl_reqs(&mut cache, "m1", one_square_model);
    assert_eq!(cache.builds(), 2);
    assert_eq!(first, third);
}

#[test]
fn dropping_one_model_keeps_others() {
    let mut cache = PartCache::new();
    step_extract_wsgl_reqs(&mut cache, "a", one_square_model);
    step_extract_wsgl_reqs(&mut cache, "b", Vec::new);
    assert_eq!(cache.len(), 2);
    drop_cached_parts(&mut cache, "a");
    assert_eq!(cache.len(), 1);
    assert!(cache.lookup("a").is_none());
    assert_eq!(cache.lookup("b"), Some(vec![]));
}
