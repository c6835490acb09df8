use stepviz::mesh::{build_shell_part, FaceMesh, RenderablePart};
use stepviz::model::{
    file_too_large, index_with_opened, index_with_selected, index_without, part_totals,
    set_all_visibility, set_part_visibility, FileIndexItem, MAX_FILE_BYTES,
};

fn item(id: &str, name: &str) -> FileIndexItem {
    FileIndexItem { id: id.to_string(), name: name.to_string(), entity_count: 1, time_stamp: String::new() }
}

fn ids(list: &[FileIndexItem]) -> Vec<&str> {
    list.iter().map(|i| i.id.as_str()).collect()
}

fn part(triangles: usize) -> RenderablePart {
    let f = FaceMesh {
        positions: vec![[0, 0, 0]; 3],
        normals: vec![[0, 0, 0]; 3],
        triangles: vec![[0, 1, 2]; triangles],
        quads: vec![],
        reversed: false,
    };
    build_shell_part(&vec![Some(f)], 0).unwrap()
}

#[test]
fn opened_file_goes_first_once() {
    let list = vec![item("a", "A"), item("b", "B"), item("a", "old A")];
    let r = index_with_opened(list, item("a", "new A"));
    assert_eq!(ids(&r), vec!["a", "b"]);
    assert_eq!(r[0].name, "new A");
}

#[test]
fn selected_file_moves_first() {
    let list = vec![item("a", "A"), item("b", "B"), item("c", "C")];
    assert_eq!(ids(&index_with_selected(list.clone(), &"c".to_string())), vec!["c", "a", "b"]);
    assert_eq!(ids(&index_with_selected(list, &"x".to_string())), vec!["a", "b", "c"]);
}

#[test]
fn deleted_file_leaves_list() {
    let list = vec![item("a", "A"), item("b", "B")];
    assert_eq!(ids(&index_without(list, &"a".to_string())), vec!["b"]);
}

#[test]
fn totals_of_parts() {
    let parts = vec![part(2), part(1)];
    assert_eq!(part_totals(&parts), (6, 3));
    assert_eq!(part_totals(&vec![]), (0, 0));
}

#[test]
fn visibility_of_one_and_all() {
    let mut parts = vec![part(1), part(1)];
    assert!(set_part_visibility(&mut parts, 1, false));
    assert!(parts[0].visible && !parts[1].visible);
    assert!(!set_part_visibility(&mut parts, 2, false));
    set_all_visibility(&mut parts, false);
    assert!(parts.iter().all(|p| !p.visible));
    set_all_visibility(&mut parts, true);
    assert!(parts.iter().all(|p| p.visible));
}

#[test]
fn file_size_limit() {
    assert_eq!(MAX_FILE_BYTES, 20 * 1024 * 1024);
    assert!(!file_too_large(MAX_FILE_BYTES));
    assert!(file_too_large(MAX_FILE_BYTES + 1));
    assert!(!file_too_large(0));
}
