use stepviz::mesh::{build_shell_part, FaceMesh};
use stepviz::render::{
    drawable_parts, error_message, setup_advance, surface_extent, GpuError, GpuState, SetupStep,
};

#[test]
fn setup_runs_steps_in_order() {
    let mut s = GpuState::Uninitialized;
    s = setup_advance(s, true);
    assert_eq!(s, GpuState::Pending(SetupStep::CreateSurface));
    s = setup_advance(s, true);
    assert_eq!(s, GpuState::Pending(SetupStep::RequestAdapter));
    s = setup_advance(s, true);
    assert_eq!(s, GpuState::Pending(SetupStep::RequestDevice));
    s = setup_advance(s, true);
    assert_eq!(s, GpuState::Pending(SetupStep::ConfigureSurface));
    s = setup_advance(s, true);
    assert_eq!(s, GpuState::Ready);
    assert_eq!(setup_advance(s, false), GpuState::Ready);
}

#[test]
fn each_step_has_its_error() {
    let fail = |step| setup_advance(GpuState::Pending(step), false);
    assert_eq!(fail(SetupStep::CreateSurface), GpuState::Failed(GpuError::SurfaceCreationFailed));
    assert_eq!(fail(SetupStep::RequestAdapter), GpuState::Failed(GpuError::AdapterUnavailable));
    assert_eq!(fail(SetupStep::RequestDevice), GpuState::Failed(GpuError::DeviceRequestFailed));
    let failed = GpuState::Failed(GpuError::AdapterUnavailable);
    assert_eq!(setup_advance(failed, true), failed);
}

#[test]
fn error_messages() {
    assert_eq!(error_message(GpuError::SurfaceCreationFailed, "x"), "Failed to create WebGPU surface: x");
    assert_eq!(error_message(GpuError::AdapterUnavailable, "y"), "Failed to request WebGPU adapter: y");
    assert_eq!(error_message(GpuError::DeviceRequestFailed, ""), "Failed to request adapter device: ");
    assert_eq!(
        error_message(GpuError::SurfaceFrameUnavailable, "lost"),
        "Failed to acquire swap chain texture: lost"
    );
}

#[test]
fn surface_is_at_least_one_pixel() {
    assert_eq!(surface_extent(0, -5), (1, 1));
    assert_eq!(surface_extent(640, 480), (640, 480));
}

#[test]
fn hidden_parts_are_not_drawn() {
    let f = FaceMesh {
        positions: vec![[0, 0, 0]; 3],
        normals: vec![[0, 0, 0]; 3],
        triangles: vec![[0, 1, 2]],
        quads: vec![],
        reversed: false,
    };
    let p = build_shell_part(&vec![Some(f)], 0).unwrap();
    let mut hidden = p.clone();
    hidden.visible = false;
    let mut empty = p.clone();
    empty.indices.clear();
    let parts = vec![p.clone(), hidden, empty, p];
    assert_eq!(drawable_parts(&parts), vec![0, 3]);
}
