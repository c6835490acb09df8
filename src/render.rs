//! The decisions of graphics setup and of a frame that need no floating
//! point: the order of setup steps and their errors, the surface size, and
//! which parts a frame draws.

use vstd::prelude::*;
use vstd::string::StringExecFns;
use crate::mesh::{parts_view, PartView, RenderablePart};

verus! {

/// What can go wrong while acquiring the device or drawing a frame.
#[derive(Clone, Copy, Debug, PartialEq, Eq, Structural)]
pub enum GpuError {
    SurfaceCreationFailed,
    AdapterUnavailable,
    DeviceRequestFailed,
    SurfaceFrameUnavailable,
}

/// The step of graphics setup that runs next.
#[derive(Clone, Copy, Debug, PartialEq, Eq, Structural)]
pub enum SetupStep {
    CreateSurface,
    RequestAdapter,
    RequestDevice,
    ConfigureSurface,
}

/// The state of the graphics context of one canvas.
#[derive(Clone, Copy, Debug, PartialEq, Eq, Structural)]
pub enum GpuState {
    Uninitialized,
    Pending(SetupStep),
    Ready,
    Failed(GpuError),
}

/// The state after the current step ends, well or not: steps run in order,
/// the first failure is final, and after the surface is configured the
/// context is ready. Only `Uninitialized` starts setup.
pub open spec fn next_state(state: GpuState, succeeded: bool) -> GpuState {
    match state {
        GpuState::Uninitialized => GpuState::Pending(SetupStep::CreateSurface),
        GpuState::Pending(step) => match step {
            SetupStep::CreateSurface => if succeeded {
                GpuState::Pending(SetupStep::RequestAdapter)
            } else {
                GpuState::Failed(GpuError::SurfaceCreationFailed)
            },
            SetupStep::RequestAdapter => if succeeded {
                GpuState::Pending(SetupStep::RequestDevice)
            } else {
                GpuState::Failed(GpuError::AdapterUnavailable)
            },
            SetupStep::RequestDevice => if succeeded {
                GpuState::Pending(SetupStep::ConfigureSurface)
            } else {
                GpuState::Failed(GpuError::DeviceRequestFailed)
            },
            SetupStep::ConfigureSurface => GpuState::Ready,
        },
        other => other,
    }
}

/// Advances graphics setup by one step.
pub fn setup_advance(state: GpuState, succeeded: bool) -> (r: GpuState)
    ensures
        r == next_state(state, succeeded),
{
    match state {
        GpuState::Uninitialized => GpuState::Pending(SetupStep::CreateSurface),
        GpuState::Pending(step) => match step {
            SetupStep::CreateSurface => if succeeded {
                GpuState::Pending(SetupStep::RequestAdapter)
            } else {
                GpuState::Failed(GpuError::SurfaceCreationFailed)
            },
            SetupStep::RequestAdapter => if succeeded {
                GpuState::Pending(SetupStep::RequestDevice)
            } else {
                GpuState::Failed(GpuError::AdapterUnavailable)
            },
            SetupStep::RequestDevice => if succeeded {
                GpuState::Pending(SetupStep::ConfigureSurface)
            } else {
                GpuState::Failed(GpuError::DeviceRequestFailed)
            },
            SetupStep::ConfigureSurface => GpuState::Ready,
        },
        other => other,
    }
}

/// The words that open the message of each error.
pub open spec fn error_prefix(e: GpuError) -> Seq<char> {
    match e {
        GpuError::SurfaceCreationFailed => "Failed to create WebGPU surface: "@,
        GpuError::AdapterUnavailable => "Failed to request WebGPU adapter: "@,
        GpuError::DeviceRequestFailed => "Failed to request adapter device: "@,
        GpuError::SurfaceFrameUnavailable => "Failed to acquire swap chain texture: "@,
    }
}

/// The message shown for an error, followed by what the driver said.
pub fn error_message(e: GpuError, detail: &str) -> (r: String)
    ensures
        r@ == error_prefix(e) + detail@,
{
    let mut m = match e {
        GpuError::SurfaceCreationFailed => String::from_str("Failed to create WebGPU surface: "),
        GpuError::AdapterUnavailable => String::from_str("Failed to request WebGPU adapter: "),
        GpuError::DeviceRequestFailed => String::from_str("Failed to request adapter device: "),
        GpuError::SurfaceFrameUnavailable => String::from_str("Failed to acquire swap chain texture: "),
    };
    m.append(detail);
    m
}

/// A canvas dimension as a surface dimension: at least one pixel.
pub open spec fn surface_dim(d: i32) -> u32 {
    if d < 1 {
        1
    } else {
        d as u32
    }
}

/// The surface size for a canvas of the given client size.
pub fn surface_extent(width: i32, height: i32) -> (r: (u32, u32))
    ensures
        r == (surface_dim(width), surface_dim(height)),
        r.0 >= 1 && r.1 >= 1,
{
    let w: u32 = if width < 1 { 1 } else { width as u32 };
    let h: u32 = if height < 1 { 1 } else { height as u32 };
    (w, h)
}

/// Whether a frame draws a part: it is visible and has indices.
pub open spec fn drawn(p: PartView) -> bool {
    p.visible && p.indices.len() > 0
}

/// The positions of the parts a frame draws, in order.
pub open spec fn drawn_positions(ps: Seq<PartView>) -> Seq<usize>
    decreases ps.len(),
{
    if ps.len() == 0 {
        Seq::empty()
    } else if drawn(ps.last()) {
        drawn_positions(ps.drop_last()).push((ps.len() - 1) as usize)
    } else {
        drawn_positions(ps.drop_last())
    }
}

/// The positions of the parts a frame draws.
pub fn drawable_parts(parts: &Vec<RenderablePart>) -> (r: Vec<usize>)
    ensures
        r@ == drawn_positions(parts_view(parts@)),
{
    let mut out: Vec<usize> = Vec::new();
    let mut i: usize = 0;
    while i < parts.len()
        invariant
            i <= parts.len(),
            out@ == drawn_positions(parts_view(parts@.subrange(0, i as int))),
        decreases parts.len() - i,
    {
        proof {
            let ps = parts_view(parts@.subrange(0, i + 1));
            assert(ps.drop_last() =~= parts_view(parts@.subrange(0, i as int)));
            assert(ps.last() == parts@[i as int]@);
        }
        if parts[i].visible && parts[i].indices.len() > 0 {
            out.push(i);
        }
        i = i + 1;
    }
    assert(parts@.subrange(0, i as int) =~= parts@);
    out
}

} // verus!
