//! The data exchanged with the compositor backend: what it reports about
//! workspaces and toplevels, the captured images, and the commands it is sent.
//!
//! Backend objects are identified by the handles of [`mock`]; a backend that
//! talks to a compositor maps each protocol object to such a handle.

pub mod mock;
pub mod wayland;
pub mod buffer;
pub mod screencopy;
pub mod vulkan;

use vstd::prelude::*;

pub use mock::{WlOutput, ZcosmicToplevelHandleV1, ZcosmicWorkspaceHandleV1};

verus! {

/// A captured image, as far as the logic reads it: its size, and the key
/// under which the frontend keeps the pixel buffer.
#[derive(Clone, Copy, Debug, PartialEq, Eq, Structural)]
pub struct CaptureImage {
    pub width: u32,
    pub height: u32,
    pub buffer: u64,
}

/// State flag of a toplevel window.
#[derive(Clone, Copy, Debug, PartialEq, Eq, Structural)]
pub enum ToplevelState {
    Maximized,
    Minimized,
    Activated,
    Fullscreen,
}

/// What the compositor reports about a toplevel window.
#[derive(Debug)]
pub struct ToplevelInfo {
    pub title: String,
    pub app_id: String,
    pub state: Vec<ToplevelState>,
    pub output: Vec<WlOutput>,
    pub workspace: Vec<ZcosmicWorkspaceHandleV1>,
}

/// State flag of a workspace; `Unknown` holds a value the protocol did not define.
#[derive(Clone, Copy, Debug, PartialEq, Eq, Structural)]
pub enum WorkspaceState {
    Active,
    Urgent,
    Hidden,
    Unknown(u32),
}

/// What the compositor reports about a workspace.
#[derive(Debug)]
pub struct Workspace {
    pub handle: ZcosmicWorkspaceHandleV1,
    pub name: String,
    pub state: Vec<WorkspaceState>,
}

/// Which workspaces and toplevels the backend should capture.
#[derive(Debug)]
pub struct CaptureFilter {
    pub workspaces_on_outputs: Vec<WlOutput>,
    pub toplevels_on_workspaces: Vec<ZcosmicWorkspaceHandleV1>,
}

impl CaptureFilter {
    /// The filter that captures nothing.
    pub fn new() -> (r: Self)
        ensures
            r.workspaces_on_outputs@ == Seq::<WlOutput>::empty(),
            r.toplevels_on_workspaces@ == Seq::<ZcosmicWorkspaceHandleV1>::empty(),
    {
        CaptureFilter { workspaces_on_outputs: Vec::new(), toplevels_on_workspaces: Vec::new() }
    }
}

impl Default for CaptureFilter {
    fn default() -> (r: Self)
        ensures
            r.workspaces_on_outputs@ == Seq::<WlOutput>::empty(),
            r.toplevels_on_workspaces@ == Seq::<ZcosmicWorkspaceHandleV1>::empty(),
    {
        CaptureFilter::new()
    }
}

/// An event from the backend.
#[derive(Debug)]
pub enum Event {
    /// The backend is ready to receive commands.
    CmdSender,
    Workspaces(Vec<(Vec<WlOutput>, Workspace)>),
    WorkspaceCapture(ZcosmicWorkspaceHandleV1, CaptureImage),
    NewToplevel(ZcosmicToplevelHandleV1, ToplevelInfo),
    UpdateToplevel(ZcosmicToplevelHandleV1, ToplevelInfo),
    CloseToplevel(ZcosmicToplevelHandleV1),
    ToplevelCapture(ZcosmicToplevelHandleV1, CaptureImage),
}

/// A command to the backend.
#[derive(Debug)]
pub enum Cmd {
    CaptureFilter(CaptureFilter),
    ActivateToplevel(ZcosmicToplevelHandleV1),
    CloseToplevel(ZcosmicToplevelHandleV1),
    MoveToplevelToWorkspace(ZcosmicToplevelHandleV1, ZcosmicWorkspaceHandleV1, WlOutput),
    MoveWorkspaceBefore(ZcosmicWorkspaceHandleV1, ZcosmicWorkspaceHandleV1),
    MoveWorkspaceAfter(ZcosmicWorkspaceHandleV1, ZcosmicWorkspaceHandleV1),
    ActivateWorkspace(ZcosmicWorkspaceHandleV1),
    SetWorkspacePinned(ZcosmicWorkspaceHandleV1, bool),
}

} // verus!
