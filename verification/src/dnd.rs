//! Types related to drag-and-drop: what is dragged, where it may be dropped,
//! and the mime types under which drags are offered and accepted.
//!
//! The mime types hold the process id, so that drags between this
//! program's surfaces are accepted but drags from another process are not.

use vstd::prelude::*;

use crate::backend::{WlOutput, ZcosmicToplevelHandleV1, ZcosmicWorkspaceHandleV1};
use crate::decimal::{decimal, push_decimal};

verus! {

/// The surface that is being dragged.
#[derive(Clone, Copy, Debug, PartialEq, Eq, Structural)]
pub enum DragSurface {
    Workspace(ZcosmicWorkspaceHandleV1),
    Toplevel(ZcosmicToplevelHandleV1),
}

/// Mime type of a dragged toplevel for process `pid`.
pub open spec fn toplevel_mime(pid: u32) -> Seq<char> {
    "text/x.cosmic-toplevel-id-"@ + decimal(pid as nat)
}

/// Mime type of a dragged workspace for process `pid`.
pub open spec fn workspace_mime(pid: u32) -> Seq<char> {
    "text/x.cosmic-workspace-id-"@ + decimal(pid as nat)
}

/// A toplevel drag is never taken for a workspace drag: the two mime types
/// of a process differ.
pub proof fn lemma_mime_types_differ(pid: u32)
    ensures
        toplevel_mime(pid) != workspace_mime(pid),
{
    reveal_strlit("text/x.cosmic-toplevel-id-");
    reveal_strlit("text/x.cosmic-workspace-id-");
    assert(toplevel_mime(pid)[14] == 't');
    assert(workspace_mime(pid)[14] == 'w');
}

/// Drags of another process are not accepted: processes with different
/// ids have different mime types.
pub proof fn lemma_mime_types_are_per_process(pid1: u32, pid2: u32)
    requires
        pid1 != pid2,
    ensures
        toplevel_mime(pid1) != toplevel_mime(pid2),
        workspace_mime(pid1) != workspace_mime(pid2),
{
    let tp = "text/x.cosmic-toplevel-id-"@;
    let wp = "text/x.cosmic-workspace-id-"@;
    if toplevel_mime(pid1) == toplevel_mime(pid2) {
        assert(toplevel_mime(pid1).subrange(tp.len() as int, toplevel_mime(pid1).len() as int)
            =~= decimal(pid1 as nat));
        assert(toplevel_mime(pid2).subrange(tp.len() as int, toplevel_mime(pid2).len() as int)
            =~= decimal(pid2 as nat));
        crate::decimal::lemma_decimal_injective(pid1 as nat, pid2 as nat);
    }
    if workspace_mime(pid1) == workspace_mime(pid2) {
        assert(workspace_mime(pid1).subrange(wp.len() as int, workspace_mime(pid1).len() as int)
            =~= decimal(pid1 as nat));
        assert(workspace_mime(pid2).subrange(wp.len() as int, workspace_mime(pid2).len() as int)
            =~= decimal(pid2 as nat));
        crate::decimal::lemma_decimal_injective(pid1 as nat, pid2 as nat);
    }
}

/// The mime types of this process's drags.
#[derive(Debug)]
pub struct DndMimeTypes {
    pid: u32,
    toplevel: String,
    workspace: String,
}

impl DndMimeTypes {
    /// Process id whose mime types these are.
    pub closed spec fn pid(&self) -> u32 {
        self.pid
    }

    /// Mime type of a dragged toplevel.
    pub closed spec fn toplevel(&self) -> Seq<char> {
        self.toplevel@
    }

    /// Mime type of a dragged workspace.
    pub closed spec fn workspace(&self) -> Seq<char> {
        self.workspace@
    }

    pub closed spec fn wf(&self) -> bool {
        &&& self.toplevel@ == toplevel_mime(self.pid)
        &&& self.workspace@ == workspace_mime(self.pid)
    }

    /// The mime types of the process with id `pid`.
    pub fn new(pid: u32) -> (r: Self)
        ensures
            r.wf(),
            r.pid() == pid,
            r.toplevel() == toplevel_mime(pid),
            r.workspace() == workspace_mime(pid),
    {
        let mut toplevel = String::from_str("text/x.cosmic-toplevel-id-");
        push_decimal(&mut toplevel, pid as u64);
        let mut workspace = String::from_str("text/x.cosmic-workspace-id-");
        push_decimal(&mut workspace, pid as u64);
        DndMimeTypes { pid, toplevel, workspace }
    }

    /// Whether `mime_type` is the toplevel mime type.
    fn is_toplevel(&self, mime_type: &String) -> (r: bool)
        ensures
            r == (mime_type@ == self.toplevel()),
    {
        *mime_type == self.toplevel
    }

    /// Whether `mime_type` is the workspace mime type.
    fn is_workspace(&self, mime_type: &String) -> (r: bool)
        ensures
            r == (mime_type@ == self.workspace()),
    {
        *mime_type == self.workspace
    }

    fn toplevel_string(&self) -> (r: String)
        ensures
            r@ == self.toplevel(),
    {
        self.toplevel.clone()
    }

    fn workspace_string(&self) -> (r: String)
        ensures
            r@ == self.workspace(),
    {
        self.workspace.clone()
    }
}

/// A workspace drag is recognized as one: for the mime types of a
/// process, the workspace mime type is not the toplevel one, so the
/// toplevel test of `Drag::try_from` does not catch it.
pub proof fn lemma_workspace_drag_recognized(mimes: &DndMimeTypes)
    requires
        mimes.wf(),
    ensures
        mimes.workspace() != mimes.toplevel(),
{
    lemma_mime_types_differ(mimes.pid());
}

/// Content of a dragged toplevel.
#[derive(Clone, Copy, Debug)]
pub struct DragToplevel {}

impl DragToplevel {
    /// Mime types the drag is offered as: the toplevel mime type.
    pub fn available(&self, mimes: &DndMimeTypes) -> (r: Vec<String>)
        ensures
            r@.len() == 1,
            r@[0]@ == mimes.toplevel(),
    {
        let mut v = Vec::new();
        v.push(mimes.toplevel_string());
        v
    }

    /// The drag's data as `mime_type`: empty for the toplevel mime type,
    /// none for any other.
    pub fn as_bytes(&self, mime_type: &str, mimes: &DndMimeTypes) -> (r: Option<Vec<u8>>)
        ensures
            r is Some <==> mime_type@ == mimes.toplevel(),
            r matches Some(b) ==> b@.len() == 0,
    {
        let m = mime_type.to_owned();
        if mimes.is_toplevel(&m) {
            Some(Vec::new())
        } else {
            None
        }
    }

    /// Mime types a drop target accepts: the toplevel mime type.
    pub fn allowed(mimes: &DndMimeTypes) -> (r: Vec<String>)
        ensures
            r@.len() == 1,
            r@[0]@ == mimes.toplevel(),
    {
        let mut v = Vec::new();
        v.push(mimes.toplevel_string());
        v
    }

    /// Accepts dropped data of the toplevel mime type.
    pub fn try_from(data: (Vec<u8>, String), mimes: &DndMimeTypes) -> (r: Result<Self, ()>)
        ensures
            r is Ok <==> data.1@ == mimes.toplevel(),
    {
        let (_bytes, mime_type) = data;
        if mimes.is_toplevel(&mime_type) {
            Ok(DragToplevel {})
        } else {
            Err(())
        }
    }
}

/// Content of a dragged workspace.
#[derive(Clone, Copy, Debug)]
pub struct DragWorkspace {}

impl DragWorkspace {
    /// Mime types the drag is offered as: the workspace mime type.
    pub fn available(&self, mimes: &DndMimeTypes) -> (r: Vec<String>)
        ensures
            r@.len() == 1,
            r@[0]@ == mimes.workspace(),
    {
        let mut v = Vec::new();
        v.push(mimes.workspace_string());
        v
    }

    /// The drag's data as `mime_type`: empty for the workspace mime type,
    /// none for any other.
    pub fn as_bytes(&self, mime_type: &str, mimes: &DndMimeTypes) -> (r: Option<Vec<u8>>)
        ensures
            r is Some <==> mime_type@ == mimes.workspace(),
            r matches Some(b) ==> b@.len() == 0,
    {
        let m = mime_type.to_owned();
        if mimes.is_workspace(&m) {
            Some(Vec::new())
        } else {
            None
        }
    }

    /// Mime types a drop target accepts: the workspace mime type.
    pub fn allowed(mimes: &DndMimeTypes) -> (r: Vec<String>)
        ensures
            r@.len() == 1,
            r@[0]@ == mimes.workspace(),
    {
        let mut v = Vec::new();
        v.push(mimes.workspace_string());
        v
    }

    /// Accepts dropped data of the workspace mime type.
    pub fn try_from(data: (Vec<u8>, String), mimes: &DndMimeTypes) -> (r: Result<Self, ()>)
        ensures
            r is Ok <==> data.1@ == mimes.workspace(),
    {
        let (_bytes, mime_type) = data;
        if mimes.is_workspace(&mime_type) {
            Ok(DragWorkspace {})
        } else {
            Err(())
        }
    }
}

/// Either kind of drag.
#[derive(Clone, Copy, Debug, PartialEq, Eq, Structural)]
pub enum Drag {
    Toplevel,
    Workspace,
}

impl Drag {
    /// Mime types a drop target for either kind accepts: the toplevel, then
    /// the workspace mime type.
    pub fn allowed(mimes: &DndMimeTypes) -> (r: Vec<String>)
        ensures
            r@.len() == 2,
            r@[0]@ == mimes.toplevel(),
            r@[1]@ == mimes.workspace(),
    {
        let mut v = Vec::new();
        v.push(mimes.toplevel_string());
        v.push(mimes.workspace_string());
        v
    }

    /// Tells the kind of dropped data by its mime type.
    pub fn try_from(data: (Vec<u8>, String), mimes: &DndMimeTypes) -> (r: Result<Self, ()>)
        ensures
            data.1@ == mimes.toplevel() ==> r == Ok::<Drag, ()>(Drag::Toplevel),
            data.1@ != mimes.toplevel() && data.1@ == mimes.workspace() ==> r == Ok::<Drag, ()>(Drag::Workspace),
            data.1@ != mimes.toplevel() && data.1@ != mimes.workspace() ==> r == Err::<Drag, ()>(()),
    {
        let (_bytes, mime_type) = data;
        if mimes.is_toplevel(&mime_type) {
            Ok(Drag::Toplevel)
        } else if mimes.is_workspace(&mime_type) {
            Ok(Drag::Workspace)
        } else {
            Err(())
        }
    }
}

/// A place where a drag can be dropped.
#[derive(Clone, Copy, Debug, PartialEq, Eq, Structural)]
pub enum DropTarget {
    WorkspaceSidebarEntry(ZcosmicWorkspaceHandleV1, WlOutput),
    OutputToplevels(ZcosmicWorkspaceHandleV1, WlOutput),
    WorkspacesBar(WlOutput),
}

/// The code that identifies a drop area: the target's kind in the bits
/// above 32, or-ed with the identity of the object it is keyed by.
pub open spec fn drag_id_of(kind: u8, id: u64) -> u64 {
    ((kind as u64) << 32u64) | id
}

impl DropTarget {
    /// Index of the target's kind: 0, 1 or 2 in declaration order.
    pub open spec fn kind(&self) -> u8 {
        match self {
            DropTarget::WorkspaceSidebarEntry(..) => 0,
            DropTarget::OutputToplevels(..) => 1,
            DropTarget::WorkspacesBar(..) => 2,
        }
    }

    /// Identity the target is keyed by: the workspace of a sidebar entry,
    /// otherwise the output.
    pub open spec fn key(&self) -> usize {
        match self {
            DropTarget::WorkspaceSidebarEntry(workspace, _output) => workspace.0.0,
            DropTarget::OutputToplevels(_workspace, output) => output.0.0,
            DropTarget::WorkspacesBar(output) => output.0.0,
        }
    }

    /// Encodes the target as a `u64`, to associate a drag destination area
    /// with its widget.
    pub fn drag_id(&self) -> (r: u64)
        ensures
            r == drag_id_of(self.kind(), self.key() as u64),
    {
        let (kind, id): (u8, usize) = match self {
            DropTarget::WorkspaceSidebarEntry(workspace, _output) => (0, workspace.0.0),
            DropTarget::OutputToplevels(_workspace, output) => (1, output.0.0),
            DropTarget::WorkspacesBar(output) => (2, output.0.0),
        };
        ((kind as u64) << 32u64) | (id as u64)
    }
}

/// A drag id names the kind of its target and its key, as long as the key
/// is a 32-bit protocol id: the kind is in the bits above 32 and the key
/// below, so two targets of different kinds or keys never share an id.
pub proof fn lemma_drag_id_decodes(kind: u8, id: u64)
    requires
        id < 0x1_0000_0000,
    ensures
        drag_id_of(kind, id) >> 32u64 == kind as u64,
        drag_id_of(kind, id) & 0xffff_ffffu64 == id,
{
    let k = kind as u64;
    assert((((k << 32u64) | id) >> 32u64 == k) && (((k << 32u64) | id) & 0xffff_ffffu64 == id)) by (bit_vector)
        requires
            id < 0x1_0000_0000,
            k < 256,
    ;
}

/// Distinct (kind, 32-bit key) pairs give distinct drag ids.
pub proof fn lemma_drag_id_injective(kind1: u8, id1: u64, kind2: u8, id2: u64)
    requires
        id1 < 0x1_0000_0000,
        id2 < 0x1_0000_0000,
        drag_id_of(kind1, id1) == drag_id_of(kind2, id2),
    ensures
        kind1 == kind2,
        id1 == id2,
{
    lemma_drag_id_decodes(kind1, id1);
    lemma_drag_id_decodes(kind2, id2);
}

} // verus!
