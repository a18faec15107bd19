//! The overview's state and how it reacts to messages.
//!
//! [`App::update`] decides, for each message, the next state, the commands
//! sent to the backend and the tasks the frontend runs (creating and
//! destroying layer surfaces, looking up icons). The frontend performs the
//! tasks and hands back what happens as further messages.

use vstd::prelude::*;

use crate::backend::{
    CaptureFilter, CaptureImage, Cmd, Event, ToplevelInfo, WlOutput, Workspace as BackendWorkspace,
    WorkspaceState, ZcosmicToplevelHandleV1, ZcosmicWorkspaceHandleV1,
};
use crate::dnd::{DragSurface, DragToplevel, DropTarget};

verus! {

/// Identity of a layer surface.
#[derive(Clone, Copy, Debug, PartialEq, Eq, Structural, Hash)]
pub struct SurfaceId(pub u64);

/// A layer surface showing the overview on one output.
#[derive(Clone, Copy, Debug, PartialEq, Eq, Structural)]
pub struct LayerSurface {
    pub output: WlOutput,
}

/// An output (monitor) with its name and logical size.
#[derive(Debug)]
pub struct Output {
    pub handle: WlOutput,
    pub name: String,
    pub width: i32,
    pub height: i32,
}

/// A workspace as the overview shows it.
#[derive(Debug)]
pub struct Workspace {
    pub name: String,
    pub img: Option<CaptureImage>,
    pub handle: ZcosmicWorkspaceHandleV1,
    pub outputs: Vec<WlOutput>,
    pub is_active: bool,
}

/// A toplevel window as the overview shows it.
#[derive(Debug)]
pub struct Toplevel {
    pub handle: ZcosmicToplevelHandleV1,
    pub info: ToplevelInfo,
    pub img: Option<CaptureImage>,
    pub icon: Option<String>,
}

/// Arrangement of the workspaces sidebar and the toplevels.
#[derive(Clone, Copy, Debug, PartialEq, Eq, Structural)]
pub enum WorkspaceLayout {
    Vertical,
    Horizontal,
}

/// The overview's own settings.
#[derive(Clone, Copy, Debug, PartialEq, Eq, Structural)]
pub struct CosmicWorkspacesConfig {
    pub show_workspace_number: bool,
    pub show_workspace_name: bool,
}

/// What the windowing system reports about a new or changed output.
#[derive(Debug)]
pub struct OutputInfo {
    pub logical_size: Option<(i32, i32)>,
    pub name: Option<String>,
}

/// A scroll over an output, as far as it selects a workspace: far enough
/// down selects the next workspace, far enough up the previous one.
#[derive(Clone, Copy, Debug, PartialEq, Eq, Structural)]
pub enum ScrollStep {
    Next,
    Previous,
    Neither,
}

/// A message to the overview.
#[derive(Debug)]
pub enum Msg {
    /// An output appeared; `None` when its information is not known yet.
    OutputCreated(WlOutput, Option<OutputInfo>),
    OutputInfoUpdate(WlOutput, OutputInfo),
    OutputRemoved(WlOutput),
    /// The windowing system finished destroying a layer surface.
    LayerDone(SurfaceId),
    Wayland(Event),
    Close,
    ActivateWorkspace(ZcosmicWorkspaceHandleV1),
    CloseWorkspace(ZcosmicWorkspaceHandleV1),
    ActivateToplevel(ZcosmicToplevelHandleV1),
    CloseToplevel(ZcosmicToplevelHandleV1),
    StartDrag(DragSurface),
    DndEnter(DropTarget),
    DndLeave(DropTarget),
    DndWorkspaceDrop(DragToplevel),
    SourceFinished,
    NewWorkspace,
    CompConfig(WorkspaceLayout),
    Config(CosmicWorkspacesConfig),
    /// The icon found for an application id.
    UpdateToplevelIcon(String, Option<String>),
    OnScroll(WlOutput, ScrollStep),
    Ignore,
}

/// Work for the frontend.
#[derive(Debug)]
pub enum Task {
    /// Create a layer surface with this id on this output.
    CreateSurface(SurfaceId, WlOutput),
    /// Destroy the layer surface with this id.
    DestroySurface(SurfaceId),
    /// Look up the icon of this application id, and answer with
    /// `Msg::UpdateToplevelIcon`.
    LoadIcon(String),
}

/// What handling a message produced: commands for the backend, in the
/// order they are sent, and tasks for the frontend.
#[derive(Debug)]
pub struct Update {
    pub cmds: Vec<Cmd>,
    pub tasks: Vec<Task>,
}

/// The overview's state.
#[derive(Debug)]
pub struct App {
    pub layer_surfaces: Vec<(SurfaceId, LayerSurface)>,
    pub outputs: Vec<Output>,
    pub workspaces: Vec<Workspace>,
    pub toplevels: Vec<Toplevel>,
    pub visible: bool,
    /// The backend can be sent commands.
    pub has_cmd_sender: bool,
    pub drag_surface: Option<DragSurface>,
    pub drop_target: Option<DropTarget>,
    pub workspace_layout: WorkspaceLayout,
    pub config: CosmicWorkspacesConfig,
    /// Id of the next layer surface.
    pub next_surface_id: u64,
    /// A window opening while the overview is shown hides the overview.
    /// A backend that opens windows when it is first asked to capture (the
    /// mock backend) turns this off.
    pub hides_on_new_toplevel: bool,
}

// ---------------------------------------------------------------------------
// Lookups

/// `i` is the first index of `s` whose element satisfies `p`.
pub open spec fn is_first_match<T>(s: Seq<T>, p: spec_fn(T) -> bool, i: int) -> bool {
    &&& 0 <= i < s.len()
    &&& p(s[i])
    &&& forall|j: int| 0 <= j < i ==> !p(#[trigger] s[j])
}

/// The first index of `s` whose element satisfies `p`, if any.
pub open spec fn first_match<T>(s: Seq<T>, p: spec_fn(T) -> bool) -> Option<int> {
    if exists|i: int| is_first_match(s, p, i) {
        Some(choose|i: int| is_first_match(s, p, i))
    } else {
        None
    }
}

/// There is at most one first match, and there is none exactly when no
/// element matches.
pub proof fn lemma_first_match<T>(s: Seq<T>, p: spec_fn(T) -> bool)
    ensures
        forall|i: int| is_first_match(s, p, i) ==> first_match(s, p) == Some(i),
        first_match(s, p) is None <==> forall|j: int| 0 <= j < s.len() ==> !p(#[trigger] s[j]),
{
    assert forall|i: int| is_first_match(s, p, i) implies first_match(s, p) == Some(i) by {
        let k = choose|k: int| is_first_match(s, p, k);
        if k < i {
            assert(!p(s[k]));
        } else if i < k {
            assert(!p(s[i]));
        }
    }
    if !(forall|j: int| 0 <= j < s.len() ==> !p(#[trigger] s[j])) {
        let j = choose|j: int| 0 <= j < s.len() && p(#[trigger] s[j]);
        lemma_some_first_match(s, p, j);
    }
}

proof fn lemma_some_first_match<T>(s: Seq<T>, p: spec_fn(T) -> bool, j: int)
    requires
        0 <= j < s.len(),
        p(s[j]),
    ensures
        exists|i: int| is_first_match(s, p, i),
    decreases j,
{
    if forall|k: int| 0 <= k < j ==> !p(#[trigger] s[k]) {
        assert(is_first_match(s, p, j));
    } else {
        let k = choose|k: int| 0 <= k < j && p(#[trigger] s[k]);
        lemma_some_first_match(s, p, k);
    }
}

pub open spec fn workspace_has(h: ZcosmicWorkspaceHandleV1) -> spec_fn(Workspace) -> bool {
    |w: Workspace| w.handle == h
}

pub open spec fn toplevel_has(h: ZcosmicToplevelHandleV1) -> spec_fn(Toplevel) -> bool {
    |t: Toplevel| t.handle == h
}

pub open spec fn output_has(h: WlOutput) -> spec_fn(Output) -> bool {
    |o: Output| o.handle == h
}

pub open spec fn surface_has(id: SurfaceId) -> spec_fn((SurfaceId, LayerSurface)) -> bool {
    |e: (SurfaceId, LayerSurface)| e.0 == id
}

pub open spec fn surface_on(output: WlOutput) -> spec_fn((SurfaceId, LayerSurface)) -> bool {
    |e: (SurfaceId, LayerSurface)| e.1.output == output
}

/// Handles of the outputs, in order.
pub open spec fn output_handles(outputs: Seq<Output>) -> Seq<WlOutput> {
    outputs.map_values(|o: Output| o.handle)
}

/// Handles of the active workspaces, in order.
pub open spec fn active_workspace_handles(ws: Seq<Workspace>) -> Seq<ZcosmicWorkspaceHandleV1>
    decreases ws.len(),
{
    if ws.len() == 0 {
        Seq::empty()
    } else {
        let rest = active_workspace_handles(ws.drop_last());
        if ws.last().is_active {
            rest.push(ws.last().handle)
        } else {
            rest
        }
    }
}

/// The layer surfaces after inserting `id` for `output`, as a map does:
/// an entry with the same id is replaced, otherwise one is added at the end.
pub open spec fn insert_surface(
    ls: Seq<(SurfaceId, LayerSurface)>,
    id: SurfaceId,
    output: WlOutput,
) -> Seq<(SurfaceId, LayerSurface)> {
    match first_match(ls, surface_has(id)) {
        Some(i) => ls.update(i, (id, LayerSurface { output })),
        None => ls.push((id, LayerSurface { output })),
    }
}

/// No two layer surfaces share an id.
pub open spec fn surface_ids_unique(ls: Seq<(SurfaceId, LayerSurface)>) -> bool {
    forall|i: int, j: int| 0 <= i < ls.len() && 0 <= j < ls.len() && i != j ==> ls[i].0 != ls[j].0
}

/// The id after `id`, wrapping around.
pub open spec fn next_id(id: u64) -> u64 {
    if id == u64::MAX {
        0
    } else {
        (id + 1) as u64
    }
}

/// The capture filter of a state: when visible, the workspaces on every
/// output and the toplevels on every active workspace; otherwise nothing.
pub open spec fn is_capture_filter_of(app: App, f: CaptureFilter) -> bool {
    if app.visible {
        &&& f.workspaces_on_outputs@ == output_handles(app.outputs@)
        &&& f.toplevels_on_workspaces@ == active_workspace_handles(app.workspaces@)
    } else {
        &&& f.workspaces_on_outputs@.len() == 0
        &&& f.toplevels_on_workspaces@.len() == 0
    }
}

/// `cmds` is what sending `sent` adds to `before`, given whether the backend
/// can be sent commands: exactly `sent`, or nothing.
pub open spec fn cmds_after_send(before: Seq<Cmd>, has_sender: bool, cmds: Seq<Cmd>, sent: Cmd) -> bool {
    if has_sender {
        cmds == before.push(sent)
    } else {
        cmds == before
    }
}

/// `cmds` is what sending the capture filter of `app` adds to `before`.
pub open spec fn cmds_after_filter(before: Seq<Cmd>, app: App, cmds: Seq<Cmd>) -> bool {
    if app.has_cmd_sender {
        &&& cmds.len() == before.len() + 1
        &&& cmds.subrange(0, before.len() as int) == before
        &&& cmds.last() matches Cmd::CaptureFilter(f) && is_capture_filter_of(app, f)
    } else {
        cmds == before
    }
}

/// Tasks destroying each of the layer surfaces, in order.
pub open spec fn destroy_tasks(ls: Seq<(SurfaceId, LayerSurface)>) -> Seq<Task> {
    ls.map_values(|e: (SurfaceId, LayerSurface)| Task::DestroySurface(e.0))
}

impl Update {
    pub fn new() -> (r: Self)
        ensures
            r.cmds@ == Seq::<Cmd>::empty(),
            r.tasks@ == Seq::<Task>::empty(),
    {
        Update { cmds: Vec::new(), tasks: Vec::new() }
    }
}

impl App {
    /// The state at start: no outputs, workspaces, toplevels or surfaces;
    /// hidden; no drag.
    pub fn new() -> (r: Self)
        ensures
            r.wf(),
            r.layer_surfaces@.len() == 0,
            r.outputs@.len() == 0,
            r.workspaces@.len() == 0,
            r.toplevels@.len() == 0,
            !r.visible,
            !r.has_cmd_sender,
            r.drag_surface is None,
            r.drop_target is None,
            r.workspace_layout == WorkspaceLayout::Vertical,
            r.config == (CosmicWorkspacesConfig { show_workspace_number: false, show_workspace_name: false }),
            r.next_surface_id == 0,
            r.hides_on_new_toplevel,
    {
        App {
            layer_surfaces: Vec::new(),
            outputs: Vec::new(),
            workspaces: Vec::new(),
            toplevels: Vec::new(),
            visible: false,
            has_cmd_sender: false,
            drag_surface: None,
            drop_target: None,
            workspace_layout: WorkspaceLayout::Vertical,
            config: CosmicWorkspacesConfig { show_workspace_number: false, show_workspace_name: false },
            next_surface_id: 0,
            hides_on_new_toplevel: true,
        }
    }

    /// Well-formedness: layer surface ids are unique, as the keys of a map,
    /// and each was issued before the next id.
    pub open spec fn wf(&self) -> bool {
        &&& surface_ids_unique(self.layer_surfaces@)
        &&& surface_ids_below(self.layer_surfaces@, self.next_surface_id)
    }

    /// Index of the first workspace with handle `h`.
    pub fn workspace_for_handle(&self, h: &ZcosmicWorkspaceHandleV1) -> (r: Option<usize>)
        ensures
            r matches Some(i) ==> is_first_match(self.workspaces@, workspace_has(*h), i as int),
            r is None ==> forall|j: int| 0 <= j < self.workspaces@.len() ==> self.workspaces@[j].handle != *h,
    {
        let mut i: usize = 0;
        while i < self.workspaces.len()
            invariant
                i <= self.workspaces@.len(),
                forall|j: int| 0 <= j < i ==> self.workspaces@[j].handle != *h,
            decreases self.workspaces@.len() - i,
        {
            if self.workspaces[i].handle == *h {
                return Some(i);
            }
            i = i + 1;
        }
        None
    }

    /// Index of the first toplevel with handle `h`.
    pub fn toplevel_for_handle(&self, h: &ZcosmicToplevelHandleV1) -> (r: Option<usize>)
        ensures
            r matches Some(i) ==> is_first_match(self.toplevels@, toplevel_has(*h), i as int),
            r is None ==> forall|j: int| 0 <= j < self.toplevels@.len() ==> self.toplevels@[j].handle != *h,
    {
        let mut i: usize = 0;
        while i < self.toplevels.len()
            invariant
                i <= self.toplevels@.len(),
                forall|j: int| 0 <= j < i ==> self.toplevels@[j].handle != *h,
            decreases self.toplevels@.len() - i,
        {
            if self.toplevels[i].handle == *h {
                return Some(i);
            }
            i = i + 1;
        }
        None
    }

    /// Index of the first output with handle `h`.
    pub fn output_for_handle(&self, h: &WlOutput) -> (r: Option<usize>)
        ensures
            r matches Some(i) ==> is_first_match(self.outputs@, output_has(*h), i as int),
            r is None ==> forall|j: int| 0 <= j < self.outputs@.len() ==> self.outputs@[j].handle != *h,
    {
        let mut i: usize = 0;
        while i < self.outputs.len()
            invariant
                i <= self.outputs@.len(),
                forall|j: int| 0 <= j < i ==> self.outputs@[j].handle != *h,
            decreases self.outputs@.len() - i,
        {
            if self.outputs[i].handle == *h {
                return Some(i);
            }
            i = i + 1;
        }
        None
    }

    /// Index of the layer surface with id `id`.
    pub fn surface_for_id(&self, id: SurfaceId) -> (r: Option<usize>)
        ensures
            r matches Some(i) ==> is_first_match(self.layer_surfaces@, surface_has(id), i as int),
            r is None ==> forall|j: int| 0 <= j < self.layer_surfaces@.len() ==> self.layer_surfaces@[j].0 != id,
    {
        let mut i: usize = 0;
        while i < self.layer_surfaces.len()
            invariant
                i <= self.layer_surfaces@.len(),
                forall|j: int| 0 <= j < i ==> self.layer_surfaces@[j].0 != id,
            decreases self.layer_surfaces@.len() - i,
        {
            if self.layer_surfaces[i].0 == id {
                return Some(i);
            }
            i = i + 1;
        }
        None
    }

    /// Index of the first layer surface on `output`.
    pub fn surface_for_output(&self, output: &WlOutput) -> (r: Option<usize>)
        ensures
            r matches Some(i) ==> is_first_match(self.layer_surfaces@, surface_on(*output), i as int),
            r is None ==> forall|j: int| 0 <= j < self.layer_surfaces@.len() ==> self.layer_surfaces@[j].1.output != *output,
    {
        let mut i: usize = 0;
        while i < self.layer_surfaces.len()
            invariant
                i <= self.layer_surfaces@.len(),
                forall|j: int| 0 <= j < i ==> self.layer_surfaces@[j].1.output != *output,
            decreases self.layer_surfaces@.len() - i,
        {
            if self.layer_surfaces[i].1.output == *output {
                return Some(i);
            }
            i = i + 1;
        }
        None
    }

    /// The capture filter for the current state.
    pub fn capture_filter(&self) -> (f: CaptureFilter)
        ensures
            is_capture_filter_of(*self, f),
    {
        let mut f = CaptureFilter::new();
        if self.visible {
            let mut i: usize = 0;
            while i < self.outputs.len()
                invariant
                    i <= self.outputs@.len(),
                    f.workspaces_on_outputs@ == output_handles(self.outputs@.subrange(0, i as int)),
                    f.toplevels_on_workspaces@.len() == 0,
                decreases self.outputs@.len() - i,
            {
                f.workspaces_on_outputs.push(self.outputs[i].handle);
                proof {
                    assert(output_handles(self.outputs@.subrange(0, i + 1)) =~= output_handles(
                        self.outputs@.subrange(0, i as int),
                    ).push(self.outputs@[i as int].handle));
                }
                i = i + 1;
            }
            proof {
                assert(self.outputs@.subrange(0, self.outputs@.len() as int) =~= self.outputs@);
            }
            let mut k: usize = 0;
            proof {
                assert(self.workspaces@.subrange(0, 0).len() == 0);
                assert(active_workspace_handles(self.workspaces@.subrange(0, 0)) == Seq::<ZcosmicWorkspaceHandleV1>::empty());
            }
            while k < self.workspaces.len()
                invariant
                    k <= self.workspaces@.len(),
                    f.workspaces_on_outputs@ == output_handles(self.outputs@),
                    f.toplevels_on_workspaces@ == active_workspace_handles(self.workspaces@.subrange(0, k as int)),
                decreases self.workspaces@.len() - k,
            {
                proof {
                    assert(self.workspaces@.subrange(0, k + 1).drop_last() =~= self.workspaces@.subrange(0, k as int));
                }
                if self.workspaces[k].is_active {
                    f.toplevels_on_workspaces.push(self.workspaces[k].handle);
                }
                k = k + 1;
            }
            proof {
                assert(self.workspaces@.subrange(0, self.workspaces@.len() as int) =~= self.workspaces@);
            }
        }
        f
    }

    /// Sends `cmd` to the backend, if it can be sent commands.
    fn send_wayland_cmd(&self, cmd: Cmd, out: &mut Update)
        ensures
            cmds_after_send(old(out).cmds@, self.has_cmd_sender, final(out).cmds@, cmd),
            final(out).tasks@ == old(out).tasks@,
    {
        if self.has_cmd_sender {
            out.cmds.push(cmd);
        }
    }

    /// Sends the current capture filter to the backend.
    fn update_capture_filter(&self, out: &mut Update)
        ensures
            cmds_after_filter(old(out).cmds@, *self, final(out).cmds@),
            final(out).tasks@ == old(out).tasks@,
    {
        let f = self.capture_filter();
        let ghost before = out.cmds@;
        self.send_wayland_cmd(Cmd::CaptureFilter(f), out);
        proof {
            if self.has_cmd_sender {
                assert(out.cmds@.subrange(0, before.len() as int) =~= before);
            }
        }
    }
}

} // verus!

verus! {

/// The id `n` steps after `next`.
pub open spec fn id_after(next: u64, n: nat) -> u64
    decreases n,
{
    if n == 0 {
        next
    } else {
        next_id(id_after(next, (n - 1) as nat))
    }
}

/// The layer surfaces after creating one surface per output of `outs`, in
/// order, with consecutive ids from `next`.
pub open spec fn surfaces_after_creating(
    ls: Seq<(SurfaceId, LayerSurface)>,
    next: u64,
    outs: Seq<WlOutput>,
) -> Seq<(SurfaceId, LayerSurface)>
    decreases outs.len(),
{
    if outs.len() == 0 {
        ls
    } else {
        insert_surface(
            surfaces_after_creating(ls, next, outs.drop_last()),
            SurfaceId(id_after(next, (outs.len() - 1) as nat)),
            outs.last(),
        )
    }
}

/// The tasks creating one surface per output of `outs`, in order, with
/// consecutive ids from `next`.
pub open spec fn create_tasks(next: u64, outs: Seq<WlOutput>) -> Seq<Task>
    decreases outs.len(),
{
    if outs.len() == 0 {
        Seq::empty()
    } else {
        create_tasks(next, outs.drop_last()).push(
            Task::CreateSurface(SurfaceId(id_after(next, (outs.len() - 1) as nat)), outs.last()),
        )
    }
}

/// `a` and `b` agree on everything but the layer surfaces, the surface id
/// counter, visibility and the dragged surface.
pub open spec fn same_model(a: App, b: App) -> bool {
    &&& a.outputs == b.outputs
    &&& a.workspaces == b.workspaces
    &&& a.toplevels == b.toplevels
    &&& a.has_cmd_sender == b.has_cmd_sender
    &&& a.drop_target == b.drop_target
    &&& a.workspace_layout == b.workspace_layout
    &&& a.config == b.config
    &&& a.hides_on_new_toplevel == b.hides_on_new_toplevel
}

/// Sending the capture filter depends only on visibility, the outputs, the
/// workspaces and whether commands can be sent.
proof fn lemma_filter_cmds_depend_on_model(before: Seq<Cmd>, cmds: Seq<Cmd>, a: App, b: App)
    requires
        cmds_after_filter(before, a, cmds),
        a.visible == b.visible,
        a.outputs == b.outputs,
        a.workspaces == b.workspaces,
        a.has_cmd_sender == b.has_cmd_sender,
    ensures
        cmds_after_filter(before, b, cmds),
{
}

proof fn lemma_insert_keeps_unique(ls: Seq<(SurfaceId, LayerSurface)>, id: SurfaceId, output: WlOutput)
    requires
        surface_ids_unique(ls),
    ensures
        surface_ids_unique(insert_surface(ls, id, output)),
{
    lemma_first_match(ls, surface_has(id));
    match first_match(ls, surface_has(id)) {
        Some(i) => {
            let r = ls.update(i, (id, LayerSurface { output }));
            assert forall|a: int, b: int| 0 <= a < r.len() && 0 <= b < r.len() && a != b implies r[a].0 != r[b].0 by {
                if a == i {
                    assert(ls[b].0 != ls[i].0);
                } else if b == i {
                    assert(ls[a].0 != ls[i].0);
                } else {
                    assert(ls[a].0 != ls[b].0);
                }
            }
        },
        None => {
            assert(forall|j: int| 0 <= j < ls.len() ==> !surface_has(id)(#[trigger] ls[j]));
        },
    }
}

impl App {
    /// Creates a layer surface on `output` with the next id.
    fn create_surface(&mut self, output: WlOutput, out: &mut Update)
        requires
            old(self).wf(),
            old(self).next_surface_id < u64::MAX,
        ensures
            final(self).wf(),
            final(self).layer_surfaces@ == insert_surface(
                old(self).layer_surfaces@,
                SurfaceId(old(self).next_surface_id),
                output,
            ),
            final(self).next_surface_id == next_id(old(self).next_surface_id),
            final(self).visible == old(self).visible,
            final(self).drag_surface == old(self).drag_surface,
            same_model(*old(self), *final(self)),
            final(out).cmds@ == old(out).cmds@,
            final(out).tasks@ == old(out).tasks@.push(
                Task::CreateSurface(SurfaceId(old(self).next_surface_id), output),
            ),
    {
        let id = SurfaceId(self.next_surface_id);
        self.next_surface_id = self.next_surface_id.wrapping_add(1);
        proof {
            lemma_first_match(self.layer_surfaces@, surface_has(id));
            lemma_insert_keeps_unique(self.layer_surfaces@, id, output);
            lemma_insert_new_surface(self.layer_surfaces@, id, output);
        }
        match self.surface_for_id(id) {
            Some(i) => {
                self.layer_surfaces.set(i, (id, LayerSurface { output }));
            },
            None => {
                self.layer_surfaces.push((id, LayerSurface { output }));
            },
        }
        out.tasks.push(Task::CreateSurface(id, output));
    }

    /// Asks to destroy the first layer surface on `output`, if there is one.
    fn destroy_surface(&self, output: &WlOutput, out: &mut Update)
        ensures
            final(out).cmds@ == old(out).cmds@,
            final(out).tasks@ == old(out).tasks@ + match first_match(self.layer_surfaces@, surface_on(*output)) {
                Some(i) => seq![Task::DestroySurface(self.layer_surfaces@[i].0)],
                None => Seq::<Task>::empty(),
            },
    {
        proof {
            lemma_first_match(self.layer_surfaces@, surface_on(*output));
        }
        match self.surface_for_output(output) {
            Some(i) => {
                let id = self.layer_surfaces[i].0;
                out.tasks.push(Task::DestroySurface(id));
                assert(out.tasks@ =~= old(out).tasks@ + seq![Task::DestroySurface(id)]);
            },
            None => {
                assert(out.tasks@ =~= old(out).tasks@ + Seq::<Task>::empty());
            },
        }
    }

    /// Shows the overview: when hidden, creates a layer surface on every
    /// output and sends the new capture filter.
    pub fn show(&mut self, out: &mut Update)
        requires
            old(self).wf(),
            !old(self).visible ==> old(self).next_surface_id + old(self).outputs@.len() <= u64::MAX,
        ensures
            final(self).wf(),
            final(self).visible,
            same_model(*old(self), *final(self)),
            final(self).drag_surface == old(self).drag_surface,
            !old(self).visible ==> {
                &&& final(self).layer_surfaces@ == surfaces_after_creating(
                    old(self).layer_surfaces@,
                    old(self).next_surface_id,
                    output_handles(old(self).outputs@),
                )
                &&& final(self).next_surface_id == id_after(old(self).next_surface_id, old(self).outputs@.len())
                &&& final(out).tasks@ == old(out).tasks@ + create_tasks(
                    old(self).next_surface_id,
                    output_handles(old(self).outputs@),
                )
                &&& cmds_after_filter(old(out).cmds@, *final(self), final(out).cmds@)
            },
            old(self).visible ==> {
                &&& *final(self) == *old(self)
                &&& final(out).tasks@ == old(out).tasks@
                &&& final(out).cmds@ == old(out).cmds@
            },
            shown(*old(self), *final(self), old(out).cmds@, final(out).cmds@, old(out).tasks@, final(out).tasks@),
            !old(self).visible ==> {
                &&& final(self).layer_surfaces@ == old(self).layer_surfaces@ + fresh_surfaces(
                    old(self).next_surface_id,
                    output_handles(old(self).outputs@),
                )
                &&& final(self).next_surface_id == old(self).next_surface_id + old(self).outputs@.len()
            },
    {
        if !self.visible {
            self.visible = true;
            let ghost ls0 = self.layer_surfaces@;
            let ghost next0 = self.next_surface_id;
            let ghost tasks0 = out.tasks@;
            let ghost cmds0 = out.cmds@;
            let ghost handles = output_handles(self.outputs@);
            let ghost app0 = *self;
            let mut i: usize = 0;
            proof {
                assert(handles.take(0) =~= Seq::<WlOutput>::empty());
                assert(tasks0 + create_tasks(next0, handles.take(0)) =~= tasks0);
            }
            while i < self.outputs.len()
                invariant
                    i <= self.outputs@.len(),
                    self.wf(),
                    self.visible,
                    same_model(app0, *self),
                    self.drag_surface == app0.drag_surface,
                    handles == output_handles(self.outputs@),
                    self.layer_surfaces@ == surfaces_after_creating(ls0, next0, handles.take(i as int)),
                    self.next_surface_id == id_after(next0, i as nat),
                    next0 + handles.len() <= u64::MAX,
                    out.tasks@ == tasks0 + create_tasks(next0, handles.take(i as int)),
                    out.cmds@ == cmds0,
                decreases self.outputs@.len() - i,
            {
                let handle = self.outputs[i].handle;
                proof {
                    lemma_id_after_adds(next0, i as nat);
                }
                self.create_surface(handle, out);
                proof {
                    assert(handles.take(i + 1).drop_last() =~= handles.take(i as int));
                    assert(handles.take(i + 1).last() == handle);
                    assert(handles.take(i + 1).len() == i + 1);
                    assert(tasks0 + create_tasks(next0, handles.take(i + 1)) =~= (tasks0 + create_tasks(
                        next0,
                        handles.take(i as int),
                    )).push(Task::CreateSurface(SurfaceId(id_after(next0, i as nat)), handle)));
                }
                i = i + 1;
            }
            proof {
                assert(handles.take(handles.len() as int) =~= handles);
                lemma_creating_appends(ls0, next0, handles);
                lemma_id_after_adds(next0, handles.len());
            }
            self.update_capture_filter(out);
        }
    }

    /// Hides the overview: destroys every layer surface, sends the empty
    /// capture filter and ends any drag.
    pub fn dismiss(&mut self, out: &mut Update)
        requires
            old(self).wf(),
        ensures
            final(self).wf(),
            !final(self).visible,
            final(self).drag_surface is None,
            same_model(*old(self), *final(self)),
            final(self).layer_surfaces == old(self).layer_surfaces,
            final(self).next_surface_id == old(self).next_surface_id,
            cmds_after_filter(old(out).cmds@, *final(self), final(out).cmds@),
            final(out).tasks@ == old(out).tasks@ + destroy_tasks(old(self).layer_surfaces@),
            dismissed(*old(self), *final(self), old(out).cmds@, final(out).cmds@, old(out).tasks@, final(out).tasks@),
    {
        self.visible = false;
        self.update_capture_filter(out);
        let ghost cmds1 = out.cmds@;
        let ghost mid = *self;
        self.drag_surface = None;
        let ghost tasks0 = out.tasks@;
        let mut i: usize = 0;
        while i < self.layer_surfaces.len()
            invariant
                i <= self.layer_surfaces@.len(),
                out.tasks@ == tasks0 + destroy_tasks(self.layer_surfaces@.take(i as int)),
                out.cmds@ == cmds1,
            decreases self.layer_surfaces@.len() - i,
        {
            out.tasks.push(Task::DestroySurface(self.layer_surfaces[i].0));
            proof {
                assert(destroy_tasks(self.layer_surfaces@.take(i + 1)) =~= destroy_tasks(
                    self.layer_surfaces@.take(i as int),
                ).push(Task::DestroySurface(self.layer_surfaces@[i as int].0)));
            }
            i = i + 1;
        }
        proof {
            assert(self.layer_surfaces@.take(self.layer_surfaces@.len() as int) =~= self.layer_surfaces@);
            lemma_filter_cmds_depend_on_model(old(out).cmds@, cmds1, mid, *self);
        }
    }

    /// Shows the overview when hidden, hides it when shown.
    pub fn toggle(&mut self, out: &mut Update)
        requires
            old(self).wf(),
            !old(self).visible ==> old(self).next_surface_id + old(self).outputs@.len() <= u64::MAX,
        ensures
            final(self).wf(),
            final(self).visible == !old(self).visible,
            same_model(*old(self), *final(self)),
            toggled(*old(self), *final(self), old(out).cmds@, final(out).cmds@, old(out).tasks@, final(out).tasks@),
    {
        if self.visible {
            self.dismiss(out);
        } else {
            self.show(out);
        }
    }
}


/// `b` is `a` with nothing changed.
pub open spec fn unchanged(a: App, b: App) -> bool {
    &&& same_model(a, b)
    &&& a.layer_surfaces == b.layer_surfaces
    &&& a.next_surface_id == b.next_surface_id
    &&& a.visible == b.visible
    &&& a.drag_surface == b.drag_surface
}

/// `b` is `a` after hiding: invisible, no drag, and the empty capture
/// filter sent; the layer surfaces are asked to be destroyed, and remain
/// until the windowing system reports them done.
pub open spec fn dismissed(a: App, b: App, cmds0: Seq<Cmd>, cmds: Seq<Cmd>, tasks0: Seq<Task>, tasks: Seq<Task>) -> bool {
    &&& !b.visible
    &&& b.drag_surface is None
    &&& same_model(a, b)
    &&& b.layer_surfaces == a.layer_surfaces
    &&& b.next_surface_id == a.next_surface_id
    &&& cmds_after_filter(cmds0, b, cmds)
    &&& tasks == tasks0 + destroy_tasks(a.layer_surfaces@)
}

/// The layer surfaces without the one with id `id`, if any.
pub open spec fn remove_surface(ls: Seq<(SurfaceId, LayerSurface)>, id: SurfaceId) -> Seq<(SurfaceId, LayerSurface)> {
    match first_match(ls, surface_has(id)) {
        Some(i) => ls.remove(i),
        None => ls,
    }
}

impl App {
    /// The windowing system finished destroying the layer surface `id`:
    /// forget it.
    pub fn layer_done(&mut self, id: SurfaceId)
        requires
            old(self).wf(),
        ensures
            final(self).wf(),
            layer_done_post(*old(self), *final(self), id),
    {
        proof {
            lemma_first_match(self.layer_surfaces@, surface_has(id));
        }
        match self.surface_for_id(id) {
            Some(i) => {
                let ghost ls = self.layer_surfaces@;
                self.layer_surfaces.remove(i);
                proof {
                    assert forall|a: int, b: int|
                        0 <= a < self.layer_surfaces@.len() && 0 <= b < self.layer_surfaces@.len() && a != b
                    implies self.layer_surfaces@[a].0 != self.layer_surfaces@[b].0 by {
                        let a0 = if a < i { a } else { a + 1 };
                        let b0 = if b < i { b } else { b + 1 };
                        assert(self.layer_surfaces@[a] == ls[a0]);
                        assert(self.layer_surfaces@[b] == ls[b0]);
                    }
                }
            },
            None => {},
        }
    }

    /// Activates the workspace `h`: when it is already the active one,
    /// the overview is hidden; otherwise the backend is asked to activate it.
    pub fn activate_workspace(&mut self, h: ZcosmicWorkspaceHandleV1, out: &mut Update)
        requires
            old(self).wf(),
        ensures
            final(self).wf(),
            activate_workspace_post(*old(self), *final(self), h, old(out).cmds@, final(out).cmds@, old(out).tasks@, final(out).tasks@),
    {
        proof {
            lemma_first_match(self.workspaces@, workspace_has(h));
        }
        if let Some(i) = self.workspace_for_handle(&h) {
            if self.workspaces[i].is_active {
                self.dismiss(out);
                return;
            }
        }
        self.send_wayland_cmd(Cmd::ActivateWorkspace(h), out);
    }

    /// Activates the toplevel `h` and hides the overview.
    pub fn activate_toplevel(&mut self, h: ZcosmicToplevelHandleV1, out: &mut Update)
        requires
            old(self).wf(),
        ensures
            final(self).wf(),
            activate_toplevel_post(*old(self), *final(self), h, old(out).cmds@, final(out).cmds@, old(out).tasks@, final(out).tasks@),
    {
        self.send_wayland_cmd(Cmd::ActivateToplevel(h), out);
        self.dismiss(out);
    }

    /// Drops the dragged toplevel, if a toplevel is being dragged: the drop
    /// target is cleared, and when it is a workspace's sidebar entry or an
    /// output's toplevel area, the backend is asked to move the toplevel
    /// to that workspace on that output.
    pub fn workspace_drop(&mut self, out: &mut Update)
        requires
            old(self).wf(),
        ensures
            final(self).wf(),
            workspace_drop_post(*old(self), *final(self), old(out).cmds@, final(out).cmds@, old(out).tasks@, final(out).tasks@),
    {
        if let Some(DragSurface::Toplevel(t)) = self.drag_surface {
            let target = self.drop_target;
            self.drop_target = None;
            match target {
                Some(DropTarget::WorkspaceSidebarEntry(w, o)) => {
                    self.send_wayland_cmd(Cmd::MoveToplevelToWorkspace(t, w, o), out);
                },
                Some(DropTarget::OutputToplevels(w, o)) => {
                    self.send_wayland_cmd(Cmd::MoveToplevelToWorkspace(t, w, o), out);
                },
                _ => {},
            }
        }
    }

    /// A drag left `target`: it stops being the drop target, unless another
    /// target was entered since.
    pub fn dnd_leave(&mut self, target: DropTarget)
        requires
            old(self).wf(),
        ensures
            final(self).wf(),
            dnd_leave_post(*old(self), *final(self), target),
    {
        if self.drop_target == Some(target) {
            self.drop_target = None;
        }
    }
}


impl App {
    /// An output appeared. When its logical size and name are both known it
    /// is added at the end, and, while the overview is shown, a layer
    /// surface is created on it; otherwise nothing changes.
    pub fn output_created(&mut self, output: WlOutput, info: Option<OutputInfo>, out: &mut Update)
        requires
            old(self).wf(),
            old(self).next_surface_id < u64::MAX,
        ensures
            final(self).wf(),
            output_created_post(*old(self), *final(self), output, info, old(out).cmds@, final(out).cmds@, old(out).tasks@, final(out).tasks@),
    {
        if let Some(info) = info {
            if let (Some((width, height)), Some(name)) = (info.logical_size, info.name) {
                self.outputs.push(Output { handle: output, name, width, height });
                if self.visible {
                    self.create_surface(output, out);
                }
            }
        }
    }

    /// New information about an output: the first output with that handle
    /// takes the size and the name that are known.
    pub fn output_info_update(&mut self, output: WlOutput, info: OutputInfo)
        requires
            old(self).wf(),
        ensures
            final(self).wf(),
            output_info_update_post(*old(self), *final(self), output, info),
    {
        proof {
            lemma_first_match(self.outputs@, output_has(output));
        }
        if let Some(i) = self.output_for_handle(&output) {
            let o = self.outputs.remove(i);
            let (width, height) = match info.logical_size {
                Some((w, h)) => (w, h),
                None => (o.width, o.height),
            };
            let name = match info.name {
                Some(n) => n,
                None => o.name,
            };
            self.outputs.insert(i, Output { handle: o.handle, name, width, height });
            proof {
                assert(self.outputs@ =~= old(self).outputs@.update(
                    i as int,
                    Output { handle: o.handle, name, width, height },
                ));
            }
        }
    }

    /// An output went away: the first output with that handle is removed,
    /// and, while the overview is shown, the layer surface on it is asked to
    /// be destroyed.
    pub fn output_removed(&mut self, output: WlOutput, out: &mut Update)
        requires
            old(self).wf(),
        ensures
            final(self).wf(),
            output_removed_post(*old(self), *final(self), output, old(out).cmds@, final(out).cmds@, old(out).tasks@, final(out).tasks@),
    {
        proof {
            lemma_first_match(self.outputs@, output_has(output));
        }
        if let Some(i) = self.output_for_handle(&output) {
            self.outputs.remove(i);
        }
        if self.visible {
            self.destroy_surface(&output, out);
        } else {
            assert(out.tasks@ =~= old(out).tasks@ + Seq::<Task>::empty());
        }
    }
}


/// The image of the first workspace with handle `h`, if there is one.
pub open spec fn img_for(ws: Seq<Workspace>, h: ZcosmicWorkspaceHandleV1) -> Option<CaptureImage> {
    match first_match(ws, workspace_has(h)) {
        Some(i) => ws[i].img,
        None => None,
    }
}

/// The workspace shown for the reported `(outputs, workspace)`, keeping the
/// image of the first previously known workspace with the same handle.
pub open spec fn workspace_from_report(
    old_ws: Seq<Workspace>,
    report: (Vec<WlOutput>, BackendWorkspace),
) -> Workspace {
    Workspace {
        name: report.1.name,
        img: img_for(old_ws, report.1.handle),
        handle: report.1.handle,
        outputs: report.0,
        is_active: report.1.state@.contains(WorkspaceState::Active),
    }
}

/// `t` with `icon` as its icon.
pub open spec fn with_icon(t: Toplevel, icon: Option<String>) -> Toplevel {
    Toplevel { handle: t.handle, info: t.info, img: t.img, icon }
}

fn clone_icon(icon: &Option<String>) -> (r: Option<String>)
    ensures
        r == *icon,
{
    match icon {
        Some(p) => Some(p.clone()),
        None => None,
    }
}

fn has_active_state(state: &Vec<WorkspaceState>) -> (r: bool)
    ensures
        r == state@.contains(WorkspaceState::Active),
{
    let mut i: usize = 0;
    while i < state.len()
        invariant
            i <= state@.len(),
            forall|j: int| 0 <= j < i ==> state@[j] != WorkspaceState::Active,
        decreases state@.len() - i,
    {
        if state[i] == WorkspaceState::Active {
            return true;
        }
        i = i + 1;
    }
    false
}

impl App {
    /// The backend reported the workspaces: they replace the known ones, each
    /// keeping the image of a known workspace with its handle, and the new
    /// capture filter is sent.
    pub fn workspaces_reported(&mut self, reports: Vec<(Vec<WlOutput>, BackendWorkspace)>, out: &mut Update)
        requires
            old(self).wf(),
        ensures
            final(self).wf(),
            workspaces_reported_post(*old(self), *final(self), reports, old(out).cmds@, final(out).cmds@, old(out).tasks@, final(out).tasks@),
    {
        let mut old_ws: Vec<Workspace> = Vec::new();
        std::mem::swap(&mut old_ws, &mut self.workspaces);
        let ghost old_view = old_ws@;
        let ghost all = reports@;
        let mut reports = reports;
        let n: usize = reports.len();
        let mut k: usize = 0;
        while reports.len() > 0
            invariant
                all.len() == n,
                old_ws@ == old_view,
                old_view == old(self).workspaces@,
                k + reports@.len() == all.len(),
                reports@ == all.subrange(k as int, all.len() as int),
                self.workspaces@.len() == k,
                forall|j: int| 0 <= j < k ==> #[trigger] self.workspaces@[j] == workspace_from_report(old_view, all[j]),
                self.outputs == old(self).outputs,
                self.toplevels == old(self).toplevels,
                self.has_cmd_sender == old(self).has_cmd_sender,
                self.drop_target == old(self).drop_target,
                self.workspace_layout == old(self).workspace_layout,
                self.config == old(self).config,
                self.hides_on_new_toplevel == old(self).hides_on_new_toplevel,
                self.visible == old(self).visible,
                self.drag_surface == old(self).drag_surface,
                self.layer_surfaces == old(self).layer_surfaces,
                self.next_surface_id == old(self).next_surface_id,
            decreases reports@.len(),
        {
            let ghost report = reports@[0];
            let (outputs, workspace) = reports.remove(0);
            let is_active = has_active_state(&workspace.state);
            proof {
                lemma_first_match(old_ws@, workspace_has(workspace.handle));
            }
            let img = match self.workspace_index_in(&old_ws, &workspace.handle) {
                Some(i) => old_ws[i].img,
                None => None,
            };
            let w = Workspace { name: workspace.name, img, handle: workspace.handle, outputs, is_active };
            proof {
                assert(report == all[k as int]);
                assert(w == workspace_from_report(old_view, report));
            }
            self.workspaces.push(w);
            k = k + 1;
        }
        self.update_capture_filter(out);
    }

    /// Index of the first workspace of `ws` with handle `h`.
    fn workspace_index_in(&self, ws: &Vec<Workspace>, h: &ZcosmicWorkspaceHandleV1) -> (r: Option<usize>)
        ensures
            r matches Some(i) ==> is_first_match(ws@, workspace_has(*h), i as int),
            r is None ==> forall|j: int| 0 <= j < ws@.len() ==> ws@[j].handle != *h,
    {
        let mut i: usize = 0;
        while i < ws.len()
            invariant
                i <= ws@.len(),
                forall|j: int| 0 <= j < i ==> ws@[j].handle != *h,
            decreases ws@.len() - i,
        {
            if ws[i].handle == *h {
                return Some(i);
            }
            i = i + 1;
        }
        None
    }

    /// A new toplevel appeared: it is added at the end, without image or
    /// icon, and its icon is looked up. A window that opens while the
    /// overview is shown hides the overview, unless that is turned off.
    pub fn new_toplevel(&mut self, handle: ZcosmicToplevelHandleV1, info: ToplevelInfo, out: &mut Update)
        requires
            old(self).wf(),
        ensures
            final(self).wf(),
            new_toplevel_post(*old(self), *final(self), handle, info, old(out).cmds@, final(out).cmds@, old(out).tasks@, final(out).tasks@),
    {
        let app_id = info.app_id.clone();
        out.tasks.push(Task::LoadIcon(app_id));
        let ghost tasks1 = out.tasks@;
        self.toplevels.push(Toplevel { handle, info, img: None, icon: None });
        if self.visible && self.hides_on_new_toplevel {
            let ghost before = *self;
            self.dismiss(out);
            proof {
                assert(out.tasks@[old(out).tasks@.len() as int] == tasks1.last());
                assert(tasks1 == old(out).tasks@.push(tasks1.last()));
            }
        } else {
            assert(out.tasks@.subrange(0, old(out).tasks@.len() as int) =~= old(out).tasks@);
        }
    }

    /// A toplevel changed: the first toplevel with that handle takes the new
    /// information, and when its application id changed, the new icon is
    /// looked up.
    pub fn update_toplevel(&mut self, handle: ZcosmicToplevelHandleV1, info: ToplevelInfo, out: &mut Update)
        requires
            old(self).wf(),
        ensures
            final(self).wf(),
            update_toplevel_post(*old(self), *final(self), handle, info, old(out).cmds@, final(out).cmds@, old(out).tasks@, final(out).tasks@),
    {
        proof {
            lemma_first_match(self.toplevels@, toplevel_has(handle));
        }
        if let Some(i) = self.toplevel_for_handle(&handle) {
            let t = self.toplevels.remove(i);
            if t.info.app_id != info.app_id {
                let app_id = info.app_id.clone();
                out.tasks.push(Task::LoadIcon(app_id));
                assert(out.tasks@.subrange(0, old(out).tasks@.len() as int) =~= old(out).tasks@);
            }
            self.toplevels.insert(i, Toplevel { handle: t.handle, info, img: t.img, icon: t.icon });
            proof {
                assert(self.toplevels@ =~= old(self).toplevels@.update(
                    i as int,
                    Toplevel { handle: t.handle, info, img: t.img, icon: t.icon },
                ));
            }
        }
    }

    /// A toplevel closed: the first toplevel with that handle is removed.
    pub fn close_toplevel_reported(&mut self, handle: ZcosmicToplevelHandleV1)
        requires
            old(self).wf(),
        ensures
            final(self).wf(),
            close_toplevel_reported_post(*old(self), *final(self), handle),
    {
        proof {
            lemma_first_match(self.toplevels@, toplevel_has(handle));
        }
        if let Some(i) = self.toplevel_for_handle(&handle) {
            self.toplevels.remove(i);
        }
    }

    /// A workspace was captured: the first workspace with that handle shows
    /// the new image.
    pub fn workspace_captured(&mut self, handle: ZcosmicWorkspaceHandleV1, img: CaptureImage)
        requires
            old(self).wf(),
        ensures
            final(self).wf(),
            workspace_captured_post(*old(self), *final(self), handle, img),
    {
        proof {
            lemma_first_match(self.workspaces@, workspace_has(handle));
        }
        if let Some(i) = self.workspace_for_handle(&handle) {
            let w = self.workspaces.remove(i);
            let nw = Workspace { name: w.name, img: Some(img), handle: w.handle, outputs: w.outputs, is_active: w.is_active };
            self.workspaces.insert(i, nw);
            proof {
                assert(self.workspaces@ =~= old(self).workspaces@.update(i as int, nw));
            }
        }
    }

    /// A toplevel was captured: the first toplevel with that handle shows
    /// the new image.
    pub fn toplevel_captured(&mut self, handle: ZcosmicToplevelHandleV1, img: CaptureImage)
        requires
            old(self).wf(),
        ensures
            final(self).wf(),
            toplevel_captured_post(*old(self), *final(self), handle, img),
    {
        proof {
            lemma_first_match(self.toplevels@, toplevel_has(handle));
        }
        if let Some(i) = self.toplevel_for_handle(&handle) {
            let t = self.toplevels.remove(i);
            let nt = Toplevel { handle: t.handle, info: t.info, img: Some(img), icon: t.icon };
            self.toplevels.insert(i, nt);
            proof {
                assert(self.toplevels@ =~= old(self).toplevels@.update(i as int, nt));
            }
        }
    }

    /// The icon of application `app_id` was found: every toplevel of that
    /// application shows it.
    pub fn update_toplevel_icon(&mut self, app_id: String, path: Option<String>)
        requires
            old(self).wf(),
        ensures
            final(self).wf(),
            update_toplevel_icon_post(*old(self), *final(self), app_id, path),
    {
        let mut k: usize = 0;
        while k < self.toplevels.len()
            invariant
                k <= self.toplevels@.len(),
                self.toplevels@.len() == old(self).toplevels@.len(),
                unchanged_but_toplevels(*old(self), *self),
                forall|j: int| 0 <= j < k ==> #[trigger] self.toplevels@[j] == if old(self).toplevels@[j].info.app_id@ == app_id@ {
                    with_icon(old(self).toplevels@[j], path)
                } else {
                    old(self).toplevels@[j]
                },
                forall|j: int| k <= j < self.toplevels@.len() ==> #[trigger] self.toplevels@[j] == old(self).toplevels@[j],
            decreases self.toplevels@.len() - k,
        {
            if self.toplevels[k].info.app_id == app_id {
                let t = self.toplevels.remove(k);
                let icon = clone_icon(&path);
                let nt = Toplevel { handle: t.handle, info: t.info, img: t.img, icon };
                self.toplevels.insert(k, nt);
            }
            k = k + 1;
        }
    }
}

/// `b` is `a` with at most the toplevels changed.
pub open spec fn unchanged_but_toplevels(a: App, b: App) -> bool {
    &&& a.outputs == b.outputs
    &&& a.workspaces == b.workspaces
    &&& a.has_cmd_sender == b.has_cmd_sender
    &&& a.drop_target == b.drop_target
    &&& a.workspace_layout == b.workspace_layout
    &&& a.config == b.config
    &&& a.layer_surfaces == b.layer_surfaces
    &&& a.next_surface_id == b.next_surface_id
    &&& a.visible == b.visible
    &&& a.drag_surface == b.drag_surface
    &&& a.hides_on_new_toplevel == b.hides_on_new_toplevel
}

/// `b` is `a` with at most the workspaces changed.
pub open spec fn unchanged_but_workspaces(a: App, b: App) -> bool {
    &&& a.outputs == b.outputs
    &&& a.toplevels == b.toplevels
    &&& a.has_cmd_sender == b.has_cmd_sender
    &&& a.drop_target == b.drop_target
    &&& a.workspace_layout == b.workspace_layout
    &&& a.config == b.config
    &&& a.layer_surfaces == b.layer_surfaces
    &&& a.next_surface_id == b.next_surface_id
    &&& a.visible == b.visible
    &&& a.drag_surface == b.drag_surface
    &&& a.hides_on_new_toplevel == b.hides_on_new_toplevel
}


/// Indices of the workspaces that are on `output`, in order.
pub open spec fn indices_on_output(ws: Seq<Workspace>, output: WlOutput) -> Seq<int>
    decreases ws.len(),
{
    if ws.len() == 0 {
        Seq::empty()
    } else {
        let rest = indices_on_output(ws.drop_last(), output);
        if ws.last().outputs@.contains(output) {
            rest.push(ws.len() - 1)
        } else {
            rest
        }
    }
}

/// Every index of `indices_on_output` is the index of a workspace on the output.
pub proof fn lemma_indices_on_output(ws: Seq<Workspace>, output: WlOutput)
    ensures
        forall|k: int| 0 <= k < indices_on_output(ws, output).len() ==> {
            let i = #[trigger] indices_on_output(ws, output)[k];
            0 <= i < ws.len() && ws[i].outputs@.contains(output)
        },
        forall|k1: int, k2: int| 0 <= k1 < k2 < indices_on_output(ws, output).len()
            ==> indices_on_output(ws, output)[k1] < indices_on_output(ws, output)[k2],
    decreases ws.len(),
{
    if ws.len() > 0 {
        lemma_indices_on_output(ws.drop_last(), output);
        let rest = indices_on_output(ws.drop_last(), output);
        assert forall|k: int| 0 <= k < rest.len() implies #[trigger] ws.drop_last()[rest[k]] == ws[rest[k]] by {}
    }
}

/// The workspace a scroll over `output` selects: the one after (or before)
/// the first active workspace among those on the output, if there is one.
pub open spec fn scroll_target(ws: Seq<Workspace>, output: WlOutput, step: ScrollStep) -> Option<ZcosmicWorkspaceHandleV1> {
    let idxs = indices_on_output(ws, output);
    match first_match(idxs, |i: int| ws[i].is_active) {
        Some(k) => match step {
            ScrollStep::Next => if k + 1 < idxs.len() {
                Some(ws[idxs[k + 1]].handle)
            } else {
                None
            },
            ScrollStep::Previous => if k > 0 {
                Some(ws[idxs[k - 1]].handle)
            } else {
                None
            },
            ScrollStep::Neither => None,
        },
        None => None,
    }
}

impl App {
    /// Indices of the workspaces on `output`, in order.
    pub fn workspaces_for_output(&self, output: &WlOutput) -> (r: Vec<usize>)
        ensures
            r@.map_values(|i: usize| i as int) == indices_on_output(self.workspaces@, *output),
    {
        let mut r: Vec<usize> = Vec::new();
        let mut k: usize = 0;
        proof {
            assert(self.workspaces@.subrange(0, 0).len() == 0);
            assert(r@.map_values(|i: usize| i as int) =~= indices_on_output(self.workspaces@.subrange(0, 0), *output));
        }
        while k < self.workspaces.len()
            invariant
                k <= self.workspaces@.len(),
                r@.map_values(|i: usize| i as int) == indices_on_output(self.workspaces@.subrange(0, k as int), *output),
            decreases self.workspaces@.len() - k,
        {
            let ghost before = r@;
            let mut found = false;
            let mut j: usize = 0;
            let n = self.workspaces[k].outputs.len();
            while j < n
                invariant
                    j <= n,
                    n == self.workspaces@[k as int].outputs@.len(),
                    k < self.workspaces@.len(),
                    found == exists|m: int| 0 <= m < j && self.workspaces@[k as int].outputs@[m] == *output,
                decreases n - j,
            {
                if self.workspaces[k].outputs[j] == *output {
                    found = true;
                }
                j = j + 1;
            }
            proof {
                assert(self.workspaces@.subrange(0, k + 1).drop_last() =~= self.workspaces@.subrange(0, k as int));
                assert(self.workspaces@.subrange(0, k + 1).last() == self.workspaces@[k as int]);
                if found {
                    let m = choose|m: int| 0 <= m < n && self.workspaces@[k as int].outputs@[m] == *output;
                    assert(self.workspaces@[k as int].outputs@.contains(*output));
                } else {
                    assert(!self.workspaces@[k as int].outputs@.contains(*output));
                }
            }
            if found {
                r.push(k);
                proof {
                    assert(r@.map_values(|i: usize| i as int) =~= before.map_values(|i: usize| i as int).push(k as int));
                }
            }
            k = k + 1;
        }
        proof {
            assert(self.workspaces@.subrange(0, self.workspaces@.len() as int) =~= self.workspaces@);
        }
        r
    }

    /// A scroll over `output`: asks the backend to activate the workspace the
    /// scroll selects, if any.
    pub fn on_scroll(&self, output: WlOutput, step: ScrollStep, out: &mut Update)
        ensures
            final(out).tasks@ == old(out).tasks@,
            match scroll_target(self.workspaces@, output, step) {
                Some(h) => cmds_after_send(old(out).cmds@, self.has_cmd_sender, final(out).cmds@, Cmd::ActivateWorkspace(h)),
                None => final(out).cmds@ == old(out).cmds@,
            },
            scrolled(*self, output, step, old(out).cmds@, final(out).cmds@, old(out).tasks@, final(out).tasks@),
    {
        let idxs = self.workspaces_for_output(&output);
        let ghost iv = idxs@.map_values(|i: usize| i as int);
        let ghost ws = self.workspaces@;
        let ghost p = |i: int| ws[i].is_active;
        proof {
            lemma_indices_on_output(ws, output);
            lemma_first_match(iv, p);
            assert(iv.len() == idxs@.len());
        }
        let mut k: usize = 0;
        let mut found: Option<usize> = None;
        while k < idxs.len()
            invariant
                k <= idxs@.len(),
                iv == idxs@.map_values(|i: usize| i as int),
                iv == indices_on_output(ws, output),
                ws == self.workspaces@,
                forall|m: int| 0 <= m < iv.len() ==> 0 <= #[trigger] iv[m] < ws.len(),
                found is None ==> forall|m: int| 0 <= m < k ==> !p(#[trigger] iv[m]),
                p == (|i: int| ws[i].is_active),
                found matches Some(f) ==> is_first_match(iv, p, f as int),
            decreases idxs@.len() - k,
        {
            if found.is_none() {
                assert(iv[k as int] == idxs@[k as int] as int);
                if self.workspaces[idxs[k]].is_active {
                    found = Some(k);
                    proof {
                        assert(p(iv[k as int]));
                        assert(is_first_match(iv, p, k as int));
                    }
                } else {
                    proof {
                        assert(!p(iv[k as int]));
                    }
                }
            }
            k = k + 1;
        }
        proof {
            if found is None {
                assert(first_match(iv, p) is None);
            }
        }
        if let Some(f) = found {
            match step {
                ScrollStep::Next => {
                    if f + 1 < idxs.len() {
                        assert(iv[f + 1] == idxs@[f + 1] as int);
                        let h = self.workspaces[idxs[f + 1]].handle;
                        self.send_wayland_cmd(Cmd::ActivateWorkspace(h), out);
                    }
                },
                ScrollStep::Previous => {
                    if f > 0 {
                        assert(iv[f - 1] == idxs@[f - 1] as int);
                        let h = self.workspaces[idxs[f - 1]].handle;
                        self.send_wayland_cmd(Cmd::ActivateWorkspace(h), out);
                    }
                },
                ScrollStep::Neither => {},
            }
        }
    }
}

/// What `App::layer_done` does.
pub open spec fn layer_done_post(a: App, b: App, id: SurfaceId) -> bool {
    &&& b.layer_surfaces@ == remove_surface(a.layer_surfaces@, id)
    &&& b.next_surface_id == a.next_surface_id
    &&& b.visible == a.visible
    &&& b.drag_surface == a.drag_surface
    &&& same_model(a, b)
}

/// What `App::activate_workspace` does.
pub open spec fn activate_workspace_post(a: App, b: App, h: ZcosmicWorkspaceHandleV1, c0: Seq<Cmd>, c1: Seq<Cmd>, t0: Seq<Task>, t1: Seq<Task>) -> bool {
    &&& ({
            let ws = a.workspaces@;
            match first_match(ws, workspace_has(h)) {
                Some(i) if ws[i].is_active => dismissed(
                    a,
                    b,
                    c0,
                    c1,
                    t0,
                    t1,
                ),
                _ => {
                    &&& unchanged(a, b)
                    &&& cmds_after_send(c0, a.has_cmd_sender, c1, Cmd::ActivateWorkspace(h))
                    &&& t1 == t0
                },
            }
        })
}

/// What `App::activate_toplevel` does.
pub open spec fn activate_toplevel_post(a: App, b: App, h: ZcosmicToplevelHandleV1, c0: Seq<Cmd>, c1: Seq<Cmd>, t0: Seq<Task>, t1: Seq<Task>) -> bool {
    &&& ({
            let sent = if a.has_cmd_sender {
                c0.push(Cmd::ActivateToplevel(h))
            } else {
                c0
            };
            dismissed(a, b, sent, c1, t0, t1)
        })
}

/// What `App::workspace_drop` does.
pub open spec fn workspace_drop_post(a: App, b: App, c0: Seq<Cmd>, c1: Seq<Cmd>, t0: Seq<Task>, t1: Seq<Task>) -> bool {
    &&& t1 == t0
    &&& b.layer_surfaces == a.layer_surfaces
    &&& b.next_surface_id == a.next_surface_id
    &&& b.visible == a.visible
    &&& b.drag_surface == a.drag_surface
    &&& b.outputs == a.outputs
    &&& b.workspaces == a.workspaces
    &&& b.toplevels == a.toplevels
    &&& b.has_cmd_sender == a.has_cmd_sender
    &&& b.workspace_layout == a.workspace_layout
    &&& b.config == a.config
    &&& b.hides_on_new_toplevel == a.hides_on_new_toplevel
    &&& match a.drag_surface {
            Some(DragSurface::Toplevel(t)) => {
                &&& b.drop_target is None
                &&& match a.drop_target {
                    Some(DropTarget::WorkspaceSidebarEntry(w, o)) => cmds_after_send(
                        c0,
                        a.has_cmd_sender,
                        c1,
                        Cmd::MoveToplevelToWorkspace(t, w, o),
                    ),
                    Some(DropTarget::OutputToplevels(w, o)) => cmds_after_send(
                        c0,
                        a.has_cmd_sender,
                        c1,
                        Cmd::MoveToplevelToWorkspace(t, w, o),
                    ),
                    _ => c1 == c0,
                }
            },
            _ => {
                &&& b.drop_target == a.drop_target
                &&& c1 == c0
            }
        }
}

/// What `App::dnd_leave` does.
pub open spec fn dnd_leave_post(a: App, b: App, target: DropTarget) -> bool {
    &&& b.drop_target == (if a.drop_target == Some(target) {
            None
        } else {
            a.drop_target
        })
    &&& b.layer_surfaces == a.layer_surfaces
    &&& b.next_surface_id == a.next_surface_id
    &&& b.visible == a.visible
    &&& b.drag_surface == a.drag_surface
    &&& b.outputs == a.outputs
    &&& b.workspaces == a.workspaces
    &&& b.toplevels == a.toplevels
    &&& b.has_cmd_sender == a.has_cmd_sender
    &&& b.workspace_layout == a.workspace_layout
    &&& b.config == a.config
    &&& b.hides_on_new_toplevel == a.hides_on_new_toplevel
}

/// What `App::output_created` does.
pub open spec fn output_created_post(a: App, b: App, output: WlOutput, info: Option<OutputInfo>, c0: Seq<Cmd>, c1: Seq<Cmd>, t0: Seq<Task>, t1: Seq<Task>) -> bool {
    &&& c1 == c0
    &&& b.workspaces == a.workspaces
    &&& b.toplevels == a.toplevels
    &&& b.has_cmd_sender == a.has_cmd_sender
    &&& b.drop_target == a.drop_target
    &&& b.workspace_layout == a.workspace_layout
    &&& b.config == a.config
    &&& b.hides_on_new_toplevel == a.hides_on_new_toplevel
    &&& b.visible == a.visible
    &&& b.drag_surface == a.drag_surface
    &&& match info {
            Some(OutputInfo { logical_size: Some((width, height)), name: Some(name) }) => {
                &&& b.outputs@ == a.outputs@.push(
                    Output { handle: output, name, width, height },
                )
                &&& if a.visible {
                    &&& b.layer_surfaces@ == insert_surface(
                        a.layer_surfaces@,
                        SurfaceId(a.next_surface_id),
                        output,
                    )
                    &&& b.next_surface_id == next_id(a.next_surface_id)
                    &&& t1 == t0.push(
                        Task::CreateSurface(SurfaceId(a.next_surface_id), output),
                    )
                } else {
                    &&& b.layer_surfaces == a.layer_surfaces
                    &&& b.next_surface_id == a.next_surface_id
                    &&& t1 == t0
                }
            },
            _ => {
                &&& b.outputs == a.outputs
                &&& b.layer_surfaces == a.layer_surfaces
                &&& b.next_surface_id == a.next_surface_id
                &&& t1 == t0
            }
        }
}

/// What `App::output_info_update` does.
pub open spec fn output_info_update_post(a: App, b: App, output: WlOutput, info: OutputInfo) -> bool {
    &&& b.workspaces == a.workspaces
    &&& b.toplevels == a.toplevels
    &&& b.has_cmd_sender == a.has_cmd_sender
    &&& b.drop_target == a.drop_target
    &&& b.workspace_layout == a.workspace_layout
    &&& b.config == a.config
    &&& b.hides_on_new_toplevel == a.hides_on_new_toplevel
    &&& b.visible == a.visible
    &&& b.drag_surface == a.drag_surface
    &&& b.layer_surfaces == a.layer_surfaces
    &&& b.next_surface_id == a.next_surface_id
    &&& match first_match(a.outputs@, output_has(output)) {
            Some(i) => {
                let o = a.outputs@[i];
                let (width, height) = match info.logical_size {
                    Some((w, h)) => (w, h),
                    None => (o.width, o.height),
                };
                let name = match info.name {
                    Some(n) => n,
                    None => o.name,
                };
                b.outputs@ == a.outputs@.update(
                    i,
                    Output { handle: o.handle, name, width, height },
                )
            },
            None => b.outputs == a.outputs
        }
}

/// What `App::output_removed` does.
pub open spec fn output_removed_post(a: App, b: App, output: WlOutput, c0: Seq<Cmd>, c1: Seq<Cmd>, t0: Seq<Task>, t1: Seq<Task>) -> bool {
    &&& c1 == c0
    &&& b.workspaces == a.workspaces
    &&& b.toplevels == a.toplevels
    &&& b.has_cmd_sender == a.has_cmd_sender
    &&& b.drop_target == a.drop_target
    &&& b.workspace_layout == a.workspace_layout
    &&& b.config == a.config
    &&& b.hides_on_new_toplevel == a.hides_on_new_toplevel
    &&& b.visible == a.visible
    &&& b.drag_surface == a.drag_surface
    &&& b.layer_surfaces == a.layer_surfaces
    &&& b.next_surface_id == a.next_surface_id
    &&& b.outputs@ == match first_match(a.outputs@, output_has(output)) {
            Some(i) => a.outputs@.remove(i),
            None => a.outputs@
        }
    &&& t1 == t0 + if a.visible {
            match first_match(a.layer_surfaces@, surface_on(output)) {
                Some(i) => seq![Task::DestroySurface(a.layer_surfaces@[i].0)],
                None => Seq::<Task>::empty(),
            }
        } else {
            Seq::<Task>::empty()
        }
}

/// What `App::workspaces_reported` does.
pub open spec fn workspaces_reported_post(a: App, b: App, reports: Vec<(Vec<WlOutput>, BackendWorkspace)>, c0: Seq<Cmd>, c1: Seq<Cmd>, t0: Seq<Task>, t1: Seq<Task>) -> bool {
    &&& b.workspaces@.len() == reports@.len()
    &&& forall|k: int| 0 <= k < reports@.len() ==> #[trigger] b.workspaces@[k]
            == workspace_from_report(a.workspaces@, reports@[k])
    &&& b.outputs == a.outputs
    &&& b.toplevels == a.toplevels
    &&& b.has_cmd_sender == a.has_cmd_sender
    &&& b.drop_target == a.drop_target
    &&& b.workspace_layout == a.workspace_layout
    &&& b.config == a.config
    &&& b.hides_on_new_toplevel == a.hides_on_new_toplevel
    &&& b.visible == a.visible
    &&& b.drag_surface == a.drag_surface
    &&& b.layer_surfaces == a.layer_surfaces
    &&& b.next_surface_id == a.next_surface_id
    &&& cmds_after_filter(c0, b, c1)
    &&& t1 == t0
}

/// What `App::new_toplevel` does.
pub open spec fn new_toplevel_post(a: App, b: App, handle: ZcosmicToplevelHandleV1, info: ToplevelInfo, c0: Seq<Cmd>, c1: Seq<Cmd>, t0: Seq<Task>, t1: Seq<Task>) -> bool {
    &&& b.toplevels@ == a.toplevels@.push(
            Toplevel { handle, info, img: None, icon: None }
        )
    &&& t1.len() >= t0.len() + 1
    &&& t1[t0.len() as int] matches Task::LoadIcon(id) && id@ == info.app_id@
    &&& b.outputs == a.outputs
    &&& b.workspaces == a.workspaces
    &&& b.has_cmd_sender == a.has_cmd_sender
    &&& b.drop_target == a.drop_target
    &&& b.workspace_layout == a.workspace_layout
    &&& b.config == a.config
    &&& b.hides_on_new_toplevel == a.hides_on_new_toplevel
    &&& b.layer_surfaces == a.layer_surfaces
    &&& b.next_surface_id == a.next_surface_id
    &&& (a.visible && a.hides_on_new_toplevel) ==> {
            &&& !b.visible
            &&& b.drag_surface is None
            &&& cmds_after_filter(c0, b, c1)
            &&& t1 == t0.push(t1[t0.len() as int])
                + destroy_tasks(a.layer_surfaces@)
        }
    &&& !(a.visible && a.hides_on_new_toplevel) ==> {
            &&& b.visible == a.visible
            &&& b.drag_surface == a.drag_surface
            &&& c1 == c0
            &&& t1.len() == t0.len() + 1
            &&& t1.subrange(0, t0.len() as int) == t0
        }
}

/// What `App::update_toplevel` does.
pub open spec fn update_toplevel_post(a: App, b: App, handle: ZcosmicToplevelHandleV1, info: ToplevelInfo, c0: Seq<Cmd>, c1: Seq<Cmd>, t0: Seq<Task>, t1: Seq<Task>) -> bool {
    &&& unchanged_but_toplevels(a, b)
    &&& c1 == c0
    &&& match first_match(a.toplevels@, toplevel_has(handle)) {
            Some(i) => {
                let t = a.toplevels@[i];
                &&& b.toplevels@ == a.toplevels@.update(
                    i,
                    Toplevel { handle: t.handle, info, img: t.img, icon: t.icon },
                )
                &&& if t.info.app_id@ != info.app_id@ {
                    &&& t1.len() == t0.len() + 1
                    &&& t1.subrange(0, t0.len() as int) == t0
                    &&& t1.last() matches Task::LoadIcon(id) && id@ == info.app_id@
                } else {
                    t1 == t0
                }
            },
            None => {
                &&& b.toplevels == a.toplevels
                &&& t1 == t0
            }
        }
}

/// What `App::close_toplevel_reported` does.
pub open spec fn close_toplevel_reported_post(a: App, b: App, handle: ZcosmicToplevelHandleV1) -> bool {
    &&& unchanged_but_toplevels(a, b)
    &&& b.toplevels@ == match first_match(a.toplevels@, toplevel_has(handle)) {
            Some(i) => a.toplevels@.remove(i),
            None => a.toplevels@
        }
}

/// What `App::workspace_captured` does.
pub open spec fn workspace_captured_post(a: App, b: App, handle: ZcosmicWorkspaceHandleV1, img: CaptureImage) -> bool {
    &&& unchanged_but_workspaces(a, b)
    &&& b.workspaces@ == match first_match(a.workspaces@, workspace_has(handle)) {
            Some(i) => {
                let w = a.workspaces@[i];
                a.workspaces@.update(
                    i,
                    Workspace { name: w.name, img: Some(img), handle: w.handle, outputs: w.outputs, is_active: w.is_active },
                )
            },
            None => a.workspaces@
        }
}

/// What `App::toplevel_captured` does.
pub open spec fn toplevel_captured_post(a: App, b: App, handle: ZcosmicToplevelHandleV1, img: CaptureImage) -> bool {
    &&& unchanged_but_toplevels(a, b)
    &&& b.toplevels@ == match first_match(a.toplevels@, toplevel_has(handle)) {
            Some(i) => {
                let t = a.toplevels@[i];
                a.toplevels@.update(i, Toplevel { handle: t.handle, info: t.info, img: Some(img), icon: t.icon })
            },
            None => a.toplevels@
        }
}

/// What `App::update_toplevel_icon` does.
pub open spec fn update_toplevel_icon_post(a: App, b: App, app_id: String, path: Option<String>) -> bool {
    &&& unchanged_but_toplevels(a, b)
    &&& b.toplevels@.len() == a.toplevels@.len()
    &&& forall|k: int| 0 <= k < a.toplevels@.len() ==> #[trigger] b.toplevels@[k] == if a.toplevels@[k].info.app_id@ == app_id@ {
            with_icon(a.toplevels@[k], path)
        } else {
            a.toplevels@[k]
        }
}


/// What `App::show` does.
pub open spec fn shown(a: App, b: App, c0: Seq<Cmd>, c1: Seq<Cmd>, t0: Seq<Task>, t1: Seq<Task>) -> bool {
    &&& b.visible
    &&& same_model(a, b)
    &&& b.drag_surface == a.drag_surface
    &&& !a.visible ==> {
        &&& b.layer_surfaces@ == surfaces_after_creating(a.layer_surfaces@, a.next_surface_id, output_handles(a.outputs@))
        &&& b.next_surface_id == id_after(a.next_surface_id, a.outputs@.len())
        &&& t1 == t0 + create_tasks(a.next_surface_id, output_handles(a.outputs@))
        &&& cmds_after_filter(c0, b, c1)
    }
    &&& a.visible ==> {
        &&& b.layer_surfaces == a.layer_surfaces
        &&& b.next_surface_id == a.next_surface_id
        &&& t1 == t0
        &&& c1 == c0
    }
}

/// What `App::toggle` does: shows when hidden, hides when shown.
pub open spec fn toggled(a: App, b: App, c0: Seq<Cmd>, c1: Seq<Cmd>, t0: Seq<Task>, t1: Seq<Task>) -> bool {
    if a.visible {
        dismissed(a, b, c0, c1, t0, t1)
    } else {
        shown(a, b, c0, c1, t0, t1)
    }
}

/// What `App::on_scroll` sends.
pub open spec fn scrolled(a: App, output: WlOutput, step: ScrollStep, c0: Seq<Cmd>, c1: Seq<Cmd>, t0: Seq<Task>, t1: Seq<Task>) -> bool {
    &&& t1 == t0
    &&& match scroll_target(a.workspaces@, output, step) {
        Some(h) => cmds_after_send(c0, a.has_cmd_sender, c1, Cmd::ActivateWorkspace(h)),
        None => c1 == c0,
    }
}

/// What handling `msg` in state `a` does: the next state `b`, the commands
/// `c` sent to the backend and the tasks `t` for the frontend.
pub open spec fn update_post(a: App, msg: Msg, b: App, c: Seq<Cmd>, t: Seq<Task>) -> bool {
    let e = Seq::<Cmd>::empty();
    let n = Seq::<Task>::empty();
    match msg {
        Msg::OutputCreated(o, info) => output_created_post(a, b, o, info, e, c, n, t),
        Msg::OutputInfoUpdate(o, info) => output_info_update_post(a, b, o, info) && c == e && t == n,
        Msg::OutputRemoved(o) => output_removed_post(a, b, o, e, c, n, t),
        Msg::LayerDone(id) => layer_done_post(a, b, id) && c == e && t == n,
        Msg::Wayland(ev) => match ev {
            Event::CmdSender => b == (App { has_cmd_sender: true, ..a }) && c == e && t == n,
            Event::Workspaces(reports) => workspaces_reported_post(a, b, reports, e, c, n, t),
            Event::WorkspaceCapture(h, img) => workspace_captured_post(a, b, h, img) && c == e && t == n,
            Event::NewToplevel(h, info) => new_toplevel_post(a, b, h, info, e, c, n, t),
            Event::UpdateToplevel(h, info) => update_toplevel_post(a, b, h, info, e, c, n, t),
            Event::CloseToplevel(h) => close_toplevel_reported_post(a, b, h) && c == e && t == n,
            Event::ToplevelCapture(h, img) => toplevel_captured_post(a, b, h, img) && c == e && t == n,
        },
        Msg::Close => dismissed(a, b, e, c, n, t),
        Msg::ActivateWorkspace(h) => activate_workspace_post(a, b, h, e, c, n, t),
        Msg::CloseWorkspace(_) => b == a && c == e && t == n,
        Msg::ActivateToplevel(h) => activate_toplevel_post(a, b, h, e, c, n, t),
        Msg::CloseToplevel(h) => b == a && cmds_after_send(e, a.has_cmd_sender, c, Cmd::CloseToplevel(h)) && t == n,
        Msg::StartDrag(d) => b == (App { drag_surface: Some(d), ..a }) && c == e && t == n,
        Msg::DndEnter(target) => b == (App { drop_target: Some(target), ..a }) && c == e && t == n,
        Msg::DndLeave(target) => dnd_leave_post(a, b, target) && c == e && t == n,
        Msg::DndWorkspaceDrop(_) => workspace_drop_post(a, b, e, c, n, t),
        Msg::SourceFinished => b == (App { drag_surface: None, ..a }) && c == e && t == n,
        Msg::NewWorkspace => b == a && c == e && t == n,
        Msg::CompConfig(layout) => b == (App { workspace_layout: layout, ..a }) && c == e && t == n,
        Msg::Config(config) => b == (App { config, ..a }) && c == e && t == n,
        Msg::UpdateToplevelIcon(app_id, path) => update_toplevel_icon_post(a, b, app_id, path) && c == e && t == n,
        Msg::OnScroll(o, step) => b == a && scrolled(a, o, step, e, c, n, t),
        Msg::Ignore => b == a && c == e && t == n,
    }
}

impl App {
    /// Handles a message: updates the state and returns the commands sent
    /// to the backend and the tasks for the frontend.
    pub fn update(&mut self, msg: Msg) -> (r: Update)
        requires
            old(self).wf(),
            old(self).next_surface_id < u64::MAX,
        ensures
            final(self).wf(),
            update_post(*old(self), msg, *final(self), r.cmds@, r.tasks@),
    {
        let mut out = Update::new();
        match msg {
            Msg::OutputCreated(o, info) => self.output_created(o, info, &mut out),
            Msg::OutputInfoUpdate(o, info) => self.output_info_update(o, info),
            Msg::OutputRemoved(o) => self.output_removed(o, &mut out),
            Msg::LayerDone(id) => self.layer_done(id),
            Msg::Wayland(ev) => match ev {
                Event::CmdSender => {
                    self.has_cmd_sender = true;
                },
                Event::Workspaces(reports) => self.workspaces_reported(reports, &mut out),
                Event::WorkspaceCapture(h, img) => self.workspace_captured(h, img),
                Event::NewToplevel(h, info) => self.new_toplevel(h, info, &mut out),
                Event::UpdateToplevel(h, info) => self.update_toplevel(h, info, &mut out),
                Event::CloseToplevel(h) => self.close_toplevel_reported(h),
                Event::ToplevelCapture(h, img) => self.toplevel_captured(h, img),
            },
            Msg::Close => self.dismiss(&mut out),
            Msg::ActivateWorkspace(h) => self.activate_workspace(h, &mut out),
            Msg::CloseWorkspace(_) => {},
            Msg::ActivateToplevel(h) => self.activate_toplevel(h, &mut out),
            Msg::CloseToplevel(h) => self.send_wayland_cmd(Cmd::CloseToplevel(h), &mut out),
            Msg::StartDrag(d) => {
                self.drag_surface = Some(d);
            },
            Msg::DndEnter(target) => {
                self.drop_target = Some(target);
            },
            Msg::DndLeave(target) => self.dnd_leave(target),
            Msg::DndWorkspaceDrop(_) => self.workspace_drop(&mut out),
            Msg::SourceFinished => {
                self.drag_surface = None;
            },
            Msg::NewWorkspace => {},
            Msg::CompConfig(layout) => {
                self.workspace_layout = layout;
            },
            Msg::Config(config) => {
                self.config = config;
            },
            Msg::UpdateToplevelIcon(app_id, path) => self.update_toplevel_icon(app_id, path),
            Msg::OnScroll(o, step) => self.on_scroll(o, step, &mut out),
            Msg::Ignore => {},
        }
        out
    }
}


/// Showing twice is showing once: the second show changes nothing, sends
/// nothing and asks for nothing.
pub proof fn lemma_show_twice(a: App, b: App, c: App, c0: Seq<Cmd>, c1: Seq<Cmd>, c2: Seq<Cmd>, t0: Seq<Task>, t1: Seq<Task>, t2: Seq<Task>)
    requires
        shown(a, b, c0, c1, t0, t1),
        shown(b, c, c1, c2, t1, t2),
    ensures
        c == b,
        c2 == c1,
        t2 == t1,
{
}

/// Entering a drop target and then leaving one: leaving the target entered
/// clears it, while a late leave of another target keeps the one entered.
/// The leave changes nothing else, sends nothing and asks for nothing.
pub proof fn lemma_enter_then_leave(a: App, b: App, c: App, entered: DropTarget, left: DropTarget, c1: Seq<Cmd>, t1: Seq<Task>, c2: Seq<Cmd>, t2: Seq<Task>)
    requires
        update_post(a, Msg::DndEnter(entered), b, c1, t1),
        update_post(b, Msg::DndLeave(left), c, c2, t2),
    ensures
        c.drop_target == (if entered == left { None } else { Some(entered) }),
        c == (App { drop_target: c.drop_target, ..b }),
        c2 == Seq::<Cmd>::empty(),
        t2 == Seq::<Task>::empty(),
{
}

/// A toplevel that opens and then closes, with a handle no known toplevel
/// has, leaves the toplevels as they were.
pub proof fn lemma_new_then_close_toplevel(
    a: App,
    b: App,
    c: App,
    h: ZcosmicToplevelHandleV1,
    info: ToplevelInfo,
    c1: Seq<Cmd>,
    t1: Seq<Task>,
    c2: Seq<Cmd>,
    t2: Seq<Task>,
)
    requires
        forall|j: int| 0 <= j < a.toplevels@.len() ==> a.toplevels@[j].handle != h,
        update_post(a, Msg::Wayland(Event::NewToplevel(h, info)), b, c1, t1),
        update_post(b, Msg::Wayland(Event::CloseToplevel(h)), c, c2, t2),
    ensures
        c.toplevels@ == a.toplevels@,
{
    let n = a.toplevels@.len() as int;
    assert(is_first_match(b.toplevels@, toplevel_has(h), n)) by {
        assert forall|j: int| 0 <= j < n implies !toplevel_has(h)(#[trigger] b.toplevels@[j]) by {
            assert(b.toplevels@[j] == a.toplevels@[j]);
        }
    }
    lemma_first_match(b.toplevels@, toplevel_has(h));
    assert(b.toplevels@.remove(n) =~= a.toplevels@);
}

/// An output that appears with a known size and name and then goes away,
/// with a handle no known output has, leaves the outputs as they were.
pub proof fn lemma_output_created_then_removed(
    a: App,
    b: App,
    c: App,
    o: WlOutput,
    width: i32,
    height: i32,
    name: String,
    c1: Seq<Cmd>,
    t1: Seq<Task>,
    c2: Seq<Cmd>,
    t2: Seq<Task>,
)
    requires
        forall|j: int| 0 <= j < a.outputs@.len() ==> a.outputs@[j].handle != o,
        update_post(
            a,
            Msg::OutputCreated(o, Some(OutputInfo { logical_size: Some((width, height)), name: Some(name) })),
            b,
            c1,
            t1,
        ),
        update_post(b, Msg::OutputRemoved(o), c, c2, t2),
    ensures
        c.outputs@ == a.outputs@,
{
    let n = a.outputs@.len() as int;
    assert(is_first_match(b.outputs@, output_has(o), n)) by {
        assert forall|j: int| 0 <= j < n implies !output_has(o)(#[trigger] b.outputs@[j]) by {
            assert(b.outputs@[j] == a.outputs@[j]);
        }
    }
    lemma_first_match(b.outputs@, output_has(o));
    assert(b.outputs@.remove(n) =~= a.outputs@);
}

/// Hiding the overview asks the backend to capture nothing: when commands
/// can be sent, the last command is the empty capture filter.
pub proof fn lemma_hidden_captures_nothing(a: App, b: App, c: Seq<Cmd>, t: Seq<Task>)
    requires
        update_post(a, Msg::Close, b, c, t),
        a.has_cmd_sender,
    ensures
        c.len() == 1,
        c[0] matches Cmd::CaptureFilter(f) && f.workspaces_on_outputs@.len() == 0 && f.toplevels_on_workspaces@.len() == 0,
{
}

/// Showing a hidden overview creates one layer surface per output, and
/// toggling twice returns to the same visibility.
pub proof fn lemma_toggle_twice(
    a: App,
    b: App,
    c: App,
    c0: Seq<Cmd>,
    c1: Seq<Cmd>,
    c2: Seq<Cmd>,
    t0: Seq<Task>,
    t1: Seq<Task>,
    t2: Seq<Task>,
)
    requires
        toggled(a, b, c0, c1, t0, t1),
        toggled(b, c, c1, c2, t1, t2),
    ensures
        c.visible == a.visible,
        same_model(a, c),
{
}

/// Every layer surface id was issued before `next`: it is below it.
pub open spec fn surface_ids_below(ls: Seq<(SurfaceId, LayerSurface)>, next: u64) -> bool {
    forall|i: int| 0 <= i < ls.len() ==> (#[trigger] ls[i]).0.0 < next
}

/// The surfaces made for the outputs `outs` with consecutive ids from
/// `next`, in order.
pub open spec fn fresh_surfaces(next: u64, outs: Seq<WlOutput>) -> Seq<(SurfaceId, LayerSurface)> {
    Seq::new(outs.len(), |k: int| (SurfaceId((next + k) as u64), LayerSurface { output: outs[k] }))
}

/// Counting up from `next` without passing the largest id adds.
proof fn lemma_id_after_adds(next: u64, n: nat)
    requires
        next + n <= u64::MAX,
    ensures
        id_after(next, n) == next + n,
    decreases n,
{
    if n > 0 {
        lemma_id_after_adds(next, (n - 1) as nat);
    }
}

/// Inserting an id that no surface has adds a surface at the end.
proof fn lemma_insert_new_surface(ls: Seq<(SurfaceId, LayerSurface)>, id: SurfaceId, output: WlOutput)
    requires
        forall|i: int| 0 <= i < ls.len() ==> (#[trigger] ls[i]).0 != id,
    ensures
        insert_surface(ls, id, output) == ls.push((id, LayerSurface { output })),
{
    lemma_first_match(ls, surface_has(id));
    assert forall|j: int| 0 <= j < ls.len() implies !surface_has(id)(#[trigger] ls[j]) by {}
}

/// Creating surfaces below the ids already issued keeps every existing
/// surface and appends the new ones, each with a new id.
proof fn lemma_creating_appends(ls: Seq<(SurfaceId, LayerSurface)>, next: u64, outs: Seq<WlOutput>)
    requires
        surface_ids_below(ls, next),
        next + outs.len() <= u64::MAX,
    ensures
        surfaces_after_creating(ls, next, outs) == ls + fresh_surfaces(next, outs),
    decreases outs.len(),
{
    if outs.len() == 0 {
        assert(ls + fresh_surfaces(next, outs) =~= ls);
    } else {
        let n = (outs.len() - 1) as nat;
        let front = outs.drop_last();
        lemma_creating_appends(ls, next, front);
        lemma_id_after_adds(next, n);
        let prev = ls + fresh_surfaces(next, front);
        let id = SurfaceId(id_after(next, n));
        assert forall|i: int| 0 <= i < prev.len() implies (#[trigger] prev[i]).0 != id by {
            if i < ls.len() {
                assert(prev[i] == ls[i]);
            } else {
                assert(prev[i] == fresh_surfaces(next, front)[i - ls.len()]);
            }
        }
        lemma_insert_new_surface(prev, id, outs.last());
        assert(prev.push((id, LayerSurface { output: outs.last() })) =~= ls + fresh_surfaces(next, outs));
    }
}


/// The active workspaces, in order.
pub open spec fn is_active_workspace() -> spec_fn(Workspace) -> bool {
    |w: Workspace| w.is_active
}

/// The handle of a workspace.
pub open spec fn handle_of_workspace() -> spec_fn(Workspace) -> ZcosmicWorkspaceHandleV1 {
    |w: Workspace| w.handle
}

/// The handles of the active workspaces are those of the workspaces kept by
/// filtering on `is_active`, in order.
proof fn lemma_active_handles_filter(ws: Seq<Workspace>)
    ensures
        active_workspace_handles(ws) == ws.filter(is_active_workspace()).map_values(handle_of_workspace()),
    decreases ws.len(),
{
    reveal(Seq::filter);
    if ws.len() > 0 {
        lemma_active_handles_filter(ws.drop_last());
        let sub = ws.drop_last().filter(is_active_workspace());
        if ws.last().is_active {
            assert(sub.push(ws.last()).map_values(handle_of_workspace())
                =~= sub.map_values(handle_of_workspace()).push(ws.last().handle));
        }
    }
}

/// The capture filter of a shown overview asks for the windows of every
/// active workspace and of no other, in workspace order, and for the
/// workspaces of every output, in output order.
pub proof fn lemma_capture_filter_lists_active_workspaces(app: App, f: CaptureFilter)
    requires
        app.visible,
        is_capture_filter_of(app, f),
    ensures
        f.toplevels_on_workspaces@ == app.workspaces@.filter(is_active_workspace()).map_values(handle_of_workspace()),
        f.toplevels_on_workspaces@.len() == app.workspaces@.filter(is_active_workspace()).len(),
        forall|j: int| 0 <= j < app.workspaces@.len() && (#[trigger] app.workspaces@[j]).is_active
            ==> f.toplevels_on_workspaces@.contains(app.workspaces@[j].handle),
        f.workspaces_on_outputs@.len() == app.outputs@.len(),
        forall|k: int| 0 <= k < app.outputs@.len() ==> #[trigger] f.workspaces_on_outputs@[k] == app.outputs@[k].handle,
{
    let ws = app.workspaces@;
    let kept = ws.filter(is_active_workspace());
    lemma_active_handles_filter(ws);
    broadcast use vstd::seq_lib::group_filter_ensures;
    assert forall|j: int| 0 <= j < ws.len() && (#[trigger] ws[j]).is_active
        implies f.toplevels_on_workspaces@.contains(ws[j].handle) by {
        ws.lemma_filter_contains(is_active_workspace(), j);
        let m = choose|m: int| 0 <= m < kept.len() && kept[m] == ws[j];
        assert(f.toplevels_on_workspaces@[m] == ws[j].handle);
    }
}

/// Showing a hidden overview with a command sender sends the capture filter
/// of the shown state: the windows of every active workspace, in order.
pub proof fn lemma_show_captures_every_active_workspace(a: App, b: App, c0: Seq<Cmd>, c1: Seq<Cmd>, t0: Seq<Task>, t1: Seq<Task>)
    requires
        shown(a, b, c0, c1, t0, t1),
        !a.visible,
        a.has_cmd_sender,
    ensures
        c1.len() == c0.len() + 1,
        c1.last() matches Cmd::CaptureFilter(f) && f.toplevels_on_workspaces@ == a.workspaces@.filter(
            is_active_workspace(),
        ).map_values(handle_of_workspace()) && f.workspaces_on_outputs@ == a.outputs@.map_values(|o: Output| o.handle),
{
    match c1.last() {
        Cmd::CaptureFilter(f) => {
            lemma_capture_filter_lists_active_workspaces(b, f);
        },
        _ => {},
    }
}

/// A reported change of a window's application id asks for the icon of the
/// new application, once; an unchanged application id asks for nothing. The
/// window, found by its handle, takes the reported information.
pub proof fn lemma_new_app_id_loads_its_icon(
    a: App,
    h: ZcosmicToplevelHandleV1,
    info: ToplevelInfo,
    b: App,
    c: Seq<Cmd>,
    t: Seq<Task>,
    i: int,
)
    requires
        update_post(a, Msg::Wayland(Event::UpdateToplevel(h, info)), b, c, t),
        0 <= i < a.toplevels@.len(),
        a.toplevels@[i].handle == h,
        forall|j: int| 0 <= j < i ==> (#[trigger] a.toplevels@[j]).handle != h,
    ensures
        c.len() == 0,
        a.toplevels@[i].info.app_id@ != info.app_id@ ==> t.len() == 1 && (t[0] matches Task::LoadIcon(id)
            && id@ == info.app_id@),
        a.toplevels@[i].info.app_id@ == info.app_id@ ==> t.len() == 0,
        b.toplevels@.len() == a.toplevels@.len(),
        b.toplevels@[i].handle == h,
        b.toplevels@[i].info == info,
        forall|j: int| 0 <= j < a.toplevels@.len() && j != i ==> #[trigger] b.toplevels@[j] == a.toplevels@[j],
{
    lemma_first_match(a.toplevels@, toplevel_has(h));
    assert(is_first_match(a.toplevels@, toplevel_has(h), i));
}

/// A window the overview does not know changes nothing when it is updated.
pub proof fn lemma_update_of_unknown_window(a: App, h: ZcosmicToplevelHandleV1, info: ToplevelInfo, b: App, c: Seq<Cmd>, t: Seq<Task>)
    requires
        update_post(a, Msg::Wayland(Event::UpdateToplevel(h, info)), b, c, t),
        forall|j: int| 0 <= j < a.toplevels@.len() ==> (#[trigger] a.toplevels@[j]).handle != h,
    ensures
        c.len() == 0,
        t.len() == 0,
        b.toplevels == a.toplevels,
{
    lemma_first_match(a.toplevels@, toplevel_has(h));
}

/// An info update of a known output takes each field it reports and keeps
/// each field it leaves out; the other outputs stay as they were.
pub proof fn lemma_info_update_takes_reported_fields(
    a: App,
    o: WlOutput,
    info: OutputInfo,
    b: App,
    c: Seq<Cmd>,
    t: Seq<Task>,
    i: int,
)
    requires
        update_post(a, Msg::OutputInfoUpdate(o, info), b, c, t),
        0 <= i < a.outputs@.len(),
        a.outputs@[i].handle == o,
        forall|j: int| 0 <= j < i ==> (#[trigger] a.outputs@[j]).handle != o,
    ensures
        c.len() == 0,
        t.len() == 0,
        b.outputs@.len() == a.outputs@.len(),
        b.outputs@[i].handle == o,
        info.name matches Some(n) ==> b.outputs@[i].name == n,
        info.name is None ==> b.outputs@[i].name == a.outputs@[i].name,
        info.logical_size matches Some((w, hh)) ==> b.outputs@[i].width == w && b.outputs@[i].height == hh,
        info.logical_size is None ==> b.outputs@[i].width == a.outputs@[i].width
            && b.outputs@[i].height == a.outputs@[i].height,
        forall|j: int| 0 <= j < a.outputs@.len() && j != i ==> #[trigger] b.outputs@[j] == a.outputs@[j],
{
    lemma_first_match(a.outputs@, output_has(o));
    assert(is_first_match(a.outputs@, output_has(o), i));
}

/// Dropping a dragged window on a workspace, whether on its sidebar entry
/// or on an output's window area, moves the window to that workspace on
/// that output; a drop elsewhere sends nothing. Either way the drop target
/// is cleared and no task is asked for.
pub proof fn lemma_drop_moves_dragged_window(
    a: App,
    d: DragToplevel,
    b: App,
    c: Seq<Cmd>,
    t: Seq<Task>,
    window: ZcosmicToplevelHandleV1,
)
    requires
        update_post(a, Msg::DndWorkspaceDrop(d), b, c, t),
        a.drag_surface == Some(DragSurface::Toplevel(window)),
        a.has_cmd_sender,
    ensures
        t.len() == 0,
        b.drop_target is None,
        a.drop_target matches Some(DropTarget::WorkspaceSidebarEntry(w, o)) ==> c == seq![
            Cmd::MoveToplevelToWorkspace(window, w, o),
        ],
        a.drop_target matches Some(DropTarget::OutputToplevels(w, o)) ==> c == seq![
            Cmd::MoveToplevelToWorkspace(window, w, o),
        ],
        !(a.drop_target matches Some(DropTarget::WorkspaceSidebarEntry(_, _))) && !(a.drop_target matches Some(
            DropTarget::OutputToplevels(_, _),
        )) ==> c.len() == 0,
{
    match a.drop_target {
        Some(DropTarget::WorkspaceSidebarEntry(w, o)) => {
            assert(Seq::<Cmd>::empty().push(Cmd::MoveToplevelToWorkspace(window, w, o)) =~= seq![
                Cmd::MoveToplevelToWorkspace(window, w, o),
            ]);
        },
        Some(DropTarget::OutputToplevels(w, o)) => {
            assert(Seq::<Cmd>::empty().push(Cmd::MoveToplevelToWorkspace(window, w, o)) =~= seq![
                Cmd::MoveToplevelToWorkspace(window, w, o),
            ]);
        },
        _ => {},
    }
}

/// Every workspace on `output` has its index listed, at some position.
proof fn lemma_indices_on_output_complete(ws: Seq<Workspace>, output: WlOutput, i: int)
    requires
        0 <= i < ws.len(),
        ws[i].outputs@.contains(output),
    ensures
        exists|p: int| 0 <= p < indices_on_output(ws, output).len() && #[trigger] indices_on_output(ws, output)[p] == i,
    decreases ws.len(),
{
    let rest = indices_on_output(ws.drop_last(), output);
    if i == ws.len() - 1 {
        assert(indices_on_output(ws, output)[rest.len() as int] == i);
    } else {
        assert(ws.drop_last()[i] == ws[i]);
        lemma_indices_on_output_complete(ws.drop_last(), output, i);
        let p = choose|p: int| 0 <= p < rest.len() && #[trigger] rest[p] == i;
        assert(indices_on_output(ws, output)[p] == i);
    }
}

/// The positions, among the workspaces on `output`, of the workspace `i`
/// and of the workspace `j` that follows it on that output: `j` is listed
/// right after `i`.
proof fn lemma_next_on_output(ws: Seq<Workspace>, output: WlOutput, i: int, j: int) -> (p: int)
    requires
        0 <= i < j < ws.len(),
        ws[i].outputs@.contains(output),
        ws[j].outputs@.contains(output),
        forall|k: int| i < k < j ==> !(#[trigger] ws[k]).outputs@.contains(output),
    ensures
        0 <= p && p + 1 < indices_on_output(ws, output).len(),
        indices_on_output(ws, output)[p] == i,
        indices_on_output(ws, output)[p + 1] == j,
{
    let idxs = indices_on_output(ws, output);
    lemma_indices_on_output(ws, output);
    lemma_indices_on_output_complete(ws, output, i);
    lemma_indices_on_output_complete(ws, output, j);
    let p = choose|p: int| 0 <= p < idxs.len() && #[trigger] idxs[p] == i;
    let q = choose|q: int| 0 <= q < idxs.len() && #[trigger] idxs[q] == j;
    if q <= p {
        if q < p {
            assert(idxs[q] < idxs[p]);
        }
    }
    assert(p < q);
    if p + 1 < q {
        assert(idxs[p] < idxs[p + 1]);
        assert(idxs[p + 1] < idxs[q]);
        let x = idxs[p + 1];
        assert(ws[x].outputs@.contains(output));
    }
    p
}

/// The first active workspace on `output` is at the position of the
/// workspace `i` among those on the output, when `i` is active and no
/// workspace on the output before it is.
proof fn lemma_first_active_on_output(ws: Seq<Workspace>, output: WlOutput, i: int, p: int)
    requires
        0 <= p < indices_on_output(ws, output).len(),
        indices_on_output(ws, output)[p] == i,
        ws[i].is_active,
        forall|k: int| 0 <= k < i && (#[trigger] ws[k]).outputs@.contains(output) ==> !ws[k].is_active,
    ensures
        first_match(indices_on_output(ws, output), |x: int| ws[x].is_active) == Some(p),
{
    let idxs = indices_on_output(ws, output);
    let active = |x: int| ws[x].is_active;
    lemma_indices_on_output(ws, output);
    assert forall|r: int| 0 <= r < p implies !active(#[trigger] idxs[r]) by {
        assert(idxs[r] < idxs[p]);
        assert(ws[idxs[r]].outputs@.contains(output));
    }
    assert(is_first_match(idxs, active, p));
    lemma_first_match(idxs, active);
}

/// Scrolling forward over an output activates the workspace on that output
/// that follows its first active workspace.
pub proof fn lemma_scroll_next_activates_following_workspace(
    a: App,
    output: WlOutput,
    b: App,
    c: Seq<Cmd>,
    t: Seq<Task>,
    i: int,
    j: int,
)
    requires
        update_post(a, Msg::OnScroll(output, ScrollStep::Next), b, c, t),
        a.has_cmd_sender,
        0 <= i < j < a.workspaces@.len(),
        a.workspaces@[i].outputs@.contains(output),
        a.workspaces@[i].is_active,
        forall|k: int| 0 <= k < i && (#[trigger] a.workspaces@[k]).outputs@.contains(output) ==> !a.workspaces@[k].is_active,
        a.workspaces@[j].outputs@.contains(output),
        forall|k: int| i < k < j ==> !(#[trigger] a.workspaces@[k]).outputs@.contains(output),
    ensures
        b == a,
        t.len() == 0,
        c == seq![Cmd::ActivateWorkspace(a.workspaces@[j].handle)],
{
    let ws = a.workspaces@;
    let p = lemma_next_on_output(ws, output, i, j);
    lemma_first_active_on_output(ws, output, i, p);
    assert(Seq::<Cmd>::empty().push(Cmd::ActivateWorkspace(ws[j].handle)) =~= seq![Cmd::ActivateWorkspace(ws[j].handle)]);
}

/// Scrolling back over an output activates the workspace on that output
/// that comes before its first active workspace.
pub proof fn lemma_scroll_previous_activates_preceding_workspace(
    a: App,
    output: WlOutput,
    b: App,
    c: Seq<Cmd>,
    t: Seq<Task>,
    i: int,
    j: int,
)
    requires
        update_post(a, Msg::OnScroll(output, ScrollStep::Previous), b, c, t),
        a.has_cmd_sender,
        0 <= i < j < a.workspaces@.len(),
        a.workspaces@[j].outputs@.contains(output),
        a.workspaces@[j].is_active,
        forall|k: int| 0 <= k < j && (#[trigger] a.workspaces@[k]).outputs@.contains(output) ==> !a.workspaces@[k].is_active,
        a.workspaces@[i].outputs@.contains(output),
        forall|k: int| i < k < j ==> !(#[trigger] a.workspaces@[k]).outputs@.contains(output),
    ensures
        b == a,
        t.len() == 0,
        c == seq![Cmd::ActivateWorkspace(a.workspaces@[i].handle)],
{
    let ws = a.workspaces@;
    let p = lemma_next_on_output(ws, output, i, j);
    lemma_first_active_on_output(ws, output, j, p + 1);
    assert(Seq::<Cmd>::empty().push(Cmd::ActivateWorkspace(ws[i].handle)) =~= seq![Cmd::ActivateWorkspace(ws[i].handle)]);
}

/// Scrolling forward over an output whose first active workspace is its
/// last workspace sends nothing.
pub proof fn lemma_scroll_next_past_last_does_nothing(
    a: App,
    output: WlOutput,
    b: App,
    c: Seq<Cmd>,
    t: Seq<Task>,
    i: int,
)
    requires
        update_post(a, Msg::OnScroll(output, ScrollStep::Next), b, c, t),
        0 <= i < a.workspaces@.len(),
        a.workspaces@[i].outputs@.contains(output),
        a.workspaces@[i].is_active,
        forall|k: int| 0 <= k < i && (#[trigger] a.workspaces@[k]).outputs@.contains(output) ==> !a.workspaces@[k].is_active,
        forall|k: int| i < k < a.workspaces@.len() ==> !(#[trigger] a.workspaces@[k]).outputs@.contains(output),
    ensures
        b == a,
        t.len() == 0,
        c.len() == 0,
{
    let ws = a.workspaces@;
    let idxs = indices_on_output(ws, output);
    lemma_indices_on_output(ws, output);
    lemma_indices_on_output_complete(ws, output, i);
    let p = choose|p: int| 0 <= p < idxs.len() && #[trigger] idxs[p] == i;
    lemma_first_active_on_output(ws, output, i, p);
    if p + 1 < idxs.len() {
        assert(idxs[p] < idxs[p + 1]);
        let x = idxs[p + 1];
        assert(ws[x].outputs@.contains(output));
    }
}

} // verus!
