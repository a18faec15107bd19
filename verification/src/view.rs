//! What a layer surface of the overview shows: the workspaces sidebar of
//! its output, the previews of the toplevels on the output's active
//! workspaces, and where drags can be dropped.

use vstd::prelude::*;

use crate::app::{
    first_match, indices_on_output, is_first_match, lemma_first_match, lemma_indices_on_output,
    workspace_has, App, LayerSurface, Toplevel, Workspace, WorkspaceLayout,
};
use crate::backend::{
    CaptureImage, ToplevelState, WlOutput, ZcosmicToplevelHandleV1, ZcosmicWorkspaceHandleV1,
};
use crate::dnd::{DragSurface, DropTarget};

verus! {

/// An entry of the workspaces sidebar, naming a workspace by its index.
#[derive(Clone, Copy, Debug, PartialEq, Eq, Structural)]
pub enum SidebarEntry {
    /// Placeholder shown before the workspace a drag is over.
    DragPlaceholder(usize),
    /// The workspace itself, and whether a drag is over it.
    Workspace(usize, bool),
}

/// A toplevel preview, naming the toplevel by its index, and whether it is
/// the toplevel being dragged (it keeps its place but is not drawn).
#[derive(Clone, Copy, Debug, PartialEq, Eq, Structural)]
pub struct ToplevelEntry {
    pub index: usize,
    pub is_being_dragged: bool,
}

/// Contents of one layer surface.
#[derive(Debug)]
pub struct SurfaceView {
    pub layout: WorkspaceLayout,
    pub sidebar: Vec<SidebarEntry>,
    pub toplevels: Vec<ToplevelEntry>,
    /// Drop target of the toplevels area: the first active workspace of the
    /// output; none if the output has no active workspace.
    pub toplevels_drop_target: Option<DropTarget>,
}

/// The workspace a drag is over in this output's sidebar, if any.
pub open spec fn sidebar_drop_target(app: App, output: WlOutput) -> Option<ZcosmicWorkspaceHandleV1> {
    match app.drop_target {
        Some(DropTarget::WorkspaceSidebarEntry(w, o)) => if o == output {
            Some(w)
        } else {
            None
        },
        _ => None,
    }
}

/// The toplevel being dragged, if any.
pub open spec fn dragged_toplevel(app: App) -> Option<ZcosmicToplevelHandleV1> {
    match app.drag_surface {
        Some(DragSurface::Toplevel(t)) => Some(t),
        _ => None,
    }
}

/// The first workspace with handle `h` exists and is active.
pub open spec fn handle_is_active(ws: Seq<Workspace>, h: ZcosmicWorkspaceHandleV1) -> bool {
    match first_match(ws, workspace_has(h)) {
        Some(i) => ws[i].is_active,
        None => false,
    }
}

/// A toplevel is shown on `output` when it is on that output and on some
/// workspace that is active.
pub open spec fn toplevel_shown_on(ws: Seq<Workspace>, t: Toplevel, output: WlOutput) -> bool {
    &&& t.info.output@.contains(output)
    &&& exists|j: int| 0 <= j < t.info.workspace@.len() && handle_is_active(ws, #[trigger] t.info.workspace@[j])
}

/// Indices of the toplevels shown on `output`, in order.
pub open spec fn toplevels_shown_on(ws: Seq<Workspace>, ts: Seq<Toplevel>, output: WlOutput) -> Seq<int>
    decreases ts.len(),
{
    if ts.len() == 0 {
        Seq::empty()
    } else {
        let rest = toplevels_shown_on(ws, ts.drop_last(), output);
        if toplevel_shown_on(ws, ts.last(), output) {
            rest.push(ts.len() - 1)
        } else {
            rest
        }
    }
}

/// Sidebar entries for the workspaces of indices `idxs`: each workspace,
/// preceded by a placeholder when it is the one a drag is over.
pub open spec fn sidebar_entries(ws: Seq<Workspace>, idxs: Seq<int>, drop: Option<ZcosmicWorkspaceHandleV1>) -> Seq<SidebarEntry>
    decreases idxs.len(),
{
    if idxs.len() == 0 {
        Seq::empty()
    } else {
        let rest = sidebar_entries(ws, idxs.drop_last(), drop);
        let i = idxs.last();
        let is_target = drop == Some(ws[i].handle);
        let with_placeholder = if is_target {
            rest.push(SidebarEntry::DragPlaceholder(i as usize))
        } else {
            rest
        };
        with_placeholder.push(SidebarEntry::Workspace(i as usize, is_target))
    }
}

/// Size of the placeholder shown for a workspace: the size of its image,
/// or 1 by 1 without one.
pub fn drag_placeholder_size(img: Option<CaptureImage>) -> (r: (u32, u32))
    ensures
        r == match img {
            Some(i) => (i.width, i.height),
            None => (1u32, 1u32),
        },
{
    match img {
        Some(i) => (i.width, i.height),
        None => (1, 1),
    }
}

fn contains_output(outputs: &Vec<WlOutput>, output: &WlOutput) -> (r: bool)
    ensures
        r == outputs@.contains(*output),
{
    let mut i: usize = 0;
    while i < outputs.len()
        invariant
            i <= outputs@.len(),
            forall|j: int| 0 <= j < i ==> outputs@[j] != *output,
        decreases outputs@.len() - i,
    {
        if outputs[i] == *output {
            proof {
                assert(outputs@[i as int] == *output);
            }
            return true;
        }
        i = i + 1;
    }
    false
}

fn handle_active(app: &App, h: &ZcosmicWorkspaceHandleV1) -> (r: bool)
    ensures
        r == handle_is_active(app.workspaces@, *h),
{
    proof {
        lemma_first_match(app.workspaces@, workspace_has(*h));
    }
    match app.workspace_for_handle(h) {
        Some(i) => app.workspaces[i].is_active,
        None => false,
    }
}

fn is_shown_on(app: &App, t: &Toplevel, output: &WlOutput) -> (r: bool)
    ensures
        r == toplevel_shown_on(app.workspaces@, *t, *output),
{
    if !contains_output(&t.info.output, output) {
        return false;
    }
    let mut j: usize = 0;
    while j < t.info.workspace.len()
        invariant
            j <= t.info.workspace@.len(),
            t.info.output@.contains(*output),
            forall|m: int| 0 <= m < j ==> !handle_is_active(app.workspaces@, #[trigger] t.info.workspace@[m]),
        decreases t.info.workspace@.len() - j,
    {
        if handle_active(app, &t.info.workspace[j]) {
            assert(handle_is_active(app.workspaces@, t.info.workspace@[j as int]));
            return true;
        }
        j = j + 1;
    }
    false
}

/// What the layer surface `surface` shows.
pub fn layer_surface(app: &App, surface: &LayerSurface) -> (r: SurfaceView)
    ensures
        r.layout == app.workspace_layout,
        r.sidebar@ == sidebar_entries(
            app.workspaces@,
            indices_on_output(app.workspaces@, surface.output),
            sidebar_drop_target(*app, surface.output),
        ),
        r.toplevels@.len() == toplevels_shown_on(app.workspaces@, app.toplevels@, surface.output).len(),
        forall|k: int| 0 <= k < r.toplevels@.len() ==> {
            let i = toplevels_shown_on(app.workspaces@, app.toplevels@, surface.output)[k];
            &&& (#[trigger] r.toplevels@[k]).index == i
            &&& r.toplevels@[k].is_being_dragged == (dragged_toplevel(*app) == Some(app.toplevels@[i].handle))
        },
        r.toplevels_drop_target == match first_match(
            indices_on_output(app.workspaces@, surface.output),
            |i: int| app.workspaces@[i].is_active,
        ) {
            Some(k) => Some(DropTarget::OutputToplevels(
                app.workspaces@[indices_on_output(app.workspaces@, surface.output)[k]].handle,
                surface.output,
            )),
            None => None,
        },
{
    let output = surface.output;
    let drop: Option<ZcosmicWorkspaceHandleV1> = match app.drop_target {
        Some(DropTarget::WorkspaceSidebarEntry(w, o)) => if o == output {
            Some(w)
        } else {
            None
        },
        _ => None,
    };
    let dragged: Option<ZcosmicToplevelHandleV1> = match app.drag_surface {
        Some(DragSurface::Toplevel(t)) => Some(t),
        _ => None,
    };
    let idxs = app.workspaces_for_output(&output);
    let ghost iv = idxs@.map_values(|i: usize| i as int);
    let ghost ws = app.workspaces@;
    proof {
        lemma_indices_on_output(ws, output);
    }
    // sidebar
    let mut sidebar: Vec<SidebarEntry> = Vec::new();
    let mut k: usize = 0;
    proof {
        assert(iv.take(0) =~= Seq::<int>::empty());
    }
    while k < idxs.len()
        invariant
            k <= idxs@.len(),
            iv == idxs@.map_values(|i: usize| i as int),
            iv == indices_on_output(ws, output),
            ws == app.workspaces@,
            forall|m: int| 0 <= m < iv.len() ==> 0 <= #[trigger] iv[m] < ws.len(),
            sidebar@ == sidebar_entries(ws, iv.take(k as int), drop),
        decreases idxs@.len() - k,
    {
        let i = idxs[k];
        assert(iv[k as int] == i as int);
        let is_target = match drop {
            Some(w) => w == app.workspaces[i].handle,
            None => false,
        };
        if is_target {
            sidebar.push(SidebarEntry::DragPlaceholder(i));
        }
        sidebar.push(SidebarEntry::Workspace(i, is_target));
        proof {
            assert(iv.take(k + 1).drop_last() =~= iv.take(k as int));
            assert(iv.take(k + 1).last() == i as int);
            assert(is_target == (drop == Some(ws[i as int].handle)));
        }
        k = k + 1;
    }
    proof {
        assert(iv.take(iv.len() as int) =~= iv);
    }
    // toplevels
    let mut toplevels: Vec<ToplevelEntry> = Vec::new();
    let ghost ts = app.toplevels@;
    let mut t: usize = 0;
    proof {
        assert(ts.subrange(0, 0).len() == 0);
    }
    while t < app.toplevels.len()
        invariant
            t <= ts.len(),
            ts == app.toplevels@,
            ws == app.workspaces@,
            toplevels@.len() == toplevels_shown_on(ws, ts.subrange(0, t as int), output).len(),
            forall|m: int| 0 <= m < toplevels@.len() ==> {
                let i = toplevels_shown_on(ws, ts.subrange(0, t as int), output)[m];
                &&& (#[trigger] toplevels@[m]).index == i
                &&& toplevels@[m].is_being_dragged == (dragged == Some(ts[i].handle))
            },
        decreases ts.len() - t,
    {
        let ghost prev = toplevels_shown_on(ws, ts.subrange(0, t as int), output);
        proof {
            assert(ts.subrange(0, t + 1).drop_last() =~= ts.subrange(0, t as int));
            assert(ts.subrange(0, t + 1).last() == ts[t as int]);
        }
        if is_shown_on(app, &app.toplevels[t], &output) {
            let d = match dragged {
                Some(h) => h == app.toplevels[t].handle,
                None => false,
            };
            toplevels.push(ToplevelEntry { index: t, is_being_dragged: d });
            proof {
                let now = toplevels_shown_on(ws, ts.subrange(0, t + 1), output);
                assert(now == prev.push(t as int));
                assert forall|m: int| 0 <= m < toplevels@.len() implies {
                    let i = now[m];
                    &&& (#[trigger] toplevels@[m]).index == i
                    &&& toplevels@[m].is_being_dragged == (dragged == Some(ts[i].handle))
                } by {
                    if m < prev.len() {
                        assert(now[m] == prev[m]);
                    }
                }
            }
        }
        t = t + 1;
    }
    proof {
        assert(ts.subrange(0, ts.len() as int) =~= ts);
    }
    // drop target of the toplevels area
    let ghost p = |i: int| ws[i].is_active;
    proof {
        lemma_first_match(iv, p);
    }
    let mut k2: usize = 0;
    let mut target: Option<DropTarget> = None;
    while k2 < idxs.len()
        invariant
            k2 <= idxs@.len(),
            iv == idxs@.map_values(|i: usize| i as int),
            iv == indices_on_output(ws, output),
            ws == app.workspaces@,
            p == (|i: int| ws[i].is_active),
            forall|m: int| 0 <= m < iv.len() ==> 0 <= #[trigger] iv[m] < ws.len(),
            target is None ==> forall|m: int| 0 <= m < k2 ==> !p(#[trigger] iv[m]),
            target matches Some(tg) ==> exists|f: int| is_first_match(iv, p, f)
                && tg == DropTarget::OutputToplevels(ws[iv[f]].handle, output),
        decreases idxs@.len() - k2,
    {
        if target.is_none() {
            let i = idxs[k2];
            assert(iv[k2 as int] == i as int);
            if app.workspaces[i].is_active {
                target = Some(DropTarget::OutputToplevels(app.workspaces[i].handle, output));
                proof {
                    assert(p(iv[k2 as int]));
                    assert(is_first_match(iv, p, k2 as int));
                }
            } else {
                proof {
                    assert(!p(iv[k2 as int]));
                }
            }
        }
        k2 = k2 + 1;
    }
    SurfaceView { layout: app.workspace_layout, sidebar, toplevels, toplevels_drop_target: target }
}

/// A toplevel preview is shown selected when its window is activated.
pub fn toplevel_preview_selected(toplevel: &Toplevel) -> (r: bool)
    ensures
        r == toplevel.info.state@.contains(ToplevelState::Activated),
{
    let states = &toplevel.info.state;
    let mut i: usize = 0;
    while i < states.len()
        invariant
            i <= states@.len(),
            states@ == toplevel.info.state@,
            forall|k: int| 0 <= k < i ==> states@[k] != ToplevelState::Activated,
        decreases states@.len() - i,
    {
        match states[i] {
            ToplevelState::Activated => {
                proof {
                    assert(states@[i as int] == ToplevelState::Activated);
                }
                return true;
            },
            _ => {},
        }
        i = i + 1;
    }
    false
}

/// The wallpaper drawn behind the overview when the background settings
/// name none for the output.
pub open spec fn default_wallpaper() -> Seq<char> {
    "/usr/share/backgrounds/pop/kate-hazen-COSMIC-desktop-wallpaper.png"@
}

/// The default wallpaper's path.
pub fn default_wallpaper_path() -> (r: &'static str)
    ensures
        r@ == default_wallpaper(),
{
    "/usr/share/backgrounds/pop/kate-hazen-COSMIC-desktop-wallpaper.png"
}

/// Which of the configured wallpapers is drawn behind the overview on the
/// output named `output_name`: the first one configured for that output
/// name, if any; otherwise the default wallpaper is drawn.
pub fn wallpaper_for_output(outputs: &Vec<String>, output_name: &str) -> (r: Option<usize>)
    ensures
        match r {
            Some(i) => is_first_match(
                outputs@.map_values(|n: String| n@),
                |n: Seq<char>| n == output_name@,
                i as int,
            ),
            None => forall|k: int| 0 <= k < outputs@.len() ==> (#[trigger] outputs@[k])@ != output_name@,
        },
{
    let ghost names = outputs@.map_values(|n: String| n@);
    let target = output_name.to_owned();
    let mut i: usize = 0;
    while i < outputs.len()
        invariant
            i <= outputs@.len(),
            names == outputs@.map_values(|n: String| n@),
            target@ == output_name@,
            forall|k: int| 0 <= k < i ==> (#[trigger] outputs@[k])@ != output_name@,
        decreases outputs@.len() - i,
    {
        if outputs[i] == target {
            proof {
                assert forall|k: int| 0 <= k < i implies !((|n: Seq<char>| n == output_name@)(#[trigger] names[k])) by {
                    assert(names[k] == outputs@[k]@);
                }
            }
            return Some(i);
        }
        i = i + 1;
    }
    None
}

} // verus!
