use cosmic_workspaces::app::{
    App, CosmicWorkspacesConfig, Msg, OutputInfo, ScrollStep, SurfaceId, Task, WorkspaceLayout,
};
use cosmic_workspaces::backend::mock::MockObjectId;
use cosmic_workspaces::backend::{
    CaptureImage, Cmd, Event, ToplevelInfo, ToplevelState, WlOutput, Workspace, WorkspaceState,
    ZcosmicToplevelHandleV1, ZcosmicWorkspaceHandleV1,
};
use cosmic_workspaces::dnd::{DragSurface, DragToplevel, DropTarget};

fn output(n: usize) -> WlOutput {
    WlOutput(MockObjectId(n))
}

fn ws_handle(n: usize) -> ZcosmicWorkspaceHandleV1 {
    ZcosmicWorkspaceHandleV1(MockObjectId(n))
}

fn tl_handle(n: usize) -> ZcosmicToplevelHandleV1 {
    ZcosmicToplevelHandleV1(MockObjectId(n))
}

fn info(w: i32, h: i32, name: &str) -> Option<OutputInfo> {
    Some(OutputInfo { logical_size: Some((w, h)), name: Some(name.to_string()) })
}

fn toplevel_info(app_id: &str, output: WlOutput, ws: ZcosmicWorkspaceHandleV1) -> ToplevelInfo {
    ToplevelInfo {
        title: format!("{app_id} window"),
        app_id: app_id.to_string(),
        state: Vec::new(),
        output: vec![output],
        workspace: vec![ws],
    }
}

fn workspace(n: usize, name: &str, active: bool) -> Workspace {
    Workspace {
        handle: ws_handle(n),
        name: name.to_string(),
        state: if active { vec![WorkspaceState::Active] } else { Vec::new() },
    }
}

/// An app that can send commands, with one output and two workspaces on it,
/// the first active.
fn connected_app() -> App {
    let mut app = App::new();
    app.update(Msg::Wayland(Event::CmdSender));
    app.update(Msg::OutputCreated(output(1), info(1920, 1080, "DP-1")));
    app.update(Msg::Wayland(Event::Workspaces(vec![
        (vec![output(1)], workspace(10, "1", true)),
        (vec![output(1)], workspace(11, "2", false)),
    ])));
    app
}

fn filter_of(cmd: &Cmd) -> (Vec<WlOutput>, Vec<ZcosmicWorkspaceHandleV1>) {
    match cmd {
        Cmd::CaptureFilter(f) => (f.workspaces_on_outputs.clone(), f.toplevels_on_workspaces.clone()),
        other => panic!("expected a capture filter, got {other:?}"),
    }
}

#[test]
fn new_app_is_hidden_and_empty() {
    let app = App::new();
    assert!(!app.visible);
    assert!(!app.has_cmd_sender);
    assert!(app.outputs.is_empty());
    assert!(app.workspaces.is_empty());
    assert!(app.toplevels.is_empty());
    assert!(app.layer_surfaces.is_empty());
    assert_eq!(app.workspace_layout, WorkspaceLayout::Vertical);
    assert_eq!(app.next_surface_id, 0);
}

#[test]
fn output_without_size_or_name_is_ignored() {
    let mut app = App::new();
    let up = app.update(Msg::OutputCreated(output(1), None));
    assert!(up.cmds.is_empty() && up.tasks.is_empty());
    app.update(Msg::OutputCreated(
        output(2),
        Some(OutputInfo { logical_size: None, name: Some("DP-2".to_string()) }),
    ));
    assert!(app.outputs.is_empty());
}

#[test]
fn output_created_while_hidden_makes_no_surface() {
    let mut app = App::new();
    let up = app.update(Msg::OutputCreated(output(1), info(800, 600, "HDMI-A-1")));
    assert!(up.tasks.is_empty());
    assert_eq!(app.outputs.len(), 1);
    assert_eq!(app.outputs[0].name, "HDMI-A-1");
    assert_eq!((app.outputs[0].width, app.outputs[0].height), (800, 600));
}

#[test]
fn output_info_update_keeps_unknown_fields() {
    let mut app = App::new();
    app.update(Msg::OutputCreated(output(1), info(800, 600, "HDMI-A-1")));
    app.update(Msg::OutputInfoUpdate(output(1), OutputInfo { logical_size: Some((1024, 768)), name: None }));
    assert_eq!(app.outputs[0].name, "HDMI-A-1");
    assert_eq!((app.outputs[0].width, app.outputs[0].height), (1024, 768));
}

#[test]
fn show_creates_a_surface_per_output_and_sends_filter() {
    let mut app = connected_app();
    app.update(Msg::OutputCreated(output(2), info(1280, 1024, "DP-2")));
    let mut up = cosmic_workspaces::app::Update::new();
    app.show(&mut up);
    assert!(app.visible);
    assert_eq!(up.tasks.len(), 2);
    assert!(matches!(up.tasks[0], Task::CreateSurface(SurfaceId(0), o) if o == output(1)));
    assert!(matches!(up.tasks[1], Task::CreateSurface(SurfaceId(1), o) if o == output(2)));
    assert_eq!(app.layer_surfaces.len(), 2);
    assert_eq!(app.next_surface_id, 2);
    assert_eq!(up.cmds.len(), 1);
    let (outputs, workspaces) = filter_of(&up.cmds[0]);
    assert_eq!(outputs, vec![output(1), output(2)]);
    // the toplevels of the active workspaces of the outputs with a surface
    assert_eq!(workspaces, vec![ws_handle(10)]);
}

#[test]
fn show_twice_changes_nothing_the_second_time() {
    let mut app = connected_app();
    let mut up = cosmic_workspaces::app::Update::new();
    app.show(&mut up);
    let mut again = cosmic_workspaces::app::Update::new();
    app.show(&mut again);
    assert!(again.cmds.is_empty() && again.tasks.is_empty());
    assert_eq!(app.layer_surfaces.len(), 1);
}

#[test]
fn close_sends_empty_filter_and_destroys_surfaces() {
    let mut app = connected_app();
    let mut up = cosmic_workspaces::app::Update::new();
    app.show(&mut up);
    let id = app.layer_surfaces[0].0;
    let up = app.update(Msg::Close);
    assert!(!app.visible);
    assert_eq!(up.cmds.len(), 1);
    let (outputs, workspaces) = filter_of(&up.cmds[0]);
    assert!(outputs.is_empty() && workspaces.is_empty());
    assert_eq!(up.tasks.len(), 1);
    assert!(matches!(up.tasks[0], Task::DestroySurface(d) if d == id));
    // the surface stays until the windowing system reports it done
    assert_eq!(app.layer_surfaces.len(), 1);
    app.update(Msg::LayerDone(id));
    assert!(app.layer_surfaces.is_empty());
}

#[test]
fn close_without_cmd_sender_sends_nothing() {
    let mut app = App::new();
    let up = app.update(Msg::Close);
    assert!(up.cmds.is_empty());
}

#[test]
fn toggle_twice_returns_to_the_same_visibility() {
    let mut app = connected_app();
    let mut up = cosmic_workspaces::app::Update::new();
    app.toggle(&mut up);
    assert!(app.visible);
    app.toggle(&mut up);
    assert!(!app.visible);
    assert_eq!(app.outputs.len(), 1);
    assert_eq!(app.workspaces.len(), 2);
}

#[test]
fn dnd_enter_then_leave_clears_the_target() {
    let mut app = connected_app();
    let target = DropTarget::WorkspaceSidebarEntry(ws_handle(11), output(1));
    app.update(Msg::DndEnter(target));
    assert_eq!(app.drop_target, Some(target));
    app.update(Msg::DndLeave(target));
    assert_eq!(app.drop_target, None);
}

#[test]
fn stale_leave_keeps_the_target_entered_last() {
    let mut app = connected_app();
    let first = DropTarget::WorkspaceSidebarEntry(ws_handle(10), output(1));
    let second = DropTarget::OutputToplevels(ws_handle(11), output(1));
    app.update(Msg::DndEnter(second));
    app.update(Msg::DndLeave(first));
    assert_eq!(app.drop_target, Some(second));
}

#[test]
fn dropping_a_toplevel_on_a_workspace_moves_it() {
    let mut app = connected_app();
    app.update(Msg::StartDrag(DragSurface::Toplevel(tl_handle(5))));
    app.update(Msg::DndEnter(DropTarget::WorkspaceSidebarEntry(ws_handle(11), output(1))));
    let up = app.update(Msg::DndWorkspaceDrop(DragToplevel {}));
    assert_eq!(app.drop_target, None);
    assert_eq!(up.cmds.len(), 1);
    assert!(matches!(
        up.cmds[0],
        Cmd::MoveToplevelToWorkspace(t, w, o) if t == tl_handle(5) && w == ws_handle(11) && o == output(1)
    ));
    app.update(Msg::SourceFinished);
    assert_eq!(app.drag_surface, None);
}

#[test]
fn dropping_without_a_dragged_toplevel_does_nothing() {
    let mut app = connected_app();
    app.update(Msg::StartDrag(DragSurface::Workspace(ws_handle(10))));
    app.update(Msg::DndEnter(DropTarget::OutputToplevels(ws_handle(11), output(1))));
    let up = app.update(Msg::DndWorkspaceDrop(DragToplevel {}));
    assert!(up.cmds.is_empty());
    assert!(app.drop_target.is_some());
}

#[test]
fn new_toplevel_asks_for_its_icon_and_close_removes_it() {
    let mut app = connected_app();
    let up = app.update(Msg::Wayland(Event::NewToplevel(
        tl_handle(20),
        toplevel_info("org.example.Editor", output(1), ws_handle(10)),
    )));
    assert_eq!(up.tasks.len(), 1);
    assert!(matches!(&up.tasks[0], Task::LoadIcon(id) if id == "org.example.Editor"));
    assert_eq!(app.toplevels.len(), 1);
    assert!(app.toplevels[0].icon.is_none() && app.toplevels[0].img.is_none());
    app.update(Msg::UpdateToplevelIcon("org.example.Editor".to_string(), Some("/icons/editor.svg".to_string())));
    assert_eq!(app.toplevels[0].icon.as_deref(), Some("/icons/editor.svg"));
    app.update(Msg::Wayland(Event::CloseToplevel(tl_handle(20))));
    assert!(app.toplevels.is_empty());
}

#[test]
fn new_toplevel_while_shown_hides_the_overview() {
    let mut app = connected_app();
    let mut up = cosmic_workspaces::app::Update::new();
    app.show(&mut up);
    let up = app.update(Msg::Wayland(Event::NewToplevel(
        tl_handle(21),
        toplevel_info("org.example.Term", output(1), ws_handle(10)),
    )));
    assert!(!app.visible);
    assert!(matches!(&up.tasks[0], Task::LoadIcon(id) if id == "org.example.Term"));
    assert!(up.tasks.iter().any(|t| matches!(t, Task::DestroySurface(_))));
}

#[test]
fn update_toplevel_replaces_info() {
    let mut app = connected_app();
    app.update(Msg::Wayland(Event::NewToplevel(tl_handle(22), toplevel_info("a", output(1), ws_handle(10)))));
    let mut changed = toplevel_info("a", output(1), ws_handle(11));
    changed.state.push(ToplevelState::Activated);
    app.update(Msg::Wayland(Event::UpdateToplevel(tl_handle(22), changed)));
    assert_eq!(app.toplevels[0].info.workspace, vec![ws_handle(11)]);
    assert_eq!(app.toplevels[0].info.state, vec![ToplevelState::Activated]);
}

#[test]
fn captures_are_stored_on_their_workspace_and_toplevel() {
    let mut app = connected_app();
    app.update(Msg::Wayland(Event::NewToplevel(tl_handle(23), toplevel_info("b", output(1), ws_handle(10)))));
    let img = CaptureImage { width: 320, height: 200, buffer: 7 };
    app.update(Msg::Wayland(Event::WorkspaceCapture(ws_handle(11), img)));
    app.update(Msg::Wayland(Event::ToplevelCapture(tl_handle(23), img)));
    assert_eq!(app.workspaces[1].img, Some(img));
    assert_eq!(app.workspaces[0].img, None);
    assert_eq!(app.toplevels[0].img, Some(img));
}

#[test]
fn reported_workspaces_keep_their_images() {
    let mut app = connected_app();
    let img = CaptureImage { width: 10, height: 10, buffer: 1 };
    app.update(Msg::Wayland(Event::WorkspaceCapture(ws_handle(10), img)));
    app.update(Msg::Wayland(Event::Workspaces(vec![
        (vec![output(1)], workspace(11, "2", true)),
        (vec![output(1)], workspace(10, "1", false)),
    ])));
    assert_eq!(app.workspaces[0].handle, ws_handle(11));
    assert!(app.workspaces[0].is_active);
    assert_eq!(app.workspaces[0].img, None);
    assert_eq!(app.workspaces[1].img, Some(img));
    assert!(!app.workspaces[1].is_active);
}

#[test]
fn activating_the_active_workspace_hides_the_overview() {
    let mut app = connected_app();
    let mut up = cosmic_workspaces::app::Update::new();
    app.show(&mut up);
    let up = app.update(Msg::ActivateWorkspace(ws_handle(10)));
    assert!(!app.visible);
    assert!(!up.cmds.iter().any(|c| matches!(c, Cmd::ActivateWorkspace(_))));
    let up = app.update(Msg::ActivateWorkspace(ws_handle(11)));
    assert_eq!(up.cmds.len(), 1);
    assert!(matches!(up.cmds[0], Cmd::ActivateWorkspace(w) if w == ws_handle(11)));
}

#[test]
fn activating_a_toplevel_sends_it_and_hides() {
    let mut app = connected_app();
    let mut up = cosmic_workspaces::app::Update::new();
    app.show(&mut up);
    let up = app.update(Msg::ActivateToplevel(tl_handle(3)));
    assert!(matches!(up.cmds[0], Cmd::ActivateToplevel(t) if t == tl_handle(3)));
    assert!(matches!(up.cmds[1], Cmd::CaptureFilter(_)));
    assert!(!app.visible);
}

#[test]
fn close_toplevel_is_passed_to_the_backend() {
    let mut app = connected_app();
    let up = app.update(Msg::CloseToplevel(tl_handle(4)));
    assert_eq!(up.cmds.len(), 1);
    assert!(matches!(up.cmds[0], Cmd::CloseToplevel(t) if t == tl_handle(4)));
    let mut quiet = App::new();
    assert!(quiet.update(Msg::CloseToplevel(tl_handle(4))).cmds.is_empty());
}

#[test]
fn scrolling_selects_the_neighbouring_workspace() {
    let mut app = connected_app();
    let up = app.update(Msg::OnScroll(output(1), ScrollStep::Next));
    assert_eq!(up.cmds.len(), 1);
    assert!(matches!(up.cmds[0], Cmd::ActivateWorkspace(w) if w == ws_handle(11)));
    // no workspace before the first one
    let up = app.update(Msg::OnScroll(output(1), ScrollStep::Previous));
    assert!(up.cmds.is_empty());
    let up = app.update(Msg::OnScroll(output(1), ScrollStep::Neither));
    assert!(up.cmds.is_empty());
    // an output without workspaces
    let up = app.update(Msg::OnScroll(output(9), ScrollStep::Next));
    assert!(up.cmds.is_empty());
}

#[test]
fn layout_and_config_messages_are_stored() {
    let mut app = App::new();
    app.update(Msg::CompConfig(WorkspaceLayout::Horizontal));
    assert_eq!(app.workspace_layout, WorkspaceLayout::Horizontal);
    let config = CosmicWorkspacesConfig { show_workspace_number: true, show_workspace_name: false };
    app.update(Msg::Config(config));
    assert_eq!(app.config, config);
}

#[test]
fn output_removed_destroys_its_surface_when_shown() {
    let mut app = connected_app();
    let mut up = cosmic_workspaces::app::Update::new();
    app.show(&mut up);
    let id = app.layer_surfaces[0].0;
    let up = app.update(Msg::OutputRemoved(output(1)));
    assert!(app.outputs.is_empty());
    assert_eq!(up.tasks.len(), 1);
    assert!(matches!(up.tasks[0], Task::DestroySurface(d) if d == id));
}

#[test]
fn output_created_then_removed_restores_outputs() {
    let mut app = connected_app();
    app.update(Msg::OutputCreated(output(7), info(640, 480, "VGA-1")));
    assert_eq!(app.outputs.len(), 2);
    app.update(Msg::OutputRemoved(output(7)));
    assert_eq!(app.outputs.len(), 1);
    assert_eq!(app.outputs[0].handle, output(1));
}

#[test]
fn workspaces_for_output_lists_indices_in_order() {
    let mut app = connected_app();
    app.update(Msg::Wayland(Event::Workspaces(vec![
        (vec![output(1)], workspace(10, "1", true)),
        (vec![output(2)], workspace(12, "3", true)),
        (vec![output(1), output(2)], workspace(11, "2", false)),
    ])));
    assert_eq!(app.workspaces_for_output(&output(1)), vec![0, 2]);
    assert_eq!(app.workspaces_for_output(&output(2)), vec![1, 2]);
    assert!(app.workspaces_for_output(&output(3)).is_empty());
}

#[test]
fn new_toplevel_keeps_the_overview_when_hiding_is_off() {
    let mut app = connected_app();
    app.hides_on_new_toplevel = false;
    let mut up = cosmic_workspaces::app::Update::new();
    app.show(&mut up);
    let up = app.update(Msg::Wayland(Event::NewToplevel(
        tl_handle(24),
        toplevel_info("org.example.Mock", output(1), ws_handle(10)),
    )));
    assert!(app.visible);
    assert_eq!(up.tasks.len(), 1);
    assert!(up.cmds.is_empty());
}

#[test]
fn showing_again_gives_new_surface_ids() {
    let mut app = connected_app();
    app.update(Msg::OutputCreated(output(2), info(1280, 1024, "DP-2")));
    let mut up = cosmic_workspaces::app::Update::new();
    app.show(&mut up);
    app.update(Msg::Close);
    // the old surfaces are still there until they are reported done
    assert_eq!(app.layer_surfaces.len(), 2);
    let mut up = cosmic_workspaces::app::Update::new();
    app.show(&mut up);
    let ids: Vec<u64> = app.layer_surfaces.iter().map(|(id, _)| id.0).collect();
    assert_eq!(ids, vec![0, 1, 2, 3]);
    assert_eq!(app.next_surface_id, 4);
    assert!(matches!(up.tasks[0], Task::CreateSurface(SurfaceId(2), o) if o == output(1)));
    assert!(matches!(up.tasks[1], Task::CreateSurface(SurfaceId(3), o) if o == output(2)));
}

#[test]
fn closing_a_toplevel_keeps_the_rest_of_the_state() {
    let mut app = connected_app();
    app.hides_on_new_toplevel = false;
    app.update(Msg::Wayland(Event::NewToplevel(
        tl_handle(20),
        toplevel_info("org.example.Editor", output(1), ws_handle(10)),
    )));
    app.update(Msg::Wayland(Event::NewToplevel(
        tl_handle(21),
        toplevel_info("org.example.Viewer", output(1), ws_handle(10)),
    )));
    let up = app.update(Msg::Wayland(Event::CloseToplevel(tl_handle(20))));
    assert!(up.cmds.is_empty() && up.tasks.is_empty());
    assert_eq!(app.toplevels.len(), 1);
    assert_eq!(app.toplevels[0].handle, tl_handle(21));
    assert!(!app.hides_on_new_toplevel);
    assert_eq!(app.workspaces.len(), 2);
    app.update(Msg::UpdateToplevelIcon("org.example.Viewer".to_string(), Some("/icons/viewer.svg".to_string())));
    assert_eq!(app.toplevels[0].icon.as_deref(), Some("/icons/viewer.svg"));
    assert!(!app.hides_on_new_toplevel);
}
