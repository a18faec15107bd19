use cosmic_workspaces::backend::buffer::{
    dmabuf_modifiers_for, gbm_allocation, select_modifiers, shm_layout, shm_supports, DmabufFeedback,
    FormatEntry, Formats, GbmAllocation, DRM_FORMAT_MOD_INVALID, DRM_FORMAT_MOD_LINEAR,
    WL_SHM_FORMAT_ABGR8888,
};
use cosmic_workspaces::backend::mock::{
    AppData as MockAppData, MockEvent, MockIdCounter, MockObjectId, SolidColor,
};
use cosmic_workspaces::backend::screencopy::{
    FailureAction, FailureReason, FrameReady, InitAction, Rect, SwapBuffer, ScreencopySession,
};
use cosmic_workspaces::backend::wayland::{
    AppData, CaptureSource, Request, RequestVersions, SeatId, ToplevelRecord, WorkspaceGroup,
    WorkspaceRecord,
};
use cosmic_workspaces::backend::{
    CaptureFilter, Cmd, Event, ToplevelState, WlOutput, WorkspaceState, ZcosmicToplevelHandleV1,
    ZcosmicWorkspaceHandleV1,
};

fn output(n: usize) -> WlOutput {
    WlOutput(MockObjectId(n))
}
fn ws(n: usize) -> ZcosmicWorkspaceHandleV1 {
    ZcosmicWorkspaceHandleV1(MockObjectId(n))
}
fn tl(n: usize) -> ZcosmicToplevelHandleV1 {
    ZcosmicToplevelHandleV1(MockObjectId(n))
}

#[test]
fn mock_ids_count_up_and_wrap() {
    let mut c = MockIdCounter::new();
    assert_eq!(MockObjectId::new(&mut c), MockObjectId(0));
    assert_eq!(MockObjectId::new(&mut c), MockObjectId(1));
    let mut c = MockIdCounter { next: usize::MAX };
    assert_eq!(MockObjectId::new(&mut c), MockObjectId(usize::MAX));
    assert_eq!(c.next, 0);
}

#[test]
fn mock_output_gets_four_workspaces_of_three_toplevels() {
    let mut data = MockAppData::new();
    let events = data.add_output(&output(100));
    assert_eq!(events.len(), 29);
    assert_eq!(data.outputs, vec![output(100)]);
    assert_eq!(data.workspaces.len(), 4);
    assert_eq!(data.ids.next, 16);
    for (i, (outs, w)) in data.workspaces.iter().enumerate() {
        assert_eq!(outs, &vec![output(100)]);
        assert_eq!(w.name, format!("Workspace {i}"));
        assert_eq!(w.handle, ws(i * 4));
        let expected = if i == 0 { vec![WorkspaceState::Active] } else { Vec::new() };
        assert_eq!(w.state, expected);
    }
    // workspace 2, toplevel 2
    match &events[2 * 6 + 2 * 2] {
        MockEvent::Send(Event::NewToplevel(h, info)) => {
            assert_eq!(*h, tl(2 * 4 + 1 + 2));
            assert_eq!(info.title, "App 2");
            assert_eq!(info.app_id, "com.example.app");
            assert!(info.state.is_empty());
            assert_eq!(info.output, vec![output(100)]);
            assert_eq!(info.workspace, vec![ws(8)]);
        }
        other => panic!("unexpected {other:?}"),
    }
    match &events[1] {
        MockEvent::ToplevelCaptureSolid(h, c) => {
            assert_eq!(*h, tl(1));
            assert_eq!(*c, SolidColor { r: 255, g: 0, b: 0 });
        }
        other => panic!("unexpected {other:?}"),
    }
    match &events[0] {
        MockEvent::Send(Event::NewToplevel(_, info)) => assert_eq!(info.state, vec![ToplevelState::Activated]),
        other => panic!("unexpected {other:?}"),
    }
    match &events[24] {
        MockEvent::Send(Event::Workspaces(list)) => assert_eq!(list.len(), 4),
        other => panic!("unexpected {other:?}"),
    }
    match &events[28] {
        MockEvent::WorkspaceCaptureSolid(h, o, c) => {
            assert_eq!(*h, ws(12));
            assert_eq!(*o, output(100));
            assert_eq!(*c, SolidColor { r: 0, g: 255, b: 0 });
        }
        other => panic!("unexpected {other:?}"),
    }
}

#[test]
fn mock_capture_filter_adds_each_unknown_output_once() {
    let mut data = MockAppData::new();
    let filter = CaptureFilter {
        workspaces_on_outputs: vec![output(1), output(2), output(1)],
        toplevels_on_workspaces: Vec::new(),
    };
    let events = data.handle_cmd(Cmd::CaptureFilter(filter));
    assert_eq!(events.len(), 58);
    assert_eq!(data.outputs, vec![output(1), output(2)]);
    assert_eq!(data.workspaces.len(), 8);
    // the same filter again adds nothing
    let again = CaptureFilter {
        workspaces_on_outputs: vec![output(1), output(2), output(1)],
        toplevels_on_workspaces: Vec::new(),
    };
    assert!(data.handle_cmd(Cmd::CaptureFilter(again)).is_empty());
    assert_eq!(data.workspaces.len(), 8);
    // other commands change nothing
    assert!(data.handle_cmd(Cmd::ActivateToplevel(tl(3))).is_empty());
    assert!(data.handle_cmd(Cmd::ActivateWorkspace(ws(0))).is_empty());
    assert_eq!(data.ids.next, 32);
}

fn backend() -> AppData {
    let mut s = AppData::new(RequestVersions { move_before_since: 2, move_after_since: 2, pin_since: 2 });
    s.toplevels.push(ToplevelRecord { handle: tl(1), workspace: vec![ws(10)], has_cosmic_toplevel: true });
    s.toplevels.push(ToplevelRecord { handle: tl(2), workspace: vec![ws(11)], has_cosmic_toplevel: false });
    s.workspaces.push(WorkspaceRecord { handle: ws(10), cosmic_version: Some(2) });
    s.workspaces.push(WorkspaceRecord { handle: ws(11), cosmic_version: Some(1) });
    s.workspace_groups.push(WorkspaceGroup { workspaces: vec![ws(10), ws(11)], outputs: vec![output(1)] });
    s.seats.push(SeatId(1));
    s.seats.push(SeatId(2));
    s.toplevel_manager_version = Some(2);
    s.has_workspace_manager = true;
    s
}

#[test]
fn capture_filter_starts_and_stops_captures() {
    let mut s = backend();
    assert!(s.add_capture_source(CaptureSource::Toplevel(tl(1))).is_empty());
    assert!(s.add_capture_source(CaptureSource::Workspace(ws(11))).is_empty());
    // adding a source twice does nothing
    assert!(s.add_capture_source(CaptureSource::Toplevel(tl(1))).is_empty());
    assert_eq!(s.captures.len(), 2);
    let r = s.handle_cmd(Cmd::CaptureFilter(CaptureFilter {
        workspaces_on_outputs: vec![output(1)],
        toplevels_on_workspaces: vec![ws(10)],
    }));
    assert_eq!(
        r,
        vec![Request::StartCapture(CaptureSource::Toplevel(tl(1))), Request::StartCapture(CaptureSource::Workspace(ws(11)))]
    );
    assert!(s.captures.iter().all(|(_, running)| *running));
    // a source added while the filter selects it starts at once
    assert_eq!(s.add_capture_source(CaptureSource::Workspace(ws(10))), vec![Request::StartCapture(CaptureSource::Workspace(ws(10)))]);
    // the same filter again asks for nothing
    let r = s.handle_cmd(Cmd::CaptureFilter(CaptureFilter {
        workspaces_on_outputs: vec![output(1)],
        toplevels_on_workspaces: vec![ws(10)],
    }));
    assert!(r.is_empty());
    // the empty filter stops everything
    let r = s.handle_cmd(Cmd::CaptureFilter(CaptureFilter::new()));
    assert_eq!(r.len(), 3);
    assert!(r.iter().all(|q| matches!(q, Request::StopCapture(_))));
    // removing a stopped source asks for nothing; an unknown one neither
    assert!(s.remove_capture_source(CaptureSource::Toplevel(tl(1))).is_empty());
    assert!(s.remove_capture_source(CaptureSource::Output(output(1))).is_empty());
    assert_eq!(s.captures.len(), 2);
}

#[test]
fn removing_a_running_capture_stops_it() {
    let mut s = backend();
    s.handle_cmd(Cmd::CaptureFilter(CaptureFilter { workspaces_on_outputs: vec![output(1)], toplevels_on_workspaces: Vec::new() }));
    assert_eq!(s.add_capture_source(CaptureSource::Workspace(ws(10))), vec![Request::StartCapture(CaptureSource::Workspace(ws(10)))]);
    assert_eq!(s.remove_capture_source(CaptureSource::Workspace(ws(10))), vec![Request::StopCapture(CaptureSource::Workspace(ws(10)))]);
    assert!(s.captures.is_empty());
}

#[test]
fn commands_turn_into_supported_requests() {
    let mut s = backend();
    assert_eq!(s.handle_cmd(Cmd::ActivateToplevel(tl(1))), vec![Request::ActivateToplevel(tl(1), SeatId(1)), Request::ActivateToplevel(tl(1), SeatId(2))]);
    // no compositor handle for this toplevel
    assert!(s.handle_cmd(Cmd::ActivateToplevel(tl(2))).is_empty());
    assert_eq!(s.handle_cmd(Cmd::CloseToplevel(tl(1))), vec![Request::CloseToplevel(tl(1))]);
    assert_eq!(
        s.handle_cmd(Cmd::MoveToplevelToWorkspace(tl(1), ws(11), output(1))),
        vec![Request::MoveToplevelToWorkspace(tl(1), ws(11), output(1))]
    );
    assert_eq!(s.handle_cmd(Cmd::ActivateWorkspace(ws(11))), vec![Request::ActivateWorkspace(ws(11)), Request::CommitWorkspaces]);
    assert_eq!(s.handle_cmd(Cmd::MoveWorkspaceBefore(ws(10), ws(11))), vec![Request::MoveWorkspaceBefore(ws(10), ws(11)), Request::CommitWorkspaces]);
    // workspace 11's handle is too old to be moved or pinned
    assert!(s.handle_cmd(Cmd::MoveWorkspaceAfter(ws(11), ws(10))).is_empty());
    assert!(s.handle_cmd(Cmd::SetWorkspacePinned(ws(11), true)).is_empty());
    assert_eq!(s.handle_cmd(Cmd::SetWorkspacePinned(ws(10), true)), vec![Request::PinWorkspace(ws(10)), Request::CommitWorkspaces]);
    assert_eq!(s.handle_cmd(Cmd::SetWorkspacePinned(ws(10), false)), vec![Request::UnpinWorkspace(ws(10)), Request::CommitWorkspaces]);
    // moving toplevels needs version 2 of the manager
    s.toplevel_manager_version = Some(1);
    assert!(s.handle_cmd(Cmd::MoveToplevelToWorkspace(tl(1), ws(11), output(1))).is_empty());
    s.toplevel_manager_version = None;
    assert!(s.handle_cmd(Cmd::CloseToplevel(tl(1))).is_empty());
    s.has_workspace_manager = false;
    assert!(s.handle_cmd(Cmd::ActivateWorkspace(ws(11))).is_empty());
}

#[test]
fn lookups_find_the_first_record() {
    let s = backend();
    assert_eq!(s.toplevel_info(&tl(2)), Some(1));
    assert_eq!(s.toplevel_info(&tl(9)), None);
    assert_eq!(s.workspace_info(&ws(11)), Some(1));
    assert_eq!(s.group_of(&ws(11)), Some(0));
    assert_eq!(s.group_of(&ws(99)), None);
    assert!(!s.matches_capture_filter(&CaptureSource::Output(output(1))));
}

#[test]
fn modifiers_follow_the_feedback_tranches() {
    let fmt = WL_SHM_FORMAT_ABGR8888;
    let feedback = DmabufFeedback {
        format_table: vec![
            FormatEntry { format: fmt, modifier: 7 },
            FormatEntry { format: fmt, modifier: DRM_FORMAT_MOD_LINEAR },
            FormatEntry { format: 1, modifier: 5 },
            FormatEntry { format: fmt, modifier: 9 },
        ],
        tranches: vec![vec![3, 2], vec![0, 1, 40]],
    };
    let accepted = vec![7, 9, DRM_FORMAT_MOD_LINEAR];
    assert_eq!(select_modifiers(&feedback, fmt, false, &accepted), vec![9, 7, DRM_FORMAT_MOD_LINEAR]);
    assert_eq!(select_modifiers(&feedback, fmt, true, &accepted), vec![DRM_FORMAT_MOD_LINEAR]);
    assert!(select_modifiers(&feedback, fmt, false, &Vec::new()).is_empty());
}

#[test]
fn gbm_allocation_kinds() {
    assert!(gbm_allocation(Vec::new()).is_none());
    assert!(matches!(gbm_allocation(vec![DRM_FORMAT_MOD_INVALID, DRM_FORMAT_MOD_INVALID]), Some(GbmAllocation::Implicit)));
    match gbm_allocation(vec![DRM_FORMAT_MOD_INVALID, 3]) {
        Some(GbmAllocation::WithModifiers(m)) => assert_eq!(m, vec![DRM_FORMAT_MOD_INVALID, 3]),
        other => panic!("unexpected {other:?}"),
    }
}

#[test]
fn session_formats_and_shm_layout() {
    let formats = Formats {
        buffer_size: (640, 480),
        shm_formats: vec![1, WL_SHM_FORMAT_ABGR8888],
        dmabuf_formats: vec![(2, vec![1]), (WL_SHM_FORMAT_ABGR8888, vec![4, 5]), (WL_SHM_FORMAT_ABGR8888, vec![6])],
    };
    assert_eq!(dmabuf_modifiers_for(&formats, WL_SHM_FORMAT_ABGR8888), Some(&vec![4, 5]));
    assert_eq!(dmabuf_modifiers_for(&formats, 3), None);
    assert!(shm_supports(&formats, WL_SHM_FORMAT_ABGR8888));
    assert!(!shm_supports(&formats, 2));
    let l = shm_layout(640, 480);
    assert_eq!(l.file_len, 640 * 480 * 4);
    assert_eq!(l.pool_size, 640 * 480 * 4);
    assert_eq!((l.width, l.height, l.stride), (640, 480, 2560));
}

fn buffer(key: u64) -> SwapBuffer {
    SwapBuffer { key, width: 64, height: 32, damage: Vec::new() }
}

#[test]
fn swapchain_allocates_once_formats_are_known() {
    let mut sc = ScreencopySession::new();
    assert!(sc.back_buffer().is_none());
    assert_eq!(sc.failed(FailureReason::BufferConstraints), FailureAction::Commit);
    assert_eq!(sc.init_done(), InitAction::AllocateAndCommit);
    sc.set_buffers(vec![buffer(1), buffer(2)]);
    assert_eq!(sc.init_done(), InitAction::Nothing);
    assert_eq!(sc.back_buffer().map(|b| b.key), Some(2));
    assert_eq!(sc.failed(FailureReason::BufferConstraints), FailureAction::ReallocateAndCommit);
    assert_eq!(sc.failed(FailureReason::Stopped), FailureAction::Stop);
    assert_eq!(sc.failed(FailureReason::Unknown), FailureAction::Stop);
}

#[test]
fn swapchain_swaps_and_tracks_damage() {
    let mut sc = ScreencopySession::new();
    assert_eq!(sc.ready(&Vec::new()), None);
    sc.set_buffers(vec![buffer(1), buffer(2)]);
    let d1 = vec![Rect { x: 0, y: 0, width: 4, height: 4 }];
    assert_eq!(sc.ready(&d1), Some(FrameReady { key: 2, width: 64, height: 32 }));
    // buffer 2 is now the front buffer, buffer 1 the back buffer
    let back = sc.back_buffer().unwrap();
    assert_eq!(back.key, 1);
    assert_eq!(back.damage, d1);
    let d2 = vec![Rect { x: 1, y: 2, width: 3, height: 4 }];
    assert_eq!(sc.ready(&d2), Some(FrameReady { key: 1, width: 64, height: 32 }));
    // the back buffer carries the damage of the last frame only
    let back = sc.back_buffer().unwrap();
    assert_eq!(back.key, 2);
    assert_eq!(back.damage, d2);
    let front = &sc.buffers.as_ref().unwrap()[0];
    assert!(front.damage.is_empty());
}

#[test]
fn workspaces_are_listed_with_their_named_outputs() {
    let mut s = backend();
    s.workspace_groups[0].outputs.push(output(2));
    s.workspace_groups.push(WorkspaceGroup { workspaces: vec![ws(30)], outputs: vec![output(3)] });
    s.handle_cmd(Cmd::CaptureFilter(CaptureFilter { workspaces_on_outputs: vec![output(2)], toplevels_on_workspaces: Vec::new() }));
    // workspace 11 is registered already
    s.add_capture_source(CaptureSource::Workspace(ws(11)));
    let (list, requests) = s.workspaces_done(&vec![output(2), output(9)]);
    assert_eq!(list, vec![(vec![output(2)], ws(10)), (vec![output(2)], ws(11))]);
    assert_eq!(requests, vec![Request::StartCapture(CaptureSource::Workspace(ws(10)))]);
    assert_eq!(s.captures.len(), 2);
    // done again: nothing new to register
    let (again, requests) = s.workspaces_done(&vec![output(2)]);
    assert_eq!(again.len(), 2);
    assert!(requests.is_empty());
    // no named output: nothing listed
    let (none, _) = s.workspaces_done(&Vec::new());
    assert!(none.is_empty());
}

#[test]
fn mock_outputs_get_workspace_handles_never_seen_before() {
    let mut data = MockAppData::new();
    data.add_output(&output(1));
    data.add_output(&output(2));
    assert_eq!(data.workspaces.len(), 8);
    let handles: Vec<usize> = data.workspaces.iter().map(|(_, w)| w.handle.0 .0).collect();
    assert_eq!(handles, vec![0, 4, 8, 12, 16, 20, 24, 28]);
    assert!(handles.iter().all(|h| *h < data.ids.next));
}

#[test]
fn finished_frames_report_known_toplevels_and_every_workspace() {
    let s = backend();
    let image = cosmic_workspaces::backend::CaptureImage { width: 64, height: 48, buffer: 7 };
    match s.capture_event(CaptureSource::Toplevel(tl(2)), image) {
        Some(Event::ToplevelCapture(h, img)) => {
            assert_eq!(h, tl(2));
            assert_eq!(img, image);
        }
        other => panic!("expected a toplevel capture, got {other:?}"),
    }
    assert!(s.capture_event(CaptureSource::Toplevel(tl(9)), image).is_none());
    match s.capture_event(CaptureSource::Workspace(ws(99)), image) {
        Some(Event::WorkspaceCapture(h, img)) => {
            assert_eq!(h, ws(99));
            assert_eq!(img, image);
        }
        other => panic!("expected a workspace capture, got {other:?}"),
    }
}
