use cosmic_workspaces::backend::mock::MockObjectId;
use cosmic_workspaces::backend::{WlOutput, ZcosmicWorkspaceHandleV1};
use cosmic_workspaces::decimal::push_decimal;
use cosmic_workspaces::dnd::{Drag, DragToplevel, DragWorkspace, DndMimeTypes, DropTarget};
use cosmic_workspaces::flags::{Args, WorkspaceCommands};
use cosmic_workspaces::utils::{after_shm_open, shm_name, ShmOpenOutcome, ShmStep};

#[test]
fn decimal_notation() {
    let mut s = String::from("n=");
    push_decimal(&mut s, 0);
    assert_eq!(s, "n=0");
    let mut s = String::new();
    push_decimal(&mut s, 10);
    assert_eq!(s, "10");
    let mut s = String::new();
    push_decimal(&mut s, 1234567890);
    assert_eq!(s, "1234567890");
    let mut s = String::new();
    push_decimal(&mut s, u64::MAX);
    assert_eq!(s, u64::MAX.to_string());
}

#[test]
fn mime_types_hold_the_process_id() {
    let mimes = DndMimeTypes::new(4242);
    let t = DragToplevel {}.available(&mimes);
    assert_eq!(t, vec!["text/x.cosmic-toplevel-id-4242".to_string()]);
    let w = DragWorkspace {}.available(&mimes);
    assert_eq!(w, vec!["text/x.cosmic-workspace-id-4242".to_string()]);
    assert_eq!(DragToplevel::allowed(&mimes), t);
    assert_eq!(DragWorkspace::allowed(&mimes), w);
    assert_eq!(
        Drag::allowed(&mimes),
        vec!["text/x.cosmic-toplevel-id-4242".to_string(), "text/x.cosmic-workspace-id-4242".to_string()]
    );
}

#[test]
fn mime_types_differ_between_processes() {
    let a = DndMimeTypes::new(1);
    let b = DndMimeTypes::new(12);
    assert_ne!(DragToplevel {}.available(&a), DragToplevel {}.available(&b));
    assert_ne!(DragWorkspace {}.available(&a), DragWorkspace {}.available(&b));
    assert_ne!(DragToplevel {}.available(&a), DragWorkspace {}.available(&a));
}

#[test]
fn drag_data_is_empty_for_its_own_mime_type_only() {
    let mimes = DndMimeTypes::new(7);
    assert_eq!(DragToplevel {}.as_bytes("text/x.cosmic-toplevel-id-7", &mimes), Some(Vec::new()));
    assert_eq!(DragToplevel {}.as_bytes("text/x.cosmic-workspace-id-7", &mimes), None);
    assert_eq!(DragWorkspace {}.as_bytes("text/x.cosmic-workspace-id-7", &mimes), Some(Vec::new()));
    assert_eq!(DragWorkspace {}.as_bytes("text/plain", &mimes), None);
}

#[test]
fn dropped_data_is_recognized_by_mime_type() {
    let mimes = DndMimeTypes::new(7);
    let toplevel = (Vec::new(), "text/x.cosmic-toplevel-id-7".to_string());
    let workspace = (vec![1, 2, 3], "text/x.cosmic-workspace-id-7".to_string());
    let foreign = (Vec::new(), "text/x.cosmic-toplevel-id-8".to_string());
    assert!(DragToplevel::try_from(toplevel.clone(), &mimes).is_ok());
    assert!(DragToplevel::try_from(workspace.clone(), &mimes).is_err());
    assert!(DragWorkspace::try_from(workspace.clone(), &mimes).is_ok());
    assert!(DragWorkspace::try_from(foreign.clone(), &mimes).is_err());
    assert_eq!(Drag::try_from(toplevel, &mimes), Ok(Drag::Toplevel));
    assert_eq!(Drag::try_from(workspace, &mimes), Ok(Drag::Workspace));
    assert_eq!(Drag::try_from(foreign, &mimes), Err(()));
}

#[test]
fn drag_ids_hold_kind_and_key() {
    let ws = ZcosmicWorkspaceHandleV1(MockObjectId(5));
    let out = WlOutput(MockObjectId(9));
    assert_eq!(DropTarget::WorkspaceSidebarEntry(ws, out).drag_id(), 5);
    assert_eq!(DropTarget::OutputToplevels(ws, out).drag_id(), (1u64 << 32) | 9);
    assert_eq!(DropTarget::WorkspacesBar(out).drag_id(), (2u64 << 32) | 9);
    let id = DropTarget::OutputToplevels(ws, out).drag_id();
    assert_eq!(id >> 32, 1);
    assert_eq!(id & 0xffff_ffff, 9);
}

#[test]
fn command_line_has_no_subcommand() {
    assert!(Args {}.action().is_none());
    assert_eq!(WorkspaceCommands.to_string(), "");
    assert_eq!(WorkspaceCommands::default(), WorkspaceCommands);
}

#[test]
fn shm_names_and_retries() {
    assert_eq!(shm_name(0), "/cosmic-workspaces-shm-0");
    assert_eq!(shm_name(999_999_999), "/cosmic-workspaces-shm-999999999");
    assert_eq!(after_shm_open(ShmOpenOutcome::Opened), ShmStep::UnlinkAndReturn);
    assert_eq!(after_shm_open(ShmOpenOutcome::AlreadyExists), ShmStep::Retry);
    assert_eq!(after_shm_open(ShmOpenOutcome::Failed), ShmStep::Fail);
}
