use cosmic_workspaces::app::{App, LayerSurface, Msg, OutputInfo, WorkspaceLayout};
use cosmic_workspaces::backend::mock::MockObjectId;
use cosmic_workspaces::backend::vulkan::{
    c_string_len, device_matches, device_name_of, extensions_support_drm, DrmProperties,
    PhysicalDeviceReport, Vulkan,
};
use cosmic_workspaces::backend::{
    CaptureImage, Event, ToplevelInfo, ToplevelState, WlOutput, Workspace, WorkspaceState,
    ZcosmicToplevelHandleV1, ZcosmicWorkspaceHandleV1,
};
use cosmic_workspaces::dnd::{DragSurface, DropTarget};
use cosmic_workspaces::view::{
    default_wallpaper_path, drag_placeholder_size, layer_surface, toplevel_preview_selected,
    wallpaper_for_output, SidebarEntry, ToplevelEntry,
};

fn output(n: usize) -> WlOutput {
    WlOutput(MockObjectId(n))
}
fn ws(n: usize) -> ZcosmicWorkspaceHandleV1 {
    ZcosmicWorkspaceHandleV1(MockObjectId(n))
}
fn tl(n: usize) -> ZcosmicToplevelHandleV1 {
    ZcosmicToplevelHandleV1(MockObjectId(n))
}

fn workspace(n: usize, active: bool) -> Workspace {
    Workspace {
        handle: ws(n),
        name: n.to_string(),
        state: if active { vec![WorkspaceState::Active] } else { Vec::new() },
    }
}

fn window(on: WlOutput, workspace: ZcosmicWorkspaceHandleV1, activated: bool) -> ToplevelInfo {
    ToplevelInfo {
        title: "w".to_string(),
        app_id: "a".to_string(),
        state: if activated { vec![ToplevelState::Maximized, ToplevelState::Activated] } else { vec![ToplevelState::Minimized] },
        output: vec![on],
        workspace: vec![workspace],
    }
}

fn app() -> App {
    let mut app = App::new();
    app.update(Msg::OutputCreated(
        output(1),
        Some(OutputInfo { logical_size: Some((100, 100)), name: Some("DP-1".to_string()) }),
    ));
    app.update(Msg::Wayland(Event::Workspaces(vec![
        (vec![output(1)], workspace(10, true)),
        (vec![output(2)], workspace(20, true)),
        (vec![output(1)], workspace(11, false)),
    ])));
    app.update(Msg::Wayland(Event::NewToplevel(tl(1), window(output(1), ws(10), true))));
    app.update(Msg::Wayland(Event::NewToplevel(tl(2), window(output(1), ws(11), false))));
    app.update(Msg::Wayland(Event::NewToplevel(tl(3), window(output(1), ws(10), false))));
    app
}

#[test]
fn a_surface_shows_its_outputs_workspaces_and_active_toplevels() {
    let app = app();
    let view = layer_surface(&app, &LayerSurface { output: output(1) });
    assert_eq!(view.layout, WorkspaceLayout::Vertical);
    assert_eq!(view.sidebar, vec![SidebarEntry::Workspace(0, false), SidebarEntry::Workspace(2, false)]);
    assert_eq!(
        view.toplevels,
        vec![ToplevelEntry { index: 0, is_being_dragged: false }, ToplevelEntry { index: 2, is_being_dragged: false }]
    );
    assert_eq!(view.toplevels_drop_target, Some(DropTarget::OutputToplevels(ws(10), output(1))));
}

#[test]
fn a_drag_shows_a_placeholder_and_marks_the_dragged_toplevel() {
    let mut app = app();
    app.update(Msg::StartDrag(DragSurface::Toplevel(tl(3))));
    app.update(Msg::DndEnter(DropTarget::WorkspaceSidebarEntry(ws(11), output(1))));
    let view = layer_surface(&app, &LayerSurface { output: output(1) });
    assert_eq!(
        view.sidebar,
        vec![SidebarEntry::Workspace(0, false), SidebarEntry::DragPlaceholder(2), SidebarEntry::Workspace(2, true)]
    );
    assert_eq!(view.toplevels[1], ToplevelEntry { index: 2, is_being_dragged: true });
    // another output's surface is not affected by the drop target
    let other = layer_surface(&app, &LayerSurface { output: output(2) });
    assert_eq!(other.sidebar, vec![SidebarEntry::Workspace(1, false)]);
    assert!(other.toplevels.is_empty());
}

#[test]
fn an_output_without_workspaces_has_no_drop_target() {
    let app = app();
    let view = layer_surface(&app, &LayerSurface { output: output(3) });
    assert!(view.sidebar.is_empty());
    assert!(view.toplevels_drop_target.is_none());
}

#[test]
fn previews_are_selected_when_activated() {
    let app = app();
    assert!(toplevel_preview_selected(&app.toplevels[0]));
    assert!(!toplevel_preview_selected(&app.toplevels[1]));
}

#[test]
fn placeholder_takes_the_image_size() {
    assert_eq!(drag_placeholder_size(Some(CaptureImage { width: 30, height: 20, buffer: 0 })), (30, 20));
    assert_eq!(drag_placeholder_size(None), (1, 1));
}

#[test]
fn wallpaper_is_the_first_configured_for_the_output() {
    let names = vec!["HDMI-A-1".to_string(), "DP-1".to_string(), "DP-1".to_string()];
    assert_eq!(wallpaper_for_output(&names, "DP-1"), Some(1));
    assert_eq!(wallpaper_for_output(&names, "eDP-1"), None);
    assert_eq!(default_wallpaper_path(), "/usr/share/backgrounds/pop/kate-hazen-COSMIC-desktop-wallpaper.png");
}

fn chars(s: &str, len: usize) -> Vec<i8> {
    let mut v: Vec<i8> = s.bytes().map(|b| b as i8).collect();
    v.resize(len, 0);
    v
}

fn report(exts: &[&str], drm: DrmProperties, name: &str) -> PhysicalDeviceReport {
    PhysicalDeviceReport {
        extensions: Ok(exts.iter().map(|e| chars(e, 256)).collect()),
        drm,
        device_name: chars(name, 256),
    }
}

// device number 226:128 (a render node), in the Linux encoding
const RENDER_NODE: u64 = (226 << 8) | 128;

fn drm(primary: (i64, i64), render: (i64, i64)) -> DrmProperties {
    DrmProperties { primary_major: primary.0, primary_minor: primary.1, render_major: render.0, render_minor: render.1 }
}

#[test]
fn c_strings_end_at_the_first_nul() {
    assert_eq!(c_string_len(b"abc\0def\0"), Some(3));
    assert_eq!(c_string_len(b"\0"), Some(0));
    assert_eq!(c_string_len(b"abc"), None);
}

#[test]
fn the_drm_extension_is_recognized() {
    assert!(extensions_support_drm(&vec![chars("VK_KHR_swapchain", 256), chars("VK_EXT_physical_device_drm", 256)]));
    assert!(!extensions_support_drm(&vec![chars("VK_EXT_physical_device_drm_x", 256)]));
    // a name without NUL is no name
    assert!(!extensions_support_drm(&vec![chars("VK_EXT_physical_device_drm", 26)]));
    assert!(!extensions_support_drm(&Vec::new()));
}

#[test]
fn device_numbers_are_split_into_major_and_minor() {
    assert!(device_matches(&drm((226, 0), (226, 128)), RENDER_NODE));
    assert!(device_matches(&drm((226, 128), (0, 0)), RENDER_NODE));
    assert!(!device_matches(&drm((226, 0), (226, 129)), RENDER_NODE));
    // the high bits of the major and minor numbers
    let dev: u64 = (0x1234_5000u64 << 32) | (0xabc << 8) | (0x0006_7800u64 << 12) | 0x9a;
    assert!(device_matches(&drm((0x1234_5abc, 0x0006_789a), (0, 0)), dev));
}

#[test]
fn device_names_are_decoded() {
    assert_eq!(device_name_of(&chars("AMD Radeon", 256)), Some("AMD Radeon".to_string()));
    assert_eq!(device_name_of(&chars("no nul", 6)), None);
    let mut bad = chars("x", 4);
    bad[0] = 0xffu8 as i8;
    assert_eq!(device_name_of(&bad), None);
}

#[test]
fn the_first_matching_device_is_named() {
    let devices = Ok(vec![
        report(&["VK_KHR_swapchain"], drm((226, 0), (226, 128)), "no extension"),
        report(&["VK_EXT_physical_device_drm"], drm((226, 1), (226, 129)), "other gpu"),
        report(&["VK_EXT_physical_device_drm"], drm((226, 0), (226, 128)), "our gpu"),
    ]);
    assert_eq!(Vulkan::device_name_uncached(&devices, RENDER_NODE), Ok(Some("our gpu".to_string())));
    assert_eq!(Vulkan::device_name_uncached(&devices, 1), Ok(None));
    let failing = Ok(vec![PhysicalDeviceReport {
        extensions: Err(ash::vk::Result::ERROR_OUT_OF_HOST_MEMORY),
        drm: drm((0, 0), (0, 0)),
        device_name: chars("x", 8),
    }]);
    assert_eq!(Vulkan::device_name_uncached(&failing, 1), Err(ash::vk::Result::ERROR_OUT_OF_HOST_MEMORY));
    let no_devices = Err(ash::vk::Result::ERROR_INITIALIZATION_FAILED);
    assert_eq!(Vulkan::device_name_uncached(&no_devices, 1), Err(ash::vk::Result::ERROR_INITIALIZATION_FAILED));
}

#[test]
fn device_names_are_looked_up_once() {
    let mut cache = Vulkan::new();
    let mut queries = 0;
    let first = cache
        .device_name(RENDER_NODE, || {
            queries += 1;
            Ok(vec![report(&["VK_EXT_physical_device_drm"], drm((226, 0), (226, 128)), "gpu")])
        })
        .map(|n| n.map(str::to_string));
    assert_eq!(first, Ok(Some("gpu".to_string())));
    let second = cache.device_name(RENDER_NODE, || panic!("not asked again")).map(|n| n.map(str::to_string));
    assert_eq!(second, Ok(Some("gpu".to_string())));
    assert_eq!(queries, 1);
    let err = cache.device_name(5, || Err(ash::vk::Result::ERROR_DEVICE_LOST)).map(|n| n.map(str::to_string));
    assert_eq!(err, Err(ash::vk::Result::ERROR_DEVICE_LOST));
    let err = cache.device_name(5, || panic!("cached")).map(|n| n.map(str::to_string));
    assert_eq!(err, Err(ash::vk::Result::ERROR_DEVICE_LOST));
}
