# cosmic-workspaces

The workspaces overview of the COSMIC desktop: on every output it shows the
workspaces and previews of the windows on the active workspace, and lets the
user switch workspaces, activate and close windows, and drag windows between
workspaces.

The decisions of the overview are a library verified with Verus:

- `src/app.rs` — the overview's state and `App::update`, which turns each
  message into the next state, the commands for the compositor backend and the
  tasks for the frontend (layer surfaces to create or destroy, icons to look up);
- `src/view.rs` — what each layer surface shows;
- `src/dnd.rs` — drag-and-drop mime types and drop target ids;
- `src/desktop_info.rs` — which desktop entry describes an application;
- `src/animation.rs` — the opening and closing animation's progress;
- `src/backend/` — the backend: which sources are captured under the capture
  filter and which protocol requests commands become (`wayland.rs`), the
  capture swapchain (`screencopy.rs`), buffer and modifier choice
  (`buffer.rs`), naming the GPU of a DRM device (`vulkan.rs`), and a mock
  backend that makes up workspaces and windows (`mock.rs`);
- `src/decimal.rs`, `src/utils.rs`, `src/flags.rs` — decimal notation,
  shared-memory names, the command line.

`app/` is the program around the library: the libcosmic application, the
Wayland and mock backend threads, the D-Bus interface, the custom widgets
(whose layout is floating-point geometry) and the file and device access.

`tests/` exercises the library on concrete scenarios.
