//! Model and decision logic of the COSMIC workspaces overview: which
//! surfaces exist, what the compositor is asked to capture and do, how drag
//! and drop is encoded, and how capture buffers and device information are
//! chosen.

pub mod animation;
pub mod app;
pub mod decimal;
pub mod desktop_info;
pub mod dnd;
pub mod flags;
pub mod utils;
pub mod view;
pub mod backend;
