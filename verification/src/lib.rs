//! Decision logic of a tiling X11 window manager with a "main" area and a
//! stack of "side" windows, kept apart from the X connection itself.
pub mod text;
pub mod settings;
pub mod keymap;
pub mod calc;
pub mod state;
pub mod actions;
pub mod safety;
pub mod model;
pub mod windows;
pub mod ewmh;
pub mod events;
pub mod setup;
pub mod binaries;
pub mod checks_wf;
pub mod laws;
