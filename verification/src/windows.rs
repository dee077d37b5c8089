//! Placing windows in the main and side areas, and keeping the window lists
//! in step with the server.
pub mod tiling;
pub mod layout;
pub mod audits;
pub mod checks;
pub mod gets;
pub mod workspaces;
