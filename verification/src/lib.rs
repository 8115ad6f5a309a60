//! Document and tab state of a markdown editor: the ordered set of open tabs,
//! the tab in focus, the list of recently edited files, the names of the files
//! that hold documents, and what a session saves and restores.

pub mod model;
pub mod laws;
pub mod names;
pub mod session;
pub mod tab_map;
pub mod tabs;
pub mod workspace;
