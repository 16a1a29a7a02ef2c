//! The interactive interface: tab bar, mode line, search box, process table
//! with a live details panel, full-page details and footer key hints. It is a
//! state machine; drawing and everything that takes the platform is outside.

pub mod app;
pub mod contents;
pub mod filter;
pub mod keys;
pub mod line;
pub mod panes;
pub mod screen;
