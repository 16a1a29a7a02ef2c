pub mod ancestry;
pub mod calendar;
pub mod cli;
pub mod history;
pub mod model;
pub mod num;
pub mod order;
pub mod pipeline;
pub mod platform;
pub mod render;
pub mod risk;
pub mod text;
pub mod tui;
pub mod util;
