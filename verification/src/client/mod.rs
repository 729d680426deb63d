pub mod desktop;
pub mod text;
pub mod tui;
pub mod view;
pub mod args;
