//! The state behind the widgets: what is selected, open and typed, without
//! any drawing.

pub mod app_layout;
pub mod navigation_bar;
pub mod singleline_dialog;
