//! What the windows show and how they react, without the widgets.

pub mod app;
pub mod display_view;
pub mod laws;
pub mod sessions_view;
pub mod settings_view;
