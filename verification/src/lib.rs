//! The storage-and-lifecycle core of a personal note-taking application.

pub mod data;
mod ident;
pub mod io;
pub mod markdown;
pub mod services;
pub mod text;
pub mod time;
pub mod ui;
pub mod utils;

pub use services::AppState;
pub use utils::i18n;
