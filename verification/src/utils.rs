//! Helpers that do not depend on notes: localisation and the tracker of
//! open tabs.

pub mod i18n;
pub mod tab_manager;
