//! Core rules of the Pad collaborative notepad.

pub mod text;
pub mod redirect;
pub mod auth;
pub mod rate_limit;
pub mod notepads;
pub mod theme;
pub mod i18n;
