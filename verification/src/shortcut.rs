//! Keyboard shortcuts.

pub mod commands;
pub mod entity;
