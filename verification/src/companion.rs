//! The programs that are started along with the application or a game.

pub mod commands;
pub mod entity;
