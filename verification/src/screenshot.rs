//! Screenshots of games.

pub mod entity;
