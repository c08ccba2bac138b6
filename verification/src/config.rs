//! The configuration of the application.

pub mod entity;
pub mod serve;
pub mod synchronize;
