//! The profile of the user.

pub mod entity;
pub mod synchronize;
