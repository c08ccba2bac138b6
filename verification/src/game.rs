//! Games and what is known about them.

pub mod entity;
