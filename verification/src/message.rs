//! What is published between the modules of the application.

pub mod traits;
