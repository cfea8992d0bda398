//! The concrete endpoints of the two services the tools talk to.

pub mod current_rms;
pub mod servicem8;
