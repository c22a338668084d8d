//! Items shared by the permission and scope layers.

pub mod error;
