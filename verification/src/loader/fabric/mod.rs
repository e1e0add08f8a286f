//! Fabric: the Fabric Meta API's data, the loader patch built from it, and
//! Fabric API as a mod from Modrinth.

pub mod api;
pub mod installer;
pub mod meta;
