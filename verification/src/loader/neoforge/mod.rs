//! NeoForge: its version catalogue and its installer's profile.

pub mod catalog;
pub mod installer;
pub mod processor;
pub mod profile;
