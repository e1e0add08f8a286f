//! Version metadata, download planning and the version catalogue.

pub mod deserializer;
pub mod minecraft;
pub mod provider;
