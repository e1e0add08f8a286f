pub mod config;
pub mod digest;
pub mod downloader;
pub mod instance;
pub mod launcher;
pub mod loader;
pub mod log;
pub mod platform;
pub mod profile;
pub mod runtime;
pub mod skin;
pub mod support;
pub mod text;

use vstd::prelude::*;

verus! {

/// A notification shown by the front end.
pub struct ToastPayload {
    pub level: String,
    pub title: String,
    pub message: Option<String>,
    pub kind: Option<String>,
    pub version_id: Option<String>,
}

} // verus!
