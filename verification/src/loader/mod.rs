//! Mod loaders: coordinates, version patches and the loaders' catalogues.
//!
//! NeoForge is installed through its installer and processors, Fabric
//! through the Fabric Meta API; Fabric API is an ordinary mod placed in the
//! instance's `mods` directory.

pub mod download;
pub mod fabric;
pub mod maven;
pub mod neoforge;
pub mod patch;

use vstd::prelude::*;

use crate::text::{is_blank, trim};

verus! {

/// The loaders that can be installed.
#[derive(Clone, Copy, Debug, PartialEq, Eq, Structural)]
pub enum LoaderKind {
    NeoForge,
    Fabric,
}

pub open spec fn loader_name(k: LoaderKind) -> Seq<char> {
    match k {
        LoaderKind::NeoForge => "neoforge"@,
        LoaderKind::Fabric => "fabric"@,
    }
}

impl LoaderKind {
    /// `neoforge` or `fabric`.
    pub fn as_str(self) -> (s: &'static str)
        ensures
            s@ == loader_name(self),
    {
        match self {
            LoaderKind::NeoForge => "neoforge",
            LoaderKind::Fabric => "fabric",
        }
    }
}

/// A request to install a loader.
pub struct LoaderRequest {
    pub kind: LoaderKind,
    pub version: String,
    pub with_fabric_api: bool,
}

/// A loader version offered for a Minecraft version.
pub struct LoaderVersion {
    pub version: String,
    pub stable: bool,
}

/// The Java executable of an instance: its configured path unless that is
/// blank, else `java`.
pub fn pick_java_bin(java_path: &Option<String>) -> (r: String)
    ensures
        r@ == (match java_path {
            Some(p) => if trim(p@).len() > 0 {
                p@
            } else {
                "java"@
            },
            None => "java"@,
        }),
{
    match java_path {
        Some(p) => {
            if !is_blank(p.as_str()) {
                p.clone()
            } else {
                "java".to_owned()
            }
        },
        None => "java".to_owned(),
    }
}

} // verus!
