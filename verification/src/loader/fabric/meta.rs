//! The data of the Fabric Meta API.

use vstd::prelude::*;

verus! {

/// An entry of `GET /v2/versions/loader/{game_version}` (only its loader).
pub struct FabricLoaderListEntry {
    pub loader: FabricLoaderInfo,
}

pub struct FabricLoaderInfo {
    pub maven: String,
    pub version: String,
    pub stable: bool,
}

/// The launch data of `GET /v2/versions/loader/{game}/{loader}`.
pub struct FabricLaunchMeta {
    pub loader: FabricLoaderInfo,
    pub intermediary: FabricIntermediaryInfo,
    pub launcher_meta: FabricLauncherMeta,
}

pub struct FabricIntermediaryInfo {
    pub maven: String,
    pub version: String,
    pub stable: bool,
}

pub struct FabricLauncherMeta {
    pub main_class: FabricMainClass,
    pub libraries: FabricLibraries,
    pub launchwrapper: Option<FabricLaunchWrapper>,
}

/// `mainClass`: one class, or one per side.
pub enum FabricMainClass {
    String(String),
    Sides { client: String, server: Option<String> },
}

impl FabricMainClass {
    /// The client's main class.
    pub fn client(&self) -> (r: Option<&str>)
        ensures
            r matches Some(c) && c@ == (match *self {
                FabricMainClass::String(v) => v@,
                FabricMainClass::Sides { client, .. } => client@,
            }),
    {
        match self {
            FabricMainClass::String(v) => Some(v.as_str()),
            FabricMainClass::Sides { client, .. } => Some(client.as_str()),
        }
    }
}

pub struct FabricLibraries {
    pub common: Vec<FabricLibrary>,
    pub client: Vec<FabricLibrary>,
    pub server: Vec<FabricLibrary>,
}

impl Default for FabricLibraries {
    fn default() -> (l: Self)
        ensures
            l.common@.len() == 0 && l.client@.len() == 0 && l.server@.len() == 0,
    {
        FabricLibraries { common: Vec::new(), client: Vec::new(), server: Vec::new() }
    }
}

/// A library: `name` its Maven coordinate, `url` its repository's root.
pub struct FabricLibrary {
    pub name: String,
    pub url: String,
    pub sha1: Option<String>,
    pub size: Option<u64>,
}

pub struct FabricLaunchWrapper {
    pub tweakers: Option<FabricTweakers>,
}

pub struct FabricTweakers {
    pub client: Vec<String>,
    pub server: Vec<String>,
}

impl FabricLaunchWrapper {
    /// The first client tweaker, if any.
    pub fn client_tweaker(&self) -> (r: Option<&str>)
        ensures
            match r {
                Some(t) => self.tweakers matches Some(tw) && tw.client@.len() > 0 && t@ == tw.client@[0]@,
                None => match self.tweakers {
                    Some(tw) => tw.client@.len() == 0,
                    None => true,
                },
            },
    {
        match &self.tweakers {
            Some(t) => {
                if t.client.len() > 0 {
                    Some(t.client[0].as_str())
                } else {
                    None
                }
            },
            None => None,
        }
    }
}

} // verus!
