//! The shapes of Mojang's metadata files: the list of versions, a
//! version's `<version>.json` and an assets index.
//!
//! Maps of the files are held as vectors of key/value pairs, each key once.

use vstd::prelude::*;

verus! {

// ---------------------------------------------------------------------------
// The list of versions
// ---------------------------------------------------------------------------

pub struct VersionManifest {
    pub latest: LatestVersion,
    pub versions: Vec<SingleVersion>,
}

pub struct LatestVersion {
    pub release: String,
    pub snapshot: String,
}

impl Clone for LatestVersion {
    fn clone(&self) -> (r: Self)
        ensures
            r == *self,
    {
        LatestVersion { release: self.release.clone(), snapshot: self.snapshot.clone() }
    }
}

pub struct SingleVersion {
    pub id: String,
    pub version_type: String,
    pub url: String,
    pub time: String,
    pub release_time: String,
}

impl Clone for SingleVersion {
    fn clone(&self) -> (r: Self)
        ensures
            r == *self,
    {
        SingleVersion {
            id: self.id.clone(),
            version_type: self.version_type.clone(),
            url: self.url.clone(),
            time: self.time.clone(),
            release_time: self.release_time.clone(),
        }
    }
}

/// The April Fools' releases, all published as snapshots.
pub const FOOL_VERSIONS: [&'static str; 9] = [
    "15w14a",
    "1.RV-Pre1",
    "3D Shareware v1.34",
    "20w14infinite",
    "22w13oneblockatatime",
    "23w13a_or_b",
    "24w14potato",
    "25w14craftmine",
    "26w14a",
];

// ---------------------------------------------------------------------------
// <version>.json
// ---------------------------------------------------------------------------

pub struct VersionContent {
    pub arguments: Arguments,
    pub assets_index: AssetsIndex,
    pub assets: String,
    pub compliance_level: u64,
    pub downloads: Downloads,
    pub id: String,
    pub java_version: JavaVersion,
    pub libraries: Vec<OnceLibraries>,
    pub logging: Logging,
    pub main_class: String,
    pub minimum_launcher_version: u64,
    pub release_time: String,
    pub time: String,
    pub version_type: String,
}

pub struct Arguments {
    pub game: Vec<StringOrArgument>,
    pub jvm: Vec<StringOrArgument>,
}

pub struct Argument {
    pub rules: Vec<Rule>,
    pub value: ArgumentValue,
}

pub struct Rule {
    pub action: String,
    pub features: Option<FeaturesFlag>,
    pub os: Option<OS>,
}

pub struct OS {
    pub name: Option<String>,
    pub arch: Option<String>,
}

#[derive(Clone, Copy)]
pub struct FeaturesFlag {
    pub is_demo_user: Option<bool>,
    pub has_custom_resolution: Option<bool>,
    pub has_quick_plays_support: Option<bool>,
    pub is_quick_play_singleplayer: Option<bool>,
    pub is_quick_play_multiplayer: Option<bool>,
    pub is_quick_play_realms: Option<bool>,
}

/// An entry of `arguments.game` / `arguments.jvm`: a bare string, or a value
/// gated by rules.
pub enum StringOrArgument {
    String(String),
    Argument(Argument),
}

pub enum ArgumentValue {
    String(String),
    Vec(Vec<String>),
}

pub struct AssetsIndex {
    pub id: String,
    pub sha1: String,
    pub size: u64,
    pub total_size: u64,
    pub url: String,
}

pub struct Downloads {
    pub client: Option<DownloadsFile>,
    pub client_mappings: Option<DownloadsFile>,
    pub server: Option<DownloadsFile>,
    pub server_mappings: Option<DownloadsFile>,
}

pub struct DownloadsFile {
    pub sha1: String,
    pub size: u64,
    pub url: String,
}

pub struct JavaVersion {
    pub component: String,
    pub major_version: u64,
}

pub struct OnceLibraries {
    pub rules: Option<Vec<Rule>>,
    pub downloads: LibrariesDownloads,
    /// The library's own `classifiers` map (the old native layout):
    /// classifier key and artifact, each key once.
    pub classifiers: Option<Vec<(String, Artifact)>>,
    pub name: String,
}

pub struct LibrariesDownloads {
    pub artifact: Artifact,
}

pub struct Artifact {
    pub path: String,
    pub sha1: String,
    pub size: u64,
    pub url: String,
}

pub struct Logging {
    pub client: LoggingClient,
}

pub struct LoggingClient {
    pub argument: String,
    pub file: LoggingClientFile,
    pub file_type: String,
}

pub struct LoggingClientFile {
    pub id: String,
    pub sha1: String,
    pub size: u64,
    pub url: String,
}

// ---------------------------------------------------------------------------
// Assets index
// ---------------------------------------------------------------------------

pub struct AssetsIndexContent {
    /// Logical asset path and object, each path once.
    pub objects: Vec<(String, AssetObject)>,
    pub virtual_: bool,
    pub map_to_resources: bool,
}

pub struct AssetObject {
    pub hash: String,
    pub size: u64,
}

} // verus!
