//! The decisions of a NeoForge installation: which installer, whether the
//! target may take it, where runtime libraries come from, and the patch
//! made of the installer's version JSON.
//!
//! The installation runs: fetch the installer, read its
//! `install_profile.json`, fetch the libraries the installation needs, run
//! the client processors, read the installer's version JSON, fetch the
//! runtime libraries, and build the patch.

use vstd::prelude::*;

use crate::downloader::deserializer::{Arguments, Artifact, OnceLibraries};
use crate::loader::download::RepoArtifact;
use crate::loader::maven::{coordinate_of, maven_path, relative_path_of};
use crate::loader::neoforge::catalog::{is_legacy_1201, mc_supports_neoforge, release_numbers, supports_neoforge};
use crate::loader::neoforge::profile::{ProfileArtifact, ProfileLibrary};
use crate::loader::patch::VersionPatch;
use crate::text::{concat2, concat3, is_empty_str, push_str, str_eq};

verus! {

/// The repositories runtime libraries are tried from, in order.
pub const NEOFORGE_REPOS: [&'static str; 3] = [
    "https://maven.neoforged.net/releases",
    "https://maven.minecraftforge.net/",
    "https://libraries.minecraft.net/",
];

/// The installer of a build: from the `forge` artifact for 1.20.1, from
/// the `neoforge` artifact otherwise.
pub open spec fn installer_url_spec(mc: Seq<char>, loader: Seq<char>) -> Seq<char> {
    if release_numbers(mc) == Some((1int, 20int, 1int)) {
        "https://maven.neoforged.net/releases/net/neoforged/forge/"@ + loader + "/forge-"@ + loader
            + "-installer.jar"@
    } else {
        "https://maven.neoforged.net/releases/net/neoforged/neoforge/"@ + loader + "/neoforge-"@
            + loader + "-installer.jar"@
    }
}

/// The URL of a build's installer.
pub fn installer_url(minecraft_version: &str, loader_version: &str) -> (r: String)
    ensures
        r@ == installer_url_spec(minecraft_version@, loader_version@),
{
    if is_legacy_1201(minecraft_version) {
        let mut s = concat3(
            "https://maven.neoforged.net/releases/net/neoforged/forge/",
            loader_version,
            "/forge-",
        );
        push_str(&mut s, loader_version);
        push_str(&mut s, "-installer.jar");
        s
    } else {
        let mut s = concat3(
            "https://maven.neoforged.net/releases/net/neoforged/neoforge/",
            loader_version,
            "/neoforge-",
        );
        push_str(&mut s, loader_version);
        push_str(&mut s, "-installer.jar");
        s
    }
}

/// How a runtime library is named in messages: by its coordinate.
pub fn describe_lib(lib: &OnceLibraries) -> (r: String)
    ensures
        r == lib.name,
{
    lib.name.clone()
}

/// Why a NeoForge installation stops.
#[derive(Debug)]
pub enum InstallError {
    /// The instance is not vanilla.
    NotVanilla,
    /// NeoForge needs release 1.20.1 or later.
    Unsupported,
    /// The installer is for another Minecraft version (declared, selected).
    WrongMinecraft(String, String),
    /// The installer's version JSON has no main class.
    MissingMainClass,
    /// A runtime library's coordinate cannot be read.
    BadCoordinate(String),
}

/// An installation may start only on vanilla (main class
/// `net.minecraft.client.main.Main`) and a supported release.
pub fn check_install_target(base_main_class: &str, minecraft_version: &str) -> (r: Result<(), InstallError>)
    ensures
        match r {
            Ok(()) => base_main_class@ == "net.minecraft.client.main.Main"@ && supports_neoforge(minecraft_version@),
            Err(InstallError::NotVanilla) => base_main_class@ != "net.minecraft.client.main.Main"@,
            Err(InstallError::Unsupported) => base_main_class@ == "net.minecraft.client.main.Main"@
                && !supports_neoforge(minecraft_version@),
            Err(_) => false,
        },
{
    if !str_eq(base_main_class, "net.minecraft.client.main.Main") {
        return Err(InstallError::NotVanilla);
    }
    if !mc_supports_neoforge(minecraft_version) {
        return Err(InstallError::Unsupported);
    }
    Ok(())
}

/// The installer's declared Minecraft version, when it declares one, must
/// be the selected one.
pub fn check_declared_version(declared: &Option<String>, minecraft_version: &str) -> (r: Result<(), InstallError>)
    ensures
        match r {
            Ok(()) => declared matches Some(d) ==> d@ == minecraft_version@,
            Err(InstallError::WrongMinecraft(d, m)) => declared matches Some(x) && x@ != minecraft_version@
                && d@ == x@ && m@ == minecraft_version@,
            Err(_) => false,
        },
{
    match declared {
        Some(d) => {
            if !str_eq(d.as_str(), minecraft_version) {
                return Err(InstallError::WrongMinecraft(d.clone(), minecraft_version.to_owned()));
            }
            Ok(())
        },
        None => Ok(()),
    }
}

/// The artifact of a runtime library as the installation sees it: with an
/// empty path, the coordinate's Maven path and nothing else known;
/// otherwise its own path, with an empty digest, a zero size and an empty
/// URL read as unknown.
pub open spec fn runtime_artifact_spec(a: Artifact, name: Seq<char>) -> Option<(Seq<char>, Option<Seq<char>>, Option<u64>, Option<Seq<char>>)> {
    if a.path@.len() == 0 {
        match coordinate_of(name) {
            Some(c) => Some((maven_path(c), None, None, None)),
            None => None,
        }
    } else {
        Some((
            a.path@,
            if a.sha1@.len() == 0 { None } else { Some(a.sha1@) },
            if a.size == 0 { None } else { Some(a.size) },
            if a.url@.len() == 0 { None } else { Some(a.url@) },
        ))
    }
}

pub open spec fn profile_artifact_view(p: ProfileArtifact) -> (Seq<char>, Option<Seq<char>>, Option<u64>, Option<Seq<char>>) {
    (
        p.path@,
        match p.sha1 { Some(s) => Some(s@), None => None },
        p.size,
        match p.url { Some(u) => Some(u@), None => None },
    )
}

fn nonempty(s: &String) -> (r: Option<String>)
    ensures
        match r {
            Some(x) => s@.len() > 0 && x@ == s@,
            None => s@.len() == 0,
        },
{
    if is_empty_str(s.as_str()) {
        None
    } else {
        Some(s.clone())
    }
}

/// The artifact of a runtime library (see `runtime_artifact_spec`).
pub fn runtime_artifact(lib: &OnceLibraries) -> (r: Result<ProfileArtifact, InstallError>)
    ensures
        match r {
            Ok(p) => runtime_artifact_spec(lib.downloads.artifact, lib.name@) == Some(profile_artifact_view(p)),
            Err(InstallError::BadCoordinate(n)) => runtime_artifact_spec(lib.downloads.artifact, lib.name@)
                is None && n@ == lib.name@,
            Err(_) => false,
        },
{
    let a = &lib.downloads.artifact;
    if is_empty_str(a.path.as_str()) {
        match relative_path_of(lib.name.as_str()) {
            Some(rel) => Ok(ProfileArtifact { path: rel, sha1: None, size: None, url: None }),
            None => Err(InstallError::BadCoordinate(lib.name.clone())),
        }
    } else {
        Ok(
            ProfileArtifact {
                path: a.path.clone(),
                sha1: nonempty(&a.sha1),
                size: if a.size == 0 { None } else { Some(a.size) },
                url: nonempty(&a.url),
            },
        )
    }
}

/// Where a library of the installation is fetched from: its URL when it
/// has a non-empty one, else each NeoForge repository in turn.
pub fn runtime_repo_artifact(a: &ProfileArtifact) -> (r: RepoArtifact)
    ensures
        r.rel_path == a.path,
        r.sha1 == a.sha1,
        r.size == a.size,
        match a.url {
            Some(u) if u@.len() > 0 => r.exact_url == Some(u) && r.bases@.len() == 0,
            _ => r.exact_url is None && crate::text::strings_view(r.bases@) == seq![
                NEOFORGE_REPOS[0]@,
                NEOFORGE_REPOS[1]@,
                NEOFORGE_REPOS[2]@,
            ],
        },
{
    let mut bases: Vec<String> = Vec::new();
    let exact = match &a.url {
        Some(u) => if is_empty_str(u.as_str()) {
            None
        } else {
            Some(u.clone())
        },
        None => None,
    };
    if exact.is_none() {
        bases.push(NEOFORGE_REPOS[0].to_owned());
        bases.push(NEOFORGE_REPOS[1].to_owned());
        bases.push(NEOFORGE_REPOS[2].to_owned());
        assert(crate::text::strings_view(bases@) =~= seq![
            NEOFORGE_REPOS[0]@,
            NEOFORGE_REPOS[1]@,
            NEOFORGE_REPOS[2]@,
        ]);
    }
    RepoArtifact {
        rel_path: a.path.clone(),
        bases,
        exact_url: exact,
        sha1: crate::text::clone_opt_string(&a.sha1),
        size: a.size,
    }
}

/// The URL recorded for a runtime library: its own, else the first
/// repository, `/` and its path.
pub fn runtime_display_url(a: &ProfileArtifact) -> (r: String)
    ensures
        r@ == (match a.url {
            Some(u) => u@,
            None => NEOFORGE_REPOS[0]@ + "/"@ + a.path@,
        }),
{
    match &a.url {
        Some(u) => u.clone(),
        None => concat3(NEOFORGE_REPOS[0], "/", a.path.as_str()),
    }
}

/// A runtime library with its artifact filled in after download: path,
/// digest, size and URL; name, rules and classifiers stay.
pub fn normalized_runtime_library(lib: OnceLibraries, path: String, sha1: String, size: u64, url: String) -> (r: OnceLibraries)
    ensures
        r.name == lib.name,
        r.rules == lib.rules,
        r.classifiers == lib.classifiers,
        r.downloads.artifact == (Artifact { path, sha1, size, url }),
{
    let mut out = lib;
    out.downloads.artifact = Artifact { path, sha1, size, url };
    out
}

/// The NeoForge patch from the installer's version JSON: its main class
/// (required), its arguments (none when absent), the fetched runtime
/// libraries, and the Java major version it names.
pub fn neoforge_patch(
    main_class: Option<String>,
    arguments: Option<Arguments>,
    libraries: Vec<OnceLibraries>,
    java_major: Option<u64>,
) -> (r: Result<VersionPatch, InstallError>)
    ensures
        match r {
            Ok(p) => main_class == Some(p.main_class) && p.libraries@ == libraries@ && p.java_major
                == java_major && match arguments {
                Some(a) => p.jvm_args@ == a.jvm@ && p.game_args@ == a.game@,
                None => p.jvm_args@.len() == 0 && p.game_args@.len() == 0,
            },
            Err(InstallError::MissingMainClass) => main_class is None,
            Err(_) => false,
        },
{
    let main = match main_class {
        Some(m) => m,
        None => {
            return Err(InstallError::MissingMainClass);
        },
    };
    let (jvm_args, game_args) = match arguments {
        Some(Arguments { jvm, game }) => (jvm, game),
        None => (Vec::new(), Vec::new()),
    };
    Ok(VersionPatch { main_class: main, libraries, jvm_args, game_args, java_major })
}

} // verus!
