//! The `install_profile.json` of a NeoForge (or Forge) installer.
//!
//! Maps of the file are held as key/value pairs, each key once.

use vstd::prelude::*;

use crate::text::str_eq;

verus! {

/// `install_profile.json`.
pub struct InstallProfile {
    /// The Minecraft version of the build (such as `1.21.1`).
    pub minecraft: Option<String>,
    /// The version JSON inside the installer (such as `/version.json`).
    pub json: Option<String>,
    /// Libraries needed to install: processor class paths, tools, and
    /// artifacts shared with the runtime.
    pub libraries: Vec<ProfileLibrary>,
    pub processors: Vec<Processor>,
    /// Data variables, each with its client and server value.
    pub data: Vec<(String, DataEntry)>,
    pub profile: Option<String>,
    pub path: Option<String>,
}

pub struct ProfileLibrary {
    pub name: String,
    pub url: Option<String>,
    pub downloads: Option<ProfileDownloads>,
}

pub struct ProfileDownloads {
    pub artifact: Option<ProfileArtifact>,
}

pub struct ProfileArtifact {
    pub path: String,
    pub sha1: Option<String>,
    pub size: Option<u64>,
    pub url: Option<String>,
}

impl ProfileLibrary {
    /// The library's `downloads.artifact`, when it has one.
    pub fn artifact(&self) -> (r: Option<&ProfileArtifact>)
        ensures
            r == (match self.downloads {
                Some(d) => match d.artifact {
                    Some(a) => Some(&a),
                    None => None,
                },
                None => None,
            }),
    {
        match &self.downloads {
            Some(d) => match &d.artifact {
                Some(a) => Some(a),
                None => None,
            },
            None => None,
        }
    }
}

/// A data variable's values for each side: a coordinate, a literal, or a
/// file inside the installer.
pub struct DataEntry {
    pub client: Option<String>,
    pub server: Option<String>,
}

impl Default for DataEntry {
    fn default() -> (d: Self)
        ensures
            d.client is None,
            d.server is None,
    {
        DataEntry { client: None, server: None }
    }
}

pub struct Processor {
    pub sides: Option<Vec<String>>,
    pub jar: String,
    pub classpath: Option<Vec<String>>,
    pub args: Option<Vec<String>>,
    pub outputs: Option<Vec<(String, String)>>,
}

/// A processor runs for the client when it names no sides, or names
/// `client` among them.
pub open spec fn runs_for_client(p: Processor) -> bool {
    match p.sides {
        None => true,
        Some(sides) => crate::text::strings_view(sides@).contains("client"@),
    }
}

impl Processor {
    /// Whether the processor is run when installing a client.
    pub fn for_client(&self) -> (b: bool)
        ensures
            b == runs_for_client(*self),
    {
        match &self.sides {
            None => true,
            Some(sides) => {
                let mut i: usize = 0;
                while i < sides.len()
                    invariant
                        i <= sides@.len(),
                        self.sides == Some(*sides),
                        forall|k: int| 0 <= k < i ==> #[trigger] sides@[k]@ != "client"@,
                    decreases sides@.len() - i,
                {
                    if str_eq(sides[i].as_str(), "client") {
                        assert(crate::text::strings_view(sides@)[i as int] == "client"@);
                        return true;
                    }
                    i += 1;
                }
                assert(!crate::text::strings_view(sides@).contains("client"@)) by {
                    if crate::text::strings_view(sides@).contains("client"@) {
                        let k = choose|k: int|
                            0 <= k < sides@.len() && crate::text::strings_view(sides@)[k]
                                == "client"@;
                        assert(sides@[k]@ == "client"@);
                    }
                }
                false
            },
        }
    }
}

} // verus!
