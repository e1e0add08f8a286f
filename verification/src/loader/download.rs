//! Shared rules of loader downloads: digests, where an artifact is fetched
//! from, and when a file on disk is reused.

use vstd::prelude::*;

use crate::digest::{hex_encode, hex_lower, sha1_digest, sha1_of};
use crate::downloader::minecraft::trim_slashes;
use crate::text::{concat3, strings_view};

verus! {

/// The SHA-1 of `data` as lower-case hexadecimal text.
pub fn sha1_hex(data: &[u8]) -> (s: String)
    ensures
        s@ == hex_lower(sha1_of(data@)),
{
    let d = sha1_digest(data);
    hex_encode(d.as_slice())
}

/// A Maven artifact to place below the libraries directory.
pub struct RepoArtifact {
    /// Path below the libraries directory, `/` between parts.
    pub rel_path: String,
    /// Repository roots tried in turn when there is no exact URL.
    pub bases: Vec<String>,
    /// The URL to fetch from, when known.
    pub exact_url: Option<String>,
    pub sha1: Option<String>,
    pub size: Option<u64>,
}

/// The URLs an artifact is tried from, in order: its exact URL alone, or
/// each repository root (trailing slashes dropped) with `/` and the path.
pub open spec fn artifact_urls(a: RepoArtifact) -> Seq<Seq<char>> {
    match a.exact_url {
        Some(u) => seq![u@],
        None => Seq::new(
            a.bases@.len(),
            |i: int| trim_slashes(a.bases@[i]@) + "/"@ + a.rel_path@,
        ),
    }
}

/// The URLs an artifact is tried from.
pub fn candidate_urls(a: &RepoArtifact) -> (r: Vec<String>)
    ensures
        strings_view(r@) == artifact_urls(*a),
{
    match &a.exact_url {
        Some(u) => {
            let mut v: Vec<String> = Vec::new();
            v.push(u.clone());
            assert(strings_view(v@) =~= seq![u@]);
            v
        },
        None => {
            let mut v: Vec<String> = Vec::new();
            let mut i: usize = 0;
            while i < a.bases.len()
                invariant
                    i <= a.bases@.len(),
                    a.exact_url is None,
                    strings_view(v@) == Seq::new(
                        i as nat,
                        |k: int| trim_slashes(a.bases@[k]@) + "/"@ + a.rel_path@,
                    ),
                decreases a.bases@.len() - i,
            {
                let ghost before = strings_view(v@);
                let base = crate::downloader::minecraft::trim_slashes_string(a.bases[i].as_str());
                let u = concat3(base.as_str(), "/", a.rel_path.as_str());
                assert(u@ == trim_slashes(a.bases@[i as int]@) + "/"@ + a.rel_path@);
                v.push(u);
                assert(strings_view(v@) =~= before.push(u@));
                assert(strings_view(v@) =~= Seq::new(
                    (i + 1) as nat,
                    |k: int| trim_slashes(a.bases@[k]@) + "/"@ + a.rel_path@,
                ));
                i += 1;
            }
            v
        },
    }
}

/// Whether an artifact already on disk is used as it is: with a known size
/// only when the sizes agree; without one whenever it exists.
pub fn artifact_reusable(exists: bool, actual_size: Option<u64>, expected_size: Option<u64>) -> (b: bool)
    ensures
        b == (exists && match expected_size {
            Some(s) => actual_size == Some(s),
            None => true,
        }),
{
    if !exists {
        return false;
    }
    match expected_size {
        Some(s) => match actual_size {
            Some(a) => a == s,
            None => false,
        },
        None => true,
    }
}

} // verus!
