//! Fabric API, an ordinary Fabric mod, looked up on Modrinth and placed in
//! the instance's `mods` directory (it is no part of the loader patch).

use vstd::prelude::*;
use vstd::utf8::encode_utf8;

use crate::text::{concat3, push_str, str_eq, strings_view};

verus! {

/// A version of a Modrinth project (the fields used here).
pub struct ModrinthVersion {
    pub id: String,
    pub version_number: String,
    pub version_type: String,
    pub game_versions: Vec<String>,
    pub loaders: Vec<String>,
    pub files: Vec<ModrinthFile>,
    /// The dependencies, each as JSON text.
    pub dependencies: Vec<String>,
}

/// A file of a Modrinth version; `hashes` maps algorithm to digest.
pub struct ModrinthFile {
    pub url: String,
    pub filename: String,
    pub size: u64,
    pub hashes: Vec<(String, String)>,
}

/// The Modrinth API root.
pub const MODRINTH_API: &'static str = "https://api.modrinth.com/v2";

/// The version list URL of a project.
pub fn project_url(project: &str) -> (r: String)
    ensures
        r@ == MODRINTH_API@ + "/project/"@ + project@ + "/version"@,
{
    let mut s = concat3(MODRINTH_API, "/project/", project);
    push_str(&mut s, "/version");
    s
}

/// Bytes a URL carries as they are: ASCII letters, digits, `-`, `_`, `.`
/// and `~`.
pub open spec fn unreserved(b: u8) -> bool {
    (65 <= b <= 90) || (97 <= b <= 122) || (48 <= b <= 57) || b == 45 || b == 95 || b == 46 || b == 126
}

pub open spec fn upper_hex_digit(v: int) -> char {
    if v < 10 {
        ((v + 48) as u32) as char
    } else {
        ((v + 55) as u32) as char
    }
}

/// Percent-encoding of UTF-8 bytes: unreserved bytes as their character,
/// every other byte as `%` and two upper-case hexadecimal digits.
pub open spec fn url_encoded(b: Seq<u8>) -> Seq<char>
    decreases b.len(),
{
    if b.len() == 0 {
        Seq::empty()
    } else {
        let last = b.last();
        url_encoded(b.drop_last()) + if unreserved(last) {
            seq![last as char]
        } else {
            seq!['%', upper_hex_digit(last as int / 16), upper_hex_digit(last as int % 16)]
        }
    }
}

fn hex_up(v: u8) -> (c: char)
    requires
        v < 16,
    ensures
        c == upper_hex_digit(v as int),
{
    if v < 10 {
        (v + 48) as char
    } else {
        (v + 55) as char
    }
}

/// Percent-encodes the UTF-8 bytes of `s` for a query string.
pub fn urlencoding(s: &str) -> (r: String)
    ensures
        r@ == url_encoded(encode_utf8(s@)),
{
    let b = s.as_bytes();
    let mut out: Vec<char> = Vec::new();
    let mut i: usize = 0;
    while i < b.len()
        invariant
            i <= b@.len(),
            b@ == encode_utf8(s@),
            out@ == url_encoded(b@.take(i as int)),
        decreases b@.len() - i,
    {
        assert(b@.take(i + 1).drop_last() =~= b@.take(i as int));
        let x = b[i];
        if (65 <= x && x <= 90) || (97 <= x && x <= 122) || (48 <= x && x <= 57) || x == 45 || x == 95
            || x == 46 || x == 126 {
            out.push(x as char);
        } else {
            out.push('%');
            out.push(hex_up(x / 16));
            out.push(hex_up(x % 16));
        }
        assert(out@ =~= url_encoded(b@.take(i + 1)));
        i += 1;
    }
    assert(b@.take(b@.len() as int) =~= b@);
    crate::text::string_of(out.as_slice())
}

/// The query of Fabric API versions for a Minecraft version: game version
/// and loader as JSON arrays, percent-encoded.
pub fn query_url(minecraft_version: &str) -> (r: String)
    ensures
        r@ == MODRINTH_API@ + "/project/"@ + "fabric-api"@ + "/version"@ + "?game_versions="@
            + url_encoded(encode_utf8("[\""@ + minecraft_version@ + "\"]"@)) + "&loaders="@
            + url_encoded(encode_utf8("[\"fabric\"]"@)),
{
    let game = concat3("[\"", minecraft_version, "\"]");
    let mut s = project_url("fabric-api");
    push_str(&mut s, "?game_versions=");
    push_str(&mut s, urlencoding(game.as_str()).as_str());
    push_str(&mut s, "&loaders=");
    push_str(&mut s, urlencoding("[\"fabric\"]").as_str());
    s
}

} // verus!

verus! {

/// Whether a version can be chosen: a release one of whose files lists a
/// SHA-1.
pub open spec fn pickable(v: ModrinthVersion) -> bool {
    &&& v.version_type@ == "release"@
    &&& exists|k: int| 0 <= k < v.files@.len() && has_hash(#[trigger] v.files@[k], "sha1"@)
}

fn has_sha1_file(v: &ModrinthVersion) -> (b: bool)
    ensures
        b == exists|k: int| 0 <= k < v.files@.len() && has_hash(#[trigger] v.files@[k], "sha1"@),
{
    let mut k: usize = 0;
    while k < v.files.len()
        invariant
            k <= v.files@.len(),
            forall|j: int| 0 <= j < k ==> !has_hash(#[trigger] v.files@[j], "sha1"@),
        decreases v.files@.len() - k,
    {
        if file_has_sha1(&v.files[k]) {
            return true;
        }
        k += 1;
    }
    false
}

/// The version chosen: the first (newest) release one of whose files
/// lists a SHA-1.
pub fn pick_version(versions: &[ModrinthVersion]) -> (r: Option<&ModrinthVersion>)
    ensures
        match r {
            Some(v) => exists|i: int|
                0 <= i < versions@.len() && versions@[i] == *v && pickable(*v)
                    && forall|j: int| 0 <= j < i ==> !pickable(#[trigger] versions@[j]),
            None => forall|i: int| 0 <= i < versions@.len() ==> !pickable(#[trigger] versions@[i]),
        },
{
    let mut i: usize = 0;
    while i < versions.len()
        invariant
            i <= versions@.len(),
            forall|j: int| 0 <= j < i ==> !pickable(#[trigger] versions@[j]),
        decreases versions@.len() - i,
    {
        if str_eq(versions[i].version_type.as_str(), "release") && has_sha1_file(&versions[i]) {
            return Some(&versions[i]);
        }
        i += 1;
    }
    None
}

/// Whether a file lists a digest under `key`.
pub open spec fn has_hash(f: ModrinthFile, key: Seq<char>) -> bool {
    exists|i: int| 0 <= i < f.hashes@.len() && (#[trigger] f.hashes@[i]).0@ == key
}

fn file_has_sha1(f: &ModrinthFile) -> (b: bool)
    ensures
        b == has_hash(*f, "sha1"@),
{
    let mut i: usize = 0;
    while i < f.hashes.len()
        invariant
            i <= f.hashes@.len(),
            forall|j: int| 0 <= j < i ==> (#[trigger] f.hashes@[j]).0@ != "sha1"@,
        decreases f.hashes@.len() - i,
    {
        if str_eq(f.hashes[i].0.as_str(), "sha1") {
            return true;
        }
        i += 1;
    }
    false
}

/// The file downloaded: the first with a SHA-1, else the first.
pub fn pick_file(v: &ModrinthVersion) -> (r: Option<&ModrinthFile>)
    ensures
        match r {
            Some(f) => exists|i: int|
                0 <= i < v.files@.len() && v.files@[i] == *f && ((has_hash(*f, "sha1"@) && forall|j: int|
                    0 <= j < i ==> !has_hash(#[trigger] v.files@[j], "sha1"@)) || (i == 0 && forall|j: int|
                    0 <= j < v.files@.len() ==> !has_hash(#[trigger] v.files@[j], "sha1"@))),
            None => v.files@.len() == 0,
        },
{
    let mut i: usize = 0;
    while i < v.files.len()
        invariant
            i <= v.files@.len(),
            forall|j: int| 0 <= j < i ==> !has_hash(#[trigger] v.files@[j], "sha1"@),
        decreases v.files@.len() - i,
    {
        if file_has_sha1(&v.files[i]) {
            return Some(&v.files[i]);
        }
        i += 1;
    }
    if v.files.len() > 0 {
        Some(&v.files[0])
    } else {
        None
    }
}

/// The SHA-1 a file lists (the first digest under `sha1`).
pub fn file_sha1(f: &ModrinthFile) -> (r: Option<&String>)
    ensures
        match r {
            Some(s) => exists|i: int|
                0 <= i < f.hashes@.len() && (#[trigger] f.hashes@[i]).0@ == "sha1"@ && f.hashes@[i].1 == *s
                    && forall|j: int| 0 <= j < i ==> (#[trigger] f.hashes@[j]).0@ != "sha1"@,
            None => !has_hash(*f, "sha1"@),
        },
{
    let mut i: usize = 0;
    while i < f.hashes.len()
        invariant
            i <= f.hashes@.len(),
            forall|j: int| 0 <= j < i ==> (#[trigger] f.hashes@[j]).0@ != "sha1"@,
        decreases f.hashes@.len() - i,
    {
        if str_eq(f.hashes[i].0.as_str(), "sha1") {
            return Some(&f.hashes[i].1);
        }
        i += 1;
    }
    None
}

} // verus!
