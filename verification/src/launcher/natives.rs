//! Native libraries: which jars to unpack before a launch, and which of
//! their entries to unpack.
//!
//! Natives come in two shapes in `<version>.json`: older libraries carry a
//! `downloads.classifiers` map (keys such as `natives-linux` or
//! `natives-linux-arm64`); newer ones are libraries of their own whose name
//! ends in `:natives-<os>[-<arch>]`. Both are picked for the host,
//! architecture first.

use vstd::prelude::*;

use crate::downloader::deserializer::VersionContent;
use crate::downloader::minecraft::{opt_rules, picked_native};
use crate::platform::{
    classifier_candidates, features_default, native_classifier_candidates, no_features,
    opt_string_view, rules_allow, rules_allow_spec, Platform,
};
use crate::text::{
    char_vecs_view, chars_of, split_all, split_chars, str_eq, string_of, strings_view, trim,
    trim_string,
};

verus! {

/// A native jar to unpack.
pub struct NativeTask {
    /// The jar's path below the libraries root (also shown in the log).
    pub source: String,
}

/// The part of `s` after its last `c` (all of `s` without one).
pub open spec fn last_piece(s: Seq<char>, c: char) -> Seq<char> {
    split_all(s, c).last()
}

/// The native jar a library gives on the host: with a classifier map, the
/// artifact of the first candidate key it has; without one, the library's
/// own artifact when the last `:` part of its name is a candidate key.
pub open spec fn native_of(lib: crate::downloader::deserializer::OnceLibraries, cands: Seq<Seq<char>>) -> Option<
    Seq<char>,
> {
    match lib.classifiers {
        Some(cls) => match picked_native(cands, cls@) {
            Some(i) => Some(cls@[i].1.path@),
            None => None,
        },
        None => if cands.contains(last_piece(lib.name@, ':')) {
            Some(lib.downloads.artifact.path@)
        } else {
            None
        },
    }
}

/// The native jars of a version, in library order, each once: libraries
/// whose rules exclude them on the host give none.
pub open spec fn native_sources(
    libs: Seq<crate::downloader::deserializer::OnceLibraries>,
    cands: Seq<Seq<char>>,
    p: &Platform,
) -> Seq<Seq<char>>
    decreases libs.len(),
{
    if libs.len() == 0 {
        Seq::empty()
    } else {
        let r = native_sources(libs.drop_last(), cands, p);
        let lib = libs.last();
        if !rules_allow_spec(opt_rules(lib.rules), no_features(), p, true) {
            r
        } else {
            match native_of(lib, cands) {
                Some(x) => if r.contains(x) {
                    r
                } else {
                    r.push(x)
                },
                None => r,
            }
        }
    }
}

pub proof fn lemma_split_all_len(s: Seq<char>, c: char)
    ensures
        split_all(s, c).len() >= 1,
    decreases s.len(),
{
    match crate::text::find_from(s, seq![c], 0, false) {
        None => {},
        Some(i) => {
            crate::text::lemma_find_from_bounds(s, seq![c], 0, false);
            lemma_split_all_len(s.skip(i + 1), c);
        },
    }
}

fn last_piece_exec(s: &str, c: char) -> (r: String)
    ensures
        r@ == last_piece(s@, c),
{
    let v = chars_of(s);
    let parts = split_chars(v.as_slice(), c);
    proof {
        lemma_split_all_len(s@, c);
    }
    let n = parts.len();
    assert(char_vecs_view(parts@)[n - 1] == parts@[n - 1]@);
    string_of(parts[n - 1].as_slice())
}

fn strings_contain(v: &Vec<String>, x: &str) -> (b: bool)
    ensures
        b == strings_view(v@).contains(x@),
{
    let mut i: usize = 0;
    while i < v.len()
        invariant
            i <= v@.len(),
            forall|k: int| 0 <= k < i ==> v@[k]@ != x@,
        decreases v@.len() - i,
    {
        if str_eq(v[i].as_str(), x) {
            assert(strings_view(v@)[i as int] == x@);
            return true;
        }
        i += 1;
    }
    proof {
        if strings_view(v@).contains(x@) {
            let k = choose|k: int| 0 <= k < strings_view(v@).len() && strings_view(v@)[k] == x@;
            assert(v@[k]@ == x@);
        }
    }
    false
}

fn native_of_exec(lib: &crate::downloader::deserializer::OnceLibraries, cands: &Vec<String>) -> (r: Option<String>)
    ensures
        match r {
            Some(x) => native_of(*lib, strings_view(cands@)) == Some(x@),
            None => native_of(*lib, strings_view(cands@)) is None,
        },
{
    match &lib.classifiers {
        Some(cls) => {
            proof {
                crate::downloader::minecraft::lemma_picked_native_in_range(strings_view(cands@), cls@);
            }
            match crate::downloader::minecraft::pick_native_index(cands.as_slice(), cls.as_slice()) {
                Some(i) => Some(cls[i].1.path.clone()),
                None => None,
            }
        },
        None => {
            let token = last_piece_exec(lib.name.as_str(), ':');
            if strings_contain(cands, token.as_str()) {
                Some(lib.downloads.artifact.path.clone())
            } else {
                None
            }
        },
    }
}

pub open spec fn task_sources(ts: Seq<NativeTask>) -> Seq<Seq<char>> {
    Seq::new(ts.len(), |i: int| ts[i].source@)
}

/// The native jars to unpack for a launch on the host (see
/// `native_sources`), as paths below the libraries root.
pub fn resolve_native_tasks(content: &VersionContent, platform: &Platform) -> (r: Vec<NativeTask>)
    ensures
        task_sources(r@) == native_sources(
            content.libraries@,
            classifier_candidates(platform.os_name@, opt_string_view(platform.arch_suffix)),
            platform,
        ),
{
    let cands = native_classifier_candidates(platform);
    let ghost cv = strings_view(cands@);
    let libs = &content.libraries;
    let none = features_default();
    let mut seen: Vec<String> = Vec::new();
    let mut tasks: Vec<NativeTask> = Vec::new();
    let mut i: usize = 0;
    while i < libs.len()
        invariant
            i <= libs@.len(),
            libs@ == content.libraries@,
            none == no_features(),
            cv == strings_view(cands@),
            cv == classifier_candidates(platform.os_name@, opt_string_view(platform.arch_suffix)),
            task_sources(tasks@) == native_sources(libs@.take(i as int), cv, platform),
            strings_view(seen@) == task_sources(tasks@),
        decreases libs@.len() - i,
    {
        assert(libs@.take(i + 1).drop_last() =~= libs@.take(i as int));
        let lib = &libs[i];
        let rules = match &lib.rules {
            Some(r) => Some(r.as_slice()),
            None => None,
        };
        if rules_allow(rules, &none, true, platform) {
            match native_of_exec(lib, &cands) {
                Some(path) => {
                    if !strings_contain(&seen, path.as_str()) {
                        let ghost before = task_sources(tasks@);
                        seen.push(path.clone());
                        tasks.push(NativeTask { source: path });
                        assert(task_sources(tasks@) =~= before.push(tasks@.last().source@));
                        assert(strings_view(seen@) =~= task_sources(tasks@));
                    }
                },
                None => {},
            }
        }
        i += 1;
    }
    assert(libs@.take(libs@.len() as int) =~= libs@);
    tasks
}

// ---------------------------------------------------------------------------
// Unpacking
// ---------------------------------------------------------------------------

pub open spec fn ascii_upper(c: char) -> char {
    if 'a' <= c && c <= 'z' {
        ((c as u32) - 32) as char
    } else {
        c
    }
}

pub open spec fn ends_with(s: Seq<char>, t: Seq<char>) -> bool {
    t.len() <= s.len() && s.skip(s.len() - t.len()) == t
}

/// The file an entry of a native jar is unpacked to: the trimmed last part
/// of its name; nothing for directories, empty or hidden names, `META-INF`
/// and `__MACOSX` entries (in any case), and jar signatures (`.sf`,
/// `.rsa`, `.dsa` in any case).
pub open spec fn unpacked_name(entry: Seq<char>, is_dir: bool) -> Option<Seq<char>> {
    let base = trim(last_piece(entry, '/'));
    let upper = base.map_values(|c: char| ascii_upper(c));
    let lower = crate::loader::neoforge::catalog::ascii_lowercase(base);
    if is_dir || base.len() == 0 || base[0] == '.' || crate::text::starts_with(upper, "META-INF"@)
        || crate::text::starts_with(upper, "__MACOSX"@) || ends_with(lower, ".sf"@) || ends_with(
        lower,
        ".rsa"@,
    ) || ends_with(lower, ".dsa"@) {
        None
    } else {
        Some(base)
    }
}

fn has_suffix(v: &[char], t: &[char]) -> (b: bool)
    ensures
        b == ends_with(v@, t@),
{
    if t.len() > v.len() {
        return false;
    }
    let start = v.len() - t.len();
    let r = crate::text::has_at(v, start, t);
    assert(v@.subrange(start as int, start + t@.len()) =~= v@.skip(start as int));
    r
}

/// The file an entry of a native jar is unpacked to, if any.
pub fn native_entry_target(entry: &str, is_dir: bool) -> (r: Option<String>)
    ensures
        match r {
            Some(n) => unpacked_name(entry@, is_dir) == Some(n@),
            None => unpacked_name(entry@, is_dir) is None,
        },
{
    let last = last_piece_exec(entry, '/');
    let base = trim_string(last.as_str());
    let bv = chars_of(base.as_str());
    let mut upper: Vec<char> = Vec::new();
    let mut lower: Vec<char> = Vec::new();
    let mut i: usize = 0;
    while i < bv.len()
        invariant
            i <= bv@.len(),
            upper@ == bv@.take(i as int).map_values(|c: char| ascii_upper(c)),
            lower@ == crate::loader::neoforge::catalog::ascii_lowercase(bv@.take(i as int)),
        decreases bv@.len() - i,
    {
        let c = bv[i];
        let u = if 'a' <= c && c <= 'z' {
            ((c as u32) - 32) as u8 as char
        } else {
            c
        };
        let l = if 'A' <= c && c <= 'Z' {
            ((c as u32) + 32) as u8 as char
        } else {
            c
        };
        assert(u == ascii_upper(c)) by {
            if 'a' <= c && c <= 'z' {
                assert((((c as u32) - 32) as u8) as char == ((c as u32 - 32) as char));
            }
        }
        assert(l == crate::profile::ascii_lower(c)) by {
            if 'A' <= c && c <= 'Z' {
                assert((((c as u32) + 32) as u8) as char == ((c as u32 + 32) as char));
            }
        }
        upper.push(u);
        lower.push(l);
        assert(upper@ =~= bv@.take(i + 1).map_values(|c: char| ascii_upper(c)));
        assert(lower@ =~= crate::loader::neoforge::catalog::ascii_lowercase(bv@.take(i + 1)));
        i += 1;
    }
    assert(bv@.take(bv@.len() as int) =~= bv@);
    proof {
        reveal_strlit("META-INF");
        reveal_strlit("__MACOSX");
        reveal_strlit(".sf");
        reveal_strlit(".rsa");
        reveal_strlit(".dsa");
    }
    let meta = ['M', 'E', 'T', 'A', '-', 'I', 'N', 'F'];
    let mac = ['_', '_', 'M', 'A', 'C', 'O', 'S', 'X'];
    let sf = ['.', 's', 'f'];
    let rsa = ['.', 'r', 's', 'a'];
    let dsa = ['.', 'd', 's', 'a'];
    assert(meta@ =~= "META-INF"@);
    assert(mac@ =~= "__MACOSX"@);
    assert(sf@ =~= ".sf"@);
    assert(rsa@ =~= ".rsa"@);
    assert(dsa@ =~= ".dsa"@);
    let starts_meta = crate::text::has_at(upper.as_slice(), 0, meta.as_slice());
    let starts_mac = crate::text::has_at(upper.as_slice(), 0, mac.as_slice());
    assert(upper@.skip(0) =~= upper@);
    if is_dir || bv.len() == 0 || bv[0] == '.' || starts_meta || starts_mac || has_suffix(
        lower.as_slice(),
        sf.as_slice(),
    ) || has_suffix(lower.as_slice(), rsa.as_slice()) || has_suffix(lower.as_slice(), dsa.as_slice()) {
        None
    } else {
        Some(base)
    }
}

} // verus!
