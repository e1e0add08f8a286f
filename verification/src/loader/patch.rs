//! Loader patches and how they are merged into a vanilla version.
//!
//! A [`VersionPatch`] says what a loader replaces or adds on top of the
//! vanilla `<version>.json`. Merging touches only the main class, the
//! libraries, the arguments and the Java version; assets, downloads and
//! logging stay as they are, so that nothing else needs to know a loader
//! is installed.

use vstd::prelude::*;

use crate::downloader::deserializer::{Arguments, OnceLibraries, StringOrArgument, VersionContent};

verus! {

/// What a loader's installation adds to a version.
pub struct VersionPatch {
    pub main_class: String,
    pub libraries: Vec<OnceLibraries>,
    pub jvm_args: Vec<StringOrArgument>,
    pub game_args: Vec<StringOrArgument>,
    /// The Java major version the loader needs, if any.
    pub java_major: Option<u64>,
}

/// Joins two argument lists: `base` then `extra`, everything kept.
///
/// Arguments come as flag/value pairs, so nothing may be dropped as a
/// duplicate: two `--add-opens` each carry their own value, and dropping
/// one would leave its value behind to be taken for the main class.
pub fn merge_args(base: Vec<StringOrArgument>, extra: Vec<StringOrArgument>) -> (r: Vec<
    StringOrArgument,
>)
    ensures
        r@ == base@ + extra@,
{
    let mut out = base;
    let mut extra = extra;
    out.append(&mut extra);
    out
}

pub open spec fn lib_names(s: Seq<OnceLibraries>) -> Seq<Seq<char>> {
    Seq::new(s.len(), |i: int| s[i].name@)
}

/// The libraries of `s`, each name kept at its first occurrence only.
pub open spec fn first_of_each_name(s: Seq<OnceLibraries>) -> Seq<OnceLibraries>
    decreases s.len(),
{
    if s.len() == 0 {
        s
    } else {
        let r = first_of_each_name(s.drop_last());
        if lib_names(s.drop_last()).contains(s.last().name@) {
            r
        } else {
            r.push(s.last())
        }
    }
}

fn names_contain(names: &Vec<String>, name: &String) -> (b: bool)
    ensures
        b == crate::text::strings_view(names@).contains(name@),
{
    let mut i: usize = 0;
    while i < names.len()
        invariant
            i <= names@.len(),
            forall|k: int| 0 <= k < i ==> names@[k]@ != name@,
        decreases names@.len() - i,
    {
        if names[i] == *name {
            assert(crate::text::strings_view(names@)[i as int] == name@);
            return true;
        }
        i += 1;
    }
    proof {
        if crate::text::strings_view(names@).contains(name@) {
            let k = choose|k: int|
                0 <= k < names@.len() && crate::text::strings_view(names@)[k] == name@;
            assert(names@[k]@ == name@);
        }
    }
    false
}

/// Joins two library lists, one library per name: `base` first, and of two
/// libraries with one name the earlier is kept (vanilla entries carry the
/// fuller native information).
pub fn merge_libraries(base: Vec<OnceLibraries>, extra: Vec<OnceLibraries>) -> (r: Vec<
    OnceLibraries,
>)
    ensures
        r@ == first_of_each_name(base@ + extra@),
{
    let mut all = base;
    let mut extra = extra;
    all.append(&mut extra);
    let ghost everything = all@;
    let mut seen: Vec<String> = Vec::new();
    let mut out: Vec<OnceLibraries> = Vec::new();
    for lib in it: all
        invariant
            it.seq() == everything,
            out@ == first_of_each_name(everything.take(it.index() as int)),
            crate::text::strings_view(seen@) == lib_names(everything.take(it.index() as int)),
    {
        let ghost k = it.index() as int;
        assert(everything.take(k + 1).drop_last() =~= everything.take(k));
        assert(lib == everything[k]);
        let ghost before = crate::text::strings_view(seen@);
        let dup = names_contain(&seen, &lib.name);
        let nm = lib.name.clone();
        assert(nm@ == everything[k].name@);
        seen.push(nm);
        assert(crate::text::strings_view(seen@) =~= before.push(everything[k].name@));
        assert(lib_names(everything.take(k + 1)) =~= lib_names(everything.take(k)).push(
            everything[k].name@,
        ));
        assert(crate::text::strings_view(seen@) =~= lib_names(everything.take(k + 1)));
        if !dup {
            out.push(lib);
        }
    }
    assert(everything.take(everything.len() as int) =~= everything);
    out
}

/// Applies a patch to a vanilla version: the patch's main class, the merged
/// libraries and arguments (vanilla first), and the Java major version
/// raised to the patch's when that is higher; everything else is vanilla.
pub fn merge(base: VersionContent, patch: VersionPatch) -> (r: VersionContent)
    ensures
        r.main_class == patch.main_class,
        r.libraries@ == first_of_each_name(base.libraries@ + patch.libraries@),
        r.arguments.game@ == base.arguments.game@ + patch.game_args@,
        r.arguments.jvm@ == base.arguments.jvm@ + patch.jvm_args@,
        r.java_version.major_version == (match patch.java_major {
            Some(m) => if m > base.java_version.major_version {
                m
            } else {
                base.java_version.major_version
            },
            None => base.java_version.major_version,
        }),
        r.java_version.component == base.java_version.component,
        r.assets_index == base.assets_index,
        r.assets == base.assets,
        r.compliance_level == base.compliance_level,
        r.downloads == base.downloads,
        r.id == base.id,
        r.logging == base.logging,
        r.minimum_launcher_version == base.minimum_launcher_version,
        r.release_time == base.release_time,
        r.time == base.time,
        r.version_type == base.version_type,
{
    let VersionContent {
        arguments,
        assets_index,
        assets,
        compliance_level,
        downloads,
        id,
        java_version,
        libraries,
        logging,
        main_class: _,
        minimum_launcher_version,
        release_time,
        time,
        version_type,
    } = base;
    let VersionPatch { main_class, libraries: extra_libs, jvm_args, game_args, java_major } = patch;
    let Arguments { game, jvm } = arguments;
    let mut java_version = java_version;
    match java_major {
        Some(m) => {
            if m > java_version.major_version {
                java_version.major_version = m;
            }
        },
        None => {},
    }
    VersionContent {
        arguments: Arguments { game: merge_args(game, game_args), jvm: merge_args(jvm, jvm_args) },
        assets_index,
        assets,
        compliance_level,
        downloads,
        id,
        java_version,
        libraries: merge_libraries(libraries, extra_libs),
        logging,
        main_class,
        minimum_launcher_version,
        release_time,
        time,
        version_type,
    }
}

// ---------------------------------------------------------------------------
// Laws of merging libraries
// ---------------------------------------------------------------------------

pub open spec fn distinct_names(s: Seq<OnceLibraries>) -> bool {
    forall|i: int, j: int| 0 <= i < j < s.len() ==> s[i].name@ != s[j].name@
}

proof fn lemma_first_of_each_name_props(s: Seq<OnceLibraries>)
    ensures
        distinct_names(first_of_each_name(s)),
        forall|n: Seq<char>| lib_names(first_of_each_name(s)).contains(n) <==> lib_names(s).contains(n),
    decreases s.len(),
{
    if s.len() > 0 {
        let d = s.drop_last();
        lemma_first_of_each_name_props(d);
        let r = first_of_each_name(d);
        assert(lib_names(s) =~= lib_names(d).push(s.last().name@));
        if !lib_names(d).contains(s.last().name@) {
            assert(lib_names(r.push(s.last())) =~= lib_names(r).push(s.last().name@));
            assert forall|i: int, j: int| 0 <= i < j < r.push(s.last()).len() implies r.push(
                s.last(),
            )[i].name@ != r.push(s.last())[j].name@ by {
                if j == r.len() {
                    assert(lib_names(r)[i] == r[i].name@);
                }
            }
            assert forall|n: Seq<char>| lib_names(r.push(s.last())).contains(n) <==> lib_names(
                s,
            ).contains(n) by {
                vstd::seq_lib::lemma_seq_contains_after_push(lib_names(r), s.last().name@, n);
                vstd::seq_lib::lemma_seq_contains_after_push(lib_names(d), s.last().name@, n);
            }
        } else {
            assert forall|n: Seq<char>| lib_names(r).contains(n) <==> lib_names(s).contains(n) by {
                vstd::seq_lib::lemma_seq_contains_after_push(lib_names(d), s.last().name@, n);
            }
        }
    }
}

/// Merged libraries hold each name once, and every name of either list.
pub proof fn merged_library_names_unique(base: Seq<OnceLibraries>, extra: Seq<OnceLibraries>)
    ensures
        distinct_names(first_of_each_name(base + extra)),
        forall|n: Seq<char>|
            lib_names(first_of_each_name(base + extra)).contains(n) <==> (lib_names(base).contains(
                n,
            ) || lib_names(extra).contains(n)),
{
    lemma_first_of_each_name_props(base + extra);
    assert(lib_names(base + extra) =~= lib_names(base) + lib_names(extra));
    assert forall|n: Seq<char>| lib_names(base + extra).contains(n) <==> (lib_names(base).contains(n)
        || lib_names(extra).contains(n)) by {
        if lib_names(base + extra).contains(n) {
            let k = choose|k: int| 0 <= k < lib_names(base + extra).len() && lib_names(base + extra)[k] == n;
            if k < base.len() {
                assert(lib_names(base)[k] == n);
            } else {
                assert(lib_names(extra)[k - base.len()] == n);
            }
        }
        if lib_names(base).contains(n) {
            let k = choose|k: int| 0 <= k < lib_names(base).len() && lib_names(base)[k] == n;
            assert(lib_names(base + extra)[k] == n);
        }
        if lib_names(extra).contains(n) {
            let k = choose|k: int| 0 <= k < lib_names(extra).len() && lib_names(extra)[k] == n;
            assert(lib_names(base + extra)[base.len() + k] == n);
        }
    }
}

proof fn lemma_distinct_prefix_kept(s: Seq<OnceLibraries>)
    requires
        distinct_names(s),
    ensures
        first_of_each_name(s) == s,
    decreases s.len(),
{
    if s.len() > 0 {
        let d = s.drop_last();
        assert(distinct_names(d));
        lemma_distinct_prefix_kept(d);
        if lib_names(d).contains(s.last().name@) {
            let k = choose|k: int| 0 <= k < lib_names(d).len() && lib_names(d)[k] == s.last().name@;
            assert(s[k].name@ == s[s.len() - 1].name@);
        }
        assert(d.push(s.last()) =~= s);
    }
}

proof fn lemma_first_of_each_prefix(s: Seq<OnceLibraries>, m: int)
    requires
        0 <= m <= s.len(),
    ensures
        first_of_each_name(s.take(m)).is_prefix_of(first_of_each_name(s)),
    decreases s.len() - m,
{
    if m < s.len() {
        lemma_first_of_each_prefix(s, m + 1);
        let t = s.take(m + 1);
        assert(t.drop_last() =~= s.take(m));
    } else {
        assert(s.take(m) =~= s);
    }
}

/// When the vanilla libraries have distinct names, the merged list starts
/// with all of them, unchanged and in order; the patch only adds after them.
pub proof fn merge_keeps_base_first(base: Seq<OnceLibraries>, extra: Seq<OnceLibraries>)
    requires
        distinct_names(base),
    ensures
        first_of_each_name(base + extra).take(base.len() as int) == base,
{
    let s = base + extra;
    assert(s.take(base.len() as int) =~= base);
    lemma_distinct_prefix_kept(base);
    lemma_first_of_each_prefix(s, base.len() as int);
    assert(first_of_each_name(s).take(base.len() as int) =~= base);
}

} // verus!
