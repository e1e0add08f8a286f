//! The Fabric loader patch, built straight from the Fabric Meta API (no
//! processors): its libraries are the meta's common and server libraries,
//! then intermediary and the loader itself.

use vstd::prelude::*;

use crate::downloader::deserializer::{Artifact, LibrariesDownloads, OnceLibraries, StringOrArgument, VersionContent};
use crate::downloader::minecraft::{trim_slashes, trim_slashes_string};
use crate::loader::download::RepoArtifact;
use crate::loader::fabric::meta::{FabricLaunchMeta, FabricLibrary};
use crate::loader::maven::{coordinate_of, maven_path, split_coordinate, CoordinateError};
use crate::loader::patch::VersionPatch;
use crate::text::{concat3, str_eq, strings_view};

verus! {

/// The Maven repository of Fabric.
pub const FABRIC_MAVEN: &'static str = "https://maven.fabricmc.net/";

/// The main class of vanilla Minecraft.
pub const CLIENT_MAIN: &'static str = "net.minecraft.client.main.Main";

/// A library to fetch from `root`: its artifact's path is its coordinate's
/// Maven path and its URL the root (trailing slashes dropped), `/` and that
/// path.
pub open spec fn artifact_from_root(
    name: Seq<char>,
    root: Seq<char>,
    a: RepoArtifact,
) -> bool {
    match coordinate_of(name) {
        Some(c) => {
            &&& a.rel_path@ == maven_path(c)
            &&& a.bases@.len() == 0
            &&& a.exact_url matches Some(u) && u@ == trim_slashes(root) + "/"@ + maven_path(c)
        },
        None => false,
    }
}

/// The artifact of a meta library, with the digest and size it lists.
pub fn repo_artifact(lib: &FabricLibrary) -> (r: Result<RepoArtifact, CoordinateError>)
    ensures
        match r {
            Ok(a) => artifact_from_root(lib.name@, lib.url@, a) && a.sha1 == lib.sha1 && a.size
                == lib.size,
            Err(_) => coordinate_of(lib.name@) is None,
        },
{
    let c = split_coordinate(lib.name.as_str())?;
    let rel = c.relative_path();
    let root = trim_slashes_string(lib.url.as_str());
    let url = concat3(root.as_str(), "/", rel.as_str());
    Ok(RepoArtifact {
        rel_path: rel,
        bases: Vec::new(),
        exact_url: Some(url),
        sha1: crate::text::clone_opt_string(&lib.sha1),
        size: lib.size,
    })
}

/// The artifact of a coordinate in a Maven repository, digest and size
/// unknown.
pub fn maven_artifact(name: &str, repo_base: &str) -> (r: Result<RepoArtifact, CoordinateError>)
    ensures
        match r {
            Ok(a) => artifact_from_root(name@, repo_base@, a) && a.sha1 is None && a.size is None,
            Err(_) => coordinate_of(name@) is None,
        },
{
    let c = split_coordinate(name)?;
    let rel = c.relative_path();
    let root = trim_slashes_string(repo_base);
    let url = concat3(root.as_str(), "/", rel.as_str());
    Ok(RepoArtifact { rel_path: rel, bases: Vec::new(), exact_url: Some(url), sha1: None, size: None })
}

/// Whether `base` is vanilla (its main class is the vanilla client's).
pub fn is_vanilla(base: &VersionContent) -> (b: bool)
    ensures
        b == (base.main_class@ == CLIENT_MAIN@),
{
    str_eq(base.main_class.as_str(), CLIENT_MAIN)
}

/// A library the patch adds, with its artifact.
pub struct PlannedLibrary {
    pub name: String,
    pub artifact: RepoArtifact,
}

pub open spec fn lib_names_of(libs: Seq<OnceLibraries>) -> Seq<Seq<char>> {
    Seq::new(libs.len(), |i: int| libs[i].name@)
}

/// A candidate library: name, repository root, and the digest and size
/// the meta lists (none for intermediary and the loader).
pub type Candidate = (Seq<char>, Seq<char>, Option<Seq<char>>, Option<u64>);

pub open spec fn opt_sv(o: Option<String>) -> Option<Seq<char>> {
    match o {
        Some(s) => Some(s@),
        None => None,
    }
}

pub open spec fn meta_candidates(libs: Seq<FabricLibrary>) -> Seq<Candidate> {
    Seq::new(libs.len(), |i: int| (libs[i].name@, libs[i].url@, opt_sv(libs[i].sha1), libs[i].size))
}

/// The candidate libraries of a patch, in order: the meta's common and
/// server libraries (each with its own repository), then intermediary and
/// the loader (from Fabric's repository).
pub open spec fn candidates(meta: FabricLaunchMeta) -> Seq<Candidate> {
    meta_candidates(meta.launcher_meta.libraries.common@) + meta_candidates(
        meta.launcher_meta.libraries.server@,
    ) + seq![
        (meta.intermediary.maven@, FABRIC_MAVEN@, None, None),
        (meta.loader.maven@, FABRIC_MAVEN@, None, None),
    ]
}

/// The candidates the patch adds, in order: each one whose name is not
/// taken by an earlier candidate nor by a vanilla library.
pub open spec fn added(cands: Seq<Candidate>, base: Seq<Seq<char>>) -> Seq<Candidate>
    decreases cands.len(),
{
    if cands.len() == 0 {
        Seq::empty()
    } else {
        let r = added(cands.drop_last(), base);
        let n = cands.last().0;
        let earlier = Seq::new((cands.len() - 1) as nat, |i: int| cands[i].0);
        if earlier.contains(n) || base.contains(n) {
            r
        } else {
            r.push(cands.last())
        }
    }
}

pub open spec fn planned_matches(p: PlannedLibrary, c: Candidate) -> bool {
    &&& p.name@ == c.0
    &&& artifact_from_root(c.0, c.1, p.artifact)
    &&& opt_sv(p.artifact.sha1) == c.2
    &&& p.artifact.size == c.3
}

fn clone_meta_candidates(out: &mut Vec<(String, String, Option<String>, Option<u64>)>, libs: &Vec<FabricLibrary>)
    ensures
        cand_view(final(out)@) == cand_view(old(out)@) + meta_candidates(libs@),
{
    let ghost start = cand_view(out@);
    let mut i: usize = 0;
    while i < libs.len()
        invariant
            i <= libs@.len(),
            cand_view(out@) == start + meta_candidates(libs@.take(i as int)),
        decreases libs@.len() - i,
    {
        let l = &libs[i];
        let ghost before = cand_view(out@);
        let t = (l.name.clone(), l.url.clone(), crate::text::clone_opt_string(&l.sha1), l.size);
        assert(t.0@ == libs@[i as int].name@ && t.1@ == libs@[i as int].url@);
        out.push(t);
        assert(cand_view(out@) =~= before.push((t.0@, t.1@, opt_sv(t.2), t.3)));
        assert(cand_view(out@) =~= start + meta_candidates(libs@.take(i + 1)));
        i += 1;
    }
    assert(libs@.take(libs@.len() as int) =~= libs@);
}

pub open spec fn cand_view(v: Seq<(String, String, Option<String>, Option<u64>)>) -> Seq<Candidate> {
    Seq::new(v.len(), |i: int| (v[i].0@, v[i].1@, opt_sv(v[i].2), v[i].3))
}

fn names_contain(v: &Vec<String>, x: &String) -> (b: bool)
    ensures
        b == strings_view(v@).contains(x@),
{
    let mut i: usize = 0;
    while i < v.len()
        invariant
            i <= v@.len(),
            forall|k: int| 0 <= k < i ==> v@[k]@ != x@,
        decreases v@.len() - i,
    {
        if v[i] == *x {
            assert(strings_view(v@)[i as int] == x@);
            return true;
        }
        i += 1;
    }
    proof {
        if strings_view(v@).contains(x@) {
            let k = choose|k: int| 0 <= k < strings_view(v@).len() && strings_view(v@)[k] == x@;
            assert(v@[k]@ == x@);
        }
    }
    false
}

/// The libraries the Fabric patch adds (see `added`), with their
/// artifacts; fails when one of them has no valid coordinate.
pub fn plan_fabric_libraries(base: &VersionContent, meta: &FabricLaunchMeta) -> (r: Result<
    Vec<PlannedLibrary>,
    CoordinateError,
>)
    ensures
        ({
            let want = added(candidates(*meta), lib_names_of(base.libraries@));
            match r {
                Ok(p) => p@.len() == want.len() && forall|i: int|
                    0 <= i < want.len() ==> planned_matches(#[trigger] p@[i], want[i]),
                Err(_) => exists|i: int| 0 <= i < want.len() && coordinate_of((#[trigger] want[i]).0) is None,
            }
        }),
{
    let mut cands: Vec<(String, String, Option<String>, Option<u64>)> = Vec::new();
    clone_meta_candidates(&mut cands, &meta.launcher_meta.libraries.common);
    clone_meta_candidates(&mut cands, &meta.launcher_meta.libraries.server);
    cands.push((meta.intermediary.maven.clone(), FABRIC_MAVEN.to_owned(), None, None));
    cands.push((meta.loader.maven.clone(), FABRIC_MAVEN.to_owned(), None, None));
    let ghost cv = cand_view(cands@);
    assert(cv =~= candidates(*meta));
    let mut base_names: Vec<String> = Vec::new();
    let mut b: usize = 0;
    while b < base.libraries.len()
        invariant
            b <= base.libraries@.len(),
            strings_view(base_names@) == lib_names_of(base.libraries@.take(b as int)),
        decreases base.libraries@.len() - b,
    {
        let ghost before = strings_view(base_names@);
        let nm = base.libraries[b].name.clone();
        assert(nm@ == base.libraries@[b as int].name@);
        base_names.push(nm);
        assert(strings_view(base_names@) =~= before.push(nm@));
        assert(strings_view(base_names@) =~= lib_names_of(base.libraries@.take(b + 1)));
        b += 1;
    }
    assert(base.libraries@.take(base.libraries@.len() as int) =~= base.libraries@);
    let ghost bn = lib_names_of(base.libraries@);
    let mut seen: Vec<String> = Vec::new();
    let mut out: Vec<PlannedLibrary> = Vec::new();
    let mut i: usize = 0;
    while i < cands.len()
        invariant
            i <= cands@.len(),
            cv == cand_view(cands@),
            cv == candidates(*meta),
            bn == lib_names_of(base.libraries@),
            strings_view(base_names@) == bn,
            strings_view(seen@) == Seq::new(i as nat, |k: int| cv[k].0),
            out@.len() == added(cv.take(i as int), bn).len(),
            forall|k: int| 0 <= k < out@.len() ==> planned_matches(#[trigger] out@[k], added(cv.take(i as int), bn)[k]),
        decreases cands@.len() - i,
    {
        assert(cv.take(i + 1).drop_last() =~= cv.take(i as int));
        assert(Seq::new(i as nat, |k: int| cv.take(i + 1)[k].0) =~= Seq::new(i as nat, |k: int| cv[k].0));
        let c = &cands[i];
        let dup = names_contain(&seen, &c.0);
        let in_base = names_contain(&base_names, &c.0);
        let ghost before = strings_view(seen@);
        let nm = c.0.clone();
        assert(nm@ == cv[i as int].0);
        seen.push(nm);
        assert(strings_view(seen@) =~= before.push(nm@));
        assert(strings_view(seen@) =~= Seq::new((i + 1) as nat, |k: int| cv[k].0));
        if !dup && !in_base {
            match maven_artifact(c.0.as_str(), c.1.as_str()) {
                Ok(a) => {
                    let art = RepoArtifact {
                        rel_path: a.rel_path,
                        bases: a.bases,
                        exact_url: a.exact_url,
                        sha1: crate::text::clone_opt_string(&c.2),
                        size: c.3,
                    };
                    out.push(PlannedLibrary { name: c.0.clone(), artifact: art });
                },
                Err(e) => {
                    proof {
                        let want = added(candidates(*meta), bn);
                        lemma_added_prefix(cv, bn, i as int + 1);
                        let t = cv.take(i + 1);
                        assert(t.last() == cv[i as int]);
                        assert(Seq::new((t.len() - 1) as nat, |q: int| t[q].0) =~= before);
                        assert(added(t, bn) == added(cv.take(i as int), bn).push(cv[i as int]));
                        let k = added(t, bn).len() - 1;
                        assert(added(t, bn)[k] == cv[i as int]);
                        assert(added(t, bn).is_prefix_of(want));
                        assert(added(t, bn) =~= want.subrange(0, added(t, bn).len() as int));
                        assert(want[k] == added(t, bn)[k]);
                        assert(coordinate_of(want[k].0) is None);
                    }
                    return Err(e);
                },
            }
        }
        i += 1;
    }
    assert(cv.take(cv.len() as int) =~= cv);
    Ok(out)
}

proof fn lemma_added_prefix(cands: Seq<Candidate>, base: Seq<Seq<char>>, k: int)
    requires
        0 <= k <= cands.len(),
    ensures
        added(cands.take(k), base).is_prefix_of(added(cands, base)),
    decreases cands.len() - k,
{
    if k < cands.len() {
        lemma_added_prefix(cands, base, k + 1);
        let t = cands.take(k + 1);
        assert(t.drop_last() =~= cands.take(k));
        assert(Seq::new((t.len() - 1) as nat, |i: int| t[i].0) =~= Seq::new(k as nat, |i: int| cands.take(k)[i].0));
    } else {
        assert(cands.take(k) =~= cands);
    }
}

/// The vanilla library entry of an added library, once fetched: its path,
/// the digest and size found, and its URL.
pub fn library_entry(p: PlannedLibrary, sha1: String, size: u64) -> (l: OnceLibraries)
    ensures
        l.name == p.name,
        l.rules is None,
        l.classifiers is None,
        l.downloads.artifact.path == p.artifact.rel_path,
        l.downloads.artifact.sha1 == sha1,
        l.downloads.artifact.size == size,
        l.downloads.artifact.url@ == (match p.artifact.exact_url {
            Some(u) => u@,
            None => Seq::empty(),
        }),
{
    let PlannedLibrary { name, artifact } = p;
    let url = match artifact.exact_url {
        Some(u) => u,
        None => String::new(),
    };
    OnceLibraries {
        rules: None,
        downloads: LibrariesDownloads { artifact: Artifact { path: artifact.rel_path, sha1, size, url } },
        classifiers: None,
        name,
    }
}

/// The Fabric patch: the meta's client main class, the added libraries,
/// and for LaunchWrapper versions `--tweakClass <tweaker>`.
pub fn fabric_patch(main_class: &str, libraries: Vec<OnceLibraries>, tweaker: Option<&str>) -> (p: VersionPatch)
    ensures
        p.main_class@ == main_class@,
        p.libraries@ == libraries@,
        p.jvm_args@.len() == 0,
        p.java_major is None,
        match tweaker {
            Some(t) => p.game_args@.len() == 2 && (p.game_args@[0] matches StringOrArgument::String(a)
                && a@ == "--tweakClass"@) && (p.game_args@[1] matches StringOrArgument::String(b) && b@ == t@),
            None => p.game_args@.len() == 0,
        },
{
    let mut game_args: Vec<StringOrArgument> = Vec::new();
    match tweaker {
        Some(t) => {
            game_args.push(StringOrArgument::String("--tweakClass".to_owned()));
            game_args.push(StringOrArgument::String(t.to_owned()));
        },
        None => {},
    }
    VersionPatch { main_class: main_class.to_owned(), libraries, jvm_args: Vec::new(), game_args, java_major: None }
}

} // verus!
