//! Planning the download of a vanilla version: which files, from where
//! (official servers or a mirror), to which place, checked against which
//! digest; and the decisions taken around each file.

use vstd::prelude::*;

use crate::downloader::deserializer::{Artifact, AssetsIndexContent, OnceLibraries, VersionContent};
use crate::platform::{
    classifier_candidates, features_default, native_classifier_candidates, no_features,
    opt_string_view, rules_allow, rules_allow_spec, Platform,
};
use crate::text::{
    chars_of, concat2, concat3, find, find_chars, lemma_find_from_bounds, lemma_find_shift,
    split_once, str_eq, string_of, strings_view,
};

verus! {

/// Kinds of downloaded files.
#[derive(Clone, Copy, PartialEq, Eq, Structural, Debug)]
pub enum TaskKind {
    VersionJson,
    ClientJar,
    Library,
    Native,
    AssetsIndex,
    Logging,
    Asset,
}

/// The phases a download is reported in.
#[derive(Clone, Copy, PartialEq, Eq, Structural, Debug)]
pub enum DownloadPhase {
    VersionJson,
    ClientJar,
    Libraries,
    AssetsIndex,
    Logging,
    Assets,
}

/// A progress report of a download phase.
pub struct DownloadProgress {
    pub version_id: String,
    pub phase: DownloadPhase,
    pub name: String,
    pub index: u64,
    pub count: u64,
    pub bytes_done: u64,
    pub bytes_total: u64,
    pub speed: u64,
    pub finished: bool,
    pub file_bytes_done: u64,
    pub file_size: u64,
    pub reused: bool,
    pub reused_count: u64,
}

/// The report sent when a version's download ends.
pub struct DownloadFinished {
    pub version_id: String,
    pub success: bool,
    pub error: Option<String>,
}

/// The directory a downloaded file's place is relative to.
#[derive(Clone, Copy, PartialEq, Eq, Structural, Debug)]
pub enum DestRoot {
    /// `versions/<dir>` of the instance.
    VersionDir,
    /// `.minecraft/libraries`.
    Libraries,
    /// `.minecraft/assets`.
    Assets,
}

/// Where a file goes: its root, then the path parts joined below it in
/// turn.
pub struct FileDest {
    pub root: DestRoot,
    pub parts: Vec<String>,
}

/// One file to fetch.
pub struct DownloadTask {
    pub kind: TaskKind,
    pub url: String,
    pub dest: FileDest,
    /// The expected SHA-1 (hexadecimal), when known.
    pub sha1: Option<String>,
    pub size: u64,
    /// A second place the file is copied to (legacy virtual assets).
    pub legacy: Option<FileDest>,
}

pub struct DestView {
    pub root: DestRoot,
    pub parts: Seq<Seq<char>>,
}

pub struct TaskView {
    pub kind: TaskKind,
    pub url: Seq<char>,
    pub dest: DestView,
    pub sha1: Option<Seq<char>>,
    pub size: u64,
    pub legacy: Option<DestView>,
}

pub open spec fn dest_view(d: FileDest) -> DestView {
    DestView { root: d.root, parts: strings_view(d.parts@) }
}

pub open spec fn task_view(t: DownloadTask) -> TaskView {
    TaskView {
        kind: t.kind,
        url: t.url@,
        dest: dest_view(t.dest),
        sha1: opt_string_view(t.sha1),
        size: t.size,
        legacy: match t.legacy {
            Some(l) => Some(dest_view(l)),
            None => None,
        },
    }
}

pub open spec fn tasks_view(ts: Seq<DownloadTask>) -> Seq<TaskView> {
    Seq::new(ts.len(), |i: int| task_view(ts[i]))
}

// ---------------------------------------------------------------------------
// Mirror URLs
// ---------------------------------------------------------------------------

/// `s` without its trailing slashes (`trim_end_matches('/')`).
pub open spec fn trim_slashes(s: Seq<char>) -> Seq<char>
    decreases s.len(),
{
    if s.len() > 0 && s.last() == '/' {
        trim_slashes(s.drop_last())
    } else {
        s
    }
}

/// An official URL moved under a mirror prefix: scheme and host are
/// dropped and the path is put after the prefix; a URL without `://` stays
/// as it is.
pub open spec fn rewritten(official: Seq<char>, prefix: Seq<char>) -> Seq<char> {
    match find(official, "://"@) {
        None => official,
        Some(i) => match split_once(official.skip(i + 3), '/') {
            Some((_, path)) => trim_slashes(prefix) + "/"@ + path,
            None => trim_slashes(prefix),
        },
    }
}

pub fn trim_slashes_string(s: &str) -> (r: String)
    ensures
        r@ == trim_slashes(s@),
{
    let v = chars_of(s);
    let mut n = v.len();
    assert(v@.take(n as int) =~= v@);
    while n > 0 && v[n - 1] == '/'
        invariant
            v@ == s@,
            n <= v@.len(),
            trim_slashes(v@.take(n as int)) == trim_slashes(s@),
        decreases n,
    {
        assert(v@.take(n as int).drop_last() =~= v@.take(n - 1));
        n -= 1;
    }
    assert(v@.take(v@.len() as int) =~= v@);
    string_of(&v.as_slice()[0..n])
}

/// Moves an official URL under a mirror prefix.
pub fn rewrite_path(official: &str, prefix: &str) -> (r: String)
    ensures
        r@ == rewritten(official@, prefix@),
{
    proof {
        reveal_strlit("://");
    }
    let v = chars_of(official);
    let sep = [':', '/', '/'];
    assert(sep@ =~= "://"@);
    match find_chars(v.as_slice(), sep.as_slice(), 0, false) {
        None => official.to_owned(),
        Some(i) => {
            proof {
                lemma_find_from_bounds(v@, "://"@, 0, false);
            }
            let ghost rest = v@.skip(i + 3);
            proof {
                lemma_find_shift(v@, seq!['/'], i + 3, 0, false);
                lemma_find_from_bounds(v@, seq!['/'], i + 3, false);
            }
            match crate::text::find_char(v.as_slice(), '/', i + 3) {
                Some(j) => {
                    let path = string_of(&v.as_slice()[j + 1..v.len()]);
                    assert(path@ =~= rest.skip(j - (i + 3) + 1));
                    let p = trim_slashes_string(prefix);
                    concat3(p.as_str(), "/", path.as_str())
                },
                None => trim_slashes_string(prefix),
            }
        },
    }
}

pub open spec fn opt_str(o: Option<&str>) -> Option<Seq<char>> {
    match o {
        Some(s) => Some(s@),
        None => None,
    }
}

/// The URL a file is fetched from: the official one without a mirror (or
/// with an empty one); with a mirror `m` (trailing slashes dropped), the
/// version JSON and client come from `m/version/<id>/json|client`,
/// libraries and natives from `m/maven/…`, the assets index from `m/…`,
/// assets from `m/assets/…`; the logging configuration always from the
/// official URL.
pub open spec fn resolved_url(
    mirror: Option<Seq<char>>,
    kind: TaskKind,
    official: Seq<char>,
    version_id: Seq<char>,
) -> Seq<char> {
    match mirror {
        Some(m0) => if m0.len() == 0 {
            official
        } else {
            let m = trim_slashes(m0);
            match kind {
                TaskKind::VersionJson => m + "/version/"@ + version_id + "/json"@,
                TaskKind::ClientJar => m + "/version/"@ + version_id + "/client"@,
                TaskKind::Library | TaskKind::Native => rewritten(official, m + "/maven"@),
                TaskKind::AssetsIndex => rewritten(official, m),
                TaskKind::Logging => official,
                TaskKind::Asset => rewritten(official, m + "/assets"@),
            }
        },
        None => official,
    }
}

/// The URL a file is fetched from, given the mirror setting.
pub fn resolve_url(mirror: Option<&str>, kind: TaskKind, official: &str, version_id: &str) -> (r: String)
    ensures
        r@ == resolved_url(opt_str(mirror), kind, official@, version_id@),
{
    let m0 = match mirror {
        Some(m) => m,
        None => {
            return official.to_owned();
        },
    };
    if crate::text::is_empty_str(m0) {
        return official.to_owned();
    }
    let m = trim_slashes_string(m0);
    let ms = m.as_str();
    proof {
        assert(trim_slashes(trim_slashes(m0@)) == trim_slashes(m0@)) by {
            lemma_trim_slashes_idem(m0@);
        }
    }
    match kind {
        TaskKind::VersionJson => {
            let mut s = concat3(ms, "/version/", version_id);
            crate::text::push_str(&mut s, "/json");
            s
        },
        TaskKind::ClientJar => {
            let mut s = concat3(ms, "/version/", version_id);
            crate::text::push_str(&mut s, "/client");
            s
        },
        TaskKind::Library | TaskKind::Native => {
            let p = concat2(ms, "/maven");
            rewrite_path(official, p.as_str())
        },
        TaskKind::AssetsIndex => rewrite_path(official, ms),
        TaskKind::Logging => official.to_owned(),
        TaskKind::Asset => {
            let p = concat2(ms, "/assets");
            rewrite_path(official, p.as_str())
        },
    }
}

proof fn lemma_trim_slashes_idem(s: Seq<char>)
    ensures
        trim_slashes(trim_slashes(s)) == trim_slashes(s),
        trim_slashes(s).len() == 0 || trim_slashes(s).last() != '/',
    decreases s.len(),
{
    if s.len() > 0 && s.last() == '/' {
        lemma_trim_slashes_idem(s.drop_last());
    }
}

} // verus!

verus! {

// ---------------------------------------------------------------------------
// The files of a version
// ---------------------------------------------------------------------------

/// Index of the first classifier at or after `k` with the key.
pub open spec fn classifier_index(cls: Seq<(String, Artifact)>, key: Seq<char>, k: int) -> Option<int>
    decreases cls.len() - k,
{
    if k < 0 || k >= cls.len() {
        None
    } else if cls[k].0@ == key {
        Some(k)
    } else {
        classifier_index(cls, key, k + 1)
    }
}

/// The classifier picked for the host: that of the first candidate key
/// the library has.
pub open spec fn picked_native(cands: Seq<Seq<char>>, cls: Seq<(String, Artifact)>) -> Option<int>
    decreases cands.len(),
{
    if cands.len() == 0 {
        None
    } else {
        match classifier_index(cls, cands[0], 0) {
            Some(i) => Some(i),
            None => picked_native(cands.drop_first(), cls),
        }
    }
}

pub open spec fn artifact_task(
    kind: TaskKind,
    a: Artifact,
    mirror: Option<Seq<char>>,
    id: Seq<char>,
) -> TaskView {
    TaskView {
        kind,
        url: resolved_url(mirror, kind, a.url@, id),
        dest: DestView { root: DestRoot::Libraries, parts: seq![a.path@] },
        sha1: Some(a.sha1@),
        size: a.size,
        legacy: None,
    }
}

pub open spec fn opt_rules(r: Option<Vec<crate::downloader::deserializer::Rule>>) -> Option<
    Seq<crate::downloader::deserializer::Rule>,
> {
    match r {
        Some(v) => Some(v@),
        None => None,
    }
}

/// The files of one library: none when its rules exclude it on the host;
/// else its artifact, then the native classifier picked for the host, if
/// any.
pub open spec fn library_tasks(
    lib: OnceLibraries,
    mirror: Option<Seq<char>>,
    id: Seq<char>,
    cands: Seq<Seq<char>>,
    p: &Platform,
) -> Seq<TaskView> {
    if !rules_allow_spec(opt_rules(lib.rules), no_features(), p, true) {
        Seq::empty()
    } else {
        seq![artifact_task(TaskKind::Library, lib.downloads.artifact, mirror, id)] + match lib.classifiers {
            Some(cls) => match picked_native(cands, cls@) {
                Some(i) => seq![artifact_task(TaskKind::Native, cls@[i].1, mirror, id)],
                None => Seq::empty(),
            },
            None => Seq::empty(),
        }
    }
}

pub open spec fn libraries_tasks(
    libs: Seq<OnceLibraries>,
    mirror: Option<Seq<char>>,
    id: Seq<char>,
    cands: Seq<Seq<char>>,
    p: &Platform,
) -> Seq<TaskView>
    decreases libs.len(),
{
    if libs.len() == 0 {
        Seq::empty()
    } else {
        libraries_tasks(libs.drop_last(), mirror, id, cands, p) + library_tasks(
            libs.last(),
            mirror,
            id,
            cands,
            p,
        )
    }
}

/// The files of a version, in order: the client jar, each library's files,
/// the assets index, and the logging configuration. `None` when the version
/// has no client download.
pub open spec fn version_tasks(content: VersionContent, mirror: Option<Seq<char>>, p: &Platform) -> Option<
    Seq<TaskView>,
> {
    let id = content.id@;
    let cands = classifier_candidates(p.os_name@, opt_string_view(p.arch_suffix));
    match content.downloads.client {
        None => None,
        Some(c) => {
            let client = TaskView {
                kind: TaskKind::ClientJar,
                url: resolved_url(mirror, TaskKind::ClientJar, c.url@, id),
                dest: DestView { root: DestRoot::VersionDir, parts: seq![id + ".jar"@] },
                sha1: Some(c.sha1@),
                size: c.size,
                legacy: None,
            };
            let ix = content.assets_index;
            let index = TaskView {
                kind: TaskKind::AssetsIndex,
                url: resolved_url(mirror, TaskKind::AssetsIndex, ix.url@, id),
                dest: DestView { root: DestRoot::Assets, parts: seq!["indexes"@, ix.id@ + ".json"@] },
                sha1: Some(ix.sha1@),
                size: ix.size,
                legacy: None,
            };
            let lf = content.logging.client.file;
            let logging = TaskView {
                kind: TaskKind::Logging,
                url: resolved_url(mirror, TaskKind::Logging, lf.url@, id),
                dest: DestView { root: DestRoot::Assets, parts: seq!["log_configs"@, lf.id@] },
                sha1: Some(lf.sha1@),
                size: lf.size,
                legacy: None,
            };
            Some(seq![client] + libraries_tasks(content.libraries@, mirror, id, cands, p) + seq![
                index,
                logging,
            ])
        },
    }
}

/// Without a mirror (none, or an empty one) every file comes from its
/// official URL; log configurations always do, mirror or not.
pub proof fn official_urls_without_mirror(kind: TaskKind, official: Seq<char>, version_id: Seq<char>, mirror: Seq<char>)
    ensures
        resolved_url(None, kind, official, version_id) == official,
        resolved_url(Some(Seq::empty()), kind, official, version_id) == official,
        resolved_url(Some(mirror), TaskKind::Logging, official, version_id) == official,
{
}

proof fn lemma_rewritten_parts(scheme: Seq<char>, host: Seq<char>, path: Seq<char>, prefix: Seq<char>)
    requires
        !scheme.contains(':'),
        !host.contains('/'),
    ensures
        rewritten(scheme + "://"@ + host + "/"@ + path, prefix) == trim_slashes(prefix) + "/"@ + path,
{
    reveal_strlit("://");
    reveal_strlit("/");
    let official = scheme + "://"@ + host + "/"@ + path;
    let k = scheme.len() as int;
    assert forall|j: int| 0 <= j < 0 + k implies !crate::text::match_at(official, "://"@, j, false) by {
        assert(official[j] == scheme[j]);
        if crate::text::match_at(official, "://"@, j, false) {
            assert(official[j + 0] == "://"@[0]);
            assert(scheme.contains(':'));
        }
    }
    crate::text::lemma_find_skip(official, "://"@, 0, k, false);
    assert(crate::text::match_at(official, "://"@, k, false)) by {
        assert forall|t: int| 0 <= t < 3 implies crate::text::char_eq(#[trigger] official[k + t], "://"@[t], false) by {
            assert(official[k + t] == ("://"@ + host + "/"@ + path)[t]);
        }
    }
    assert(find(official, "://"@) == Some(k));
    let rest = official.skip(k + 3);
    assert(rest =~= host + "/"@ + path);
    let hl = host.len() as int;
    assert forall|j: int| 0 <= j < 0 + hl implies !crate::text::match_at(rest, seq!['/'], j, false) by {
        assert(rest[j] == host[j]);
        if crate::text::match_at(rest, seq!['/'], j, false) {
            assert(rest[j + 0] == seq!['/'][0]);
            assert(host.contains('/'));
        }
    }
    crate::text::lemma_find_skip(rest, seq!['/'], 0, hl, false);
    assert(rest[hl + 0] == '/');
    assert(crate::text::match_at(rest, seq!['/'], hl, false));
    assert(split_once(rest, '/') == Some((rest.take(hl), rest.skip(hl + 1))));
    assert(rest.skip(hl + 1) =~= path);
}

/// With a mirror, an official URL `scheme://host/path` moves under the
/// mirror (its trailing slashes dropped): libraries and natives to
/// `<mirror>/maven/<path>`, asset objects to `<mirror>/assets/<path>`, the
/// assets index to `<mirror>/<path>`; the version file and the client jar
/// come from `<mirror>/version/<id>/json` and `<mirror>/version/<id>/client`.
pub proof fn mirrored_urls(
    mirror: Seq<char>,
    scheme: Seq<char>,
    host: Seq<char>,
    path: Seq<char>,
    version_id: Seq<char>,
)
    requires
        mirror.len() > 0,
        !scheme.contains(':'),
        !host.contains('/'),
    ensures
        ({
            let official = scheme + "://"@ + host + "/"@ + path;
            let m = trim_slashes(mirror);
            &&& resolved_url(Some(mirror), TaskKind::Library, official, version_id) == m + "/maven/"@ + path
            &&& resolved_url(Some(mirror), TaskKind::Native, official, version_id) == m + "/maven/"@ + path
            &&& resolved_url(Some(mirror), TaskKind::Asset, official, version_id) == m + "/assets/"@ + path
            &&& resolved_url(Some(mirror), TaskKind::AssetsIndex, official, version_id) == m + "/"@ + path
            &&& resolved_url(Some(mirror), TaskKind::VersionJson, official, version_id) == m + "/version/"@
                + version_id + "/json"@
            &&& resolved_url(Some(mirror), TaskKind::ClientJar, official, version_id) == m + "/version/"@
                + version_id + "/client"@
        }),
{
    reveal_strlit("/maven");
    reveal_strlit("/maven/");
    reveal_strlit("/assets");
    reveal_strlit("/assets/");
    reveal_strlit("/");
    let m = trim_slashes(mirror);
    lemma_trim_slashes_idem(mirror);
    lemma_rewritten_parts(scheme, host, path, m + "/maven"@);
    lemma_rewritten_parts(scheme, host, path, m + "/assets"@);
    lemma_rewritten_parts(scheme, host, path, m);
    assert(trim_slashes(m + "/maven"@) == m + "/maven"@) by {
        assert((m + "/maven"@).last() == 'n');
    }
    assert(trim_slashes(m + "/assets"@) == m + "/assets"@) by {
        assert((m + "/assets"@).last() == 's');
    }
    assert(m + "/maven"@ + "/"@ + path =~= m + "/maven/"@ + path);
    assert(m + "/assets"@ + "/"@ + path =~= m + "/assets/"@ + path);
}

/// Error of `build_tasks`: the version offers no client download.
#[derive(Debug)]
pub struct MissingClient;

fn dest_of(root: DestRoot, parts: Vec<String>) -> (d: FileDest)
    ensures
        d.root == root,
        d.parts@ == parts@,
{
    FileDest { root, parts }
}

fn one(s: String) -> (v: Vec<String>)
    ensures
        strings_view(v@) == seq![s@],
{
    let mut v: Vec<String> = Vec::new();
    v.push(s);
    assert(strings_view(v@) =~= seq![s@]);
    v
}

fn two(a: String, b: String) -> (v: Vec<String>)
    ensures
        strings_view(v@) == seq![a@, b@],
{
    let mut v: Vec<String> = Vec::new();
    v.push(a);
    v.push(b);
    assert(strings_view(v@) =~= seq![a@, b@]);
    v
}

fn make_artifact_task(kind: TaskKind, a: &Artifact, mirror: Option<&str>, id: &str) -> (t: DownloadTask)
    ensures
        task_view(t) == artifact_task(kind, *a, opt_str(mirror), id@),
{
    let t = DownloadTask {
        kind,
        url: resolve_url(mirror, kind, a.url.as_str(), id),
        dest: dest_of(DestRoot::Libraries, one(a.path.clone())),
        sha1: Some(a.sha1.clone()),
        size: a.size,
        legacy: None,
    };
    t
}

fn find_classifier(cls: &[(String, Artifact)], key: &str) -> (r: Option<usize>)
    ensures
        match r {
            Some(i) => classifier_index(cls@, key@, 0) == Some(i as int),
            None => classifier_index(cls@, key@, 0) is None,
        },
{
    let mut k: usize = 0;
    while k < cls.len()
        invariant
            k <= cls@.len(),
            classifier_index(cls@, key@, 0) == classifier_index(cls@, key@, k as int),
        decreases cls@.len() - k,
    {
        if str_eq(cls[k].0.as_str(), key) {
            return Some(k);
        }
        k += 1;
    }
    None
}

proof fn lemma_classifier_index_bounds(cls: Seq<(String, Artifact)>, key: Seq<char>, k: int)
    ensures
        classifier_index(cls, key, k) matches Some(i) ==> k <= i < cls.len() && cls[i].0@ == key,
    decreases cls.len() - k,
{
    if 0 <= k < cls.len() && cls[k].0@ != key {
        lemma_classifier_index_bounds(cls, key, k + 1);
    }
}

pub proof fn lemma_picked_native_in_range(cands: Seq<Seq<char>>, cls: Seq<(String, Artifact)>)
    ensures
        picked_native(cands, cls) matches Some(i) ==> 0 <= i < cls.len(),
    decreases cands.len(),
{
    if cands.len() > 0 {
        lemma_classifier_index_bounds(cls, cands[0], 0);
        lemma_picked_native_in_range(cands.drop_first(), cls);
    }
}

pub fn pick_native_index(cands: &[String], cls: &[(String, Artifact)]) -> (r: Option<usize>)
    ensures
        match r {
            Some(i) => picked_native(strings_view(cands@), cls@) == Some(i as int) && i < cls@.len(),
            None => picked_native(strings_view(cands@), cls@) is None,
        },
{
    proof {
        lemma_picked_native_in_range(strings_view(cands@), cls@);
    }
    let mut j: usize = 0;
    assert(strings_view(cands@).skip(0) =~= strings_view(cands@));
    while j < cands.len()
        invariant
            j <= cands@.len(),
            picked_native(strings_view(cands@), cls@) == picked_native(
                strings_view(cands@).skip(j as int),
                cls@,
            ),
        decreases cands@.len() - j,
    {
        assert(strings_view(cands@).skip(j as int).drop_first() =~= strings_view(cands@).skip(
            j + 1,
        ));
        assert(strings_view(cands@).skip(j as int)[0] == cands@[j as int]@);
        match find_classifier(cls, cands[j].as_str()) {
            Some(i) => {
                proof {
                    lemma_classifier_index_bounds(cls@, cands@[j as int]@, 0);
                }
                return Some(i);
            },
            None => {},
        }
        j += 1;
    }
    None
}

/// Lists the files of a version (see `version_tasks`), with URLs for the
/// mirror setting and natives picked for the host.
pub fn build_tasks(content: &VersionContent, mirror: Option<&str>, platform: &Platform) -> (r: Result<
    Vec<DownloadTask>,
    MissingClient,
>)
    ensures
        match r {
            Ok(ts) => version_tasks(*content, opt_str(mirror), platform) == Some(tasks_view(ts@)),
            Err(_) => version_tasks(*content, opt_str(mirror), platform) is None,
        },
{
    let client = match &content.downloads.client {
        Some(c) => c,
        None => {
            return Err(MissingClient);
        },
    };
    let id = content.id.as_str();
    let cands = native_classifier_candidates(platform);
    let ghost cv = strings_view(cands@);
    let mut tasks: Vec<DownloadTask> = Vec::new();
    tasks.push(
        DownloadTask {
            kind: TaskKind::ClientJar,
            url: resolve_url(mirror, TaskKind::ClientJar, client.url.as_str(), id),
            dest: dest_of(DestRoot::VersionDir, one(concat2(id, ".jar"))),
            sha1: Some(client.sha1.clone()),
            size: client.size,
            legacy: None,
        },
    );
    let ghost head = tasks_view(tasks@);
    let ghost mv = opt_str(mirror);
    assert(head =~= seq![
        TaskView {
            kind: TaskKind::ClientJar,
            url: resolved_url(mv, TaskKind::ClientJar, client.url@, id@),
            dest: DestView { root: DestRoot::VersionDir, parts: seq![id@ + ".jar"@] },
            sha1: Some(client.sha1@),
            size: client.size,
            legacy: None,
        },
    ]);
    let libs = &content.libraries;
    let none = features_default();
    let mut i: usize = 0;
    while i < libs.len()
        invariant
            i <= libs@.len(),
            none == no_features(),
            cv == strings_view(cands@),
            cv == classifier_candidates(platform.os_name@, opt_string_view(platform.arch_suffix)),
            head.len() == 1,
            tasks_view(tasks@) == head + libraries_tasks(libs@.take(i as int), opt_str(mirror), id@, cv, platform),
        decreases libs@.len() - i,
    {
        assert(libs@.take(i + 1).drop_last() =~= libs@.take(i as int));
        let lib = &libs[i];
        let ghost before = tasks_view(tasks@);
        let rules = match &lib.rules {
            Some(r) => Some(r.as_slice()),
            None => None,
        };
        if rules_allow(rules, &none, true, platform) {
            tasks.push(make_artifact_task(TaskKind::Library, &lib.downloads.artifact, mirror, id));
            match &lib.classifiers {
                Some(cls) => {
                    match pick_native_index(cands.as_slice(), cls.as_slice()) {
                        Some(k) => {
                            tasks.push(make_artifact_task(TaskKind::Native, &cls[k].1, mirror, id));
                        },
                        None => {},
                    }
                },
                None => {},
            }
            assert(tasks_view(tasks@) =~= before + library_tasks(*lib, opt_str(mirror), id@, cv, platform));
        } else {
            assert(tasks_view(tasks@) =~= before + library_tasks(*lib, opt_str(mirror), id@, cv, platform));
        }
        i += 1;
    }
    assert(libs@.take(libs@.len() as int) =~= libs@);
    let ghost mid = tasks_view(tasks@);
    let ix = &content.assets_index;
    tasks.push(
        DownloadTask {
            kind: TaskKind::AssetsIndex,
            url: resolve_url(mirror, TaskKind::AssetsIndex, ix.url.as_str(), id),
            dest: dest_of(DestRoot::Assets, two("indexes".to_owned(), concat2(ix.id.as_str(), ".json"))),
            sha1: Some(ix.sha1.clone()),
            size: ix.size,
            legacy: None,
        },
    );
    let lf = &content.logging.client.file;
    tasks.push(
        DownloadTask {
            kind: TaskKind::Logging,
            url: resolve_url(mirror, TaskKind::Logging, lf.url.as_str(), id),
            dest: dest_of(DestRoot::Assets, two("log_configs".to_owned(), lf.id.clone())),
            sha1: Some(lf.sha1.clone()),
            size: lf.size,
            legacy: None,
        },
    );
    let ghost iv = TaskView {
        kind: TaskKind::AssetsIndex,
        url: resolved_url(mv, TaskKind::AssetsIndex, ix.url@, id@),
        dest: DestView { root: DestRoot::Assets, parts: seq!["indexes"@, ix.id@ + ".json"@] },
        sha1: Some(ix.sha1@),
        size: ix.size,
        legacy: None,
    };
    let ghost lv = TaskView {
        kind: TaskKind::Logging,
        url: resolved_url(mv, TaskKind::Logging, lf.url@, id@),
        dest: DestView { root: DestRoot::Assets, parts: seq!["log_configs"@, lf.id@] },
        sha1: Some(lf.sha1@),
        size: lf.size,
        legacy: None,
    };
    assert(task_view(tasks@[tasks@.len() - 2]) == iv);
    assert(task_view(tasks@[tasks@.len() - 1]) == lv);
    assert(tasks_view(tasks@) =~= mid + seq![iv, lv]);
    assert(tasks_view(tasks@) =~= version_tasks(*content, opt_str(mirror), platform).unwrap());
    Ok(tasks)
}

} // verus!

verus! {

// ---------------------------------------------------------------------------
// Phases, assets and per-file decisions
// ---------------------------------------------------------------------------

pub open spec fn of_kinds(ts: Seq<TaskView>, a: TaskKind, b: TaskKind) -> Seq<TaskView>
    decreases ts.len(),
{
    if ts.len() == 0 {
        Seq::empty()
    } else if ts.last().kind == a || ts.last().kind == b {
        of_kinds(ts.drop_last(), a, b).push(ts.last())
    } else {
        of_kinds(ts.drop_last(), a, b)
    }
}

/// The tasks of each phase, in their order: client jar, libraries (with
/// natives), assets index, logging configuration. Other kinds are dropped.
pub struct Phases {
    pub clients: Vec<DownloadTask>,
    pub libraries: Vec<DownloadTask>,
    pub indexes: Vec<DownloadTask>,
    pub loggings: Vec<DownloadTask>,
}

/// Sorts tasks into their phases, keeping their order within each.
pub fn partition_tasks(tasks: Vec<DownloadTask>) -> (r: Phases)
    ensures
        tasks_view(r.clients@) == of_kinds(tasks_view(tasks@), TaskKind::ClientJar, TaskKind::ClientJar),
        tasks_view(r.libraries@) == of_kinds(tasks_view(tasks@), TaskKind::Library, TaskKind::Native),
        tasks_view(r.indexes@) == of_kinds(tasks_view(tasks@), TaskKind::AssetsIndex, TaskKind::AssetsIndex),
        tasks_view(r.loggings@) == of_kinds(tasks_view(tasks@), TaskKind::Logging, TaskKind::Logging),
{
    let ghost all = tasks_view(tasks@);
    let mut r = Phases { clients: Vec::new(), libraries: Vec::new(), indexes: Vec::new(), loggings: Vec::new() };
    for t in it: tasks
        invariant
            all == tasks_view(it.seq()),
            tasks_view(r.clients@) == of_kinds(all.take(it.index() as int), TaskKind::ClientJar, TaskKind::ClientJar),
            tasks_view(r.libraries@) == of_kinds(all.take(it.index() as int), TaskKind::Library, TaskKind::Native),
            tasks_view(r.indexes@) == of_kinds(all.take(it.index() as int), TaskKind::AssetsIndex, TaskKind::AssetsIndex),
            tasks_view(r.loggings@) == of_kinds(all.take(it.index() as int), TaskKind::Logging, TaskKind::Logging),
    {
        let ghost k = it.index() as int;
        assert(all.take(k + 1).drop_last() =~= all.take(k));
        assert(all.take(k + 1).last() == task_view(t));
        let ghost c0 = tasks_view(r.clients@);
        let ghost l0 = tasks_view(r.libraries@);
        let ghost i0 = tasks_view(r.indexes@);
        let ghost g0 = tasks_view(r.loggings@);
        match t.kind {
            TaskKind::ClientJar => {
                r.clients.push(t);
                assert(tasks_view(r.clients@) =~= c0.push(all[k]));
            },
            TaskKind::Library | TaskKind::Native => {
                r.libraries.push(t);
                assert(tasks_view(r.libraries@) =~= l0.push(all[k]));
            },
            TaskKind::AssetsIndex => {
                r.indexes.push(t);
                assert(tasks_view(r.indexes@) =~= i0.push(all[k]));
            },
            TaskKind::Logging => {
                r.loggings.push(t);
                assert(tasks_view(r.loggings@) =~= g0.push(all[k]));
            },
            _ => {},
        }
    }
    assert(all.take(all.len() as int) =~= all);
    r
}

pub open spec fn sizes_sum(ts: Seq<DownloadTask>) -> int
    decreases ts.len(),
{
    if ts.len() == 0 {
        0
    } else {
        sizes_sum(ts.drop_last()) + ts.last().size
    }
}

/// The bytes a phase downloads in all, or `None` when the sum does not fit
/// in a `u64`.
pub fn phase_bytes_total(tasks: &[DownloadTask]) -> (r: Option<u64>)
    ensures
        match r {
            Some(s) => s == sizes_sum(tasks@),
            None => sizes_sum(tasks@) > u64::MAX,
        },
{
    let mut total: u64 = 0;
    let mut i: usize = 0;
    while i < tasks.len()
        invariant
            i <= tasks@.len(),
            total == sizes_sum(tasks@.take(i as int)),
        decreases tasks@.len() - i,
    {
        assert(tasks@.take(i + 1).drop_last() =~= tasks@.take(i as int));
        match total.checked_add(tasks[i].size) {
            Some(t) => {
                total = t;
            },
            None => {
                proof {
                    lemma_sizes_sum_prefix(tasks@, i + 1);
                }
                return None;
            },
        }
        i += 1;
    }
    assert(tasks@.take(tasks@.len() as int) =~= tasks@);
    Some(total)
}

proof fn lemma_sizes_sum_prefix(ts: Seq<DownloadTask>, k: int)
    requires
        0 <= k <= ts.len(),
    ensures
        sizes_sum(ts) >= sizes_sum(ts.take(k)),
    decreases ts.len() - k,
{
    if k < ts.len() {
        lemma_sizes_sum_prefix(ts, k + 1);
        assert(ts.take(k + 1).drop_last() =~= ts.take(k));
    } else {
        assert(ts.take(k) =~= ts);
    }
}

/// A hash usable as an object name: at least two characters, the first
/// two ASCII (the first two form the object's directory).
pub open spec fn object_hash_ok(h: Seq<char>) -> bool {
    h.len() >= 2 && (h[0] as u32) < 128 && (h[1] as u32) < 128
}

/// The download of one asset object: `<base><hh>/<hash>` to
/// `objects/<hh>/<hash>`, checked against its hash, and copied to
/// `virtual/legacy/<path>` when the index is virtual.
pub open spec fn asset_task(path: Seq<char>, hash: Seq<char>, size: u64, base: Seq<char>, virtual_: bool) -> TaskView {
    TaskView {
        kind: TaskKind::Asset,
        url: base + hash.take(2) + "/"@ + hash,
        dest: DestView { root: DestRoot::Assets, parts: seq!["objects"@, hash.take(2), hash] },
        sha1: Some(hash),
        size,
        legacy: if virtual_ {
            Some(DestView { root: DestRoot::Assets, parts: seq!["virtual"@, "legacy"@, path] })
        } else {
            None
        },
    }
}

pub open spec fn asset_tasks_spec(objs: Seq<(String, crate::downloader::deserializer::AssetObject)>, base: Seq<char>, virtual_: bool) -> Seq<TaskView> {
    Seq::new(objs.len(), |i: int| asset_task(objs[i].0@, objs[i].1.hash@, objs[i].1.size, base, virtual_))
}

fn three(a: String, b: String, c: String) -> (v: Vec<String>)
    ensures
        strings_view(v@) == seq![a@, b@, c@],
{
    let mut v: Vec<String> = Vec::new();
    v.push(a);
    v.push(b);
    v.push(c);
    assert(strings_view(v@) =~= seq![a@, b@, c@]);
    v
}

/// The downloads of every object of an assets index, fetched from
/// `resources_base` (the resources server, ending in `/`).
pub fn asset_tasks(index: &AssetsIndexContent, resources_base: &str) -> (r: Vec<DownloadTask>)
    requires
        forall|i: int| 0 <= i < index.objects@.len() ==> object_hash_ok(#[trigger] index.objects@[i].1.hash@),
    ensures
        tasks_view(r@) == asset_tasks_spec(index.objects@, resources_base@, index.virtual_),
{
    let objs = &index.objects;
    let mut out: Vec<DownloadTask> = Vec::new();
    let mut i: usize = 0;
    while i < objs.len()
        invariant
            i <= objs@.len(),
            objs@ == index.objects@,
            out@.len() == i,
            forall|k: int| 0 <= k < objs@.len() ==> object_hash_ok(#[trigger] objs@[k].1.hash@),
            tasks_view(out@) == asset_tasks_spec(objs@.take(i as int), resources_base@, index.virtual_),
        decreases objs@.len() - i,
    {
        let (path, obj) = (&objs[i].0, &objs[i].1);
        let hv = chars_of(obj.hash.as_str());
        assert(object_hash_ok(objs@[i as int].1.hash@));
        let h2 = string_of(&hv.as_slice()[0..2]);
        assert(h2@ =~= obj.hash@.take(2));
        let mut url = concat3(resources_base, h2.as_str(), "/");
        crate::text::push_str(&mut url, obj.hash.as_str());
        assert(url@ =~= resources_base@ + objs@[i as int].1.hash@.take(2) + "/"@ + objs@[i as int].1.hash@);
        let legacy = if index.virtual_ {
            Some(dest_of(DestRoot::Assets, three("virtual".to_owned(), "legacy".to_owned(), path.clone())))
        } else {
            None
        };
        let ghost before = tasks_view(out@);
        out.push(
            DownloadTask {
                kind: TaskKind::Asset,
                url,
                dest: dest_of(DestRoot::Assets, three("objects".to_owned(), h2, obj.hash.clone())),
                sha1: Some(obj.hash.clone()),
                size: obj.size,
                legacy,
            },
        );
        let ghost want = asset_task(
            objs@[i as int].0@,
            objs@[i as int].1.hash@,
            objs@[i as int].1.size,
            resources_base@,
            index.virtual_,
        );
        assert(task_view(out@[i as int]).url == want.url);
        assert(task_view(out@[i as int]).dest == want.dest);
        assert(task_view(out@[i as int]).legacy == want.legacy);
        assert(task_view(out@[i as int]) == want);
        assert(tasks_view(out@) =~= before.push(want));
        assert(tasks_view(out@) =~= asset_tasks_spec(objs@.take(i + 1), resources_base@, index.virtual_));
        i += 1;
    }
    assert(objs@.take(objs@.len() as int) =~= objs@);
    out
}

/// Whether a throttled progress report goes out at `now_ms`: at least
/// 150 ms after the last one.
pub fn should_emit(now_ms: u64, last_emit_ms: u64) -> (b: bool)
    ensures
        b == (now_ms >= last_emit_ms && now_ms - last_emit_ms >= 150),
{
    now_ms >= last_emit_ms && now_ms - last_emit_ms >= 150
}

/// Whether a file on disk can be reused, judged by existence and size
/// alone (its contents are never read to hash them): a missing file is
/// fetched again; without an expected size an existing file is reused;
/// otherwise it is reused exactly when its size is the expected one.
pub fn file_valid(exists: bool, actual_size: Option<u64>, expected_size: Option<u64>) -> (b: bool)
    ensures
        b == (exists && match expected_size {
            None => true,
            Some(size) => actual_size == Some(size),
        }),
{
    crate::loader::download::artifact_reusable(exists, actual_size, expected_size)
}

/// The URL of a version's `<version>.json` in the manifest: that of the
/// first entry with the id.
pub fn find_version_url(manifest: &crate::downloader::deserializer::VersionManifest, version_id: &str) -> (r: Option<String>)
    ensures
        match r {
            Some(u) => exists|i: int|
                0 <= i < manifest.versions@.len() && (#[trigger] manifest.versions@[i]).id@ == version_id@
                    && u@ == manifest.versions@[i].url@ && forall|j: int|
                    0 <= j < i ==> manifest.versions@[j].id@ != version_id@,
            None => forall|i: int| 0 <= i < manifest.versions@.len() ==> (#[trigger] manifest.versions@[i]).id@ != version_id@,
        },
{
    let vs = &manifest.versions;
    let mut i: usize = 0;
    while i < vs.len()
        invariant
            i <= vs@.len(),
            vs@ == manifest.versions@,
            forall|j: int| 0 <= j < i ==> (#[trigger] vs@[j]).id@ != version_id@,
        decreases vs@.len() - i,
    {
        if str_eq(vs[i].id.as_str(), version_id) {
            assert(manifest.versions@[i as int].id@ == version_id@);
            let u = vs[i].url.clone();
            assert(u@ == manifest.versions@[i as int].url@);
            return Some(u);
        }
        i += 1;
    }
    None
}

} // verus!
