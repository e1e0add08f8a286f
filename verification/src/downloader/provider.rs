//! The catalogue of Minecraft versions, filtered by kind and handed out a
//! page at a time.

use vstd::prelude::*;

use crate::downloader::deserializer::{LatestVersion, SingleVersion, VersionManifest, FOOL_VERSIONS};
use crate::text::str_eq;

verus! {

/// The version manifest once it has been loaded.
pub struct VersionManifestProvider {
    pub ver: Option<VersionManifest>,
}

impl VersionManifestProvider {
    /// A provider with nothing loaded yet.
    pub fn default() -> (p: Self)
        ensures
            p.ver is None,
    {
        VersionManifestProvider { ver: None }
    }
}

/// Which versions a page lists.
#[allow(non_camel_case_types)]
#[derive(Clone, Copy, Debug, PartialEq, Eq, Structural)]
pub enum VersionMode {
    ALL,
    RELEASE,
    SNAPSHOT,
    /// April Fools' releases.
    FOOL,
}

/// One page of the version catalogue.
pub struct VersionPage {
    pub latest: LatestVersion,
    /// The versions of this page.
    pub versions: Vec<SingleVersion>,
    /// This page's number, from 1.
    pub page: u32,
    /// Versions per page.
    pub size: u32,
    /// Versions of the chosen kind in all.
    pub total: usize,
    /// Number of pages (0 when no version is of the kind).
    pub total_pages: u32,
    /// Whether a later page exists.
    pub has_more: bool,
}

/// Whether `id` is one of the April Fools' releases.
pub open spec fn is_fool_id(id: Seq<char>) -> bool {
    exists|i: int| 0 <= i < 9 && (#[trigger] FOOL_VERSIONS[i])@ == id
}

/// Whether `id` names an April Fools' release.
pub fn is_fool_version(id: &str) -> (b: bool)
    ensures
        b == is_fool_id(id@),
{
    let list = FOOL_VERSIONS;
    let mut i: usize = 0;
    while i < 9
        invariant
            i <= 9,
            list == FOOL_VERSIONS,
            forall|k: int| 0 <= k < i ==> (#[trigger] FOOL_VERSIONS[k])@ != id@,
        decreases 9 - i,
    {
        if str_eq(list[i], id) {
            return true;
        }
        i += 1;
    }
    false
}

/// Whether a version is of the kind: any for `ALL`; releases for
/// `RELEASE`; snapshots for `SNAPSHOT`; for `FOOL`, snapshots whose id is
/// exactly one of the April Fools' releases.
pub open spec fn in_mode(v: SingleVersion, mode: VersionMode) -> bool {
    match mode {
        VersionMode::ALL => true,
        VersionMode::RELEASE => v.version_type@ == "release"@,
        VersionMode::SNAPSHOT => v.version_type@ == "snapshot"@,
        VersionMode::FOOL => v.version_type@ == "snapshot"@ && is_fool_id(v.id@),
    }
}

fn matches_mode(v: &SingleVersion, mode: VersionMode) -> (b: bool)
    ensures
        b == in_mode(*v, mode),
{
    match mode {
        VersionMode::ALL => true,
        VersionMode::RELEASE => str_eq(v.version_type.as_str(), "release"),
        VersionMode::SNAPSHOT => str_eq(v.version_type.as_str(), "snapshot"),
        VersionMode::FOOL => str_eq(v.version_type.as_str(), "snapshot") && is_fool_version(
            v.id.as_str(),
        ),
    }
}

/// The versions of the kind, in manifest order.
pub open spec fn of_mode(vs: Seq<SingleVersion>, mode: VersionMode) -> Seq<SingleVersion>
    decreases vs.len(),
{
    if vs.len() == 0 {
        vs
    } else if in_mode(vs.last(), mode) {
        of_mode(vs.drop_last(), mode).push(vs.last())
    } else {
        of_mode(vs.drop_last(), mode)
    }
}

/// The number of pages of `len` versions, `size` a page: rounded up, at
/// most `u32::MAX`, and 0 when there are none.
pub open spec fn page_count(len: int, size: int) -> int {
    if len == 0 {
        0
    } else if (len + size - 1) / size > u32::MAX {
        u32::MAX as int
    } else {
        (len + size - 1) / size
    }
}

/// The versions on page `page` (from 1) of `size` versions each: empty
/// past the last page.
pub open spec fn page_slice(vs: Seq<SingleVersion>, size: int, page: int) -> Seq<SingleVersion> {
    let start = (page - 1) * size;
    if start >= vs.len() {
        Seq::empty()
    } else if start + size > vs.len() {
        vs.subrange(start, vs.len() as int)
    } else {
        vs.subrange(start, start + size)
    }
}

/// Error of `page_versions`: the size or page is 0.
#[derive(Debug)]
pub struct BadPageRequest;

/// One page of the versions of a kind. The page after the last is empty,
/// with no more to come.
pub fn page_versions(manifest: &VersionManifest, size_u: u32, page_u: u32, mode: VersionMode) -> (r: Result<
    VersionPage,
    BadPageRequest,
>)
    ensures
        match r {
            Err(_) => size_u == 0 || page_u == 0,
            Ok(p) => {
                let all = of_mode(manifest.versions@, mode);
                &&& size_u > 0 && page_u > 0
                &&& p.latest == manifest.latest
                &&& p.versions@ == page_slice(all, size_u as int, page_u as int)
                &&& p.page == page_u
                &&& p.size == size_u
                &&& p.total == all.len()
                &&& p.total_pages == page_count(all.len() as int, size_u as int)
                &&& p.has_more == ((page_u - 1) * size_u < all.len() && page_u < p.total_pages)
            },
        },
{
    if size_u == 0 || page_u == 0 {
        return Err(BadPageRequest);
    }
    let vs = &manifest.versions;
    let mut filtered: Vec<SingleVersion> = Vec::new();
    let mut i: usize = 0;
    while i < vs.len()
        invariant
            i <= vs@.len(),
            vs@ == manifest.versions@,
            filtered@ == of_mode(vs@.take(i as int), mode),
        decreases vs@.len() - i,
    {
        assert(vs@.take(i + 1).drop_last() =~= vs@.take(i as int));
        if matches_mode(&vs[i], mode) {
            filtered.push(vs[i].clone());
        }
        i += 1;
    }
    assert(vs@.take(vs@.len() as int) =~= vs@);
    let len: usize = filtered.len();
    let total_pages: u32 = if len == 0 {
        0
    } else {
        let pages: u128 = (len as u128 + size_u as u128 - 1) / size_u as u128;
        if pages > u32::MAX as u128 {
            u32::MAX
        } else {
            pages as u32
        }
    };
    let pm1: u128 = page_u as u128 - 1;
    let sz: u128 = size_u as u128;
    assert(pm1 * sz <= 0xffff_ffff * 0xffff_ffff) by (nonlinear_arith)
        requires
            pm1 <= 0xffff_ffff,
            sz <= 0xffff_ffff,
    ;
    let start_wide: u128 = pm1 * sz;
    if start_wide >= len as u128 {
        return Ok(
            VersionPage {
                latest: manifest.latest.clone(),
                versions: Vec::new(),
                page: page_u,
                size: size_u,
                total: len,
                total_pages,
                has_more: false,
            },
        );
    }
    let start: u64 = start_wide as u64;
    let end: u64 = if start + size_u as u64 > len as u64 {
        len as u64
    } else {
        start + size_u as u64
    };
    let mut page: Vec<SingleVersion> = Vec::new();
    let mut k: usize = start as usize;
    while k < end as usize
        invariant
            start <= k <= end <= len,
            len == filtered@.len(),
            page@ == filtered@.subrange(start as int, k as int),
        decreases end - k,
    {
        page.push(filtered[k].clone());
        assert(page@ =~= filtered@.subrange(start as int, k + 1));
        k += 1;
    }
    Ok(
        VersionPage {
            latest: manifest.latest.clone(),
            versions: page,
            page: page_u,
            size: size_u,
            total: len,
            total_pages,
            has_more: page_u < total_pages,
        },
    )
}

} // verus!

verus! {

/// Paging loses nothing: the version at position `i` of the chosen kind is
/// on page `i / size + 1`, at position `i % size`.
pub proof fn every_version_on_its_page(vs: Seq<SingleVersion>, size: int, i: int)
    requires
        size > 0,
        0 <= i < vs.len(),
    ensures
        page_slice(vs, size, i / size + 1).len() > i % size,
        page_slice(vs, size, i / size + 1)[i % size] == vs[i],
{
    let q = i / size;
    let r = i % size;
    assert(q * size + r == i && 0 <= r < size) by (nonlinear_arith)
        requires
            size > 0,
            q == i / size,
            r == i % size,
    ;
    assert((i / size + 1 - 1) * size == q * size);
}

/// A page holds at most `size` versions, and the page after the last
/// (and any later one) is empty.
pub proof fn pages_are_bounded(vs: Seq<SingleVersion>, size: int, page: int)
    requires
        size > 0,
        page >= 1,
    ensures
        page_slice(vs, size, page).len() <= size,
        (page - 1) * size >= vs.len() ==> page_slice(vs, size, page).len() == 0,
{
}

/// Paging repeats nothing: slot `j` of page `page` holds the version at
/// position `(page - 1) * size + j` of the chosen kind, so distinct slots
/// of distinct pages hold distinct positions.
pub proof fn page_slot_is_one_position(vs: Seq<SingleVersion>, size: int, page: int, j: int)
    requires
        size > 0,
        page >= 1,
        0 <= j < page_slice(vs, size, page).len(),
    ensures
        (page - 1) * size + j < vs.len(),
        j < size,
        page_slice(vs, size, page)[j] == vs[(page - 1) * size + j],
{
}

/// Pages 1 to `k`, one after the other.
pub open spec fn pages_through(vs: Seq<SingleVersion>, size: int, k: int) -> Seq<SingleVersion>
    decreases k,
{
    if k <= 0 {
        Seq::empty()
    } else {
        pages_through(vs, size, k - 1) + page_slice(vs, size, k)
    }
}

proof fn lemma_pages_through_prefix(vs: Seq<SingleVersion>, size: int, k: int)
    requires
        size > 0,
        k >= 0,
    ensures
        pages_through(vs, size, k) == vs.take(if k * size < vs.len() { k * size } else { vs.len() as int }),
    decreases k,
{
    if k == 0 {
        assert(k * size == 0) by (nonlinear_arith)
            requires
                k == 0,
        ;
        assert(vs.take(0) =~= Seq::<SingleVersion>::empty());
    } else {
        lemma_pages_through_prefix(vs, size, k - 1);
        let start = (k - 1) * size;
        assert(start + size == k * size) by (nonlinear_arith)
            requires
                start == (k - 1) * size,
        ;
        assert(start >= 0) by (nonlinear_arith)
            requires
                start == (k - 1) * size,
                k >= 1,
                size > 0,
        ;
        let prev = pages_through(vs, size, k - 1);
        assert(pages_through(vs, size, k) == prev + page_slice(vs, size, k));
        if start >= vs.len() {
            assert(prev == vs.take(vs.len() as int));
            assert(page_slice(vs, size, k) =~= Seq::<SingleVersion>::empty());
            assert(pages_through(vs, size, k) =~= vs.take(vs.len() as int));
            assert(!(k * size < vs.len()));
        } else if start + size > vs.len() {
            assert(prev == vs.take(start));
            assert(page_slice(vs, size, k) == vs.subrange(start, vs.len() as int));
            assert(pages_through(vs, size, k) =~= vs.take(vs.len() as int));
            assert(!(k * size < vs.len()));
        } else {
            assert(prev == vs.take(start));
            assert(page_slice(vs, size, k) == vs.subrange(start, start + size));
            assert(pages_through(vs, size, k) =~= vs.take(k * size));
        }
    }
}

/// The pages, from the first to the last (`total_pages` of them), put one
/// after the other give back every version of the chosen kind, in order.
/// (The count of pages is capped at `u32::MAX`; the law is stated for
/// lists short enough that the cap is never reached.)
pub proof fn pages_concatenate_to_all(vs: Seq<SingleVersion>, size: int)
    requires
        size > 0,
        vs.len() <= u32::MAX,
    ensures
        pages_through(vs, size, page_count(vs.len() as int, size)) == vs,
{
    let len = vs.len() as int;
    if len == 0 {
        assert(vs =~= Seq::<SingleVersion>::empty());
    } else {
        let k = (len + size - 1) / size;
        assert(k * size >= len && 0 <= k <= len) by (nonlinear_arith)
            requires
                size > 0,
                len > 0,
                k == (len + size - 1) / size,
        ;
        assert(page_count(len, size) == k);
        lemma_pages_through_prefix(vs, size, k);
        assert(vs.take(len) =~= vs);
    }
}

proof fn lemma_of_mode_filter(vs: Seq<SingleVersion>, mode: VersionMode, pred: spec_fn(SingleVersion) -> bool)
    requires
        forall|v: SingleVersion| #[trigger] in_mode(v, mode) == pred(v),
    ensures
        of_mode(vs, mode) == vs.filter(pred),
    decreases vs.len(),
{
    reveal(Seq::filter);
    if vs.len() > 0 {
        lemma_of_mode_filter(vs.drop_last(), mode, pred);
        assert(in_mode(vs.last(), mode) == pred(vs.last()));
    }
}

/// The versions of a kind are exactly those of the catalogue with that
/// kind, in catalogue order: all of them; the releases (type `release`);
/// the snapshots (type `snapshot`); the April Fools' versions (snapshots
/// whose id is one of the known April Fools' ids).
pub proof fn versions_of_each_kind(vs: Seq<SingleVersion>)
    ensures
        of_mode(vs, VersionMode::ALL) == vs,
        of_mode(vs, VersionMode::RELEASE) == vs.filter(|v: SingleVersion| v.version_type@ == "release"@),
        of_mode(vs, VersionMode::SNAPSHOT) == vs.filter(|v: SingleVersion| v.version_type@ == "snapshot"@),
        of_mode(vs, VersionMode::FOOL) == vs.filter(
            |v: SingleVersion| v.version_type@ == "snapshot"@ && is_fool_id(v.id@),
        ),
        forall|i: int| 0 <= i < of_mode(vs, VersionMode::RELEASE).len()
            ==> (#[trigger] of_mode(vs, VersionMode::RELEASE)[i]).version_type@ == "release"@,
        forall|i: int| 0 <= i < of_mode(vs, VersionMode::SNAPSHOT).len()
            ==> (#[trigger] of_mode(vs, VersionMode::SNAPSHOT)[i]).version_type@ == "snapshot"@,
{
    let all = |v: SingleVersion| true;
    let rel = |v: SingleVersion| v.version_type@ == "release"@;
    let snap = |v: SingleVersion| v.version_type@ == "snapshot"@;
    let fool = |v: SingleVersion| v.version_type@ == "snapshot"@ && is_fool_id(v.id@);
    lemma_of_mode_filter(vs, VersionMode::ALL, all);
    lemma_of_mode_filter(vs, VersionMode::RELEASE, rel);
    lemma_of_mode_filter(vs, VersionMode::SNAPSHOT, snap);
    lemma_of_mode_filter(vs, VersionMode::FOOL, fool);
    lemma_filter_all(vs, all);
    vs.filter_lemma(rel);
    vs.filter_lemma(snap);
}

proof fn lemma_filter_all(vs: Seq<SingleVersion>, pred: spec_fn(SingleVersion) -> bool)
    requires
        forall|v: SingleVersion| #[trigger] pred(v),
    ensures
        vs.filter(pred) == vs,
    decreases vs.len(),
{
    reveal(Seq::filter);
    if vs.len() > 0 {
        lemma_filter_all(vs.drop_last(), pred);
        assert(vs.drop_last().push(vs.last()) =~= vs);
    }
}

} // verus!
