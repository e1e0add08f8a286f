//! The NeoForge version catalogue, filtered by Minecraft version from the
//! official Maven metadata.

use vstd::prelude::*;

use crate::loader::LoaderVersion;
use crate::text::{
    char_vecs_view, chars_of, decimal, decimal_string, find, is_digit, parse_unsigned,
    parse_unsigned_max, split_all, split_chars, starts_with, string_of,
};

verus! {

pub open spec fn u64_max() -> int {
    0xffff_ffff_ffff_ffff
}

// ---------------------------------------------------------------------------
// Release numbers
// ---------------------------------------------------------------------------

/// The non-empty pieces, in order.
pub open spec fn nonempty_pieces(ps: Seq<Seq<char>>) -> Seq<Seq<char>>
    decreases ps.len(),
{
    if ps.len() == 0 {
        ps
    } else if ps.last().len() == 0 {
        nonempty_pieces(ps.drop_last())
    } else {
        nonempty_pieces(ps.drop_last()).push(ps.last())
    }
}

/// Each piece read as a `u64`; `None` when one is no number.
pub open spec fn parse_all(ps: Seq<Seq<char>>) -> Option<Seq<int>>
    decreases ps.len(),
{
    if ps.len() == 0 {
        Some(Seq::empty())
    } else {
        match parse_all(ps.drop_last()) {
            None => None,
            Some(ns) => match parse_unsigned(ps.last(), u64_max()) {
                Some(v) => Some(ns.push(v)),
                None => None,
            },
        }
    }
}

/// The numbers between the dots of a version (empty pieces skipped).
pub open spec fn dotted_numbers(s: Seq<char>) -> Option<Seq<int>> {
    parse_all(nonempty_pieces(split_all(s, '.')))
}

pub open spec fn nth_or_zero(ns: Seq<int>, i: int) -> int {
    if 0 <= i < ns.len() {
        ns[i]
    } else {
        0
    }
}

pub open spec fn ints(v: Seq<u64>) -> Seq<int> {
    Seq::new(v.len(), |i: int| v[i] as int)
}

fn dotted_numbers_exec(v: &[char]) -> (r: Option<Vec<u64>>)
    ensures
        match r {
            Some(ns) => dotted_numbers(v@) == Some(ints(ns@)),
            None => dotted_numbers(v@) is None,
        },
{
    let pieces = split_chars(v, '.');
    let ghost ps = char_vecs_view(pieces@);
    let mut out: Vec<u64> = Vec::new();
    let mut i: usize = 0;
    while i < pieces.len()
        invariant
            i <= pieces@.len(),
            ps == char_vecs_view(pieces@),
            ps == split_all(v@, '.'),
            parse_all(nonempty_pieces(ps.take(i as int))) == Some(ints(out@)),
        decreases pieces@.len() - i,
    {
        assert(ps.take(i + 1).drop_last() =~= ps.take(i as int));
        assert(ps.take(i + 1).last() == pieces@[i as int]@);
        if pieces[i].len() > 0 {
            match parse_unsigned_max(pieces[i].as_slice(), u64::MAX) {
                Some(n) => {
                    out.push(n);
                    assert(ints(out@) =~= ints(out@.drop_last()).push(n as int));
                },
                None => {
                    proof {
                        let t = ps.take(i + 1);
                        assert(nonempty_pieces(t) == nonempty_pieces(t.drop_last()).push(t.last()));
                        let np = nonempty_pieces(t);
                        assert(np.drop_last() =~= nonempty_pieces(t.drop_last()));
                        assert(np.last() == t.last());
                        assert(parse_unsigned(t.last(), u64_max()) is None);
                        assert(parse_all(np) is None);
                    }
                    assert(ps.take(pieces@.len() as int) =~= ps);
                    proof {
                        lemma_parse_all_none_extends(ps, i as int + 1);
                    }
                    return None;
                },
            }
            proof {
                let t = ps.take(i + 1);
                assert(nonempty_pieces(t).drop_last() =~= nonempty_pieces(t.drop_last()));
            }
        }
        i += 1;
    }
    assert(ps.take(pieces@.len() as int) =~= ps);
    Some(out)
}

proof fn lemma_parse_all_none_extends(ps: Seq<Seq<char>>, k: int)
    requires
        0 <= k <= ps.len(),
        parse_all(nonempty_pieces(ps.take(k))) is None,
    ensures
        parse_all(nonempty_pieces(ps)) is None,
    decreases ps.len() - k,
{
    if k < ps.len() {
        let t = ps.take(k + 1);
        assert(t.drop_last() =~= ps.take(k));
        if t.last().len() > 0 {
            assert(nonempty_pieces(t).drop_last() =~= nonempty_pieces(t.drop_last()));
        }
        lemma_parse_all_none_extends(ps, k + 1);
    } else {
        assert(ps.take(k) =~= ps);
    }
}

/// A release number (digits and dots only, such as `1.21.1` or `26.2`) as
/// (major, minor, patch), missing parts zero; `None` for anything else
/// (snapshots such as `24w14a`, pre-releases such as `1.21.5-pre1`).
pub open spec fn release_numbers(mc: Seq<char>) -> Option<(int, int, int)> {
    if mc.len() == 0 || !(forall|i: int| 0 <= i < mc.len() ==> is_digit(#[trigger] mc[i]) || mc[i] == '.') {
        None
    } else {
        match dotted_numbers(mc) {
            None => None,
            Some(ns) => if ns.len() == 0 {
                None
            } else {
                Some((ns[0], nth_or_zero(ns, 1), nth_or_zero(ns, 2)))
            },
        }
    }
}

fn digits_and_dots(v: &[char]) -> (b: bool)
    ensures
        b == (forall|i: int| 0 <= i < v@.len() ==> is_digit(#[trigger] v@[i]) || v@[i] == '.'),
{
    let mut i: usize = 0;
    while i < v.len()
        invariant
            i <= v@.len(),
            forall|k: int| 0 <= k < i ==> is_digit(#[trigger] v@[k]) || v@[k] == '.',
        decreases v@.len() - i,
    {
        let c = v[i];
        if !(('0' <= c && c <= '9') || c == '.') {
            return false;
        }
        i += 1;
    }
    true
}

fn get_or_zero(ns: &Vec<u64>, i: usize) -> (r: u64)
    ensures
        r as int == nth_or_zero(ints(ns@), i as int),
{
    if i < ns.len() {
        ns[i]
    } else {
        0
    }
}

/// Reads a release number as (major, minor, patch).
pub fn parse_minecraft(mc: &str) -> (r: Option<(u64, u64, u64)>)
    ensures
        match r {
            Some((a, b, c)) => release_numbers(mc@) == Some((a as int, b as int, c as int)),
            None => release_numbers(mc@) is None,
        },
{
    let v = chars_of(mc);
    if v.len() == 0 || !digits_and_dots(v.as_slice()) {
        return None;
    }
    match dotted_numbers_exec(v.as_slice()) {
        None => None,
        Some(ns) => {
            if ns.len() == 0 {
                None
            } else {
                Some((ns[0], get_or_zero(&ns, 1), get_or_zero(&ns, 2)))
            }
        },
    }
}

pub open spec fn tuple_ge(a: (int, int, int), b: (int, int, int)) -> bool {
    a.0 > b.0 || (a.0 == b.0 && (a.1 > b.1 || (a.1 == b.1 && a.2 >= b.2)))
}

/// NeoForge exists for the releases from 1.20.1 on (the 26.x line too).
pub open spec fn supports_neoforge(mc: Seq<char>) -> bool {
    match release_numbers(mc) {
        Some(v) => tuple_ge(v, (1, 20, 1)),
        None => false,
    }
}

pub fn mc_supports_neoforge(mc: &str) -> (b: bool)
    ensures
        b == supports_neoforge(mc@),
{
    match parse_minecraft(mc) {
        Some((a, b, c)) => a > 1 || (a == 1 && (b > 20 || (b == 20 && c >= 1))),
        None => false,
    }
}

/// Whether `mc` is exactly release 1.20.1, whose NeoForge builds come from
/// the older `forge` artifact.
pub fn is_legacy_1201(mc: &str) -> (b: bool)
    ensures
        b == (release_numbers(mc@) == Some((1int, 20int, 1int))),
{
    match parse_minecraft(mc) {
        Some((a, b, c)) => a == 1 && b == 20 && c == 1,
        None => false,
    }
}

/// The version prefix of modern NeoForge builds for a Minecraft version:
/// for major 1 the `1.` is dropped (1.21.1 gives `21.1`, 1.21 gives `21.0`),
/// and versions before 1.20 have none; later majors are kept (26.2 gives
/// `26.2`). The parts are read as in `dotted_numbers`.
pub open spec fn modern_prefix_spec(mc: Seq<char>) -> Option<Seq<char>> {
    match dotted_numbers(mc) {
        None => None,
        Some(ns) => if ns.len() == 0 {
            None
        } else if ns[0] == 1 {
            if ns.len() < 2 || ns[1] < 20 {
                None
            } else {
                Some(decimal(ns[1] as nat) + "."@ + decimal(nth_or_zero(ns, 2) as nat))
            }
        } else {
            Some(decimal(ns[0] as nat) + "."@ + decimal(nth_or_zero(ns, 1) as nat))
        },
    }
}

/// The version prefix of modern NeoForge builds for `mc`.
pub fn modern_prefix(mc: &str) -> (r: Option<String>)
    ensures
        match r {
            Some(p) => modern_prefix_spec(mc@) == Some(p@),
            None => modern_prefix_spec(mc@) is None,
        },
{
    let v = chars_of(mc);
    let ns = match dotted_numbers_exec(v.as_slice()) {
        Some(ns) => ns,
        None => {
            return None;
        },
    };
    if ns.len() == 0 {
        return None;
    }
    let first = ns[0];
    if first == 1 {
        if ns.len() < 2 || ns[1] < 20 {
            return None;
        }
        Some(crate::text::concat3(
            decimal_string(ns[1]).as_str(),
            ".",
            decimal_string(get_or_zero(&ns, 2)).as_str(),
        ))
    } else {
        Some(crate::text::concat3(
            decimal_string(first).as_str(),
            ".",
            decimal_string(get_or_zero(&ns, 1)).as_str(),
        ))
    }
}

// ---------------------------------------------------------------------------
// Ordering builds
// ---------------------------------------------------------------------------

/// The runs between non-digit characters (`str::split` on non-digits): `k`
/// non-digits give `k + 1` runs.
pub open spec fn digit_runs(s: Seq<char>) -> Seq<Seq<char>>
    decreases s.len(),
{
    if s.len() == 0 {
        seq![Seq::empty()]
    } else {
        let r = digit_runs(s.drop_last());
        if is_digit(s.last()) {
            r.update(r.len() - 1, r.last().push(s.last()))
        } else {
            r.push(Seq::empty())
        }
    }
}

proof fn lemma_digit_runs_nonempty(s: Seq<char>)
    ensures
        digit_runs(s).len() >= 1,
    decreases s.len(),
{
    if s.len() > 0 {
        lemma_digit_runs_nonempty(s.drop_last());
    }
}

/// The runs that read as `u64` numbers, in order (empty runs and runs too
/// large are skipped).
pub open spec fn run_numbers(rs: Seq<Seq<char>>) -> Seq<int>
    decreases rs.len(),
{
    if rs.len() == 0 {
        Seq::empty()
    } else {
        let ns = run_numbers(rs.drop_last());
        match parse_unsigned(rs.last(), u64_max()) {
            Some(v) => if rs.last().len() > 0 {
                ns.push(v)
            } else {
                ns
            },
            None => ns,
        }
    }
}

pub open spec fn nth_back(ns: Seq<int>, k: int) -> int {
    if ns.len() > k {
        ns[ns.len() - 1 - k]
    } else {
        0
    }
}

/// The last three numbers of a build version, the key builds are ordered
/// by (whatever precedes them, such as a `1.20.1-` prefix, is ignored).
pub open spec fn numeric_key(raw: Seq<char>) -> (int, int, int) {
    let ns = run_numbers(digit_runs(raw));
    (nth_back(ns, 2), nth_back(ns, 1), nth_back(ns, 0))
}

fn flush_run(done: &mut Vec<u64>, cur: &Vec<char>)
    ensures
        ints(final(done)@) == (match parse_unsigned(cur@, u64_max()) {
            Some(v) => if cur@.len() > 0 {
                ints(old(done)@).push(v)
            } else {
                ints(old(done)@)
            },
            None => ints(old(done)@),
        }),
{
    if cur.len() > 0 {
        match parse_unsigned_max(cur.as_slice(), u64::MAX) {
            Some(v) => {
                let ghost before = ints(done@);
                done.push(v);
                assert(ints(done@) =~= before.push(v as int));
            },
            None => {},
        }
    }
}

fn nth_back_exec(ns: &Vec<u64>, k: usize) -> (r: u64)
    ensures
        r as int == nth_back(ints(ns@), k as int),
{
    if ns.len() > k {
        ns[ns.len() - 1 - k]
    } else {
        0
    }
}

/// The ordering key of a build version: its last three numbers.
pub fn numeric_tuple(raw: &str) -> (r: (u64, u64, u64))
    ensures
        (r.0 as int, r.1 as int, r.2 as int) == numeric_key(raw@),
{
    let v = chars_of(raw);
    let mut done: Vec<u64> = Vec::new();
    let mut cur: Vec<char> = Vec::new();
    let mut i: usize = 0;
    while i < v.len()
        invariant
            v@ == raw@,
            i <= v@.len(),
            digit_runs(v@.take(i as int)).len() >= 1,
            digit_runs(v@.take(i as int)).last() == cur@,
            ints(done@) == run_numbers(digit_runs(v@.take(i as int)).drop_last()),
        decreases v@.len() - i,
    {
        proof {
            lemma_digit_runs_nonempty(v@.take(i as int));
        }
        let ghost prev = digit_runs(v@.take(i as int));
        assert(v@.take(i + 1).drop_last() =~= v@.take(i as int));
        let c = v[i];
        if '0' <= c && c <= '9' {
            cur.push(c);
            assert(digit_runs(v@.take(i + 1)).drop_last() =~= prev.drop_last());
        } else {
            flush_run(&mut done, &cur);
            cur = Vec::new();
            assert(digit_runs(v@.take(i + 1)).drop_last() =~= prev);
            assert(prev =~= prev.drop_last().push(prev.last()));
            assert(cur@ =~= Seq::<char>::empty());
        }
        i += 1;
    }
    proof {
        lemma_digit_runs_nonempty(v@);
    }
    assert(v@.take(v@.len() as int) =~= v@);
    let ghost runs = digit_runs(v@);
    assert(runs =~= runs.drop_last().push(runs.last()));
    flush_run(&mut done, &cur);
    assert(ints(done@) == run_numbers(runs));
    (nth_back_exec(&done, 2), nth_back_exec(&done, 1), nth_back_exec(&done, 0))
}

/// `a` orders strictly before `b` as keys (lexicographically).
pub open spec fn key_lt(a: (int, int, int), b: (int, int, int)) -> bool {
    !tuple_ge(a, b)
}

// ---------------------------------------------------------------------------
// Stability
// ---------------------------------------------------------------------------

/// ASCII lower-casing of a string.
pub open spec fn ascii_lowercase(s: Seq<char>) -> Seq<char> {
    s.map_values(|c: char| crate::profile::ascii_lower(c))
}

/// Builds marked `-beta`, `-alpha`, `-rc`, `-pre`, `-snapshot` or `-cr` (in
/// any case) are not stable.
pub open spec fn stable_spec(version: Seq<char>) -> bool {
    let l = ascii_lowercase(version);
    &&& find(l, "-beta"@) is None
    &&& find(l, "-alpha"@) is None
    &&& find(l, "-rc"@) is None
    &&& find(l, "-pre"@) is None
    &&& find(l, "-snapshot"@) is None
    &&& find(l, "-cr"@) is None
}

fn ascii_lowercase_exec(s: &str) -> (r: String)
    ensures
        r@ == ascii_lowercase(s@),
{
    let v = chars_of(s);
    let mut out: Vec<char> = Vec::new();
    let mut i: usize = 0;
    while i < v.len()
        invariant
            v@ == s@,
            i <= v@.len(),
            out@ == ascii_lowercase(v@.take(i as int)),
        decreases v@.len() - i,
    {
        let c = v[i];
        let l = if 'A' <= c && c <= 'Z' {
            ((c as u32) + 32) as u8 as char
        } else {
            c
        };
        assert(l == crate::profile::ascii_lower(c)) by {
            if 'A' <= c && c <= 'Z' {
                assert((((c as u32) + 32) as u8) as char == ((c as u32 + 32) as char));
            }
        }
        out.push(l);
        assert(out@ =~= ascii_lowercase(v@.take(i + 1)));
        i += 1;
    }
    assert(v@.take(v@.len() as int) =~= v@);
    string_of(out.as_slice())
}

/// Whether a NeoForge build is a stable one.
pub fn is_stable_release(version: &str) -> (b: bool)
    ensures
        b == stable_spec(version@),
{
    let l = ascii_lowercase_exec(version);
    let s = l.as_str();
    !(crate::text::contains_str(s, "-beta") || crate::text::contains_str(s, "-alpha")
        || crate::text::contains_str(s, "-rc") || crate::text::contains_str(s, "-pre")
        || crate::text::contains_str(s, "-snapshot") || crate::text::contains_str(s, "-cr"))
}

} // verus!

verus! {

// ---------------------------------------------------------------------------
// The catalogue of one Minecraft version
// ---------------------------------------------------------------------------

/// Where the builds of a Minecraft version are listed.
#[derive(Debug)]
pub enum CatalogSource {
    /// Release 1.20.1: the `net.neoforged:forge` artifact, builds
    /// `1.20.1-<build>`.
    Legacy,
    /// Later releases: the `net.neoforged:neoforge` artifact, builds
    /// `<prefix>.<build>`.
    Modern(String),
}

/// The catalogue that lists NeoForge builds for `mc`, or `None` when there
/// are none (`mc` unsupported, or without a modern prefix).
pub fn catalog_source(mc: &str) -> (r: Option<CatalogSource>)
    ensures
        match r {
            None => !supports_neoforge(mc@) || (release_numbers(mc@) != Some((1int, 20int, 1int))
                && modern_prefix_spec(mc@) is None),
            Some(CatalogSource::Legacy) => supports_neoforge(mc@) && release_numbers(mc@) == Some(
                (1int, 20int, 1int),
            ),
            Some(CatalogSource::Modern(p)) => supports_neoforge(mc@) && release_numbers(mc@) != Some(
                (1int, 20int, 1int),
            ) && modern_prefix_spec(mc@) == Some(p@),
        },
{
    if !mc_supports_neoforge(mc) {
        return None;
    }
    if is_legacy_1201(mc) {
        return Some(CatalogSource::Legacy);
    }
    match modern_prefix(mc) {
        Some(p) => Some(CatalogSource::Modern(p)),
        None => None,
    }
}

/// The start a build version of the catalogue has.
pub open spec fn source_start(source: CatalogSource) -> Seq<char> {
    match source {
        CatalogSource::Legacy => "1.20.1-"@,
        CatalogSource::Modern(p) => p@ + "."@,
    }
}

/// A build and whether it is stable.
pub type Build = (Seq<char>, bool);

pub open spec fn key_of(v: Build) -> (int, int, int) {
    numeric_key(v.0)
}

/// The first position in `r`, from `k`, whose key is below `x`'s.
pub open spec fn insert_pos_from(r: Seq<Build>, k: int, x: Build) -> int
    decreases r.len() - k,
{
    if k < 0 || k >= r.len() {
        r.len() as int
    } else if key_lt(key_of(r[k]), key_of(x)) {
        k
    } else {
        insert_pos_from(r, k + 1, x)
    }
}

/// Newest first: builds ordered by their key, highest first; builds with
/// equal keys keep their order (a stable sort, insertion by insertion).
pub open spec fn sorted_desc(s: Seq<Build>) -> Seq<Build>
    decreases s.len(),
{
    if s.len() == 0 {
        s
    } else {
        let r = sorted_desc(s.drop_last());
        r.insert(insert_pos_from(r, 0, s.last()), s.last())
    }
}

pub open spec fn entries_view(s: Seq<LoaderVersion>) -> Seq<Build> {
    Seq::new(s.len(), |i: int| (s[i].version@, s[i].stable))
}

fn key_less(a: (u64, u64, u64), b: (u64, u64, u64)) -> (r: bool)
    ensures
        r == key_lt((a.0 as int, a.1 as int, a.2 as int), (b.0 as int, b.1 as int, b.2 as int)),
{
    !(a.0 > b.0 || (a.0 == b.0 && (a.1 > b.1 || (a.1 == b.1 && a.2 >= b.2))))
}

/// Sorts builds newest first (stable).
pub fn sort_newest_first(items: Vec<LoaderVersion>) -> (r: Vec<LoaderVersion>)
    ensures
        entries_view(r@) == sorted_desc(entries_view(items@)),
{
    let ghost all = entries_view(items@);
    let mut out: Vec<LoaderVersion> = Vec::new();
    let mut keys: Vec<(u64, u64, u64)> = Vec::new();
    for item in it: items
        invariant
            all == entries_view(it.seq()),
            entries_view(out@) == sorted_desc(all.take(it.index() as int)),
            keys@.len() == out@.len(),
            forall|q: int|
                0 <= q < keys@.len() ==> (#[trigger] keys@[q].0 as int, keys@[q].1 as int, keys@[q].2
                    as int) == key_of(entries_view(out@)[q]),
    {
        let ghost k = it.index() as int;
        let ghost x = (item.version@, item.stable);
        assert(all.take(k + 1).drop_last() =~= all.take(k));
        assert(all.take(k + 1).last() == x);
        let key = numeric_tuple(item.version.as_str());
        let ghost ov = entries_view(out@);
        let mut p: usize = 0;
        while p < out.len() && !key_less(keys[p], key)
            invariant
                p <= out@.len(),
                ov == entries_view(out@),
                keys@.len() == out@.len(),
                forall|q: int|
                    0 <= q < keys@.len() ==> (#[trigger] keys@[q].0 as int, keys@[q].1 as int, keys@[q].2
                        as int) == key_of(ov[q]),
                (key.0 as int, key.1 as int, key.2 as int) == key_of(x),
                insert_pos_from(ov, 0, x) == insert_pos_from(ov, p as int, x),
            decreases out@.len() - p,
        {
            p += 1;
        }
        let ghost before_keys = keys@;
        out.insert(p, item);
        keys.insert(p, key);
        assert(entries_view(out@) =~= ov.insert(p as int, x));
        assert forall|q: int| 0 <= q < keys@.len() implies (#[trigger] keys@[q].0 as int, keys@[q].1
            as int, keys@[q].2 as int) == key_of(entries_view(out@)[q]) by {
            if q < p {
                assert(keys@[q] == before_keys[q]);
            } else if q > p {
                assert(keys@[q] == before_keys[q - 1]);
            }
        }
    }
    assert(all.take(all.len() as int) =~= all);
    out
}

/// The builds of `versions` that belong to the catalogue's Minecraft
/// version, in order, each marked stable or not.
pub open spec fn matching_builds(source: CatalogSource, versions: Seq<String>) -> Seq<Build>
    decreases versions.len(),
{
    if versions.len() == 0 {
        Seq::empty()
    } else {
        let r = matching_builds(source, versions.drop_last());
        let v = versions.last()@;
        if starts_with(v, source_start(source)) {
            r.push((v, stable_spec(v)))
        } else {
            r
        }
    }
}

/// The NeoForge builds for the catalogue's Minecraft version among the
/// listed `versions`, newest first, each marked stable or not.
pub fn select_versions(source: &CatalogSource, versions: &[String]) -> (r: Vec<LoaderVersion>)
    ensures
        entries_view(r@) == sorted_desc(matching_builds(*source, versions@)),
{
    let start: String = match source {
        CatalogSource::Legacy => "1.20.1-".to_owned(),
        CatalogSource::Modern(p) => crate::text::concat2(p.as_str(), "."),
    };
    let sv = chars_of(start.as_str());
    let mut picked: Vec<LoaderVersion> = Vec::new();
    let mut i: usize = 0;
    while i < versions.len()
        invariant
            i <= versions@.len(),
            sv@ == source_start(*source),
            entries_view(picked@) == matching_builds(*source, versions@.take(i as int)),
        decreases versions@.len() - i,
    {
        assert(versions@.take(i + 1).drop_last() =~= versions@.take(i as int));
        let vv = chars_of(versions[i].as_str());
        if crate::text::has_at(vv.as_slice(), 0, sv.as_slice()) {
            assert(vv@.skip(0) =~= vv@);
            let ghost before = entries_view(picked@);
            let e = LoaderVersion { version: versions[i].clone(), stable: is_stable_release(versions[i].as_str()) };
            picked.push(e);
            assert(entries_view(picked@) =~= before.push((versions@[i as int]@, stable_spec(versions@[i as int]@))));
        } else {
            assert(vv@.skip(0) =~= vv@);
        }
        i += 1;
    }
    assert(versions@.take(versions@.len() as int) =~= versions@);
    sort_newest_first(picked)
}

} // verus!

verus! {

// ---------------------------------------------------------------------------
// Laws of the newest-first order
// ---------------------------------------------------------------------------

proof fn lemma_insert_pos_bounds(r: Seq<Build>, k: int, x: Build)
    requires
        0 <= k <= r.len(),
    ensures
        k <= insert_pos_from(r, k, x) <= r.len(),
        forall|q: int| k <= q < insert_pos_from(r, k, x) ==> !key_lt(#[trigger] key_of(r[q]), key_of(x)),
        insert_pos_from(r, k, x) < r.len() ==> key_lt(key_of(r[insert_pos_from(r, k, x)]), key_of(x)),
    decreases r.len() - k,
{
    if k < r.len() && !key_lt(key_of(r[k]), key_of(x)) {
        lemma_insert_pos_bounds(r, k + 1, x);
    }
}

pub open spec fn newest_first(r: Seq<Build>) -> bool {
    forall|i: int, j: int| 0 <= i < j < r.len() ==> tuple_ge(#[trigger] key_of(r[i]), #[trigger] key_of(r[j]))
}

/// The catalogue order puts every build at or above the builds after it.
pub proof fn sorted_builds_are_newest_first(s: Seq<Build>)
    ensures
        newest_first(sorted_desc(s)),
    decreases s.len(),
{
    if s.len() > 0 {
        let r = sorted_desc(s.drop_last());
        sorted_builds_are_newest_first(s.drop_last());
        let x = s.last();
        lemma_insert_pos_bounds(r, 0, x);
        let p = insert_pos_from(r, 0, x);
        let n = r.insert(p, x);
        assert forall|i: int, j: int| 0 <= i < j < n.len() implies tuple_ge(
            #[trigger] key_of(n[i]),
            #[trigger] key_of(n[j]),
        ) by {
            if j < p {
                assert(n[i] == r[i] && n[j] == r[j]);
            } else if j == p {
                assert(n[i] == r[i]);
                assert(!key_lt(key_of(r[i]), key_of(x)));
            } else if i == p {
                assert(n[j] == r[j - 1]);
                if p < r.len() {
                    assert(key_lt(key_of(r[p]), key_of(x)));
                    if j - 1 > p {
                        assert(tuple_ge(key_of(r[p]), key_of(r[j - 1])));
                    }
                }
            } else if i < p {
                assert(n[i] == r[i] && n[j] == r[j - 1]);
                assert(tuple_ge(key_of(r[i]), key_of(r[j - 1])));
            } else {
                assert(n[i] == r[i - 1] && n[j] == r[j - 1]);
                assert(tuple_ge(key_of(r[i - 1]), key_of(r[j - 1])));
            }
        }
    }
}

/// The catalogue order keeps every build, each as often as it was listed.
pub proof fn sorted_builds_keep_all(s: Seq<Build>)
    ensures
        sorted_desc(s).to_multiset() == s.to_multiset(),
    decreases s.len(),
{
    broadcast use vstd::multiset::group_multiset_axioms, vstd::seq_lib::group_to_multiset_ensures;
    if s.len() > 0 {
        let r = sorted_desc(s.drop_last());
        sorted_builds_keep_all(s.drop_last());
        let x = s.last();
        lemma_insert_pos_bounds(r, 0, x);
        let p = insert_pos_from(r, 0, x);
        vstd::seq_lib::lemma_seq_union_to_multiset_commutative(r.take(p), r.skip(p));
        assert(r.insert(p, x) =~= r.take(p).push(x) + r.skip(p));
        assert(r =~= r.take(p) + r.skip(p));
        vstd::seq_lib::lemma_multiset_commutative(r.take(p).push(x), r.skip(p));
        vstd::seq_lib::lemma_multiset_commutative(r.take(p), r.skip(p));
        assert(s =~= s.drop_last().push(x));
    }
}

} // verus!
