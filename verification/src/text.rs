//! Character-level text primitives shared by the parsers of this crate.
//!
//! Strings are modelled by their `Seq<char>` view; the functions here give
//! executable access to that view, search it, trim it and build new strings.

use vstd::prelude::*;
use vstd::std_specs::iter::IteratorSpec;
use vstd::string::StringExecFns;

verus! {

broadcast use vstd::string::group_string_axioms;

// ---------------------------------------------------------------------------
// Character classes
// ---------------------------------------------------------------------------

/// Unicode `White_Space`, the set `char::is_whitespace` tests.
pub open spec fn is_ws(c: char) -> bool {
    ||| ('\t' <= c && c <= '\r')
    ||| c == ' '
    ||| c == '\u{85}'
    ||| c == '\u{a0}'
    ||| c == '\u{1680}'
    ||| ('\u{2000}' <= c && c <= '\u{200a}')
    ||| c == '\u{2028}'
    ||| c == '\u{2029}'
    ||| c == '\u{202f}'
    ||| c == '\u{205f}'
    ||| c == '\u{3000}'
}

/// `char::is_whitespace`.
pub fn is_whitespace(c: char) -> (b: bool)
    ensures
        b == is_ws(c),
{
    ('\t' <= c && c <= '\r') || c == ' ' || c == '\u{85}' || c == '\u{a0}' || c == '\u{1680}'
        || ('\u{2000}' <= c && c <= '\u{200a}') || c == '\u{2028}' || c == '\u{2029}'
        || c == '\u{202f}' || c == '\u{205f}' || c == '\u{3000}'
}

/// The byte-oriented `is_ascii_whitespace` read on a character: space, tab,
/// line feed, form feed and carriage return.
pub open spec fn is_ascii_ws(c: char) -> bool {
    c == ' ' || c == '\t' || c == '\n' || c == '\x0C' || c == '\r'
}

pub fn is_ascii_whitespace(c: char) -> (b: bool)
    ensures
        b == is_ascii_ws(c),
{
    c == ' ' || c == '\t' || c == '\n' || c == '\x0C' || c == '\r'
}

pub open spec fn is_digit(c: char) -> bool {
    '0' <= c && c <= '9'
}

/// The code of a character after ASCII lower-casing.
pub open spec fn lower_code(c: char) -> u32 {
    if 'A' <= c && c <= 'Z' {
        (c as u32 + 32) as u32
    } else {
        c as u32
    }
}

/// Character equality, ASCII-case-insensitive when `ci` holds.
pub open spec fn char_eq(a: char, b: char, ci: bool) -> bool {
    if ci {
        lower_code(a) == lower_code(b)
    } else {
        a == b
    }
}

fn chars_equal(a: char, b: char, ci: bool) -> (r: bool)
    ensures
        r == char_eq(a, b, ci),
{
    if ci {
        let x: u32 = if 'A' <= a && a <= 'Z' { a as u32 + 32 } else { a as u32 };
        let y: u32 = if 'A' <= b && b <= 'Z' { b as u32 + 32 } else { b as u32 };
        x == y
    } else {
        a == b
    }
}

// ---------------------------------------------------------------------------
// Searching
// ---------------------------------------------------------------------------

/// `n` occurs in `h` at position `i`.
pub open spec fn match_at(h: Seq<char>, n: Seq<char>, i: int, ci: bool) -> bool {
    &&& 0 <= i
    &&& i + n.len() <= h.len()
    &&& forall|k: int| 0 <= k < n.len() ==> char_eq(#[trigger] h[i + k], n[k], ci)
}

/// First occurrence of `n` in `h` at or after `i`.
pub open spec fn find_from(h: Seq<char>, n: Seq<char>, i: int, ci: bool) -> Option<int>
    decreases h.len() - i,
{
    if i < 0 || i + n.len() > h.len() {
        None
    } else if match_at(h, n, i, ci) {
        Some(i)
    } else {
        find_from(h, n, i + 1, ci)
    }
}

/// First occurrence of `n` in `h` (`str::find` for a string pattern).
pub open spec fn find(h: Seq<char>, n: Seq<char>) -> Option<int> {
    find_from(h, n, 0, false)
}

/// First ASCII-case-insensitive occurrence of `n` in `h`.
pub open spec fn find_chars_ci(h: Seq<char>, n: Seq<char>) -> Option<int> {
    find_from(h, n, 0, true)
}

pub open spec fn opt_int(o: Option<usize>) -> Option<int> {
    match o {
        Some(p) => Some(p as int),
        None => None,
    }
}

fn matches_here(h: &[char], n: &[char], i: usize, ci: bool) -> (r: bool)
    requires
        i + n@.len() <= h@.len(),
    ensures
        r == match_at(h@, n@, i as int, ci),
{
    let hl = h.len();
    let mut k: usize = 0;
    while k < n.len()
        invariant
            i + n@.len() <= h@.len(),
            hl == h@.len(),
            k <= n@.len(),
            forall|j: int| 0 <= j < k ==> char_eq(#[trigger] h@[i + j], n@[j], ci),
        decreases n@.len() - k,
    {
        if !chars_equal(h[i + k], n[k], ci) {
            assert(!char_eq(h@[i + k as int], n@[k as int], ci));
            return false;
        }
        k += 1;
    }
    true
}

/// Position of the first occurrence of `n` in `h` at or after `from`.
pub fn find_chars(h: &[char], n: &[char], from: usize, ci: bool) -> (r: Option<usize>)
    ensures
        opt_int(r) == find_from(h@, n@, from as int, ci),
{
    if n.len() > h.len() {
        return None;
    }
    let last = h.len() - n.len();
    let mut i = from;
    while i <= last
        invariant
            from <= i,
            last == h@.len() - n@.len(),
            find_from(h@, n@, from as int, ci) == find_from(h@, n@, i as int, ci),
        decreases last + 1 - i,
    {
        if matches_here(h, n, i, ci) {
            return Some(i);
        }
        if i == last {
            return None;
        }
        i += 1;
    }
    None
}

/// Search for a single character.
pub fn find_char(h: &[char], c: char, from: usize) -> (r: Option<usize>)
    ensures
        opt_int(r) == find_from(h@, seq![c], from as int, false),
{
    let n = [c];
    assert(n@ =~= seq![c]);
    find_chars(h, n.as_slice(), from, false)
}

// ---------------------------------------------------------------------------
// Trimming
// ---------------------------------------------------------------------------

pub open spec fn trim_start(s: Seq<char>) -> Seq<char>
    decreases s.len(),
{
    if s.len() > 0 && is_ws(s[0]) {
        trim_start(s.drop_first())
    } else {
        s
    }
}

pub open spec fn trim_end(s: Seq<char>) -> Seq<char>
    decreases s.len(),
{
    if s.len() > 0 && is_ws(s.last()) {
        trim_end(s.drop_last())
    } else {
        s
    }
}

pub open spec fn trim(s: Seq<char>) -> Seq<char> {
    trim_end(trim_start(s))
}

/// Index of the first character of `v[lo..hi]` that survives `trim_start`.
pub fn skip_ws(v: &[char], lo: usize, hi: usize) -> (r: usize)
    requires
        lo <= hi <= v@.len(),
    ensures
        lo <= r <= hi,
        v@.subrange(r as int, hi as int) == trim_start(v@.subrange(lo as int, hi as int)),
{
    let mut i = lo;
    while i < hi && is_whitespace(v[i])
        invariant
            lo <= i <= hi <= v@.len(),
            trim_start(v@.subrange(i as int, hi as int)) == trim_start(
                v@.subrange(lo as int, hi as int),
            ),
        decreases hi - i,
    {
        assert(v@.subrange(i as int, hi as int).drop_first() =~= v@.subrange(
            i + 1,
            hi as int,
        ));
        i += 1;
    }
    i
}

/// End index of `v[lo..hi]` after `trim_end`.
pub fn skip_ws_back(v: &[char], lo: usize, hi: usize) -> (r: usize)
    requires
        lo <= hi <= v@.len(),
    ensures
        lo <= r <= hi,
        v@.subrange(lo as int, r as int) == trim_end(v@.subrange(lo as int, hi as int)),
{
    let mut j = hi;
    while j > lo && is_whitespace(v[j - 1])
        invariant
            lo <= j <= hi <= v@.len(),
            trim_end(v@.subrange(lo as int, j as int)) == trim_end(
                v@.subrange(lo as int, hi as int),
            ),
        decreases j - lo,
    {
        assert(v@.subrange(lo as int, j as int).drop_last() =~= v@.subrange(
            lo as int,
            j - 1,
        ));
        j -= 1;
    }
    j
}

// ---------------------------------------------------------------------------
// Building strings
// ---------------------------------------------------------------------------

/// `String::push`: appends one character at the end.
#[verifier::external_body]
fn push_char(s: &mut String, c: char)
    ensures
        final(s)@ == old(s)@.push(c),
{
    s.push(c);
}

/// A string holding exactly the characters of `v`.
pub fn string_of(v: &[char]) -> (s: String)
    ensures
        s@ == v@,
{
    let mut s = String::new();
    let mut i: usize = 0;
    while i < v.len()
        invariant
            i <= v@.len(),
            s@ == v@.take(i as int),
        decreases v@.len() - i,
    {
        push_char(&mut s, v[i]);
        assert(v@.take(i + 1) =~= v@.take(i as int).push(v@[i as int]));
        i += 1;
    }
    assert(v@.take(v@.len() as int) =~= v@);
    s
}

/// Appends the characters of `src` to `dst`.
pub fn extend_chars(dst: &mut Vec<char>, src: &[char])
    ensures
        final(dst)@ == old(dst)@ + src@,
{
    let mut i: usize = 0;
    while i < src.len()
        invariant
            i <= src@.len(),
            dst@ == old(dst)@ + src@.take(i as int),
        decreases src@.len() - i,
    {
        dst.push(src[i]);
        assert(src@.take(i + 1) =~= src@.take(i as int).push(src@[i as int]));
        i += 1;
    }
    assert(src@.take(src@.len() as int) =~= src@);
}

/// A new vector holding `v[lo..hi]`.
pub fn sub_vec(v: &[char], lo: usize, hi: usize) -> (r: Vec<char>)
    requires
        lo <= hi <= v@.len(),
    ensures
        r@ == v@.subrange(lo as int, hi as int),
{
    let mut r: Vec<char> = Vec::new();
    extend_chars(&mut r, &v[lo..hi]);
    assert(r@ =~= v@.subrange(lo as int, hi as int));
    r
}

/// The characters of a string literal or any other `&str`, as a new vector
/// (`&str` to `Vec<char>`).
pub fn chars_of(s: &str) -> (v: Vec<char>)
    ensures
        v@ == s@,
{
    let mut v: Vec<char> = Vec::new();
    for c in it: s.chars()
        invariant
            v@ == it.seq().take(it.index()),
    {
        v.push(c);
    }
    v
}

// ---------------------------------------------------------------------------
// Lines
// ---------------------------------------------------------------------------

/// Drops one trailing carriage return.
pub open spec fn strip_cr(s: Seq<char>) -> Seq<char> {
    if s.len() > 0 && s.last() == '\r' {
        s.drop_last()
    } else {
        s
    }
}

/// `str::lines`: pieces between line feeds, each without one trailing
/// carriage return; a final line feed opens no empty line.
pub open spec fn lines(s: Seq<char>) -> Seq<Seq<char>>
    decreases s.len(),
{
    if s.len() == 0 {
        Seq::empty()
    } else {
        match find_from(s, seq!['\n'], 0, false) {
            None => seq![s],
            Some(k) => {
                proof {
                    lemma_find_from_bounds(s, seq!['\n'], 0, false);
                }
                seq![strip_cr(s.take(k))] + lines(s.skip(k + 1))
            },
        }
    }
}

pub proof fn lemma_find_from_bounds(h: Seq<char>, n: Seq<char>, i: int, ci: bool)
    ensures
        find_from(h, n, i, ci) matches Some(k) ==> i <= k && k + n.len() <= h.len()
            && match_at(h, n, k, ci),
    decreases h.len() - i,
{
    if i < 0 || i + n.len() > h.len() {
    } else if match_at(h, n, i, ci) {
    } else {
        lemma_find_from_bounds(h, n, i + 1, ci);
    }
}

/// Every position before a found match holds no match.
pub proof fn lemma_find_from_first(h: Seq<char>, n: Seq<char>, i: int, ci: bool, j: int)
    requires
        0 <= i <= j,
        find_from(h, n, i, ci) matches Some(k) ==> j < k,
        find_from(h, n, i, ci) is None ==> j + n.len() <= h.len(),
    ensures
        !match_at(h, n, j, ci),
    decreases j - i,
{
    if i + n.len() > h.len() {
    } else if match_at(h, n, i, ci) {
    } else if i < j {
        lemma_find_from_first(h, n, i + 1, ci, j);
    }
}

} // verus!

verus! {

// ---------------------------------------------------------------------------
// Decimal numbers
// ---------------------------------------------------------------------------

pub open spec fn all_digits(s: Seq<char>) -> bool {
    forall|i: int| 0 <= i < s.len() ==> is_digit(#[trigger] s[i])
}

/// Value of a run of decimal digits.
pub open spec fn digits_value(s: Seq<char>) -> int
    decreases s.len(),
{
    if s.len() == 0 {
        0
    } else {
        digits_value(s.drop_last()) * 10 + (s.last() as int - '0' as int)
    }
}

/// The digits of an unsigned literal: one leading `+` is allowed.
pub open spec fn unsigned_body(s: Seq<char>) -> Seq<char> {
    if s.len() > 0 && s[0] == '+' {
        s.drop_first()
    } else {
        s
    }
}

/// `FromStr` of an unsigned integer type whose largest value is `max`:
/// an optional `+`, then at least one digit, nothing else, and no overflow.
pub open spec fn parse_unsigned(s: Seq<char>, max: int) -> Option<int> {
    let d = unsigned_body(s);
    if d.len() > 0 && all_digits(d) && digits_value(d) <= max {
        Some(digits_value(d))
    } else {
        None
    }
}

/// `FromStr` of `i64`: an optional sign, then at least one digit.
pub open spec fn parse_i64_spec(s: Seq<char>) -> Option<int> {
    if s.len() > 0 && s[0] == '-' {
        let d = s.drop_first();
        if d.len() > 0 && all_digits(d) && digits_value(d) <= 0x8000_0000_0000_0000 {
            Some(-digits_value(d))
        } else {
            None
        }
    } else {
        parse_unsigned(s, 0x7fff_ffff_ffff_ffff)
    }
}

pub open spec fn opt_u64(o: Option<u64>) -> Option<int> {
    match o {
        Some(v) => Some(v as int),
        None => None,
    }
}

pub proof fn lemma_digits_value_nonneg(s: Seq<char>)
    requires
        all_digits(s),
    ensures
        digits_value(s) >= 0,
    decreases s.len(),
{
    if s.len() > 0 {
        assert(all_digits(s.drop_last())) by {
            assert forall|i: int| 0 <= i < s.drop_last().len() implies is_digit(
                #[trigger] s.drop_last()[i],
            ) by {
                assert(s.drop_last()[i] == s[i]);
            }
        }
        lemma_digits_value_nonneg(s.drop_last());
        assert(is_digit(s[s.len() - 1]));
    }
}

/// A longer run of digits is worth at least as much as its prefix.
pub proof fn lemma_digits_value_prefix(s: Seq<char>, k: int)
    requires
        all_digits(s),
        0 <= k <= s.len(),
    ensures
        digits_value(s) >= digits_value(s.take(k)),
    decreases s.len(),
{
    if k < s.len() {
        assert(all_digits(s.drop_last())) by {
            assert forall|i: int| 0 <= i < s.drop_last().len() implies is_digit(
                #[trigger] s.drop_last()[i],
            ) by {
                assert(s.drop_last()[i] == s[i]);
            }
        }
        assert(s.drop_last().take(k) =~= s.take(k));
        lemma_digits_value_prefix(s.drop_last(), k);
        lemma_digits_value_nonneg(s.drop_last());
        assert(is_digit(s[s.len() - 1]));
    } else {
        assert(s.take(k) =~= s);
    }
}

/// Digits-only conversion of `d`, refusing values above `max`.
fn digits_to_u64(d: &[char], max: u64) -> (r: Option<u64>)
    ensures
        opt_u64(r) == (if d@.len() > 0 && all_digits(d@) && digits_value(d@) <= max {
            Some(digits_value(d@))
        } else {
            None::<int>
        }),
{
    if d.len() == 0 {
        return None;
    }
    let mut acc: u64 = 0;
    let mut i: usize = 0;
    while i < d.len()
        invariant
            i <= d@.len(),
            all_digits(d@.take(i as int)),
            acc == digits_value(d@.take(i as int)),
            acc <= max,
        decreases d@.len() - i,
    {
        let c = d[i];
        if !('0' <= c && c <= '9') {
            assert(!is_digit(d@[i as int]));
            return None;
        }
        let dig: u32 = c as u32 - '0' as u32;
        let next: u128 = acc as u128 * 10 + dig as u128;
        assert(d@.take(i + 1).drop_last() =~= d@.take(i as int));
        assert(all_digits(d@.take(i + 1))) by {
            assert forall|j: int| 0 <= j < i + 1 implies is_digit(#[trigger] d@.take(i + 1)[j]) by {
                if j < i {
                    assert(d@.take(i + 1)[j] == d@.take(i as int)[j]);
                }
            }
        }
        assert(next == digits_value(d@.take(i + 1)));
        if next > max as u128 {
            proof {
                if all_digits(d@) {
                    lemma_digits_value_prefix(d@, i + 1);
                }
            }
            return None;
        }
        acc = next as u64;
        i += 1;
    }
    assert(d@.take(d@.len() as int) =~= d@);
    Some(acc)
}

/// `<u64 as FromStr>`-style parsing of `s` with the bound `max`.
pub fn parse_unsigned_max(s: &[char], max: u64) -> (r: Option<u64>)
    ensures
        opt_u64(r) == parse_unsigned(s@, max as int),
{
    if s.len() > 0 && s[0] == '+' {
        let r = digits_to_u64(&s[1..s.len()], max);
        assert(s@.subrange(1, s@.len() as int) =~= s@.drop_first());
        r
    } else {
        let r = digits_to_u64(s, max);
        r
    }
}

/// `<i64 as FromStr>::from_str` on a character sequence.
pub fn parse_i64(s: &[char]) -> (r: Option<i64>)
    ensures
        match r {
            Some(v) => parse_i64_spec(s@) == Some(v as int),
            None => parse_i64_spec(s@) is None,
        },
{
    if s.len() > 0 && s[0] == '-' {
        assert(s@.subrange(1, s@.len() as int) =~= s@.drop_first());
        match digits_to_u64(&s[1..s.len()], 0x8000_0000_0000_0000u64) {
            Some(m) => {
                if m == 0x8000_0000_0000_0000u64 {
                    Some(i64::MIN)
                } else {
                    Some(-(m as i64))
                }
            },
            None => None,
        }
    } else {
        match parse_unsigned_max(s, 0x7fff_ffff_ffff_ffffu64) {
            Some(v) => Some(v as i64),
            None => None,
        }
    }
}

} // verus!

verus! {

/// `p` is a prefix of `s`.
pub open spec fn starts_with(s: Seq<char>, p: Seq<char>) -> bool {
    p.len() <= s.len() && s.take(p.len() as int) == p
}

/// Whether `lit` occurs in `v` at position `i`.
pub fn has_at(v: &[char], i: usize, lit: &[char]) -> (r: bool)
    ensures
        r == (i + lit@.len() <= v@.len() && v@.subrange(i as int, i + lit@.len()) == lit@),
        r == (i <= v@.len() && starts_with(v@.skip(i as int), lit@)),
{
    if i > v.len() || lit.len() > v.len() - i {
        return false;
    }
    let m = matches_here(v, lit, i, false);
    proof {
        let sub = v@.subrange(i as int, i + lit@.len());
        if m {
            assert forall|k: int| 0 <= k < lit@.len() implies sub[k] == lit@[k] by {
                assert(sub[k] == v@[i + k]);
                assert(char_eq(v@[i + k], lit@[k], false));
            }
            assert(sub =~= lit@);
        } else if sub == lit@ {
            assert forall|k: int| 0 <= k < lit@.len() implies char_eq(
                #[trigger] v@[i + k],
                lit@[k],
                false,
            ) by {
                assert(sub[k] == v@[i + k]);
            }
        }
    }
    assert(v@.skip(i as int).take(lit@.len() as int) =~= v@.subrange(i as int, i + lit@.len()));
    m
}

/// Searching a suffix is searching the whole sequence from a later start.
pub proof fn lemma_find_shift(h: Seq<char>, n: Seq<char>, a: int, j: int, ci: bool)
    requires
        0 <= a <= h.len(),
        0 <= j,
    ensures
        find_from(h.skip(a), n, j, ci) == (match find_from(h, n, a + j, ci) {
            Some(x) => Some(x - a),
            None => None::<int>,
        }),
    decreases h.len() - a - j,
{
    let t = h.skip(a);
    if j + n.len() > t.len() {
    } else {
        assert(match_at(t, n, j, ci) == match_at(h, n, a + j, ci)) by {
            if match_at(h, n, a + j, ci) {
                assert forall|k: int| 0 <= k < n.len() implies char_eq(#[trigger] t[j + k], n[k], ci) by {
                    assert(t[j + k] == h[a + j + k]);
                }
            }
            if match_at(t, n, j, ci) {
                assert forall|k: int| 0 <= k < n.len() implies char_eq(#[trigger] h[a + j + k], n[k], ci) by {
                    assert(t[j + k] == h[a + j + k]);
                }
            }
        }
        if !match_at(t, n, j, ci) {
            lemma_find_shift(h, n, a, j + 1, ci);
        }
    }
}

} // verus!

verus! {

/// When no position in `[i, i + m)` holds a match, the search from `i` is the
/// search from `i + m`.
pub proof fn lemma_find_skip(h: Seq<char>, n: Seq<char>, i: int, m: int, ci: bool)
    requires
        0 <= i,
        0 <= m,
        forall|j: int| i <= j < i + m ==> !match_at(h, n, j, ci),
    ensures
        find_from(h, n, i, ci) == find_from(h, n, i + m, ci),
    decreases m,
{
    if m > 0 {
        lemma_find_skip(h, n, i + 1, m - 1, ci);
        if i + n.len() > h.len() {
            assert(i + m + n.len() > h.len());
        }
    }
}

pub proof fn lemma_subrange_skip(s: Seq<char>, a: int)
    requires
        0 <= a <= s.len(),
    ensures
        s.subrange(a, s.len() as int) == s.skip(a),
{
    assert(s.subrange(a, s.len() as int) =~= s.skip(a));
}

} // verus!

verus! {

pub proof fn lemma_trim_start_first(s: Seq<char>)
    ensures
        trim_start(s).len() > 0 ==> !is_ws(trim_start(s)[0]),
    decreases s.len(),
{
    if s.len() > 0 && is_ws(s[0]) {
        lemma_trim_start_first(s.drop_first());
    }
}

pub proof fn lemma_trim_end_keeps_first(s: Seq<char>)
    requires
        s.len() > 0,
        !is_ws(s[0]),
    ensures
        trim_end(s).len() > 0,
    decreases s.len(),
{
    if s.len() > 1 && is_ws(s.last()) {
        lemma_trim_end_keeps_first(s.drop_last());
    }
}

/// The characters of each string.
pub open spec fn strings_view(v: Seq<String>) -> Seq<Seq<char>> {
    Seq::new(v.len(), |i: int| v[i]@)
}

} // verus!

verus! {

/// The characters of each vector.
pub open spec fn char_vecs_view(v: Seq<Vec<char>>) -> Seq<Seq<char>> {
    Seq::new(v.len(), |i: int| v[i]@)
}

/// `str::lines` on a character slice.
pub fn lines_exec(t: &[char]) -> (out: Vec<Vec<char>>)
    ensures
        char_vecs_view(out@) == lines(t@),
{
    let n = t.len();
    let mut out: Vec<Vec<char>> = Vec::new();
    let mut i: usize = 0;
    assert(t@.skip(0) =~= t@);
    while i < n
        invariant
            n == t@.len(),
            i <= n,
            lines(t@) == char_vecs_view(out@) + lines(t@.skip(i as int)),
        decreases n - i,
    {
        let ghost before = char_vecs_view(out@);
        let ghost rest = t@.skip(i as int);
        proof {
            lemma_find_shift(t@, seq!['\n'], i as int, 0, false);
            lemma_find_from_bounds(t@, seq!['\n'], i as int, false);
        }
        match find_char(t, '\n', i) {
            Some(k) => {
                let hi = if k > i && t[k - 1] == '\r' {
                    k - 1
                } else {
                    k
                };
                assert(t@.subrange(i as int, hi as int) =~= strip_cr(rest.take(k - i)));
                assert(rest.skip(k + 1 - i) =~= t@.skip(k + 1));
                let line = sub_vec(t, i, hi);
                out.push(line);
                assert(char_vecs_view(out@) =~= before + seq![line@]);
                assert(seq![line@] + lines(t@.skip(k + 1)) =~= lines(rest));
                i = k + 1;
            },
            None => {
                let line = sub_vec(t, i, n);
                assert(line@ =~= rest);
                out.push(line);
                assert(char_vecs_view(out@) =~= before + seq![line@]);
                assert(t@.skip(n as int) =~= Seq::<char>::empty());
                assert(lines(rest) =~= seq![line@] + lines(t@.skip(n as int)));
                i = n;
            },
        }
    }
    assert(t@.skip(n as int) =~= Seq::<char>::empty());
    assert(char_vecs_view(out@) =~= char_vecs_view(out@) + Seq::<Seq<char>>::empty());
    out
}

} // verus!

verus! {

// ---------------------------------------------------------------------------
// Whole strings
// ---------------------------------------------------------------------------

/// Whether two strings hold the same characters.
pub fn str_eq(a: &str, b: &str) -> (r: bool)
    ensures
        r == (a@ == b@),
{
    let x: String = a.to_owned();
    let y: String = b.to_owned();
    x == y
}

/// `String::push_str`.
pub fn push_str(s: &mut String, t: &str)
    ensures
        final(s)@ == old(s)@ + t@,
{
    s.append(t);
}

/// A new string holding `a` followed by `b`.
pub fn concat2(a: &str, b: &str) -> (r: String)
    ensures
        r@ == a@ + b@,
{
    let mut s: String = a.to_owned();
    s.append(b);
    s
}

/// A new string holding `a`, `b` and `c` in turn.
pub fn concat3(a: &str, b: &str, c: &str) -> (r: String)
    ensures
        r@ == a@ + b@ + c@,
{
    let mut s: String = a.to_owned();
    s.append(b);
    s.append(c);
    s
}

/// Whether `c` occurs in `s`.
pub fn contains_char(s: &str, c: char) -> (r: bool)
    ensures
        r == s@.contains(c),
{
    let v = chars_of(s);
    let mut i: usize = 0;
    while i < v.len()
        invariant
            v@ == s@,
            i <= v@.len(),
            forall|k: int| 0 <= k < i ==> v@[k] != c,
        decreases v@.len() - i,
    {
        if v[i] == c {
            assert(s@[i as int] == c);
            return true;
        }
        i += 1;
    }
    false
}

/// Whether `n` occurs in `s` as a run of characters (`str::contains` with a
/// string pattern).
pub fn contains_str(s: &str, n: &str) -> (r: bool)
    ensures
        r == (find(s@, n@) is Some),
{
    let h = chars_of(s);
    let p = chars_of(n);
    let f = find_chars(h.as_slice(), p.as_slice(), 0, false);
    f.is_some()
}

} // verus!

verus! {

// ---------------------------------------------------------------------------
// Trimming whole strings, joining, replacing, decimal digits
// ---------------------------------------------------------------------------

/// `str::trim` (Unicode white space at both ends).
pub fn trim_string(s: &str) -> (r: String)
    ensures
        r@ == trim(s@),
{
    let v = chars_of(s);
    let n = v.len();
    let lo = skip_ws(v.as_slice(), 0, n);
    let hi = skip_ws_back(v.as_slice(), lo, n);
    assert(v@.subrange(0, n as int) =~= v@);
    string_of(&v.as_slice()[lo..hi])
}

/// Whether `s` is empty or white space only (`s.trim().is_empty()`).
pub fn is_blank(s: &str) -> (b: bool)
    ensures
        b == (trim(s@).len() == 0),
{
    let v = chars_of(s);
    let n = v.len();
    let lo = skip_ws(v.as_slice(), 0, n);
    assert(v@.subrange(0, n as int) =~= v@);
    proof {
        lemma_trim_start_first(s@);
        if lo < n {
            lemma_trim_end_keeps_first(trim_start(s@));
        }
    }
    lo == n
}

/// The strings of `v` with `sep` between each two.
pub open spec fn join(v: Seq<Seq<char>>, sep: Seq<char>) -> Seq<char>
    decreases v.len(),
{
    if v.len() == 0 {
        Seq::empty()
    } else if v.len() == 1 {
        v[0]
    } else {
        join(v.drop_last(), sep) + sep + v.last()
    }
}

/// `[String]::join`.
pub fn join_strings(v: &[String], sep: &str) -> (r: String)
    ensures
        r@ == join(strings_view(v@), sep@),
{
    let mut out = String::new();
    let mut i: usize = 0;
    while i < v.len()
        invariant
            i <= v@.len(),
            out@ == join(strings_view(v@.take(i as int)), sep@),
        decreases v@.len() - i,
    {
        let ghost sv = strings_view(v@.take(i + 1));
        assert(sv.drop_last() =~= strings_view(v@.take(i as int)));
        assert(sv.last() == v@[i as int]@);
        if i > 0 {
            push_str(&mut out, sep);
        }
        push_str(&mut out, v[i].as_str());
        i += 1;
    }
    assert(v@.take(v@.len() as int) =~= v@);
    out
}

/// `s` with every non-overlapping occurrence of the non-empty `p`, taken
/// from the left, replaced by `w` (`str::replace`).
pub open spec fn replace(s: Seq<char>, p: Seq<char>, w: Seq<char>) -> Seq<char>
    decreases s.len(),
{
    if p.len() == 0 {
        s
    } else {
        match find(s, p) {
            None => s,
            Some(i) => {
                proof {
                    lemma_find_from_bounds(s, p, 0, false);
                }
                s.take(i) + w + replace(s.skip(i + p.len()), p, w)
            },
        }
    }
}

/// `str::replace` with a non-empty pattern.
pub fn replace_str(s: &str, p: &str, w: &str) -> (r: String)
    requires
        p@.len() > 0,
    ensures
        r@ == replace(s@, p@, w@),
{
    let h = chars_of(s);
    let pv = chars_of(p);
    let wv = chars_of(w);
    let n = h.len();
    let mut out: Vec<char> = Vec::new();
    let mut pos: usize = 0;
    assert(h@.skip(0) =~= h@);
    while pos < n
        invariant
            n == h@.len(),
            pos <= n,
            pv@ == p@,
            wv@ == w@,
            p@.len() > 0,
            replace(s@, p@, w@) == out@ + replace(h@.skip(pos as int), p@, w@),
            h@ == s@,
        decreases n - pos,
    {
        let ghost rest = h@.skip(pos as int);
        let ghost before = out@;
        proof {
            lemma_find_shift(h@, p@, pos as int, 0, false);
            lemma_find_from_bounds(h@, p@, pos as int, false);
        }
        match find_chars(h.as_slice(), pv.as_slice(), pos, false) {
            Some(i) => {
                extend_chars(&mut out, &h.as_slice()[pos..i]);
                extend_chars(&mut out, wv.as_slice());
                assert(h@.subrange(pos as int, i as int) =~= rest.take(i - pos));
                assert(rest.skip(i - pos + p@.len()) =~= h@.skip(i + p@.len()));
                assert(out@ =~= before + rest.take(i - pos) + w@);
                pos = i + pv.len();
            },
            None => {
                extend_chars(&mut out, &h.as_slice()[pos..n]);
                assert(h@.subrange(pos as int, n as int) =~= rest);
                assert(h@.skip(n as int) =~= Seq::<char>::empty());
                assert(replace(Seq::<char>::empty(), p@, w@) =~= Seq::<char>::empty());
                pos = n;
            },
        }
    }
    assert(h@.skip(n as int) =~= Seq::<char>::empty());
    assert(replace(Seq::<char>::empty(), p@, w@) =~= Seq::<char>::empty());
    assert(out@ + Seq::<char>::empty() =~= out@);
    string_of(out.as_slice())
}

/// The decimal digits of `n`, without sign or leading zeros.
pub open spec fn decimal(n: nat) -> Seq<char>
    decreases n,
{
    if n < 10 {
        seq![digit_char(n)]
    } else {
        decimal(n / 10).push(digit_char(n % 10))
    }
}

pub open spec fn digit_char(d: nat) -> char {
    if d == 0 { '0' }
    else if d == 1 { '1' }
    else if d == 2 { '2' }
    else if d == 3 { '3' }
    else if d == 4 { '4' }
    else if d == 5 { '5' }
    else if d == 6 { '6' }
    else if d == 7 { '7' }
    else if d == 8 { '8' }
    else { '9' }
}

fn digit_of(d: u64) -> (c: char)
    requires
        d < 10,
    ensures
        c == digit_char(d as nat),
{
    if d == 0 { '0' }
    else if d == 1 { '1' }
    else if d == 2 { '2' }
    else if d == 3 { '3' }
    else if d == 4 { '4' }
    else if d == 5 { '5' }
    else if d == 6 { '6' }
    else if d == 7 { '7' }
    else if d == 8 { '8' }
    else { '9' }
}

/// `n.to_string()` for an unsigned integer.
pub fn decimal_string(n: u64) -> (r: String)
    ensures
        r@ == decimal(n as nat),
    decreases n,
{
    if n < 10 {
        let mut s = String::new();
        push_char(&mut s, digit_of(n));
        assert(s@ =~= seq![digit_char(n as nat)]);
        s
    } else {
        let mut s = decimal_string(n / 10);
        push_char(&mut s, digit_of(n % 10));
        s
    }
}

} // verus!

verus! {

/// A copy of a list of strings.
pub fn clone_strings(v: &Vec<String>) -> (r: Vec<String>)
    ensures
        r@ == v@,
{
    let mut r: Vec<String> = Vec::new();
    let mut i: usize = 0;
    while i < v.len()
        invariant
            i <= v@.len(),
            r@ == v@.take(i as int),
        decreases v@.len() - i,
    {
        r.push(v[i].clone());
        assert(r@ =~= v@.take(i + 1));
        i += 1;
    }
    assert(v@.take(v@.len() as int) =~= v@);
    r
}

/// A copy of an optional string.
pub fn clone_opt_string(o: &Option<String>) -> (r: Option<String>)
    ensures
        r == *o,
{
    match o {
        Some(s) => Some(s.clone()),
        None => None,
    }
}

} // verus!

verus! {

/// Whether `s` has no characters.
pub fn is_empty_str(s: &str) -> (b: bool)
    ensures
        b == (s@.len() == 0),
{
    let v = chars_of(s);
    v.len() == 0
}

} // verus!

verus! {

/// `str::split` with a single-character separator: `k` separators give
/// `k + 1` pieces.
pub open spec fn split_all(s: Seq<char>, c: char) -> Seq<Seq<char>>
    decreases s.len(),
{
    match find_from(s, seq![c], 0, false) {
        None => seq![s],
        Some(i) => {
            proof {
                lemma_find_from_bounds(s, seq![c], 0, false);
            }
            seq![s.take(i)] + split_all(s.skip(i + 1), c)
        },
    }
}

/// The pieces of `s` between the separators `c`.
pub fn split_chars(s: &[char], c: char) -> (r: Vec<Vec<char>>)
    ensures
        char_vecs_view(r@) == split_all(s@, c),
{
    let n = s.len();
    let mut out: Vec<Vec<char>> = Vec::new();
    let mut pos: usize = 0;
    assert(s@.skip(0) =~= s@);
    loop
        invariant
            n == s@.len(),
            pos <= n,
            split_all(s@, c) == char_vecs_view(out@) + split_all(s@.skip(pos as int), c),
        decreases n - pos,
    {
        let ghost rest = s@.skip(pos as int);
        let ghost before = char_vecs_view(out@);
        proof {
            lemma_find_shift(s@, seq![c], pos as int, 0, false);
            lemma_find_from_bounds(s@, seq![c], pos as int, false);
        }
        match find_char(s, c, pos) {
            None => {
                let piece = sub_vec(s, pos, n);
                assert(piece@ =~= rest);
                out.push(piece);
                assert(char_vecs_view(out@) =~= before + seq![rest]);
                return out;
            },
            Some(i) => {
                let piece = sub_vec(s, pos, i);
                assert(piece@ =~= rest.take(i - pos));
                out.push(piece);
                assert(char_vecs_view(out@) =~= before + seq![rest.take(i - pos)]);
                assert(rest.skip(i - pos + 1) =~= s@.skip(i + 1));
                pos = i + 1;
            },
        }
    }
}

/// Where a character is first found: the found position holds it and no
/// earlier one does; when it is not found, `s` does not hold it.
pub proof fn lemma_find_char(s: Seq<char>, c: char)
    ensures
        match find_from(s, seq![c], 0, false) {
            Some(i) => 0 <= i < s.len() && s[i] == c && !s.take(i).contains(c),
            None => !s.contains(c),
        },
{
    lemma_find_from_bounds(s, seq![c], 0, false);
    match find_from(s, seq![c], 0, false) {
        Some(i) => {
            assert(s[i + 0] == seq![c][0]);
            assert forall|j: int| 0 <= j < s.take(i).len() implies s.take(i)[j] != c by {
                lemma_find_from_first(s, seq![c], 0, false, j);
                if s[j] == c {
                    assert(match_at(s, seq![c], j, false));
                }
            }
        },
        None => {
            assert forall|j: int| 0 <= j < s.len() implies s[j] != c by {
                lemma_find_from_first(s, seq![c], 0, false, j);
                if s[j] == c {
                    assert(match_at(s, seq![c], j, false));
                }
            }
        },
    }
}

/// Pieces put back together with `c` between them.
pub open spec fn join_char(parts: Seq<Seq<char>>, c: char) -> Seq<char>
    decreases parts.len(),
{
    if parts.len() == 0 {
        Seq::empty()
    } else if parts.len() == 1 {
        parts[0]
    } else {
        parts[0] + seq![c] + join_char(parts.drop_first(), c)
    }
}

/// Splitting at `c` gives at least one piece, none holding `c`, and the
/// pieces joined with `c` give `s` back.
pub proof fn lemma_split_all_join(s: Seq<char>, c: char)
    ensures
        split_all(s, c).len() >= 1,
        join_char(split_all(s, c), c) == s,
        forall|k: int| 0 <= k < split_all(s, c).len() ==> !(#[trigger] split_all(s, c)[k]).contains(c),
    decreases s.len(),
{
    lemma_find_char(s, c);
    match find_from(s, seq![c], 0, false) {
        None => {},
        Some(i) => {
            let rest = s.skip(i + 1);
            lemma_split_all_join(rest, c);
            let parts = split_all(s, c);
            assert(parts == seq![s.take(i)] + split_all(rest, c));
            assert(parts.drop_first() =~= split_all(rest, c));
            assert(s.take(i) + seq![c] + rest =~= s);
            assert forall|k: int| 0 <= k < parts.len() implies !(#[trigger] parts[k]).contains(c) by {
                if k > 0 {
                    assert(parts[k] == split_all(rest, c)[k - 1]);
                }
            }
        },
    }
}

/// Pieces of a text that does not hold `d` do not hold it either.
pub proof fn lemma_split_all_avoids(s: Seq<char>, c: char, d: char)
    requires
        !s.contains(d),
    ensures
        forall|k: int| 0 <= k < split_all(s, c).len() ==> !(#[trigger] split_all(s, c)[k]).contains(d),
    decreases s.len(),
{
    lemma_find_char(s, c);
    match find_from(s, seq![c], 0, false) {
        None => {},
        Some(i) => {
            let rest = s.skip(i + 1);
            assert(!rest.contains(d)) by {
                if rest.contains(d) {
                    let j = choose|j: int| 0 <= j < rest.len() && rest[j] == d;
                    assert(s[i + 1 + j] == d);
                }
            }
            assert(!s.take(i).contains(d)) by {
                if s.take(i).contains(d) {
                    let j = choose|j: int| 0 <= j < s.take(i).len() && s.take(i)[j] == d;
                    assert(s[j] == d);
                }
            }
            lemma_split_all_avoids(rest, c, d);
            let parts = split_all(s, c);
            assert forall|k: int| 0 <= k < parts.len() implies !(#[trigger] parts[k]).contains(d) by {
                if k > 0 {
                    assert(parts[k] == split_all(rest, c)[k - 1]);
                }
            }
        },
    }
}

/// The first occurrence of `c` splits `s` in two (`str::split_once`).
pub open spec fn split_once(s: Seq<char>, c: char) -> Option<(Seq<char>, Seq<char>)> {
    match find_from(s, seq![c], 0, false) {
        None => None,
        Some(i) => Some((s.take(i), s.skip(i + 1))),
    }
}

} // verus!
