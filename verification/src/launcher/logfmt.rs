//! Parsing and formatting of the game's console output.
//!
//! Modern releases print log4j2 `LegacyXMLLayout` events on the console:
//!
//! ```text
//! <log4j:Event logger="net.minecraft.client.Minecraft" timestamp="..." level="INFO" thread="Render thread">
//! <log4j:Message><![CDATA[Stopping!]]></log4j:Message>
//! </log4j:Event>
//! ```
//!
//! An event may span several lines (the CDATA section keeps its line
//! breaks), so a whole `<log4j:Event>…</log4j:Event>` block is located first
//! and then turned into readable `[HH:mm:ss] [thread/LEVEL]: message` lines.

use vstd::prelude::*;

use crate::text::{
    char_vecs_view, lines_exec,
    char_eq, find_chars_ci, find_from, lemma_find_skip, lemma_trim_end_keeps_first, lemma_trim_start_first, lines,
    match_at, parse_i64, parse_i64_spec, strings_view, strip_cr, trim_end,
    chars_of, is_ascii_whitespace, is_ascii_ws, skip_ws_back, string_of, trim,
    extend_chars, find_chars, lemma_subrange_skip, skip_ws, sub_vec, trim_start,
    find, find_char, has_at, lemma_find_from_bounds, lemma_find_shift, parse_unsigned,
    parse_unsigned_max, starts_with,
};

verus! {

// ---------------------------------------------------------------------------
// Byte-level search for event boundaries
// ---------------------------------------------------------------------------

/// ASCII lower-casing of one byte.
pub open spec fn lower_byte(b: u8) -> u8 {
    if 65 <= b && b <= 90 {
        (b + 32) as u8
    } else {
        b
    }
}

/// `n` occurs in `h` at `i`, ignoring ASCII case.
pub open spec fn bytes_match_ci(h: Seq<u8>, n: Seq<u8>, i: int) -> bool {
    &&& 0 <= i
    &&& i + n.len() <= h.len()
    &&& forall|k: int| 0 <= k < n.len() ==> lower_byte(#[trigger] h[i + k]) == lower_byte(n[k])
}

pub open spec fn bytes_find_ci_from(h: Seq<u8>, n: Seq<u8>, i: int) -> Option<int>
    decreases h.len() - i,
{
    if i < 0 || i + n.len() > h.len() {
        None
    } else if bytes_match_ci(h, n, i) {
        Some(i)
    } else {
        bytes_find_ci_from(h, n, i + 1)
    }
}

/// First ASCII-case-insensitive occurrence of a non-empty `n` in `h`.
pub open spec fn find_ci_spec(h: Seq<u8>, n: Seq<u8>) -> Option<int> {
    if n.len() == 0 || h.len() < n.len() {
        None
    } else {
        bytes_find_ci_from(h, n, 0)
    }
}

/// `<log4j:event`, the opening of an event (matched without regard to case).
pub open spec fn event_start_bytes() -> Seq<u8> {
    seq![60u8, 108, 111, 103, 52, 106, 58, 101, 118, 101, 110, 116]
}

/// `</log4j:event>`, the end of an event.
pub open spec fn event_end_bytes() -> Seq<u8> {
    seq![60u8, 47, 108, 111, 103, 52, 106, 58, 101, 118, 101, 110, 116, 62]
}

pub open spec fn opt_usize(o: Option<usize>) -> Option<int> {
    match o {
        Some(p) => Some(p as int),
        None => None,
    }
}

fn lower_u8(b: u8) -> (r: u8)
    ensures
        r == lower_byte(b),
{
    if 65 <= b && b <= 90 {
        b + 32
    } else {
        b
    }
}

fn bytes_match_here(h: &[u8], n: &[u8], i: usize) -> (r: bool)
    requires
        i + n@.len() <= h@.len(),
    ensures
        r == bytes_match_ci(h@, n@, i as int),
{
    let hl = h.len();
    let mut k: usize = 0;
    while k < n.len()
        invariant
            i + n@.len() <= h@.len(),
            hl == h@.len(),
            k <= n@.len(),
            forall|j: int| 0 <= j < k ==> lower_byte(#[trigger] h@[i + j]) == lower_byte(n@[j]),
        decreases n@.len() - k,
    {
        if lower_u8(h[i + k]) != lower_u8(n[k]) {
            return false;
        }
        k += 1;
    }
    true
}

/// Case-insensitive byte search (ASCII letters compare equal in either case).
pub fn find_ci(hay: &[u8], needle: &[u8]) -> (r: Option<usize>)
    ensures
        opt_usize(r) == find_ci_spec(hay@, needle@),
{
    if needle.len() == 0 || hay.len() < needle.len() {
        return None;
    }
    let last = hay.len() - needle.len();
    let mut i: usize = 0;
    while i <= last
        invariant
            needle@.len() > 0,
            hay@.len() >= needle@.len(),
            last == hay@.len() - needle@.len(),
            bytes_find_ci_from(hay@, needle@, 0) == bytes_find_ci_from(hay@, needle@, i as int),
        decreases last + 1 - i,
    {
        if bytes_match_here(hay, needle, i) {
            return Some(i);
        }
        if i == last {
            return None;
        }
        i += 1;
    }
    None
}

fn event_start_tag() -> (v: Vec<u8>)
    ensures
        v@ == event_start_bytes(),
{
    let v = vec![60u8, 108, 111, 103, 52, 106, 58, 101, 118, 101, 110, 116];
    assert(v@ =~= event_start_bytes());
    v
}

fn event_end_tag() -> (v: Vec<u8>)
    ensures
        v@ == event_end_bytes(),
{
    let v = vec![60u8, 47, 108, 111, 103, 52, 106, 58, 101, 118, 101, 110, 116, 62];
    assert(v@ =~= event_end_bytes());
    v
}

/// Offset of the first event opening `<log4j:Event` (any case).
pub fn find_event_start(bytes: &[u8]) -> (r: Option<usize>)
    ensures
        opt_usize(r) == find_ci_spec(bytes@, event_start_bytes()),
{
    let tag = event_start_tag();
    find_ci(bytes, tag.as_slice())
}

/// Whether `t` ends with the first `m` bytes of an event opening (ASCII
/// case ignored).
pub open spec fn ends_with_tag_prefix(t: Seq<u8>, m: int) -> bool {
    0 < m <= t.len() && bytes_match_ci(t, event_start_bytes().take(m), t.len() - m)
}

/// The longest `k <= m` such that `t` ends with the first `k` bytes of an
/// event opening; 0 when there is none.
pub open spec fn tag_prefix_from(t: Seq<u8>, m: int) -> int
    decreases m,
{
    if m <= 0 {
        0
    } else if ends_with_tag_prefix(t, m) {
        m
    } else {
        tag_prefix_from(t, m - 1)
    }
}

/// How many bytes at the end of `t` may be the start of an event opening
/// cut off by the end of the chunk: the longest proper prefix of
/// `<log4j:event` (ASCII case ignored) that `t` ends with; 0 when none.
pub open spec fn held_tag_len(t: Seq<u8>) -> int {
    tag_prefix_from(t, if t.len() < 11 { t.len() as int } else { 11 })
}

pub proof fn lemma_tag_prefix_bounds(t: Seq<u8>, m: int)
    ensures
        m >= 0 ==> 0 <= tag_prefix_from(t, m) <= m,
        tag_prefix_from(t, m) > 0 ==> ends_with_tag_prefix(t, tag_prefix_from(t, m)),
    decreases m,
{
    if m > 0 && !ends_with_tag_prefix(t, m) {
        lemma_tag_prefix_bounds(t, m - 1);
    }
}

/// The number of trailing bytes of `bytes` that may begin an event opening
/// (see `held_tag_len`).
pub fn held_tag_len_exec(bytes: &[u8]) -> (r: usize)
    ensures
        r as int == held_tag_len(bytes@),
        r <= bytes@.len(),
        r < 12,
{
    let tag = event_start_tag();
    let n = bytes.len();
    let mut m: usize = if n < 11 {
        n
    } else {
        11
    };
    proof {
        lemma_tag_prefix_bounds(bytes@, m as int);
    }
    while m > 0
        invariant
            m <= 11,
            m <= n,
            n == bytes@.len(),
            tag@ == event_start_bytes(),
            held_tag_len(bytes@) == tag_prefix_from(bytes@, m as int),
        decreases m,
    {
        let prefix = &tag.as_slice()[0..m];
        assert(prefix@ =~= event_start_bytes().take(m as int));
        if bytes_match_here(bytes, prefix, n - m) {
            return m;
        }
        m -= 1;
    }
    0
}

/// Offset just past the first complete `</log4j:Event>`.
pub open spec fn end_after_spec(bytes: Seq<u8>) -> Option<int> {
    match find_ci_spec(bytes, event_end_bytes()) {
        Some(i) => Some(i + 14),
        None => None,
    }
}

pub proof fn lemma_bytes_find_bounds(h: Seq<u8>, n: Seq<u8>, i: int)
    ensures
        bytes_find_ci_from(h, n, i) matches Some(k) ==> i <= k && k + n.len() <= h.len(),
    decreases h.len() - i,
{
    if i < 0 || i + n.len() > h.len() {
    } else if bytes_match_ci(h, n, i) {
    } else {
        lemma_bytes_find_bounds(h, n, i + 1);
    }
}

pub fn find_event_end_after(bytes: &[u8]) -> (r: Option<usize>)
    ensures
        opt_usize(r) == end_after_spec(bytes@),
        r matches Some(e) ==> 14 <= e <= bytes@.len(),
{
    let tag = event_end_tag();
    let _bl = bytes.len();
    match find_ci(bytes, tag.as_slice()) {
        Some(i) => {
            proof {
                lemma_bytes_find_bounds(bytes@, event_end_bytes(), 0);
                assert(event_end_bytes().len() == 14);
            }
            Some(i + 14)
        },
        None => None,
    }
}

/// The first complete event block `[start, end)` of `bytes`.
pub open spec fn locate_spec(bytes: Seq<u8>) -> Option<(int, int)> {
    match find_ci_spec(bytes, event_start_bytes()) {
        None => None,
        Some(s) => match end_after_spec(bytes.skip(s)) {
            None => None,
            Some(a) => Some((s, s + a)),
        },
    }
}

/// Locates a whole event block: it opens with `<log4j:Event` and ends with
/// the first `</log4j:Event>` after that opening.
pub fn locate_event(bytes: &[u8]) -> (r: Option<(usize, usize)>)
    ensures
        match r {
            Some((s, e)) => locate_spec(bytes@) == Some((s as int, e as int)) && s < e <= bytes@.len(),
            None => locate_spec(bytes@) is None,
        },
{
    let start = match find_event_start(bytes) {
        Some(s) => s,
        None => return None,
    };
    proof {
        lemma_bytes_find_bounds(bytes@, event_start_bytes(), 0);
    }
    let tail = &bytes[start..bytes.len()];
    assert(tail@ =~= bytes@.skip(start as int));
    match find_event_end_after(tail) {
        Some(after) => Some((start, start + after)),
        None => None,
    }
}

/// Number of bytes of the UTF-8 sequence that starts with `b` (1 for a byte
/// that cannot start a longer one).
pub open spec fn utf8_len_spec(b: u8) -> usize {
    if b < 0x80 {
        1
    } else if b >> 5u8 == 6 {
        2
    } else if b >> 4u8 == 14 {
        3
    } else if b >> 3u8 == 30 {
        4
    } else {
        1
    }
}

pub fn utf8_len(b: u8) -> (r: usize)
    ensures
        r == utf8_len_spec(b),
        1 <= r <= 4,
{
    if b < 0x80 {
        1
    } else if b >> 5u8 == 6 {
        2
    } else if b >> 4u8 == 14 {
        3
    } else if b >> 3u8 == 30 {
        4
    } else {
        1
    }
}

// ---------------------------------------------------------------------------
// Entities, CDATA and tags
// ---------------------------------------------------------------------------

pub open spec fn ent_amp() -> Seq<char> {
    seq!['&', 'a', 'm', 'p', ';']
}

pub open spec fn ent_lt() -> Seq<char> {
    seq!['&', 'l', 't', ';']
}

pub open spec fn ent_gt() -> Seq<char> {
    seq!['&', 'g', 't', ';']
}

pub open spec fn ent_quot() -> Seq<char> {
    seq!['&', 'q', 'u', 'o', 't', ';']
}

pub open spec fn ent_apos() -> Seq<char> {
    seq!['&', 'a', 'p', 'o', 's', ';']
}

pub open spec fn ent_num() -> Seq<char> {
    seq!['&', '#']
}

/// A Unicode scalar value.
pub open spec fn is_scalar_code(code: int) -> bool {
    0 <= code <= 0x10FFFF && !(0xD800 <= code <= 0xDFFF)
}

/// `&#NNN;` at the front of `t`: the character and the length consumed.
pub open spec fn numeric_entity(t: Seq<char>) -> Option<(char, int)> {
    match find(t.skip(2), seq![';']) {
        None => None,
        Some(semi) => match parse_unsigned(t.skip(2).take(semi), 0xffff_ffff) {
            Some(code) => if is_scalar_code(code) {
                Some((code as char, 2 + semi + 1))
            } else {
                None
            },
            None => None,
        },
    }
}

/// Replaces the five named XML entities and decimal character references;
/// a `&` that starts none of them is kept as it is.
pub open spec fn decode_entities_spec(s: Seq<char>) -> Seq<char>
    decreases s.len(),
{
    if s.len() == 0 {
        Seq::empty()
    } else if s[0] == '&' {
        if starts_with(s, ent_amp()) {
            seq!['&'] + decode_entities_spec(s.skip(5))
        } else if starts_with(s, ent_lt()) {
            seq!['<'] + decode_entities_spec(s.skip(4))
        } else if starts_with(s, ent_gt()) {
            seq!['>'] + decode_entities_spec(s.skip(4))
        } else if starts_with(s, ent_quot()) {
            seq!['"'] + decode_entities_spec(s.skip(6))
        } else if starts_with(s, ent_apos()) {
            seq!['\''] + decode_entities_spec(s.skip(6))
        } else if starts_with(s, ent_num()) && numeric_entity(s) is Some {
            let (c, n) = numeric_entity(s).unwrap();
            proof {
                lemma_find_from_bounds(s.skip(2), seq![';'], 0, false);
            }
            seq![c] + decode_entities_spec(s.skip(n))
        } else {
            seq!['&'] + decode_entities_spec(s.skip(1))
        }
    } else {
        seq![s[0]] + decode_entities_spec(s.skip(1))
    }
}

/// `char::from_u32`: the character with the given code, if it is a Unicode
/// scalar value.
#[verifier::external_body]
fn char_from_code(code: u32) -> (r: Option<char>)
    ensures
        r is Some <==> is_scalar_code(code as int),
        r matches Some(c) ==> c == (code as char),
{
    char::from_u32(code)
}

proof fn lemma_skip_skip(s: Seq<char>, a: int, b: int)
    requires
        0 <= a,
        0 <= b,
        a + b <= s.len(),
    ensures
        s.skip(a).skip(b) == s.skip(a + b),
{
    assert(s.skip(a).skip(b) =~= s.skip(a + b));
}

/// Decoding of the entities in `s`.
pub fn decode_entities(s: &[char]) -> (r: Vec<char>)
    ensures
        r@ == decode_entities_spec(s@),
{
    let amp = ['&', 'a', 'm', 'p', ';'];
    let lt = ['&', 'l', 't', ';'];
    let gt = ['&', 'g', 't', ';'];
    let quot = ['&', 'q', 'u', 'o', 't', ';'];
    let apos = ['&', 'a', 'p', 'o', 's', ';'];
    let num = ['&', '#'];
    assert(amp@ =~= ent_amp());
    assert(lt@ =~= ent_lt());
    assert(gt@ =~= ent_gt());
    assert(quot@ =~= ent_quot());
    assert(apos@ =~= ent_apos());
    assert(num@ =~= ent_num());
    let n = s.len();
    let mut out: Vec<char> = Vec::new();
    let mut i: usize = 0;
    assert(s@.skip(0) =~= s@);
    while i < n
        invariant
            n == s@.len(),
            i <= n,
            amp@ == ent_amp(),
            lt@ == ent_lt(),
            gt@ == ent_gt(),
            quot@ == ent_quot(),
            apos@ == ent_apos(),
            num@ == ent_num(),
            decode_entities_spec(s@) == out@ + decode_entities_spec(s@.skip(i as int)),
        decreases n - i,
    {
        let ghost t = s@.skip(i as int);
        let ghost before = out@;
        assert(t[0] == s@[i as int]);
        if s[i] == '&' {
            if has_at(s, i, amp.as_slice()) {
                out.push('&');
                proof {
                    lemma_skip_skip(s@, i as int, 5);
                }
                assert(out@ =~= before + seq!['&']);
                i += 5;
                continue;
            }
            if has_at(s, i, lt.as_slice()) {
                out.push('<');
                proof {
                    lemma_skip_skip(s@, i as int, 4);
                }
                assert(out@ =~= before + seq!['<']);
                i += 4;
                continue;
            }
            if has_at(s, i, gt.as_slice()) {
                out.push('>');
                proof {
                    lemma_skip_skip(s@, i as int, 4);
                }
                assert(out@ =~= before + seq!['>']);
                i += 4;
                continue;
            }
            if has_at(s, i, quot.as_slice()) {
                out.push('"');
                proof {
                    lemma_skip_skip(s@, i as int, 6);
                }
                assert(out@ =~= before + seq!['"']);
                i += 6;
                continue;
            }
            if has_at(s, i, apos.as_slice()) {
                out.push('\'');
                proof {
                    lemma_skip_skip(s@, i as int, 6);
                }
                assert(out@ =~= before + seq!['\'']);
                i += 6;
                continue;
            }
            if has_at(s, i, num.as_slice()) {
                let semi = find_char(s, ';', i + 2);
                proof {
                    lemma_skip_skip(s@, i as int, 2);
                    lemma_find_shift(s@, seq![';'], i + 2, 0, false);
                    lemma_find_from_bounds(s@, seq![';'], i + 2, false);
                }
                if let Some(p) = semi {
                    let digits = &s[i + 2..p];
                    assert(digits@ =~= t.skip(2).take(p - (i + 2)));
                    if let Some(code) = parse_unsigned_max(digits, 0xffff_ffffu64) {
                        if let Some(ch) = char_from_code(code as u32) {
                            out.push(ch);
                            proof {
                                lemma_skip_skip(s@, i as int, p + 1 - i);
                            }
                            assert(out@ =~= before + seq![ch]);
                            i = p + 1;
                            continue;
                        }
                    }
                }
            }
            out.push('&');
            proof {
                lemma_skip_skip(s@, i as int, 1);
            }
            assert(out@ =~= before + seq!['&']);
            i += 1;
            continue;
        }
        out.push(s[i]);
        proof {
            lemma_skip_skip(s@, i as int, 1);
        }
        assert(out@ =~= before + seq![t[0]]);
        i += 1;
    }
    assert(s@.skip(n as int) =~= Seq::<char>::empty());
    assert(out@ =~= out@ + Seq::<char>::empty());
    out
}

} // verus!

verus! {

pub open spec fn cdata_open() -> Seq<char> {
    seq!['<', '!', '[', 'C', 'D', 'A', 'T', 'A', '[']
}

pub open spec fn cdata_close() -> Seq<char> {
    seq![']', ']', '>']
}

/// Text of an element body: a leading CDATA section is unwrapped verbatim
/// (up to its `]]>`, or to the end), anything else has its entities decoded.
pub open spec fn decode_xml_text_spec(raw: Seq<char>) -> Seq<char> {
    let r = trim_start(raw);
    if starts_with(r, cdata_open()) {
        let rest = r.skip(9);
        match find(rest, cdata_close()) {
            Some(i) => rest.take(i),
            None => rest,
        }
    } else {
        decode_entities_spec(r)
    }
}

fn cdata_open_chars() -> (v: [char; 9])
    ensures
        v@ == cdata_open(),
{
    let v = ['<', '!', '[', 'C', 'D', 'A', 'T', 'A', '['];
    assert(v@ =~= cdata_open());
    v
}

fn cdata_close_chars() -> (v: [char; 3])
    ensures
        v@ == cdata_close(),
{
    let v = [']', ']', '>'];
    assert(v@ =~= cdata_close());
    v
}

pub fn decode_xml_text(raw: &[char]) -> (r: Vec<char>)
    ensures
        r@ == decode_xml_text_spec(raw@),
{
    let n = raw.len();
    let j = skip_ws(raw, 0, n);
    proof {
        lemma_subrange_skip(raw@, 0);
        lemma_subrange_skip(raw@, j as int);
        assert(raw@.skip(0) =~= raw@);
    }
    let open = cdata_open_chars();
    if has_at(raw, j, open.as_slice()) {
        let close = cdata_close_chars();
        proof {
            lemma_skip_skip(raw@, j as int, 9);
            lemma_find_shift(raw@, cdata_close(), j + 9, 0, false);
            lemma_find_from_bounds(raw@, cdata_close(), j + 9, false);
        }
        match find_chars(raw, close.as_slice(), j + 9, false) {
            Some(q) => {
                let r = sub_vec(raw, j + 9, q);
                assert(r@ =~= raw@.skip(j + 9).take(q - (j + 9)));
                r
            },
            None => {
                let r = sub_vec(raw, j + 9, n);
                proof {
                    lemma_subrange_skip(raw@, j + 9);
                }
                r
            },
        }
    } else {
        decode_entities(&raw[j..n])
    }
}

/// Keeps the text between tags: tags are dropped, CDATA sections are
/// unwrapped, and an unterminated tag drops the rest.
pub open spec fn strip_tags(r: Seq<char>) -> Seq<char>
    decreases r.len(),
{
    if r.len() == 0 {
        Seq::empty()
    } else {
        match find(r, seq!['<']) {
            None => r,
            Some(idx) => {
                proof {
                    lemma_find_from_bounds(r, seq!['<'], 0, false);
                }
                let after = r.skip(idx);
                if starts_with(after, cdata_open()) {
                    let cdata = after.skip(9);
                    match find(cdata, cdata_close()) {
                        Some(e) => {
                            proof {
                                lemma_find_from_bounds(cdata, cdata_close(), 0, false);
                            }
                            r.take(idx) + cdata.take(e) + strip_tags(cdata.skip(e + 3))
                        },
                        None => r.take(idx) + cdata,
                    }
                } else {
                    match find(after, seq!['>']) {
                        Some(t) => {
                            proof {
                                lemma_find_from_bounds(after, seq!['>'], 0, false);
                            }
                            r.take(idx) + strip_tags(after.skip(t + 1))
                        },
                        None => r.take(idx),
                    }
                }
            },
        }
    }
}

/// All text of `raw` outside its tags, with entities decoded (used for the
/// stack trace and other content that follows the message).
pub open spec fn extract_text_spec(raw: Seq<char>) -> Seq<char> {
    decode_entities_spec(strip_tags(raw))
}

/// One step of `strip_tags_exec`: the text from `i` up to the next tag is
/// kept and the tag (or CDATA section) handled.
#[verifier::spinoff_prover]
fn strip_step(raw: &[char], out: &mut Vec<char>, i: usize, open: &[char; 9], close: &[char; 3]) -> (next: usize)
    requires
        i < raw@.len(),
        open@ == cdata_open(),
        close@ == cdata_close(),
    ensures
        i < next <= raw@.len(),
        old(out)@ + strip_tags(raw@.skip(i as int)) == final(out)@ + strip_tags(raw@.skip(next as int)),
{
    let n = raw.len();
    let ghost r = raw@.skip(i as int);
    let ghost before = out@;
    proof {
        lemma_find_shift(raw@, seq!['<'], i as int, 0, false);
        lemma_find_from_bounds(raw@, seq!['<'], i as int, false);
    }
    match find_char(raw, '<', i) {
        None => {
            extend_chars(out, &raw[i..n]);
            proof {
                lemma_subrange_skip(raw@, i as int);
                assert(raw@.skip(n as int) =~= Seq::<char>::empty());
            }
            assert(out@ =~= before + r + strip_tags(raw@.skip(n as int)));
            return n;
        },
        Some(idx) => {
            extend_chars(out, &raw[i..idx]);
            assert(raw@.subrange(i as int, idx as int) =~= r.take(idx - i));
            proof {
                lemma_skip_skip(raw@, i as int, idx - i);
            }
            if has_at(raw, idx, open.as_slice()) {
                proof {
                    lemma_skip_skip(raw@, idx as int, 9);
                    lemma_find_shift(raw@, cdata_close(), idx + 9, 0, false);
                    lemma_find_from_bounds(raw@, cdata_close(), idx + 9, false);
                }
                match find_chars(raw, close.as_slice(), idx + 9, false) {
                    Some(e) => {
                        let ghost mid = out@;
                        extend_chars(out, &raw[idx + 9..e]);
                        assert(raw@.subrange(idx + 9, e as int) =~= raw@.skip(idx + 9).take(
                            e - (idx + 9),
                        ));
                        proof {
                            lemma_skip_skip(raw@, idx + 9, e + 3 - (idx + 9));
                        }
                        assert(out@ =~= before + r.take(idx - i) + raw@.skip(idx + 9).take(
                            e - (idx + 9),
                        ));
                        return e + 3;
                    },
                    None => {
                        extend_chars(out, &raw[idx + 9..n]);
                        proof {
                            lemma_subrange_skip(raw@, idx + 9);
                            assert(raw@.skip(n as int) =~= Seq::<char>::empty());
                        }
                        assert(out@ =~= before + r.take(idx - i) + raw@.skip(idx + 9)
                            + strip_tags(raw@.skip(n as int)));
                        return n;
                    },
                }
            } else {
                proof {
                    lemma_find_shift(raw@, seq!['>'], idx as int, 0, false);
                    lemma_find_from_bounds(raw@, seq!['>'], idx as int, false);
                }
                match find_char(raw, '>', idx) {
                    Some(t) => {
                        proof {
                            lemma_skip_skip(raw@, idx as int, t + 1 - idx);
                        }
                        return t + 1;
                    },
                    None => {
                        proof {
                            assert(raw@.skip(n as int) =~= Seq::<char>::empty());
                        }
                        assert(out@ =~= before + r.take(idx - i) + strip_tags(
                            raw@.skip(n as int),
                        ));
                        return n;
                    },
                }
            }
        },
    }
}

fn strip_tags_exec(raw: &[char]) -> (out: Vec<char>)
    ensures
        out@ == strip_tags(raw@),
{
    let n = raw.len();
    let open = cdata_open_chars();
    let close = cdata_close_chars();
    let mut out: Vec<char> = Vec::new();
    let mut i: usize = 0;
    assert(raw@.skip(0) =~= raw@);
    while i < n
        invariant
            n == raw@.len(),
            i <= n,
            open@ == cdata_open(),
            close@ == cdata_close(),
            strip_tags(raw@) == out@ + strip_tags(raw@.skip(i as int)),
        decreases n - i,
    {
        i = strip_step(raw, &mut out, i, &open, &close);
    }
    assert(raw@.skip(n as int) =~= Seq::<char>::empty());
    assert(out@ =~= out@ + Seq::<char>::empty());
    out
}

/// Text outside the tags of `raw`, CDATA unwrapped and entities decoded.
pub fn extract_text_ignoring_tags(raw: &[char]) -> (r: Vec<char>)
    ensures
        r@ == extract_text_spec(raw@),
{
    let stripped = strip_tags_exec(raw);
    decode_entities(stripped.as_slice())
}

} // verus!

verus! {

// ---------------------------------------------------------------------------
// Attributes of the event's opening tag
// ---------------------------------------------------------------------------

/// First index at or after `i` that is not ASCII whitespace.
pub open spec fn scan_aws(s: Seq<char>, i: int) -> int
    decreases s.len() - i,
{
    if 0 <= i < s.len() && is_ascii_ws(s[i]) {
        scan_aws(s, i + 1)
    } else {
        i
    }
}

/// First index at or after `i` holding `c` (or the end).
pub open spec fn scan_to(s: Seq<char>, i: int, c: char) -> int
    decreases s.len() - i,
{
    if 0 <= i < s.len() && s[i] != c {
        scan_to(s, i + 1, c)
    } else {
        i
    }
}

/// First index at or after `i` holding ASCII whitespace (or the end).
pub open spec fn scan_to_aws(s: Seq<char>, i: int) -> int
    decreases s.len() - i,
{
    if 0 <= i < s.len() && !is_ascii_ws(s[i]) {
        scan_to_aws(s, i + 1)
    } else {
        i
    }
}

pub proof fn lemma_scans(s: Seq<char>, i: int, c: char)
    requires
        0 <= i <= s.len(),
    ensures
        i <= scan_aws(s, i) <= s.len(),
        i <= scan_to(s, i, c) <= s.len(),
        i <= scan_to_aws(s, i) <= s.len(),
    decreases s.len() - i,
{
    if i < s.len() {
        lemma_scans(s, i + 1, c);
    }
}

/// `name=value` pairs of an opening tag, in order of appearance. A value is
/// quoted with `"` or `'` (an unterminated quote runs to the end) or runs to
/// the next ASCII whitespace; names are trimmed; a name without `=` ends the
/// list.
pub open spec fn attrs_from(s: Seq<char>, i: int) -> Seq<(Seq<char>, Seq<char>)>
    decreases s.len() - i,
{
    if i < 0 || i >= s.len() {
        Seq::empty()
    } else {
        let a = scan_aws(s, i);
        if a >= s.len() {
            Seq::empty()
        } else {
            let e = scan_to(s, a, '=');
            if e >= s.len() {
                Seq::empty()
            } else {
                proof {
                    lemma_scans(s, i, '=');
                    lemma_scans(s, a, '=');
                    lemma_scans(s, e + 1, '=');
                }
                let name = trim(s.subrange(a, e));
                let b = scan_aws(s, e + 1);
                if b < s.len() && (s[b] == '"' || s[b] == '\'') {
                    proof {
                        lemma_scans(s, b + 1, s[b]);
                    }
                    let q = scan_to(s, b + 1, s[b]);
                    let value = decode_entities_spec(s.subrange(b + 1, q));
                    seq![(name, value)] + attrs_from(
                        s,
                        if q < s.len() {
                            q + 1
                        } else {
                            q
                        },
                    )
                } else {
                    proof {
                        lemma_scans(s, b, '=');
                    }
                    let q = scan_to_aws(s, b);
                    seq![(name, decode_entities_spec(s.subrange(b, q)))] + attrs_from(s, q)
                }
            }
        }
    }
}

pub open spec fn attrs_of(s: Seq<char>) -> Seq<(Seq<char>, Seq<char>)> {
    attrs_from(s, 0)
}

/// Value of `key`: the last pair that names it wins.
pub open spec fn attr_get(a: Seq<(Seq<char>, Seq<char>)>, key: Seq<char>) -> Option<Seq<char>>
    decreases a.len(),
{
    if a.len() == 0 {
        None
    } else if a.last().0 == key {
        Some(a.last().1)
    } else {
        attr_get(a.drop_last(), key)
    }
}

/// One attribute of an opening tag.
pub struct Attr {
    pub name: Vec<char>,
    pub value: Vec<char>,
}

pub open spec fn attrs_view(v: Seq<Attr>) -> Seq<(Seq<char>, Seq<char>)> {
    Seq::new(v.len(), |i: int| (v[i].name@, v[i].value@))
}

fn scan_aws_exec(s: &[char], i: usize) -> (r: usize)
    requires
        i <= s@.len(),
    ensures
        r == scan_aws(s@, i as int),
{
    let mut j = i;
    while j < s.len() && is_ascii_whitespace(s[j])
        invariant
            i <= j <= s@.len(),
            scan_aws(s@, i as int) == scan_aws(s@, j as int),
        decreases s@.len() - j,
    {
        j += 1;
    }
    j
}

fn scan_to_exec(s: &[char], i: usize, c: char) -> (r: usize)
    requires
        i <= s@.len(),
    ensures
        r == scan_to(s@, i as int, c),
{
    let mut j = i;
    while j < s.len() && s[j] != c
        invariant
            i <= j <= s@.len(),
            scan_to(s@, i as int, c) == scan_to(s@, j as int, c),
        decreases s@.len() - j,
    {
        j += 1;
    }
    j
}

fn scan_to_aws_exec(s: &[char], i: usize) -> (r: usize)
    requires
        i <= s@.len(),
    ensures
        r == scan_to_aws(s@, i as int),
{
    let mut j = i;
    while j < s.len() && !is_ascii_whitespace(s[j])
        invariant
            i <= j <= s@.len(),
            scan_to_aws(s@, i as int) == scan_to_aws(s@, j as int),
        decreases s@.len() - j,
    {
        j += 1;
    }
    j
}

/// Trims both ends of `v[lo..hi]` into a new vector.
fn trimmed(v: &[char], lo: usize, hi: usize) -> (r: Vec<char>)
    requires
        lo <= hi <= v@.len(),
    ensures
        r@ == trim(v@.subrange(lo as int, hi as int)),
{
    let a = skip_ws(v, lo, hi);
    let b = skip_ws_back(v, a, hi);
    sub_vec(v, a, b)
}

/// Attribute pairs of the text between `<log4j:Event` and `>`.
pub fn parse_attrs_chars(s: &[char]) -> (r: Vec<Attr>)
    ensures
        attrs_view(r@) == attrs_of(s@),
{
    let n = s.len();
    let mut out: Vec<Attr> = Vec::new();
    let mut i: usize = 0;
    while i < n
        invariant
            n == s@.len(),
            i <= n,
            attrs_of(s@) == attrs_view(out@) + attrs_from(s@, i as int),
        decreases n - i,
    {
        let ghost before = attrs_view(out@);
        let a = scan_aws_exec(s, i);
        proof {
            lemma_scans(s@, i as int, '=');
        }
        if a >= n {
            assert(attrs_from(s@, i as int) =~= Seq::<(Seq<char>, Seq<char>)>::empty());
            assert(attrs_from(s@, n as int) =~= Seq::<(Seq<char>, Seq<char>)>::empty());
            assert(attrs_view(out@) =~= attrs_view(out@) + Seq::<(Seq<char>, Seq<char>)>::empty());
            return out;
        }
        let e = scan_to_exec(s, a, '=');
        proof {
            lemma_scans(s@, a as int, '=');
        }
        if e >= n {
            assert(attrs_from(s@, i as int) =~= Seq::<(Seq<char>, Seq<char>)>::empty());
            assert(attrs_view(out@) =~= attrs_view(out@) + Seq::<(Seq<char>, Seq<char>)>::empty());
            return out;
        }
        let name = trimmed(s, a, e);
        let b = scan_aws_exec(s, e + 1);
        proof {
            lemma_scans(s@, e + 1, '=');
        }
        if b < n && (s[b] == '"' || s[b] == '\'') {
            let q = scan_to_exec(s, b + 1, s[b]);
            proof {
                lemma_scans(s@, b + 1, s@[b as int]);
            }
            let value = decode_entities(&s[b + 1..q]);
            out.push(Attr { name, value });
            assert(attrs_view(out@) =~= before + seq![(name@, value@)]);
            i = if q < n {
                q + 1
            } else {
                q
            };
        } else {
            let q = scan_to_aws_exec(s, b);
            proof {
                lemma_scans(s@, b as int, '=');
            }
            let value = decode_entities(&s[b..q]);
            out.push(Attr { name, value });
            assert(attrs_view(out@) =~= before + seq![(name@, value@)]);
            i = q;
        }
    }
    proof {
        if i >= n {
            assert(attrs_from(s@, i as int) =~= Seq::<(Seq<char>, Seq<char>)>::empty());
        }
    }
    out
}

/// Value of `key` among parsed attributes (the last one wins).
fn attr_lookup(attrs: &Vec<Attr>, key: &[char]) -> (r: Option<Vec<char>>)
    ensures
        match r {
            Some(v) => attr_get(attrs_view(attrs@), key@) == Some(v@),
            None => attr_get(attrs_view(attrs@), key@) is None,
        },
{
    let mut j = attrs.len();
    assert(attrs@.take(j as int) =~= attrs@);
    while j > 0
        invariant
            j <= attrs@.len(),
            attr_get(attrs_view(attrs@), key@) == attr_get(attrs_view(attrs@.take(j as int)), key@),
        decreases j,
    {
        let ghost pre = attrs_view(attrs@.take(j as int));
        assert(pre.last() == (attrs@[j - 1].name@, attrs@[j - 1].value@));
        assert(pre.drop_last() =~= attrs_view(attrs@.take(j - 1)));
        if slices_equal(attrs[j - 1].name.as_slice(), key) {
            return Some(copy_chars(attrs[j - 1].value.as_slice()));
        }
        j -= 1;
    }
    None
}

fn slices_equal(a: &[char], b: &[char]) -> (r: bool)
    ensures
        r == (a@ == b@),
{
    if a.len() != b.len() {
        return false;
    }
    assert(a@.subrange(0, a@.len() as int) =~= a@);
    has_at(a, 0, b)
}

fn copy_chars(a: &[char]) -> (r: Vec<char>)
    ensures
        r@ == a@,
{
    let r = sub_vec(a, 0, a.len());
    assert(r@ =~= a@);
    r
}

/// The attribute pairs of a tag's attribute text, in order (a later pair
/// with the same name overrides an earlier one when looked up).
pub fn parse_attrs(s: &str) -> (r: Vec<(String, String)>)
    ensures
        r@.len() == attrs_of(s@).len(),
        forall|i: int|
            0 <= i < r@.len() ==> (#[trigger] r@[i]).0@ == attrs_of(s@)[i].0 && r@[i].1@
                == attrs_of(s@)[i].1,
{
    let v = chars_of(s);
    let attrs = parse_attrs_chars(v.as_slice());
    let mut out: Vec<(String, String)> = Vec::new();
    let mut i: usize = 0;
    while i < attrs.len()
        invariant
            i <= attrs@.len(),
            attrs_view(attrs@) == attrs_of(s@),
            out@.len() == i,
            forall|k: int|
                0 <= k < i ==> (#[trigger] out@[k]).0@ == attrs@[k].name@ && out@[k].1@
                    == attrs@[k].value@,
        decreases attrs@.len() - i,
    {
        let name = string_of(attrs[i].name.as_slice());
        let value = string_of(attrs[i].value.as_slice());
        out.push((name, value));
        i += 1;
    }
    out
}

} // verus!

verus! {

// ---------------------------------------------------------------------------
// Events
// ---------------------------------------------------------------------------

/// Non-blank lines, each without trailing whitespace.
pub open spec fn kept_lines(ls: Seq<Seq<char>>) -> Seq<Seq<char>>
    decreases ls.len(),
{
    if ls.len() == 0 {
        Seq::empty()
    } else {
        let l = trim_end(ls[0]);
        (if trim(l).len() > 0 {
            seq![l]
        } else {
            Seq::empty()
        }) + kept_lines(ls.drop_first())
    }
}

pub open spec fn extra_lines_of(t: Seq<char>) -> Seq<Seq<char>> {
    kept_lines(lines(t))
}

proof fn lemma_kept_lines_cons(x: Seq<char>, rest: Seq<Seq<char>>)
    ensures
        kept_lines(seq![x] + rest) == (if trim(trim_end(x)).len() > 0 {
            seq![trim_end(x)]
        } else {
            Seq::<Seq<char>>::empty()
        }) + kept_lines(rest),
{
    let l = seq![x] + rest;
    assert(l[0] == x);
    assert(l.drop_first() =~= rest);
}

/// The non-blank lines of `t`, right-trimmed.
fn extra_lines_exec(t: &[char]) -> (out: Vec<String>)
    ensures
        strings_view(out@) == extra_lines_of(t@),
{
    let n = t.len();
    let mut out: Vec<String> = Vec::new();
    let mut i: usize = 0;
    assert(t@.skip(0) =~= t@);
    while i < n
        invariant
            n == t@.len(),
            i <= n,
            extra_lines_of(t@) == strings_view(out@) + kept_lines(lines(t@.skip(i as int))),
        decreases n - i,
    {
        let ghost before = strings_view(out@);
        let ghost rest = t@.skip(i as int);
        proof {
            lemma_find_shift(t@, seq!['\n'], i as int, 0, false);
            lemma_find_from_bounds(t@, seq!['\n'], i as int, false);
        }
        let (hi, next) = match find_char(t, '\n', i) {
            Some(k) => {
                let hi = if k > i && t[k - 1] == '\r' {
                    k - 1
                } else {
                    k
                };
                assert(t@.subrange(i as int, hi as int) =~= strip_cr(rest.take(k - i)));
                proof {
                    lemma_skip_skip(t@, i as int, k + 1 - i);
                    lemma_kept_lines_cons(strip_cr(rest.take(k - i)), lines(t@.skip(k + 1)));
                }
                (hi, k + 1)
            },
            None => {
                assert(t@.subrange(i as int, n as int) =~= rest);
                proof {
                    assert(t@.skip(n as int) =~= Seq::<char>::empty());
                    assert(lines(rest) == seq![rest]);
                    assert(seq![rest] =~= seq![rest] + lines(t@.skip(n as int)));
                    lemma_kept_lines_cons(rest, lines(t@.skip(n as int)));
                }
                (n, n)
            },
        };
        let hb = skip_ws_back(t, i, hi);
        let a = skip_ws(t, i, hb);
        proof {
            let l = t@.subrange(i as int, hb as int);
            assert(trim_start(l) =~= t@.subrange(a as int, hb as int));
            lemma_trim_start_first(l);
            if a < hb {
                lemma_trim_end_keeps_first(trim_start(l));
            } else {
                assert(trim_start(l) =~= Seq::<char>::empty());
            }
        }
        if a < hb {
            let line = string_of(&t[i..hb]);
            out.push(line);
            assert(strings_view(out@) =~= before + seq![t@.subrange(i as int, hb as int)]);
        } else {
            assert(strings_view(out@) =~= before + Seq::<Seq<char>>::empty());
        }
        i = next;
    }
    assert(t@.skip(n as int) =~= Seq::<char>::empty());
    assert(strings_view(out@) =~= strings_view(out@) + Seq::<Seq<char>>::empty());
    out
}

pub open spec fn ev_open() -> Seq<char> {
    seq!['<', 'l', 'o', 'g', '4', 'j', ':', 'e', 'v', 'e', 'n', 't']
}

pub open spec fn ev_close() -> Seq<char> {
    seq!['<', '/', 'l', 'o', 'g', '4', 'j', ':', 'e', 'v', 'e', 'n', 't', '>']
}

pub open spec fn msg_open() -> Seq<char> {
    seq!['<', 'l', 'o', 'g', '4', 'j', ':', 'm', 'e', 's', 's', 'a', 'g', 'e']
}

pub open spec fn msg_close() -> Seq<char> {
    seq!['<', '/', 'l', 'o', 'g', '4', 'j', ':', 'm', 'e', 's', 's', 'a', 'g', 'e']
}

pub open spec fn key_timestamp() -> Seq<char> {
    seq!['t', 'i', 'm', 'e', 's', 't', 'a', 'm', 'p']
}

pub open spec fn key_level() -> Seq<char> {
    seq!['l', 'e', 'v', 'e', 'l']
}

pub open spec fn key_thread() -> Seq<char> {
    seq!['t', 'h', 'r', 'e', 'a', 'd']
}

pub open spec fn key_logger() -> Seq<char> {
    seq!['l', 'o', 'g', 'g', 'e', 'r']
}

/// One parsed log event.
pub struct GameLogEvent {
    pub timestamp_ms: i64,
    pub level: String,
    pub thread: String,
    pub logger: String,
    pub message: String,
    /// Content after the message (such as a stack trace), line by line.
    pub extra_lines: Vec<String>,
}

/// Model of a log event: its fields as character sequences.
pub struct EventView {
    pub timestamp_ms: int,
    pub level: Seq<char>,
    pub thread: Seq<char>,
    pub logger: Seq<char>,
    pub message: Seq<char>,
    pub extra_lines: Seq<Seq<char>>,
}

impl View for GameLogEvent {
    type V = EventView;

    open spec fn view(&self) -> EventView {
        EventView {
            timestamp_ms: self.timestamp_ms as int,
            level: self.level@,
            thread: self.thread@,
            logger: self.logger@,
            message: self.message@,
            extra_lines: strings_view(self.extra_lines@),
        }
    }
}

/// Result of reading an event block.
pub enum EventParse {
    /// No complete opening tag, end tag or message tag end: no event.
    NotFound,
    /// The block's tags stand in an order whose slicing is out of bounds.
    Fails,
    Parsed(EventView),
}

pub open spec fn attr_or_empty(a: Seq<(Seq<char>, Seq<char>)>, key: Seq<char>) -> Seq<char> {
    match attr_get(a, key) {
        Some(v) => v,
        None => Seq::empty(),
    }
}

/// The event built from its attributes, message text and extra lines; a
/// missing or malformed timestamp reads as 0.
pub open spec fn event_of(
    a: Seq<(Seq<char>, Seq<char>)>,
    message: Seq<char>,
    extra: Seq<Seq<char>>,
) -> EventView {
    EventView {
        timestamp_ms: match attr_get(a, key_timestamp()) {
            Some(v) => match parse_i64_spec(v) {
                Some(t) => t,
                None => 0,
            },
            None => 0,
        },
        level: attr_or_empty(a, key_level()),
        thread: attr_or_empty(a, key_thread()),
        logger: attr_or_empty(a, key_logger()),
        message,
        extra_lines: extra,
    }
}

/// Reading of one event block `s`.
pub open spec fn parse_event_spec(s: Seq<char>) -> EventParse {
    match find_chars_ci(s, ev_open()) {
        None => EventParse::NotFound,
        Some(start) => match find_from(s, seq!['>'], start, false) {
            None => EventParse::NotFound,
            Some(oe) => {
                let attrs = attrs_of(s.subrange(start + 12, oe));
                match find_chars_ci(s, ev_close()) {
                    None => EventParse::NotFound,
                    Some(end) => if end < oe + 1 {
                        EventParse::Fails
                    } else {
                        let content = s.subrange(oe + 1, end);
                        let fallback = EventParse::Parsed(
                            event_of(
                                attrs,
                                decode_xml_text_spec(trim_start(content)),
                                Seq::empty(),
                            ),
                        );
                        match find_chars_ci(content, msg_open()) {
                            None => fallback,
                            Some(ms) => match find_from(content, seq!['>'], ms, false) {
                                None => EventParse::NotFound,
                                Some(te) => match find_chars_ci(content, msg_close()) {
                                    None => fallback,
                                    Some(mc) => if mc < te + 1 || mc + 15 >= content.len()
                                        || content[mc + 15] as u32 >= 0x80 {
                                        EventParse::Fails
                                    } else {
                                        EventParse::Parsed(
                                            event_of(
                                                attrs,
                                                decode_xml_text_spec(
                                                    trim_start(content.subrange(te + 1, mc)),
                                                ),
                                                extra_lines_of(
                                                    extract_text_spec(content.skip(mc + 16)),
                                                ),
                                            ),
                                        )
                                    },
                                },
                            },
                        }
                    },
                }
            },
        },
    }
}

fn event_from_attrs(attrs: &Vec<Attr>, message: Vec<char>, extra_lines: Vec<String>) -> (ev:
    GameLogEvent)
    ensures
        ev@ == event_of(attrs_view(attrs@), message@, strings_view(extra_lines@)),
{
    let ts_key = ['t', 'i', 'm', 'e', 's', 't', 'a', 'm', 'p'];
    let level_key = ['l', 'e', 'v', 'e', 'l'];
    let thread_key = ['t', 'h', 'r', 'e', 'a', 'd'];
    let logger_key = ['l', 'o', 'g', 'g', 'e', 'r'];
    assert(ts_key@ =~= key_timestamp());
    assert(level_key@ =~= key_level());
    assert(thread_key@ =~= key_thread());
    assert(logger_key@ =~= key_logger());
    let timestamp_ms: i64 = match attr_lookup(attrs, ts_key.as_slice()) {
        Some(v) => match parse_i64(v.as_slice()) {
            Some(t) => t,
            None => 0,
        },
        None => 0,
    };
    let level = match attr_lookup(attrs, level_key.as_slice()) {
        Some(v) => string_of(v.as_slice()),
        None => String::new(),
    };
    let thread = match attr_lookup(attrs, thread_key.as_slice()) {
        Some(v) => string_of(v.as_slice()),
        None => String::new(),
    };
    let logger = match attr_lookup(attrs, logger_key.as_slice()) {
        Some(v) => string_of(v.as_slice()),
        None => String::new(),
    };
    let ev = GameLogEvent {
        timestamp_ms,
        level,
        thread,
        logger,
        message: string_of(message.as_slice()),
        extra_lines,
    };
    ev
}

proof fn lemma_open_end_after_tag(s: Seq<char>, start: int)
    requires
        match_at(s, ev_open(), start, true),
    ensures
        find_from(s, seq!['>'], start, false) == find_from(s, seq!['>'], start + 12, false),
{
    assert forall|j: int| start <= j < start + 12 implies !match_at(s, seq!['>'], j, false) by {
        let k = j - start;
        assert(char_eq(s[start + k], ev_open()[k], true));
        assert(seq!['>'][0] == '>');
        if match_at(s, seq!['>'], j, false) {
            assert(char_eq(s[j + 0], seq!['>'][0], false));
        }
    }
    lemma_find_skip(s, seq!['>'], start, 12, false);
}

/// Event reading on characters.
pub fn parse_event_chars(s: &[char]) -> (r: Option<GameLogEvent>)
    requires
        !(parse_event_spec(s@) is Fails),
    ensures
        match r {
            None => parse_event_spec(s@) is NotFound,
            Some(ev) => parse_event_spec(s@) == EventParse::Parsed(ev@),
        },
{
    let open = ['<', 'l', 'o', 'g', '4', 'j', ':', 'e', 'v', 'e', 'n', 't'];
    let close = ['<', '/', 'l', 'o', 'g', '4', 'j', ':', 'e', 'v', 'e', 'n', 't', '>'];
    let m_open = ['<', 'l', 'o', 'g', '4', 'j', ':', 'm', 'e', 's', 's', 'a', 'g', 'e'];
    let m_close = ['<', '/', 'l', 'o', 'g', '4', 'j', ':', 'm', 'e', 's', 's', 'a', 'g', 'e'];
    assert(open@ =~= ev_open());
    assert(close@ =~= ev_close());
    assert(m_open@ =~= msg_open());
    assert(m_close@ =~= msg_close());
    let start = match find_chars(s, open.as_slice(), 0, true) {
        Some(p) => p,
        None => return None,
    };
    proof {
        lemma_find_from_bounds(s@, ev_open(), 0, true);
        lemma_open_end_after_tag(s@, start as int);
        lemma_find_from_bounds(s@, seq!['>'], start + 12, false);
    }
    let oe = match find_char(s, '>', start) {
        Some(p) => p,
        None => return None,
    };
    let attrs = parse_attrs_chars(&s[start + 12..oe]);
    let end = match find_chars(s, close.as_slice(), 0, true) {
        Some(p) => p,
        None => return None,
    };
    proof {
        lemma_find_from_bounds(s@, ev_close(), 0, true);
    }
    let content = sub_vec(s, oe + 1, end);
    let cl = content.len();
    match find_chars(content.as_slice(), m_open.as_slice(), 0, true) {
        None => {},
        Some(ms) => {
            proof {
                lemma_find_from_bounds(content@, msg_open(), 0, true);
                lemma_find_from_bounds(content@, seq!['>'], ms as int, false);
            }
            let te = match find_char(content.as_slice(), '>', ms) {
                Some(p) => p,
                None => return None,
            };
            match find_chars(content.as_slice(), m_close.as_slice(), 0, true) {
                None => {},
                Some(mc) => {
                    proof {
                        lemma_find_from_bounds(content@, msg_close(), 0, true);
                    }
                    let raw = &content[te + 1..mc];
                    let j = skip_ws(raw, 0, raw.len());
                    proof {
                        lemma_subrange_skip(raw@, 0);
                        assert(raw@.skip(0) =~= raw@);
                    }
                    let message = decode_xml_text(&raw[j..raw.len()]);
                    let rest = &content[mc + 16..cl];
                    proof {
                        lemma_subrange_skip(content@, mc + 16);
                    }
                    let extra = extract_text_ignoring_tags(rest);
                    let extra_lines = extra_lines_exec(extra.as_slice());
                    return Some(event_from_attrs(&attrs, message, extra_lines));
                },
            }
        },
    }
    let j = skip_ws(content.as_slice(), 0, cl);
    proof {
        lemma_subrange_skip(content@, 0);
        assert(content@.skip(0) =~= content@);
    }
    let message = decode_xml_text(&content[j..cl]);
    let no_lines: Vec<String> = Vec::new();
    assert(strings_view(no_lines@) =~= Seq::<Seq<char>>::empty());
    Some(event_from_attrs(&attrs, message, no_lines))
}

/// Turns one XML event block into an event (`None` when the block holds no
/// complete event). The block must not be one whose tag order makes the
/// reading fail (see `event_block_fails`).
pub fn parse_event_block(xml: &str) -> (r: Option<GameLogEvent>)
    requires
        !(parse_event_spec(xml@) is Fails),
    ensures
        match r {
            None => parse_event_spec(xml@) is NotFound,
            Some(ev) => parse_event_spec(xml@) == EventParse::Parsed(ev@),
        },
{
    let s = chars_of(xml);
    parse_event_chars(s.as_slice())
}

} // verus!

verus! {

// ---------------------------------------------------------------------------
// Rendering
// ---------------------------------------------------------------------------

/// Result of `str::to_uppercase` (Unicode case mapping).
pub uninterp spec fn upper_case(s: Seq<char>) -> Seq<char>;

/// ASCII upper-casing of every character.
pub open spec fn ascii_upper(s: Seq<char>) -> Seq<char> {
    Seq::new(
        s.len(),
        |i: int|
            if 'a' <= s[i] && s[i] <= 'z' {
                ((s[i] as u32 - 32) as u32) as char
            } else {
                s[i]
            },
    )
}

pub open spec fn all_ascii(s: Seq<char>) -> bool {
    forall|i: int| 0 <= i < s.len() ==> (#[trigger] s[i]) as u32 <= 0x7f
}

/// The level as shown: ASCII upper-cased when it is ASCII, else its Unicode
/// upper-case mapping.
pub open spec fn level_upper(s: Seq<char>) -> Seq<char> {
    if all_ascii(s) {
        ascii_upper(s)
    } else {
        upper_case(s)
    }
}

/// `str::to_uppercase`. On ASCII text it maps `a`..=`z` to `A`..=`Z` and
/// keeps everything else; other text follows the Unicode case mapping,
/// which is left to the name `upper_case`.
#[verifier::external_body]
fn to_uppercase(s: &str) -> (r: String)
    ensures
        r@ == upper_case(s@),
        all_ascii(s@) ==> r@ == ascii_upper(s@),
{
    s.to_uppercase()
}

/// Earliest and latest whole second that the `time` crate can represent
/// (years -9999 and 9999).
pub open spec fn min_unix_second() -> int {
    -377_705_203_200
}

pub open spec fn max_unix_second() -> int {
    253_402_300_799
}

/// Largest magnitude of a UTC offset in seconds (25:59:59).
pub open spec fn max_offset_seconds() -> int {
    93_599
}

/// The second of an epoch-millisecond timestamp lies outside the
/// representable range (the clock text is then empty).
pub open spec fn clock_out_of_range(ms: int) -> bool {
    ms / 1000 < min_unix_second() || ms / 1000 > max_unix_second()
}

/// The clock text of `ms` is defined whatever the local offset: either the
/// second is out of range, or it is far enough from both ends that shifting
/// it by any offset keeps a representable date.
pub open spec fn clock_defined(ms: int) -> bool {
    clock_out_of_range(ms) || (min_unix_second() + max_offset_seconds() <= ms / 1000
        && ms / 1000 <= max_unix_second() - max_offset_seconds())
}

/// The clock text of `ms` is defined at the UTC offset `off`: the second is
/// out of range, or moved by the offset it stays in range (`to_offset`
/// panics otherwise; at offset 0 it never moves).
pub open spec fn clock_defined_at(ms: int, off: int) -> bool {
    clock_out_of_range(ms) || (min_unix_second() <= ms / 1000 + off && ms / 1000 + off
        <= max_unix_second())
}

/// `HH:MM:SS` of an epoch-millisecond timestamp seen at a UTC offset.
pub uninterp spec fn clock_text_of(ms: int, offset_seconds: int) -> Seq<char>;

/// The machine's current UTC offset in seconds, UTC when it cannot be
/// determined (`time::UtcOffset::current_local_offset`). Depends on the
/// environment; only its range is stated.
#[verifier::external_body]
fn local_offset_seconds() -> (r: i32)
    ensures
        -max_offset_seconds() <= r <= max_offset_seconds(),
{
    time::UtcOffset::current_local_offset().unwrap_or(time::UtcOffset::UTC).whole_seconds()
}

/// `time::OffsetDateTime::from_unix_timestamp_nanos` of the timestamp, moved
/// to the offset with `to_offset`, as zero-padded `HH:MM:SS`. `None` exactly
/// when the second is outside the representable range.
#[verifier::external_body]
fn clock_text(ms: i64, offset_seconds: i32) -> (r: Option<String>)
    requires
        clock_defined_at(ms as int, offset_seconds as int),
        -max_offset_seconds() <= offset_seconds <= max_offset_seconds(),
    ensures
        r is None <==> clock_out_of_range(ms as int),
        r matches Some(t) ==> t@ == clock_text_of(ms as int, offset_seconds as int)
            && t@.len() == 8,
{
    let odt = time::OffsetDateTime::from_unix_timestamp_nanos(ms as i128 * 1_000_000).ok()?;
    let offset = time::UtcOffset::from_whole_seconds(offset_seconds).ok()?;
    let local = odt.to_offset(offset);
    Some(format!("{:02}:{:02}:{:02}", local.hour(), local.minute(), local.second()))
}

/// Whether `clock_defined` holds, for callers that must check it first.
pub fn clock_is_defined(ms: i64) -> (b: bool)
    ensures
        b == clock_defined(ms as int),
{
    let s: i64 = if ms >= 0 {
        ms / 1000
    } else {
        -((-(ms as i128) + 999) / 1000) as i64
    };
    assert(s == ms / 1000) by (nonlinear_arith)
        requires
            s == (if ms >= 0 {
                ms / 1000
            } else {
                -((-(ms as int) + 999) / 1000)
            }),
    ;
    s < -377_705_203_200 || s > 253_402_300_799 || (-377_705_203_200 + 93_599 <= s && s
        <= 253_402_300_799 - 93_599)
}

/// The machine's current UTC offset in seconds (UTC when it cannot be
/// determined).
pub fn local_utc_offset() -> (r: i32)
    ensures
        -max_offset_seconds() <= r <= max_offset_seconds(),
{
    local_offset_seconds()
}

/// Whether `clock_defined_at` holds, for callers that must check it first.
pub fn clock_is_defined_at(ms: i64, offset_seconds: i32) -> (b: bool)
    ensures
        b == clock_defined_at(ms as int, offset_seconds as int),
{
    let s: i64 = if ms >= 0 {
        ms / 1000
    } else {
        -((-(ms as i128) + 999) / 1000) as i64
    };
    assert(s == ms / 1000) by (nonlinear_arith)
        requires
            s == (if ms >= 0 {
                ms / 1000
            } else {
                -((-(ms as int) + 999) / 1000)
            }),
    ;
    let moved: i128 = s as i128 + offset_seconds as i128;
    s < -377_705_203_200 || s > 253_402_300_799 || (-377_705_203_200 <= moved && moved
        <= 253_402_300_799)
}

/// The wall-clock time `HH:MM:SS` of an epoch-millisecond timestamp at a
/// UTC offset; empty when the timestamp is outside the representable range.
pub fn format_timestamp_at(ms: i64, offset_seconds: i32) -> (r: String)
    requires
        -max_offset_seconds() <= offset_seconds <= max_offset_seconds(),
        clock_defined_at(ms as int, offset_seconds as int),
    ensures
        r@ == (if clock_out_of_range(ms as int) {
            Seq::empty()
        } else {
            clock_text_of(ms as int, offset_seconds as int)
        }),
{
    match clock_text(ms, offset_seconds) {
        Some(t) => t,
        None => String::new(),
    }
}

/// The local wall-clock time `HH:MM:SS` of an epoch-millisecond timestamp;
/// empty when the timestamp is outside the representable range. Its
/// `requires` holds whatever the local offset; `format_timestamp_at` takes
/// the offset and asks exactly what it needs.
pub fn format_timestamp_ms(ms: i64) -> (r: String)
    requires
        clock_defined(ms as int),
    ensures
        clock_out_of_range(ms as int) ==> r@.len() == 0,
        !clock_out_of_range(ms as int) ==> exists|off: int|
            -max_offset_seconds() <= off <= max_offset_seconds() && r@ == #[trigger] clock_text_of(
                ms as int,
                off,
            ),
{
    let offset = local_offset_seconds();
    let r = format_timestamp_at(ms, offset);
    proof {
        if !clock_out_of_range(ms as int) {
            assert(r@ == clock_text_of(ms as int, offset as int));
        }
    }
    r
}

/// Lines of an event shown at clock text `time`: a header
/// `[time] [thread/LEVEL]: ` followed by the first message line, the other
/// message lines, then the extra lines. A blank thread shows as `?`.
pub open spec fn event_lines_spec(ev: EventView, time: Seq<char>) -> Seq<Seq<char>> {
    let level = level_upper(ev.level);
    let thread = if ev.thread.len() == 0 {
        seq!['?']
    } else {
        trim(ev.thread)
    };
    let header = seq!['['] + time + seq![']', ' ', '['] + thread + seq!['/'] + level + seq![']'];
    let ml = lines(ev.message);
    let msg = Seq::new(ml.len(), |i: int| trim_end(ml[i]));
    (if msg.len() == 0 {
        seq![header + seq![':', ' ']]
    } else {
        seq![header + seq![':', ' '] + msg[0]] + msg.skip(1)
    }) + ev.extra_lines
}

/// How an event reads on the console: one line per message line (one line
/// for an empty message), the first led by `[time] [thread/LEVEL]: `, each
/// right-trimmed, then every extra (throwable) line of the event, unchanged
/// and in order.
pub proof fn event_lines_shape(ev: EventView, time: Seq<char>)
    ensures
        ({
            let r = event_lines_spec(ev, time);
            let ml = lines(ev.message);
            let n = if ml.len() == 0 {
                1int
            } else {
                ml.len() as int
            };
            let thread = if ev.thread.len() == 0 {
                seq!['?']
            } else {
                trim(ev.thread)
            };
            let head = seq!['['] + time + seq![']', ' ', '['] + thread + seq!['/'] + level_upper(ev.level)
                + seq![']', ':', ' '];
            &&& r.len() == n + ev.extra_lines.len()
            &&& r.skip(n) == ev.extra_lines
            &&& r[0] == head + (if ml.len() == 0 {
                Seq::<char>::empty()
            } else {
                trim_end(ml[0])
            })
            &&& forall|i: int| 1 <= i < n ==> #[trigger] r[i] == trim_end(ml[i])
        }),
{
    let r = event_lines_spec(ev, time);
    let ml = lines(ev.message);
    let msg = Seq::new(ml.len(), |i: int| trim_end(ml[i]));
    let thread = if ev.thread.len() == 0 {
        seq!['?']
    } else {
        trim(ev.thread)
    };
    let header = seq!['['] + time + seq![']', ' ', '['] + thread + seq!['/'] + level_upper(ev.level) + seq![']'];
    let head = seq!['['] + time + seq![']', ' ', '['] + thread + seq!['/'] + level_upper(ev.level) + seq![
        ']',
        ':',
        ' ',
    ];
    assert(header + seq![':', ' '] =~= head);
    if msg.len() == 0 {
        let first = seq![header + seq![':', ' ']];
        assert(r == first + ev.extra_lines);
        assert(r.skip(1) =~= ev.extra_lines);
        assert(head + Seq::<char>::empty() =~= head);
    } else {
        let first = seq![header + seq![':', ' '] + msg[0]] + msg.skip(1);
        assert(r == first + ev.extra_lines);
        assert(r.skip(ml.len() as int) =~= ev.extra_lines);
        assert(header + seq![':', ' '] + msg[0] =~= head + trim_end(ml[0]));
        assert forall|i: int| 1 <= i < ml.len() implies #[trigger] r[i] == trim_end(ml[i]) by {
            assert(r[i] == first[i]);
            assert(first[i] == msg.skip(1)[i - 1]);
        }
    }
}

fn trim_end_string(v: &[char]) -> (r: String)
    ensures
        r@ == trim_end(v@),
{
    let e = skip_ws_back(v, 0, v.len());
    assert(v@.subrange(0, v@.len() as int) =~= v@);
    string_of(&v[0..e])
}

/// Lines of an event rendered with the given clock text.
pub fn event_lines_at(ev: &GameLogEvent, time: &str) -> (r: Vec<String>)
    ensures
        strings_view(r@) == event_lines_spec(ev@, time@),
{
    let level = to_uppercase(ev.level.as_str());
    let thread_chars = chars_of(ev.thread.as_str());
    let thread: Vec<char> = if thread_chars.len() == 0 {
        let q = vec!['?'];
        assert(q@ =~= seq!['?']);
        q
    } else {
        trimmed(thread_chars.as_slice(), 0, thread_chars.len())
    };
    assert(thread_chars@.subrange(0, thread_chars@.len() as int) =~= thread_chars@);
    let mut header: Vec<char> = vec!['['];
    extend_chars(&mut header, chars_of(time).as_slice());
    let mid = [']', ' ', '['];
    extend_chars(&mut header, mid.as_slice());
    extend_chars(&mut header, thread.as_slice());
    let slash = ['/'];
    extend_chars(&mut header, slash.as_slice());
    extend_chars(&mut header, chars_of(level.as_str()).as_slice());
    let close = [']', ':', ' '];
    extend_chars(&mut header, close.as_slice());
    assert(header@ =~= seq!['['] + time@ + seq![']', ' ', '['] + thread@ + seq!['/']
        + level_upper(ev.level@) + seq![']'] + seq![':', ' ']);
    let msg_chars = chars_of(ev.message.as_str());
    let ml = lines_exec(msg_chars.as_slice());
    let ghost msg = Seq::new(lines(ev.message@).len(), |i: int| trim_end(lines(ev.message@)[i]));
    let mut out: Vec<String> = Vec::new();
    if ml.len() == 0 {
        out.push(string_of(header.as_slice()));
        assert(strings_view(out@) =~= seq![header@]);
        assert(msg.len() == 0);
    } else {
        assert(char_vecs_view(ml@)[0] == ml@[0]@);
        let first = ml[0].as_slice();
        let fe = skip_ws_back(first, 0, first.len());
        assert(first@.subrange(0, first@.len() as int) =~= first@);
        let ghost h0 = header@;
        extend_chars(&mut header, &first[0..fe]);
        out.push(string_of(header.as_slice()));
        assert(header@ == h0 + msg[0]);
        assert(strings_view(out@) =~= seq![h0 + msg[0]] + msg.subrange(1, 1));
        let mut i: usize = 1;
        while i < ml.len()
            invariant
                1 <= i <= ml@.len(),
                char_vecs_view(ml@) == lines(ev.message@),
                msg.len() == ml@.len(),
                msg == Seq::new(lines(ev.message@).len(), |i: int| trim_end(lines(ev.message@)[i])),
                strings_view(out@) == seq![h0 + msg[0]] + msg.subrange(1, i as int),
            decreases ml@.len() - i,
        {
            assert(char_vecs_view(ml@)[i as int] == ml@[i as int]@);
            let line = trim_end_string(ml[i].as_slice());
            let ghost prev = strings_view(out@);
            out.push(line);
            assert(strings_view(out@) =~= prev + seq![msg[i as int]]);
            assert(msg.subrange(1, i + 1) =~= msg.subrange(1, i as int) + seq![msg[i as int]]);
            i += 1;
        }
        assert(msg.subrange(1, ml@.len() as int) =~= msg.skip(1));
    }
    let ghost lead = strings_view(out@);
    let mut k: usize = 0;
    while k < ev.extra_lines.len()
        invariant
            k <= ev.extra_lines@.len(),
            strings_view(out@) == lead + strings_view(ev.extra_lines@).take(k as int),
        decreases ev.extra_lines@.len() - k,
    {
        let ghost prev = strings_view(out@);
        out.push(ev.extra_lines[k].clone());
        assert(strings_view(out@) =~= prev + seq![ev.extra_lines@[k as int]@]);
        assert(strings_view(ev.extra_lines@).take(k + 1) =~= strings_view(ev.extra_lines@).take(
            k as int,
        ) + seq![ev.extra_lines@[k as int]@]);
        k += 1;
    }
    assert(strings_view(ev.extra_lines@).take(ev.extra_lines@.len() as int) =~= strings_view(
        ev.extra_lines@,
    ));
    out
}

} // verus!

verus! {

/// Lines of an event with its clock time at a UTC offset (empty time text
/// when the timestamp is out of range).
pub fn event_to_lines_at(ev: &GameLogEvent, offset_seconds: i32) -> (r: Vec<String>)
    requires
        -max_offset_seconds() <= offset_seconds <= max_offset_seconds(),
        clock_defined_at(ev.timestamp_ms as int, offset_seconds as int),
    ensures
        strings_view(r@) == event_lines_spec(
            ev@,
            if clock_out_of_range(ev.timestamp_ms as int) {
                Seq::empty()
            } else {
                clock_text_of(ev.timestamp_ms as int, offset_seconds as int)
            },
        ),
{
    let time = format_timestamp_at(ev.timestamp_ms, offset_seconds);
    event_lines_at(ev, time.as_str())
}

/// Lines of an event with its local clock time. The local UTC offset comes
/// from the environment, so only the shape is stated: the lines are those of
/// `event_lines_spec` at the clock text of some valid offset (empty text when
/// the timestamp is out of range). Its `requires` holds whatever the local
/// offset; `event_to_lines_at` takes the offset and asks exactly what it
/// needs.
pub fn event_to_lines(ev: &GameLogEvent) -> (r: Vec<String>)
    requires
        clock_defined(ev.timestamp_ms as int),
    ensures
        clock_out_of_range(ev.timestamp_ms as int) ==> strings_view(r@) == event_lines_spec(
            ev@,
            Seq::empty(),
        ),
        !clock_out_of_range(ev.timestamp_ms as int) ==> exists|off: int|
            -max_offset_seconds() <= off <= max_offset_seconds() && strings_view(r@)
                == #[trigger] event_lines_spec(ev@, clock_text_of(ev.timestamp_ms as int, off)),
{
    let offset = local_offset_seconds();
    let r = event_to_lines_at(ev, offset);
    proof {
        if clock_out_of_range(ev.timestamp_ms as int) {
            assert(strings_view(r@) == event_lines_spec(ev@, Seq::empty()));
        } else {
            assert(strings_view(r@) == event_lines_spec(
                ev@,
                clock_text_of(ev.timestamp_ms as int, offset as int),
            ));
        }
    }
    r
}

/// Whether reading the event block `s` fails (its tags stand in an order whose
/// slicing is out of bounds), for callers that must check before parsing.
pub fn event_block_fails_chars(s: &[char]) -> (b: bool)
    ensures
        b == (parse_event_spec(s@) is Fails),
{
    let open = ['<', 'l', 'o', 'g', '4', 'j', ':', 'e', 'v', 'e', 'n', 't'];
    let close = ['<', '/', 'l', 'o', 'g', '4', 'j', ':', 'e', 'v', 'e', 'n', 't', '>'];
    let m_open = ['<', 'l', 'o', 'g', '4', 'j', ':', 'm', 'e', 's', 's', 'a', 'g', 'e'];
    let m_close = ['<', '/', 'l', 'o', 'g', '4', 'j', ':', 'm', 'e', 's', 's', 'a', 'g', 'e'];
    assert(open@ =~= ev_open());
    assert(close@ =~= ev_close());
    assert(m_open@ =~= msg_open());
    assert(m_close@ =~= msg_close());
    let _sl = s.len();
    let start = match find_chars(s, open.as_slice(), 0, true) {
        Some(p) => p,
        None => return false,
    };
    proof {
        lemma_find_from_bounds(s@, ev_open(), 0, true);
        lemma_open_end_after_tag(s@, start as int);
        lemma_find_from_bounds(s@, seq!['>'], start + 12, false);
    }
    let oe = match find_char(s, '>', start) {
        Some(p) => p,
        None => return false,
    };
    let end = match find_chars(s, close.as_slice(), 0, true) {
        Some(p) => p,
        None => return false,
    };
    proof {
        lemma_find_from_bounds(s@, ev_close(), 0, true);
    }
    if end < oe + 1 {
        return true;
    }
    let content = sub_vec(s, oe + 1, end);
    let cl = content.len();
    let ms = match find_chars(content.as_slice(), m_open.as_slice(), 0, true) {
        Some(p) => p,
        None => return false,
    };
    proof {
        lemma_find_from_bounds(content@, msg_open(), 0, true);
    }
    proof {
        lemma_find_from_bounds(content@, seq!['>'], ms as int, false);
    }
    let te = match find_char(content.as_slice(), '>', ms) {
        Some(p) => p,
        None => return false,
    };
    let mc = match find_chars(content.as_slice(), m_close.as_slice(), 0, true) {
        Some(p) => p,
        None => return false,
    };
    proof {
        lemma_find_from_bounds(content@, msg_close(), 0, true);
    }
    mc < te + 1 || mc + 15 >= cl || content[mc + 15] as u32 >= 0x80
}

/// `event_block_fails_chars` on a string.
pub fn event_block_fails(xml: &str) -> (b: bool)
    ensures
        b == (parse_event_spec(xml@) is Fails),
{
    let s = chars_of(xml);
    event_block_fails_chars(s.as_slice())
}

} // verus!
