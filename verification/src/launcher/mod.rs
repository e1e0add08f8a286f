//! Launch sessions: assembly of the game's console output and the small
//! decisions made around a launch.

pub mod command;
pub mod logfmt;
pub mod natives;
pub mod session;

use vstd::prelude::*;
use vstd::utf8::{decode_utf8, valid_utf8};

use crate::launcher::logfmt::{
    bytes_find_ci_from, bytes_match_ci, held_tag_len, held_tag_len_exec, lower_byte, end_after_spec, event_end_bytes, event_start_bytes, find_ci_spec, find_event_end_after, find_event_start,
    lemma_bytes_find_bounds, parse_event_chars, parse_event_spec, event_block_fails_chars,
    EventParse, EventView, GameLogEvent,
};
use crate::text::{chars_of, strings_view};
use crate::text::{
    char_vecs_view, find, find_chars, is_digit, lemma_find_from_bounds, parse_unsigned,
    parse_unsigned_max, split_all, split_chars, string_of,
};

verus! {

// ---------------------------------------------------------------------------
// Plain console lines
// ---------------------------------------------------------------------------

/// Text of `String::from_utf8_lossy` (invalid sequences become U+FFFD).
pub uninterp spec fn lossy_utf8(b: Seq<u8>) -> Seq<char>;

/// The text a line of console bytes shows: its decoding when it is valid
/// UTF-8, else the lossy decoding.
pub open spec fn line_text(b: Seq<u8>) -> Seq<char> {
    if valid_utf8(b) {
        decode_utf8(b)
    } else {
        lossy_utf8(b)
    }
}

/// `String::from_utf8_lossy`: valid UTF-8 decodes exactly; the replacement
/// of invalid sequences is left to the name `lossy_utf8`.
#[verifier::external_body]
fn lossy_text(b: &[u8]) -> (r: String)
    ensures
        r@ == lossy_utf8(b@),
        valid_utf8(b@) ==> r@ == decode_utf8(b@),
{
    String::from_utf8_lossy(b).into_owned()
}

/// `std::str::from_utf8`: the text of `b` when it is valid UTF-8.
#[verifier::external_body]
fn utf8_text(b: &[u8]) -> (r: Option<String>)
    ensures
        r is Some <==> valid_utf8(b@),
        r matches Some(s) ==> s@ == decode_utf8(b@),
{
    match std::str::from_utf8(b) {
        Ok(s) => Some(s.to_string()),
        Err(_) => None,
    }
}

/// First index at or after `i` holding a line feed (or the end).
pub open spec fn nl_index(b: Seq<u8>, i: int) -> int
    decreases b.len() - i,
{
    if 0 <= i < b.len() && b[i] != 10 {
        nl_index(b, i + 1)
    } else {
        i
    }
}

pub proof fn lemma_nl_index(b: Seq<u8>, i: int)
    requires
        0 <= i <= b.len(),
    ensures
        i <= nl_index(b, i) <= b.len(),
        nl_index(b, i) < b.len() ==> b[nl_index(b, i)] == 10,
    decreases b.len() - i,
{
    if i < b.len() && b[i] != 10 {
        lemma_nl_index(b, i + 1);
    }
}

/// Drops one trailing carriage return.
pub open spec fn strip_cr_bytes(l: Seq<u8>) -> Seq<u8> {
    if l.len() > 0 && l.last() == 13 {
        l.drop_last()
    } else {
        l
    }
}

pub open spec fn if_nonempty(l: Seq<u8>) -> Seq<Seq<u8>> {
    if l.len() > 0 {
        seq![l]
    } else {
        Seq::empty()
    }
}

/// Lines of plain console output: split at line feeds, one trailing carriage
/// return removed, empty lines dropped; an unterminated last line counts.
pub open spec fn plain_lines(b: Seq<u8>) -> Seq<Seq<u8>>
    decreases b.len(),
{
    if b.len() == 0 {
        Seq::empty()
    } else {
        let k = nl_index(b, 0);
        proof {
            lemma_nl_index(b, 0);
        }
        if k >= b.len() {
            if_nonempty(strip_cr_bytes(b))
        } else {
            if_nonempty(strip_cr_bytes(b.take(k))) + plain_lines(b.skip(k + 1))
        }
    }
}

pub open spec fn lossy_lines(ls: Seq<Seq<u8>>) -> Seq<Seq<char>> {
    Seq::new(ls.len(), |i: int| line_text(ls[i]))
}

fn nl_index_exec(b: &[u8], i: usize) -> (r: usize)
    requires
        i <= b@.len(),
    ensures
        r == nl_index(b@, i as int),
{
    let mut j = i;
    while j < b.len() && b[j] != 10
        invariant
            i <= j <= b@.len(),
            nl_index(b@, i as int) == nl_index(b@, j as int),
        decreases b@.len() - j,
    {
        j += 1;
    }
    j
}

/// The plain lines of `bytes` as text.
pub fn emit_plain_lines(bytes: &[u8]) -> (r: Vec<String>)
    ensures
        strings_view(r@) == lossy_lines(plain_lines(bytes@)),
{
    let n = bytes.len();
    let mut out: Vec<String> = Vec::new();
    let mut start: usize = 0;
    assert(bytes@.skip(0) =~= bytes@);
    while start < n
        invariant
            n == bytes@.len(),
            start <= n,
            lossy_lines(plain_lines(bytes@)) == strings_view(out@) + lossy_lines(
                plain_lines(bytes@.skip(start as int)),
            ),
        decreases n - start,
    {
        let ghost rest = bytes@.skip(start as int);
        let ghost before = strings_view(out@);
        let k = nl_index_exec(bytes, start);
        proof {
            lemma_nl_index(bytes@, start as int);
            lemma_nl_shift(bytes@, start as int, 0);
        }
        let hi = if k > start && bytes[k - 1] == 13 {
            k - 1
        } else {
            k
        };
        assert(bytes@.subrange(start as int, hi as int) =~= strip_cr_bytes(rest.take(k - start)));
        let ghost piece = bytes@.subrange(start as int, hi as int);
        if hi > start {
            out.push(lossy_text(&bytes[start..hi]));
        }
        if k >= n {
            assert(rest.take(k - start) =~= rest);
            assert(bytes@.skip(n as int) =~= Seq::<u8>::empty());
            assert(plain_lines(rest) == if_nonempty(piece));
            assert(lossy_lines(if_nonempty(piece)) =~= strings_view(out@).skip(before.len() as int));
            assert(strings_view(out@) =~= before + lossy_lines(if_nonempty(piece)));
            assert(lossy_lines(plain_lines(bytes@.skip(n as int))) =~= Seq::<Seq<char>>::empty());
            assert(lossy_lines(plain_lines(rest)) =~= lossy_lines(if_nonempty(piece)) + lossy_lines(
                plain_lines(bytes@.skip(n as int)),
            ));
            start = n;
        } else {
            assert(rest.skip(k + 1 - start) =~= bytes@.skip(k + 1));
            assert(plain_lines(rest) == if_nonempty(piece) + plain_lines(bytes@.skip(k + 1)));
            assert(lossy_lines(if_nonempty(piece) + plain_lines(bytes@.skip(k + 1)))
                =~= lossy_lines(if_nonempty(piece)) + lossy_lines(plain_lines(bytes@.skip(k + 1))));
            assert(strings_view(out@) =~= before + lossy_lines(if_nonempty(piece)));
            start = k + 1;
        }
    }
    assert(bytes@.skip(n as int) =~= Seq::<u8>::empty());
    assert(strings_view(out@) =~= strings_view(out@) + Seq::<Seq<char>>::empty());
    out
}

pub proof fn lemma_nl_shift(b: Seq<u8>, a: int, j: int)
    requires
        0 <= a <= b.len(),
        0 <= j <= b.len() - a,
    ensures
        nl_index(b.skip(a), j) == nl_index(b, a + j) - a,
    decreases b.len() - a - j,
{
    if j < b.len() - a && b[a + j] != 10 {
        lemma_nl_shift(b, a, j + 1);
    }
}

} // verus!

verus! {

// ---------------------------------------------------------------------------
// Output assembly
// ---------------------------------------------------------------------------

/// One unit of assembled console output.
pub enum LogItem {
    /// A plain console line.
    Line(String),
    /// A complete log4j event.
    Event(GameLogEvent),
}

pub enum ItemView {
    Line(Seq<char>),
    Event(EventView),
}

impl View for LogItem {
    type V = ItemView;

    open spec fn view(&self) -> ItemView {
        match self {
            LogItem::Line(s) => ItemView::Line(s@),
            LogItem::Event(e) => ItemView::Event(e@),
        }
    }
}

pub open spec fn items_view(v: Seq<LogItem>) -> Seq<ItemView> {
    Seq::new(v.len(), |i: int| v[i]@)
}

pub open spec fn line_items(ls: Seq<Seq<u8>>) -> Seq<ItemView> {
    Seq::new(ls.len(), |i: int| ItemView::Line(line_text(ls[i])))
}

/// What one located event block yields: its event; its plain lines when it
/// holds no complete event; nothing when it is not UTF-8. The flag is set
/// when reading the block fails.
pub open spec fn block_items(block: Seq<u8>) -> (Seq<ItemView>, bool) {
    if !valid_utf8(block) {
        (Seq::empty(), false)
    } else {
        match parse_event_spec(decode_utf8(block)) {
            EventParse::Fails => (Seq::empty(), true),
            EventParse::Parsed(ev) => (seq![ItemView::Event(ev)], false),
            EventParse::NotFound => (line_items(plain_lines(block)), false),
        }
    }
}

/// Outcome of draining a buffer: the items emitted, what stays pending, and
/// whether a block whose reading fails was met.
pub struct DrainView {
    pub items: Seq<ItemView>,
    pub pending: Seq<u8>,
    pub fails: bool,
}

/// Draining `buf` from offset `c`: text before an event opening is emitted as
/// plain lines, each complete event block as its items; an event still
/// missing its end stays pending; text without any opening is emitted, but
/// for a trailing start of an opening tag cut off by the end of the chunk,
/// which stays pending.
pub open spec fn drain_from(buf: Seq<u8>, c: int) -> DrainView
    decreases buf.len() - c,
{
    if c < 0 || c > buf.len() {
        DrainView { items: Seq::empty(), pending: Seq::empty(), fails: false }
    } else {
        let tail = buf.skip(c);
        match find_ci_spec(tail, event_start_bytes()) {
            None => {
                let cut = tail.len() - held_tag_len(tail);
                DrainView {
                    items: line_items(plain_lines(tail.take(cut))),
                    pending: tail.skip(cut),
                    fails: false,
                }
            },
            Some(s) => {
                proof {
                    lemma_bytes_find_bounds(tail, event_start_bytes(), 0);
                }
                let abs_s = c + s;
                let pre = if s > 0 {
                    line_items(plain_lines(buf.subrange(c, abs_s)))
                } else {
                    Seq::empty()
                };
                match end_after_spec(buf.skip(abs_s)) {
                    None => DrainView { items: pre, pending: buf.skip(abs_s), fails: false },
                    Some(after) => {
                        proof {
                            lemma_end_after_bounds(buf.skip(abs_s));
                        }
                        let abs_e = abs_s + after;
                        let (mid, f) = block_items(buf.subrange(abs_s, abs_e));
                        if f {
                            DrainView { items: pre, pending: Seq::empty(), fails: true }
                        } else if abs_e >= buf.len() {
                            DrainView { items: pre + mid, pending: Seq::empty(), fails: false }
                        } else {
                            let r = drain_from(buf, abs_e);
                            DrainView { items: pre + mid + r.items, pending: r.pending, fails: r.fails }
                        }
                    },
                }
            },
        }
    }
}

pub proof fn lemma_end_after_bounds(b: Seq<u8>)
    ensures
        end_after_spec(b) matches Some(e) ==> 14 <= e <= b.len(),
{
    lemma_bytes_find_bounds(b, crate::launcher::logfmt::event_end_bytes(), 0);
}

fn push_lines(out: &mut Vec<LogItem>, lines: Vec<String>)
    ensures
        items_view(final(out)@) == items_view(old(out)@) + Seq::new(
            lines@.len(),
            |i: int| ItemView::Line(lines@[i]@),
        ),
{
    let ghost start = items_view(out@);
    let ghost all = lines@;
    for line in it: lines
        invariant
            it.seq() == all,
            items_view(out@) == start + Seq::new(
                it.index() as nat,
                |k: int| ItemView::Line(all[k]@),
            ),
    {
        let ghost before = items_view(out@);
        assert(line == all[it.index() as int]);
        out.push(LogItem::Line(line));
        assert(items_view(out@) =~= before.push(ItemView::Line(all[it.index() as int]@)));
        assert(items_view(out@) =~= start + Seq::new(
            (it.index() + 1) as nat,
            |k: int| ItemView::Line(all[k]@),
        ));
    }
}

/// Plain lines of `b` appended as items.
fn push_plain(out: &mut Vec<LogItem>, b: &[u8])
    ensures
        items_view(final(out)@) == items_view(old(out)@) + line_items(plain_lines(b@)),
{
    let lines = emit_plain_lines(b);
    let ghost lv = lines@;
    push_lines(out, lines);
    let ghost pl = plain_lines(b@);
    assert(strings_view(lv).len() == lossy_lines(pl).len());
    assert forall|i: int| 0 <= i < lv.len() implies lv[i]@ == line_text(pl[i]) by {
        assert(strings_view(lv)[i] == lv[i]@);
        assert(lossy_lines(pl)[i] == line_text(pl[i]));
    }
    assert(Seq::new(lv.len(), |i: int| ItemView::Line(lv[i]@)) =~= line_items(plain_lines(b@)));
}

/// Appends what one located event block yields; `false` when reading the
/// block fails (then nothing is appended).
fn push_block(out: &mut Vec<LogItem>, block: &[u8]) -> (ok: bool)
    ensures
        ok == !block_items(block@).1,
        ok ==> items_view(final(out)@) == items_view(old(out)@) + block_items(block@).0,
{
    let ghost before = items_view(out@);
    match utf8_text(block) {
        Some(text) => {
            let chars = chars_of(text.as_str());
            if event_block_fails_chars(chars.as_slice()) {
                return false;
            }
            match parse_event_chars(chars.as_slice()) {
                Some(ev) => {
                    out.push(LogItem::Event(ev));
                    assert(items_view(out@) =~= before + seq![ItemView::Event(ev@)]);
                },
                None => {
                    push_plain(out, block);
                },
            }
            true
        },
        None => {
            assert(items_view(out@) =~= before + Seq::<ItemView>::empty());
            true
        },
    }
}

/// Drains `buf`: the items emitted and the bytes left pending, or `None`
/// when a block whose reading fails is met.
#[verifier::rlimit(40)]
fn drain_core(buf: &Vec<u8>) -> (r: Option<(Vec<LogItem>, Vec<u8>)>)
    ensures
        match r {
            Some((items, pending)) => !drain_from(buf@, 0).fails && items_view(items@)
                == drain_from(buf@, 0).items && pending@ == drain_from(buf@, 0).pending,
            None => drain_from(buf@, 0).fails,
        },
{
    let n = buf.len();
    let ghost d = drain_from(buf@, 0);
    let mut out: Vec<LogItem> = Vec::new();
    let mut c: usize = 0;
    loop
        invariant
            n == buf@.len(),
            c <= n,
            d == drain_from(buf@, 0),
            d.items == items_view(out@) + drain_from(buf@, c as int).items,
            d.pending == drain_from(buf@, c as int).pending,
            d.fails == drain_from(buf@, c as int).fails,
        decreases n - c,
    {
        let ghost before = items_view(out@);
        let tail = &buf[c..n];
        assert(tail@ =~= buf@.skip(c as int));
        match find_event_start(tail) {
            None => {
                let h = held_tag_len_exec(tail);
                let cut = tail.len() - h;
                let head = &tail[0..cut];
                assert(head@ =~= tail@.take(cut as int));
                push_plain(&mut out, head);
                let mut rest: Vec<u8> = Vec::new();
                rest.extend_from_slice(&tail[cut..tail.len()]);
                assert(rest@ =~= tail@.skip(cut as int));
                return Some((out, rest));
            },
            Some(s) => {
                proof {
                    lemma_bytes_find_bounds(buf@.skip(c as int), event_start_bytes(), 0);
                }
                let abs_s = c + s;
                if s > 0 {
                    push_plain(&mut out, &buf[c..abs_s]);
                } else {
                    assert(items_view(out@) =~= before + Seq::<ItemView>::empty());
                }
                let from_s = &buf[abs_s..n];
                assert(from_s@ =~= buf@.skip(abs_s as int));
                match find_event_end_after(from_s) {
                    None => {
                        let mut rest: Vec<u8> = Vec::new();
                        rest.extend_from_slice(from_s);
                        assert(rest@ =~= buf@.skip(abs_s as int));
                        return Some((out, rest));
                    },
                    Some(after) => {
                        let abs_e = abs_s + after;
                        let block = &buf[abs_s..abs_e];
                        if !push_block(&mut out, block) {
                            return None;
                        }
                        c = abs_e;
                        if c >= n {
                            let empty: Vec<u8> = Vec::new();
                            assert(empty@ =~= Seq::<u8>::empty());
                            assert(items_view(out@) =~= items_view(out@) + Seq::<ItemView>::empty());
                            return Some((out, empty));
                        }
                    },
                }
            },
        }
    }
}

/// Assembles the game's console output chunk by chunk: complete log4j event
/// blocks become events, the bytes around them become plain lines, and an
/// event still missing its end tag (or an opening tag cut off by the end of
/// a chunk) waits for the next chunk.
pub struct OutAssembler {
    pending: Vec<u8>,
}

impl View for OutAssembler {
    type V = Seq<u8>;

    closed spec fn view(&self) -> Seq<u8> {
        self.pending@
    }
}

impl Default for OutAssembler {
    fn default() -> (a: Self)
        ensures
            a@ == Seq::<u8>::empty(),
    {
        OutAssembler { pending: Vec::new() }
    }
}

impl OutAssembler {
    pub fn new() -> (a: Self)
        ensures
            a@ == Seq::<u8>::empty(),
    {
        OutAssembler { pending: Vec::new() }
    }

    /// Whether pushing `chunk` next meets no block whose reading fails; to be
    /// checked before `push`.
    pub fn accepts(&self, chunk: &[u8]) -> (b: bool)
        ensures
            b == !drain_from(self@ + chunk@, 0).fails,
    {
        let mut buf: Vec<u8> = Vec::new();
        buf.extend_from_slice(self.pending.as_slice());
        buf.extend_from_slice(chunk);
        assert(buf@ =~= self@ + chunk@);
        drain_core(&buf).is_some()
    }

    /// Whether `finish` meets no block whose reading fails.
    pub fn accepts_finish(&self) -> (b: bool)
        ensures
            b == !drain_from(self@, 0).fails,
    {
        drain_core(&self.pending).is_some()
    }

    /// Emits everything that can be assembled from the pending bytes.
    pub fn drain(&mut self) -> (items: Vec<LogItem>)
        requires
            !drain_from(old(self)@, 0).fails,
        ensures
            items_view(items@) == drain_from(old(self)@, 0).items,
            final(self)@ == drain_from(old(self)@, 0).pending,
    {
        match drain_core(&self.pending) {
            Some((items, rest)) => {
                self.pending = rest;
                items
            },
            None => Vec::new(),
        }
    }

    /// Appends a chunk of output and emits what it completes.
    pub fn push(&mut self, chunk: &[u8]) -> (items: Vec<LogItem>)
        requires
            !drain_from(old(self)@ + chunk@, 0).fails,
        ensures
            items_view(items@) == drain_from(old(self)@ + chunk@, 0).items,
            final(self)@ == drain_from(old(self)@ + chunk@, 0).pending,
    {
        let ghost before = self.pending@;
        self.pending.extend_from_slice(chunk);
        assert(self.pending@ =~= before + chunk@);
        self.drain()
    }

    /// At the end of output: drains, then emits whatever is left (an
    /// unfinished event included) as plain lines.
    pub fn finish(&mut self) -> (items: Vec<LogItem>)
        requires
            !drain_from(old(self)@, 0).fails,
        ensures
            items_view(items@) == drain_from(old(self)@, 0).items + line_items(
                plain_lines(drain_from(old(self)@, 0).pending),
            ),
            final(self)@ == Seq::<u8>::empty(),
    {
        let mut items = self.drain();
        let rest = self.pending.as_slice();
        push_plain(&mut items, rest);
        self.pending = Vec::new();
        items
    }
}

} // verus!

verus! {

// ---------------------------------------------------------------------------
// Laws of the assembler
// ---------------------------------------------------------------------------

/// A search that finds its first occurrence at `j` finds nothing in a prefix
/// that ends before that occurrence does.
pub proof fn lemma_find_in_prefix(h: Seq<u8>, n: Seq<u8>, i: int, j: int, m: int)
    requires
        0 <= i <= j,
        bytes_find_ci_from(h, n, i) == Some(j),
        0 <= m < j + n.len(),
        m <= h.len(),
    ensures
        bytes_find_ci_from(h.take(m), n, i) is None,
    decreases h.len() - i,
{
    let p = h.take(m);
    if i + n.len() > p.len() {
    } else {
        assert(bytes_match_ci(p, n, i) == bytes_match_ci(h, n, i)) by {
            if bytes_match_ci(h, n, i) {
                assert forall|k: int| 0 <= k < n.len() implies lower_byte(#[trigger] p[i + k])
                    == lower_byte(n[k]) by {
                    assert(p[i + k] == h[i + k]);
                    assert(lower_byte(h[i + k]) == lower_byte(n[k]));
                }
            }
            if bytes_match_ci(p, n, i) {
                assert forall|k: int| 0 <= k < n.len() implies lower_byte(#[trigger] h[i + k])
                    == lower_byte(n[k]) by {
                    assert(p[i + k] == h[i + k]);
                    assert(lower_byte(p[i + k]) == lower_byte(n[k]));
                }
            }
        }
        if i < j {
            lemma_find_in_prefix(h, n, i + 1, j, m);
        }
    }
}

/// An event split into two chunks anywhere (inside its opening tag too) is
/// assembled exactly as if it had come in one piece: the first chunk emits
/// nothing and stays pending, and the second yields what the whole block
/// yields.
pub proof fn event_split_across_chunks(block: Seq<u8>, k: int)
    requires
        find_ci_spec(block, event_start_bytes()) == Some(0int),
        end_after_spec(block) == Some(block.len() as int),
        0 <= k < block.len(),
    ensures
        ({
            let first = drain_from(block.take(k), 0);
            let second = drain_from(first.pending + block.skip(k), 0);
            let whole = drain_from(block, 0);
            &&& !first.fails
            &&& first.items.len() == 0
            &&& first.items + second.items == whole.items
            &&& second.pending == whole.pending
            &&& second.fails == whole.fails
        }),
{
    let a = block.take(k);
    assert(a.skip(0) =~= a);
    lemma_bytes_find_bounds(block, event_start_bytes(), 1);
    assert(bytes_match_ci(block, event_start_bytes(), 0));
    if k < 12 {
        assert(find_ci_spec(a, event_start_bytes()) is None);
        let m = if a.len() < 11 { a.len() as int } else { 11 };
        assert(m == k);
        if k > 0 {
            assert forall|t: int| 0 <= t < event_start_bytes().take(k).len() implies lower_byte(
                #[trigger] a[(a.len() - k) + t],
            ) == lower_byte(event_start_bytes().take(k)[t]) by {
                assert(a[0 + t] == block[0 + t]);
                assert(lower_byte(block[0 + t]) == lower_byte(event_start_bytes()[t]));
            }
            assert(crate::launcher::logfmt::ends_with_tag_prefix(a, k));
        }
        assert(held_tag_len(a) == k);
        assert(a.take(0) =~= Seq::<u8>::empty());
        assert(plain_lines(a.take(0)) =~= Seq::<Seq<u8>>::empty());
    } else {
        assert(bytes_match_ci(a, event_start_bytes(), 0)) by {
            assert forall|t: int| 0 <= t < 12 implies lower_byte(#[trigger] a[0 + t])
                == lower_byte(event_start_bytes()[t]) by {
                assert(a[0 + t] == block[0 + t]);
                assert(lower_byte(block[0 + t]) == lower_byte(event_start_bytes()[t]));
            }
        }
        assert(find_ci_spec(a, event_start_bytes()) == Some(0int));
        let j = block.len() - 14;
        lemma_find_in_prefix(block, event_end_bytes(), 0, j, k);
        assert(end_after_spec(a) is None);
    }
    let first = drain_from(a, 0);
    assert(first.items =~= Seq::<ItemView>::empty());
    assert(first.pending == a);
    assert(a + block.skip(k) =~= block);
    assert(first.items + drain_from(block, 0).items =~= drain_from(block, 0).items);
}

proof fn lemma_found_matches(h: Seq<u8>, n: Seq<u8>, i: int)
    ensures
        bytes_find_ci_from(h, n, i) matches Some(k) ==> bytes_match_ci(h, n, k),
    decreases h.len() - i,
{
    if i < 0 || i + n.len() > h.len() {
    } else if bytes_match_ci(h, n, i) {
    } else {
        lemma_found_matches(h, n, i + 1);
    }
}

/// After draining, nothing is left pending but an unfinished event: the
/// pending bytes are empty, or they open with `<log4j:event` (in any case)
/// and hold no `</log4j:event>`, or they are the start of such an opening,
/// shorter than the whole tag.
pub proof fn drain_leaves_only_an_open_event(buf: Seq<u8>, c: int)
    requires
        0 <= c <= buf.len(),
    ensures
        ({
            let p = drain_from(buf, c).pending;
            ||| p.len() == 0
            ||| find_ci_spec(p, event_start_bytes()) == Some(0int) && end_after_spec(p) is None
            ||| p.len() < 12 && bytes_match_ci(p, event_start_bytes().take(p.len() as int), 0)
        }),
    decreases buf.len() - c,
{
    let tail = buf.skip(c);
    match find_ci_spec(tail, event_start_bytes()) {
        None => {
            let m = if tail.len() < 11 { tail.len() as int } else { 11 };
            crate::launcher::logfmt::lemma_tag_prefix_bounds(tail, m);
            let h = held_tag_len(tail);
            let cut = tail.len() - h;
            let p = tail.skip(cut);
            if h > 0 {
                assert forall|k: int| 0 <= k < event_start_bytes().take(h).len() implies lower_byte(
                    #[trigger] p[0 + k],
                ) == lower_byte(event_start_bytes().take(h)[k]) by {
                    assert(p[0 + k] == tail[cut + k]);
                }
            }
        },
        Some(s) => {
            lemma_bytes_find_bounds(tail, event_start_bytes(), 0);
            lemma_found_matches(tail, event_start_bytes(), 0);
            let abs_s = c + s;
            let p = buf.skip(abs_s);
            match end_after_spec(p) {
                None => {
                    assert forall|k: int| 0 <= k < event_start_bytes().len() implies lower_byte(
                        #[trigger] p[0 + k],
                    ) == lower_byte(event_start_bytes()[k]) by {
                        assert(p[0 + k] == tail[s + k]);
                    }
                    assert(bytes_match_ci(p, event_start_bytes(), 0));
                },
                Some(after) => {
                    lemma_end_after_bounds(p);
                    let abs_e = abs_s + after;
                    if !block_items(buf.subrange(abs_s, abs_e)).1 && abs_e < buf.len() {
                        drain_leaves_only_an_open_event(buf, abs_e);
                    }
                },
            }
        },
    }
}

/// A complete event block is never dropped when it is UTF-8 and its reading
/// does not fail: it yields its event, or else its plain lines, and at
/// least one item either way.
pub proof fn complete_event_never_dropped(block: Seq<u8>)
    requires
        find_ci_spec(block, event_start_bytes()) == Some(0int),
        valid_utf8(block),
        !block_items(block).1,
    ensures
        block_items(block).0.len() > 0,
        block_items(block).0 == line_items(plain_lines(block)) || exists|ev: EventView|
            block_items(block).0 == seq![ItemView::Event(ev)],
{
    lemma_found_matches(block, event_start_bytes(), 0);
    assert(lower_byte(block[0int + 0int]) == lower_byte(event_start_bytes()[0int]));
    assert(block[0] == 60u8);
    match parse_event_spec(decode_utf8(block)) {
        EventParse::Parsed(ev) => {
            assert(block_items(block).0 == seq![ItemView::Event(ev)]);
        },
        EventParse::Fails => {},
        EventParse::NotFound => {
            lemma_nl_index(block, 0);
            let k = nl_index(block, 0);
            assert(k > 0);
            if k >= block.len() {
                assert(strip_cr_bytes(block).len() > 0);
            } else {
                assert(block.take(k)[0] == 60u8);
                assert(strip_cr_bytes(block.take(k)).len() > 0);
            }
            assert(plain_lines(block).len() > 0);
        },
    }
}

} // verus!

verus! {

// ---------------------------------------------------------------------------
// Session reports
// ---------------------------------------------------------------------------

/// Name of the event reporting a session's state.
pub const SESSION_STATE_EVENT: &'static str = "mc-session-state";

/// Name of the event carrying a session's console text.
pub const SESSION_LOG_EVENT: &'static str = "mc-session-log";

/// The launcher's name, passed to the game.
pub const LAUNCHER_NAME: &'static str = "tmml";

/// A session's state: `launching`, `running`, `exited` or `error`.
pub struct SessionStatePayload {
    pub session_id: u64,
    pub status: String,
    pub pid: Option<u32>,
    pub exit_code: Option<i32>,
    pub message: Option<String>,
}

/// Console text of a session (it may hold ANSI escapes); `kind` is `system`
/// or `game`.
pub struct SessionLogPayload {
    pub session_id: u64,
    pub text: String,
    pub kind: String,
}

/// The answer to a launch request.
pub struct LaunchReply {
    pub session_id: u64,
}

// ---------------------------------------------------------------------------
// Instance directory
// ---------------------------------------------------------------------------

/// The directory of an instance: its path below `versions/` when that is a
/// single non-empty name (no `/` or `\`), else its version id.
pub open spec fn dir_name_spec(path: Seq<char>, version_id: Seq<char>) -> Seq<char> {
    match crate::instance::strip_versions(path) {
        Some(d) => if d.len() > 0 && !d.contains('/') && !d.contains('\\') {
            d
        } else {
            version_id
        },
        None => version_id,
    }
}

/// The directory an instance's files are in.
pub fn dir_name_of(info: &crate::instance::InstanceInfo) -> (r: String)
    ensures
        r@ == dir_name_spec(info.path@, info.version_id@),
{
    match crate::instance::strip_versions_prefix(info.path.as_str()) {
        Some(d) => {
            let ds = d.as_str();
            if !crate::text::is_empty_str(ds) && !crate::text::contains_char(ds, '/')
                && !crate::text::contains_char(ds, '\\') {
                d
            } else {
                info.version_id.clone()
            }
        },
        None => info.version_id.clone(),
    }
}

// ---------------------------------------------------------------------------
// Java version
// ---------------------------------------------------------------------------

pub open spec fn java_trim_char(c: char) -> bool {
    c == ' ' || c == '"' || c == '=' || c == '\t'
}

/// `s` without its leading spaces, quotes, `=` and tabs.
pub open spec fn trim_java(s: Seq<char>) -> Seq<char>
    decreases s.len(),
{
    if s.len() > 0 && java_trim_char(s[0]) {
        trim_java(s.drop_first())
    } else {
        s
    }
}

/// The length of the leading run of digits and dots of `s`, from `i`.
pub open spec fn number_run_end(s: Seq<char>, i: int) -> int
    decreases s.len() - i,
{
    if 0 <= i < s.len() && (is_digit(s[i]) || s[i] == '.') {
        number_run_end(s, i + 1)
    } else {
        i
    }
}

proof fn lemma_number_run_end(s: Seq<char>, i: int)
    requires
        0 <= i <= s.len(),
    ensures
        i <= number_run_end(s, i) <= s.len(),
    decreases s.len() - i,
{
    if i < s.len() && (is_digit(s[i]) || s[i] == '.') {
        lemma_number_run_end(s, i + 1);
    }
}

pub open spec fn u32_max() -> int {
    0xffff_ffff
}

/// The Java major version in `java -version` output: the number after the
/// first `version` (past spaces, quotes, `=` and tabs); for the `1.x`
/// scheme the part after `1.` (`1.8.0_392` gives 8), or 1 when that part
/// is missing or no number.
pub open spec fn java_major_spec(text: Seq<char>) -> Option<int> {
    match find(text, "version"@) {
        None => None,
        Some(i) => {
            let after = trim_java(text.skip(i + 7));
            let num = after.take(number_run_end(after, 0));
            let parts = split_all(num, '.');
            match parse_unsigned(parts[0], u32_max()) {
                None => None,
                Some(f) => if f == 1 {
                    if parts.len() > 1 {
                        match parse_unsigned(parts[1], u32_max()) {
                            Some(v) => Some(v),
                            None => Some(1),
                        }
                    } else {
                        Some(1)
                    }
                } else {
                    Some(f)
                },
            }
        },
    }
}

/// Reads the Java major version from `java -version` output, such as
/// `openjdk version "21.0.2"` or `java version "1.8.0_392"`.
pub fn parse_java_major(text: &str) -> (r: Option<u32>)
    ensures
        match r {
            Some(v) => java_major_spec(text@) == Some(v as int),
            None => java_major_spec(text@) is None,
        },
{
    proof {
        reveal_strlit("version");
    }
    let v = chars_of(text);
    let pat = ['v', 'e', 'r', 's', 'i', 'o', 'n'];
    assert(pat@ =~= "version"@);
    let idx = match find_chars(v.as_slice(), pat.as_slice(), 0, false) {
        Some(i) => i,
        None => {
            return None;
        },
    };
    proof {
        lemma_find_from_bounds(v@, "version"@, 0, false);
    }
    let n = v.len();
    let mut j = idx + 7;
    assert(v@.subrange(j as int, n as int) =~= text@.skip(idx + 7));
    while j < n && (v[j] == ' ' || v[j] == '"' || v[j] == '=' || v[j] == '\t')
        invariant
            n == v@.len(),
            v@ == text@,
            idx + 7 <= j <= n,
            trim_java(v@.subrange(j as int, n as int)) == trim_java(text@.skip(idx + 7)),
        decreases n - j,
    {
        assert(v@.subrange(j as int, n as int).drop_first() =~= v@.subrange(j + 1, n as int));
        j += 1;
    }
    let ghost after = v@.subrange(j as int, n as int);
    assert(trim_java(after) == after);
    let mut k = j;
    while k < n && (('0' <= v[k] && v[k] <= '9') || v[k] == '.')
        invariant
            n == v@.len(),
            j <= k <= n,
            after == v@.subrange(j as int, n as int),
            number_run_end(after, 0) == number_run_end(after, k - j),
        decreases n - k,
    {
        k += 1;
    }
    proof {
        lemma_number_run_end(after, 0);
    }
    let num = crate::text::sub_vec(v.as_slice(), j, k);
    assert(num@ =~= after.take(k - j));
    let parts = split_chars(num.as_slice(), '.');
    proof {
        crate::launcher::natives::lemma_split_all_len(num@, '.');
    }
    let ghost pv = char_vecs_view(parts@);
    assert(pv[0] == parts@[0]@);
    let first = match parse_unsigned_max(parts[0].as_slice(), 0xffff_ffffu64) {
        Some(f) => f,
        None => {
            return None;
        },
    };
    if first == 1 {
        if parts.len() > 1 {
            assert(pv[1] == parts@[1]@);
            match parse_unsigned_max(parts[1].as_slice(), 0xffff_ffffu64) {
                Some(m) => Some(m as u32),
                None => Some(1),
            }
        } else {
            Some(1)
        }
    } else {
        Some(first as u32)
    }
}

} // verus!

verus! {

// ---------------------------------------------------------------------------
// Running the game
// ---------------------------------------------------------------------------

/// The console of a running game: its output is assembled into lines and
/// events, and a stop request kills the process once.
pub struct GamePump {
    assembler: OutAssembler,
    killed: bool,
}

/// What reading one chunk of output leads to.
pub struct PumpStep {
    /// What the chunk completes.
    pub items: Vec<LogItem>,
    /// Whether the process is to be killed now.
    pub kill: bool,
}

impl GamePump {
    pub fn new() -> (p: Self)
        ensures
            p.pending() == Seq::<u8>::empty(),
            !p.was_killed(),
    {
        GamePump { assembler: OutAssembler::new(), killed: false }
    }

    pub closed spec fn pending(&self) -> Seq<u8> {
        self.assembler@
    }

    pub closed spec fn was_killed(&self) -> bool {
        self.killed
    }

    /// Whether `feed` takes `chunk` next (no event block in it fails to
    /// read).
    pub fn accepts(&self, chunk: &[u8]) -> (b: bool)
        ensures
            b == !drain_from(self.pending() + chunk@, 0).fails,
    {
        self.assembler.accepts(chunk)
    }

    /// Whether `end` may be called now.
    pub fn accepts_end(&self) -> (b: bool)
        ensures
            b == !drain_from(self.pending(), 0).fails,
    {
        self.assembler.accepts_finish()
    }

    /// Takes a chunk of output: emits what it completes, and asks for the
    /// process to be killed when a stop was requested and it was not killed
    /// yet.
    pub fn feed(&mut self, chunk: &[u8], stop_requested: bool) -> (s: PumpStep)
        requires
            !drain_from(old(self).pending() + chunk@, 0).fails,
        ensures
            items_view(s.items@) == drain_from(old(self).pending() + chunk@, 0).items,
            final(self).pending() == drain_from(old(self).pending() + chunk@, 0).pending,
            s.kill == (stop_requested && !old(self).was_killed()),
            final(self).was_killed() == (old(self).was_killed() || stop_requested),
    {
        let items = self.assembler.push(chunk);
        let kill = stop_requested && !self.killed;
        if kill {
            self.killed = true;
        }
        PumpStep { items, kill }
    }

    /// At the end of output: everything left, as `OutAssembler::finish`.
    pub fn end(&mut self) -> (items: Vec<LogItem>)
        requires
            !drain_from(old(self).pending(), 0).fails,
        ensures
            items_view(items@) == drain_from(old(self).pending(), 0).items + line_items(
                plain_lines(drain_from(old(self).pending(), 0).pending),
            ),
            final(self).pending() == Seq::<u8>::empty(),
            final(self).was_killed() == old(self).was_killed(),
    {
        self.assembler.finish()
    }

    /// Whether the process was killed on request.
    pub fn killed(&self) -> (b: bool)
        ensures
            b == self.was_killed(),
    {
        self.killed
    }
}

/// How a game session ended.
#[derive(Clone, Copy, Debug, PartialEq, Eq, Structural)]
pub enum ExitKind {
    /// Stopped on request.
    Stopped,
    /// Exited normally.
    Normal,
    /// Exited with a failure.
    Crashed,
    /// Its end could not be awaited.
    WaitFailed,
}

/// What the Java check before a launch finds.
#[derive(Clone, Copy, Debug, PartialEq, Eq, Structural)]
pub enum JavaVerdict {
    /// The Java meets the version's requirement.
    Suitable,
    /// The Java is older than the version needs; the launch goes on with a
    /// warning.
    TooOld,
    /// The Java's version could not be read; the launch goes on with a
    /// warning.
    Unknown,
}

/// Judges the Java found (its major version, when `java -version` named
/// one) against the major version the game version requires; both are
/// compared as signed 64-bit numbers.
pub fn java_verdict(found: Option<u32>, required: u64) -> (v: JavaVerdict)
    ensures
        v == (match found {
            None => JavaVerdict::Unknown,
            Some(m) => if (m as int) < (required as i64) as int {
                JavaVerdict::TooOld
            } else {
                JavaVerdict::Suitable
            },
        }),
{
    match found {
        None => JavaVerdict::Unknown,
        Some(m) => {
            let need = required as i64;
            if (m as i64) < need {
                JavaVerdict::TooOld
            } else {
                JavaVerdict::Suitable
            }
        },
    }
}

/// The exit code and kind reported for a finished session: `waited` is the
/// process's exit code and success, or `None` when waiting failed (code
/// -1). A killed process counts as stopped; a successful one reports 0.
pub fn exit_report(killed: bool, waited: Option<(u32, bool)>) -> (r: (Option<i32>, ExitKind))
    ensures
        r == (match waited {
            None => (Some(-1i32), ExitKind::WaitFailed),
            Some((code, success)) => if killed {
                (Some(code as i32), ExitKind::Stopped)
            } else if success {
                (Some(0i32), ExitKind::Normal)
            } else {
                (Some(code as i32), ExitKind::Crashed)
            },
        }),
{
    match waited {
        None => (Some(-1), ExitKind::WaitFailed),
        Some((code, success)) => {
            if killed {
                (Some(code as i32), ExitKind::Stopped)
            } else if success {
                (Some(0), ExitKind::Normal)
            } else {
                (Some(code as i32), ExitKind::Crashed)
            }
        },
    }
}

/// The sources of the native jars that are not on disk (`present[i]` tells
/// whether the jar of `tasks[i]` exists), in order.
pub fn missing_natives(tasks: &[crate::launcher::natives::NativeTask], present: &[bool]) -> (r: Vec<String>)
    requires
        present@.len() == tasks@.len(),
    ensures
        strings_view(r@) == missing_sources(tasks@, present@),
{
    let mut out: Vec<String> = Vec::new();
    let mut i: usize = 0;
    while i < tasks.len()
        invariant
            i <= tasks@.len(),
            present@.len() == tasks@.len(),
            strings_view(out@) == missing_sources(tasks@.take(i as int), present@.take(i as int)),
        decreases tasks@.len() - i,
    {
        assert(tasks@.take(i + 1).drop_last() =~= tasks@.take(i as int));
        assert(present@.take(i + 1).drop_last() =~= present@.take(i as int));
        if !present[i] {
            let ghost before = strings_view(out@);
            out.push(tasks[i].source.clone());
            assert(strings_view(out@) =~= before.push(tasks@[i as int].source@));
        }
        i += 1;
    }
    assert(tasks@.take(tasks@.len() as int) =~= tasks@);
    assert(present@.take(present@.len() as int) =~= present@);
    out
}

pub open spec fn missing_sources(tasks: Seq<crate::launcher::natives::NativeTask>, present: Seq<bool>) -> Seq<Seq<char>>
    decreases tasks.len(),
{
    if tasks.len() == 0 || present.len() != tasks.len() {
        Seq::empty()
    } else {
        let r = missing_sources(tasks.drop_last(), present.drop_last());
        if present.last() {
            r
        } else {
            r.push(tasks.last().source@)
        }
    }
}

} // verus!
