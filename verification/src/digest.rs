//! SHA-1 digests and their hexadecimal form, for checking downloads.

use sha1::Digest;
use vstd::prelude::*;

use crate::text::chars_of;

verus! {

/// The SHA-1 digest of `b` (20 bytes).
pub uninterp spec fn sha1_of(b: Seq<u8>) -> Seq<u8>;

/// `sha1::Sha1::digest`: the SHA-1 digest of `data`, 20 bytes long.
#[verifier::external_body]
pub(crate) fn sha1_digest(data: &[u8]) -> (d: Vec<u8>)
    ensures
        d@ == sha1_of(data@),
        d@.len() == 20,
{
    sha1::Sha1::digest(data).to_vec()
}

/// A `sha1::Sha1` hasher, held in a private field: `sha1::Sha1` is
/// `CoreWrapper<Sha1Core>`, whose `typenum` bounds cannot be declared to
/// Verus. Verus sees only the bytes the hasher has been fed, through
/// `sha1_fed`.
#[verifier::external_body]
pub struct Sha1State {
    hasher: sha1::Sha1,
}

/// The bytes fed so far to a SHA-1 hasher.
pub uninterp spec fn sha1_fed(h: Sha1State) -> Seq<u8>;

/// `<sha1::Sha1 as Digest>::new`: a hasher that has been fed nothing.
#[verifier::external_body]
fn sha1_new() -> (h: Sha1State)
    ensures
        sha1_fed(h) == Seq::<u8>::empty(),
{
    Sha1State { hasher: sha1::Sha1::new() }
}

/// `Digest::update`: feeds `chunk` to the hasher, after what it was fed
/// before.
#[verifier::external_body]
fn sha1_update(h: &mut Sha1State, chunk: &[u8])
    ensures
        sha1_fed(*final(h)) == sha1_fed(*old(h)) + chunk@,
{
    h.hasher.update(chunk)
}

/// `Digest::finalize`: the SHA-1 digest of all the bytes fed (the same as
/// `Sha1::digest` of them), 20 bytes long.
#[verifier::external_body]
fn sha1_finalize(h: Sha1State) -> (d: Vec<u8>)
    ensures
        d@ == sha1_of(sha1_fed(h)),
        d@.len() == 20,
{
    h.hasher.finalize().to_vec()
}

/// A SHA-1 computed over data that arrives in chunks.
pub struct Sha1Stream {
    inner: Sha1State,
}

impl Sha1Stream {
    /// The bytes fed so far, in order.
    pub closed spec fn fed(&self) -> Seq<u8> {
        sha1_fed(self.inner)
    }

    /// A stream that has been fed nothing.
    pub fn new() -> (h: Self)
        ensures
            h.fed() == Seq::<u8>::empty(),
    {
        Sha1Stream { inner: sha1_new() }
    }

    /// Feeds the next chunk.
    pub fn update(&mut self, chunk: &[u8])
        ensures
            final(self).fed() == old(self).fed() + chunk@,
    {
        sha1_update(&mut self.inner, chunk);
    }

    /// The digest of everything fed, as lower-case hexadecimal text.
    pub fn hex_digest(self) -> (s: String)
        ensures
            s@ == hex_lower(sha1_of(self.fed())),
    {
        let d = sha1_finalize(self.inner);
        hex_encode(d.as_slice())
    }

    /// Whether the digest of everything fed is `expected` (hexadecimal,
    /// compared without regard to case).
    pub fn matches(self, expected: &str) -> (b: bool)
        ensures
            b == eq_ignore_ascii_case(hex_lower(sha1_of(self.fed())), expected@),
    {
        let d = sha1_finalize(self.inner);
        digest_matches(d.as_slice(), expected)
    }
}

/// The lower-case hexadecimal digit of a value below 16.
pub open spec fn hex_digit(v: int) -> char {
    if v < 10 {
        ((v + 48) as u32) as char
    } else {
        ((v + 87) as u32) as char
    }
}

/// Lower-case hexadecimal text of bytes: two digits per byte, high nibble
/// first.
pub open spec fn hex_lower(b: Seq<u8>) -> Seq<char>
    decreases b.len(),
{
    if b.len() == 0 {
        Seq::empty()
    } else {
        hex_lower(b.drop_last()) + seq![hex_digit(b.last() as int / 16), hex_digit(b.last() as int % 16)]
    }
}

/// `hex::encode`: each byte as two lower-case hexadecimal digits.
#[verifier::external_body]
pub(crate) fn hex_encode(data: &[u8]) -> (s: String)
    ensures
        s@ == hex_lower(data@),
{
    hex::encode(data)
}

/// Whether two texts are equal ignoring ASCII case.
pub open spec fn eq_ignore_ascii_case(a: Seq<char>, b: Seq<char>) -> bool {
    a.len() == b.len() && forall|i: int|
        0 <= i < a.len() ==> crate::text::lower_code(#[trigger] a[i]) == crate::text::lower_code(b[i])
}

/// `str::eq_ignore_ascii_case`.
pub fn eq_ignore_case(a: &str, b: &str) -> (r: bool)
    ensures
        r == eq_ignore_ascii_case(a@, b@),
{
    let x = chars_of(a);
    let y = chars_of(b);
    if x.len() != y.len() {
        return false;
    }
    let mut i: usize = 0;
    while i < x.len()
        invariant
            x@ == a@,
            y@ == b@,
            x@.len() == y@.len(),
            i <= x@.len(),
            forall|k: int|
                0 <= k < i ==> crate::text::lower_code(#[trigger] x@[k]) == crate::text::lower_code(
                    y@[k],
                ),
        decreases x@.len() - i,
    {
        let p = x[i];
        let q = y[i];
        let lp: u32 = if 'A' <= p && p <= 'Z' { p as u32 + 32 } else { p as u32 };
        let lq: u32 = if 'A' <= q && q <= 'Z' { q as u32 + 32 } else { q as u32 };
        if lp != lq {
            return false;
        }
        i += 1;
    }
    true
}

/// Whether a downloaded file's digest is the one expected (hexadecimal,
/// compared without regard to case).
pub fn digest_matches(digest: &[u8], expected: &str) -> (r: bool)
    ensures
        r == eq_ignore_ascii_case(hex_lower(digest@), expected@),
{
    let hex = hex_encode(digest);
    eq_ignore_case(hex.as_str(), expected)
}

} // verus!
