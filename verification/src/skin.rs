//! Player skins: the face shown as a profile's avatar.

use vstd::prelude::*;
use vstd::string::StringSliceAdditionalSpecFns;

use crate::launcher::command::pairs_view;
use crate::support::{base64_decode, base64_encode, base64_standard, base64_standard_decoded};
use crate::text::{chars_of, concat2, starts_with, string_of};

verus! {

/// A skin URL over HTTPS: `http://` becomes `https://`; other URLs stay.
pub open spec fn normalized_url(url: Seq<char>) -> Seq<char> {
    if starts_with(url, "http://"@) {
        "https://"@ + url.skip(7)
    } else {
        url
    }
}

/// Rewrites a skin URL to HTTPS.
pub fn normalize_url(url: &str) -> (r: String)
    ensures
        r@ == normalized_url(url@),
{
    proof {
        reveal_strlit("http://");
    }
    let v = chars_of(url);
    let p = ['h', 't', 't', 'p', ':', '/', '/'];
    assert(p@ =~= "http://"@);
    assert(v@.skip(0) =~= v@);
    if crate::text::has_at(v.as_slice(), 0, p.as_slice()) {
        let rest = string_of(&v.as_slice()[7..v.len()]);
        assert(rest@ =~= url@.skip(7));
        concat2("https://", rest.as_str())
    } else {
        url.to_owned()
    }
}

/// Only names Mojang accepts are looked up: not empty, at most 16 bytes.
pub fn avatar_lookup_allowed(username: &str) -> (b: bool)
    ensures
        b == (username@.len() > 0 && username.spec_bytes().len() <= 16),
{
    let n = username.as_bytes().len();
    !crate::text::is_empty_str(username) && n <= 16
}

/// The values of the `textures` properties of a session profile, in order.
pub open spec fn textures_values(props: Seq<(Seq<char>, Seq<char>)>) -> Seq<Seq<char>>
    decreases props.len(),
{
    if props.len() == 0 {
        Seq::empty()
    } else {
        let r = textures_values(props.drop_last());
        if props.last().0 == "textures"@ {
            r.push(props.last().1)
        } else {
            r
        }
    }
}

pub open spec fn opt_bytes(o: Option<Vec<u8>>) -> Option<Seq<u8>> {
    match o {
        Some(b) => Some(b@),
        None => None,
    }
}

/// The `textures` properties of a session profile (name and value pairs),
/// each decoded from base64 in order: `None` for one that is not valid
/// base64. The skin URL is the first `SKIN` one these payloads name.
pub fn textures_payloads(properties: &[(String, String)]) -> (r: Vec<Option<Vec<u8>>>)
    ensures
        r@.len() == textures_values(pairs_view(properties@)).len(),
        forall|i: int|
            0 <= i < r@.len() ==> opt_bytes(#[trigger] r@[i]) == base64_standard_decoded(
                textures_values(pairs_view(properties@))[i],
            ),
{
    proof {
        reveal_strlit("textures");
    }
    let mut out: Vec<Option<Vec<u8>>> = Vec::new();
    let mut k: usize = 0;
    while k < properties.len()
        invariant
            k <= properties@.len(),
            out@.len() == textures_values(pairs_view(properties@.take(k as int))).len(),
            forall|i: int|
                0 <= i < out@.len() ==> opt_bytes(#[trigger] out@[i]) == base64_standard_decoded(
                    textures_values(pairs_view(properties@.take(k as int)))[i],
                ),
        decreases properties@.len() - k,
    {
        let ghost before = pairs_view(properties@.take(k as int));
        assert(pairs_view(properties@.take(k + 1)).drop_last() =~= before);
        assert(pairs_view(properties@.take(k + 1)).last() == (properties@[k as int].0@, properties@[k as int].1@));
        if crate::text::str_eq(properties[k].0.as_str(), "textures") {
            let d = base64_decode(properties[k].1.as_str());
            out.push(d);
        }
        k += 1;
    }
    assert(properties@.take(properties@.len() as int) =~= properties@);
    out
}

/// The pixels of a decoded skin: RGBA rows of `width` pixels.
pub struct SkinImage {
    pub width: u32,
    pub height: u32,
    pub rgba: bool,
    pub pixels: Vec<u8>,
}

/// Why no face can be cut from a skin.
#[derive(Debug)]
pub enum FaceError {
    /// Smaller than 16×16 (width, height).
    TooSmall(u32, u32),
    /// Not RGBA.
    NotRgba,
}

/// The face of a skin: rows 8 to 15, columns 8 to 15, four bytes a pixel.
pub open spec fn face_pixels(pixels: Seq<u8>, width: int) -> Seq<u8> {
    Seq::new(256, |k: int| pixels[((8 + k / 32) * width + 8 + (k % 32) / 4) * 4 + k % 4])
}

/// The 8×8 RGBA face of a skin (from (8, 8) to (15, 15)); fails on skins
/// smaller than 16×16 or not RGBA.
pub fn crop_face_pixels(img: &SkinImage) -> (r: Result<Vec<u8>, FaceError>)
    requires
        img.rgba ==> img.pixels@.len() >= img.width * img.height * 4,
    ensures
        match r {
            Ok(face) => img.width >= 16 && img.height >= 16 && img.rgba && face@ == face_pixels(
                img.pixels@,
                img.width as int,
            ),
            Err(FaceError::TooSmall(w, h)) => (img.width < 16 || img.height < 16) && w == img.width
                && h == img.height,
            Err(FaceError::NotRgba) => img.width >= 16 && img.height >= 16 && !img.rgba,
        },
{
    if img.width < 16 || img.height < 16 {
        return Err(FaceError::TooSmall(img.width, img.height));
    }
    if !img.rgba {
        return Err(FaceError::NotRgba);
    }
    let w = img.width as usize;
    let plen = img.pixels.len();
    let mut face: Vec<u8> = Vec::new();
    let mut k: usize = 0;
    while k < 256
        invariant
            k <= 256,
            w == img.width,
            w >= 16,
            img.rgba,
            plen == img.pixels@.len(),
            img.height >= 16,
            img.pixels@.len() >= img.width * img.height * 4,
            face@ == face_pixels(img.pixels@, w as int).take(k as int),
        decreases 256 - k,
    {
        let y: u64 = 8 + (k as u64) / 32;
        let x: u64 = 8 + ((k as u64) % 32) / 4;
        let w64: u64 = img.width as u64;
        assert(y < 16 && x < 16);
        assert(y * w64 <= 16 * 0xffff_ffff) by (nonlinear_arith)
            requires
                y < 16,
                w64 <= 0xffff_ffff,
        ;
        assert((y * w64 + x) * 4 + (k as u64) % 4 < w64 * 16 * 4) by (nonlinear_arith)
            requires
                y < 16,
                x < 16,
                16 <= w64,
        ;
        assert(w64 * 16 * 4 <= img.pixels@.len()) by (nonlinear_arith)
            requires
                w64 == img.width,
                img.height >= 16,
                img.pixels@.len() >= img.width * img.height * 4,
        ;
        let idx64: u64 = (y * w64 + x) * 4 + (k as u64) % 4;
        assert(idx64 == ((8 + k / 32) * w + 8 + (k % 32) / 4) * 4 + k % 4) by (nonlinear_arith)
            requires
                y == 8 + k / 32,
                x == 8 + (k % 32) / 4,
                w64 == w,
                idx64 == (y * w64 + x) * 4 + k % 4,
        ;
        assert(idx64 < plen);
        let idx = idx64 as usize;
        assert(idx as int == idx64 as int);
        let ghost want = face_pixels(img.pixels@, w as int);
        assert(want[k as int] == img.pixels@[idx as int]);
        let ghost before = face@;
        face.push(img.pixels[idx]);
        assert(face@ =~= before.push(want[k as int]));
        assert(face@ =~= face_pixels(img.pixels@, w as int).take(k + 1));
        k += 1;
    }
    assert(face_pixels(img.pixels@, w as int).take(256) =~= face_pixels(img.pixels@, w as int));
    Ok(face)
}

/// The data URL of an avatar PNG.
pub fn avatar_data_url(png: &[u8]) -> (r: String)
    ensures
        r@ == "data:image/png;base64,"@ + base64_standard(png@),
{
    crate::instance::icon_data_url(png)
}

} // verus!

verus! {

/// What a PNG decodes to, read as RGBA where it has alpha and with 16-bit
/// channels cut to 8: width, height, whether it is RGBA, and the pixels.
pub uninterp spec fn decoded_png(b: Seq<u8>) -> Option<(u32, u32, bool, Seq<u8>)>;

/// `png::Decoder` with `Transformations::ALPHA | STRIP_16`: the first
/// frame of a PNG, or `None` when it does not decode. An RGBA frame has
/// four bytes a pixel, rows one after another.
#[verifier::external_body]
fn decode_png(bytes: &[u8]) -> (r: Option<SkinImage>)
    ensures
        match r {
            Some(img) => decoded_png(bytes@) == Some((img.width, img.height, img.rgba, img.pixels@))
                && (img.rgba ==> img.pixels@.len() == img.width * img.height * 4),
            None => decoded_png(bytes@) is None,
        },
{
    let mut decoder = png::Decoder::new(std::io::Cursor::new(bytes));
    decoder.set_transformations(png::Transformations::ALPHA | png::Transformations::STRIP_16);
    let mut reader = decoder.read_info().ok()?;
    let mut buf = vec![0u8; reader.output_buffer_size()?];
    let info = reader.next_frame(&mut buf).ok()?;
    Some(SkinImage { width: info.width, height: info.height, rgba: info.color_type == png::ColorType::Rgba, pixels: buf })
}

/// An 8-bit RGBA PNG of the given size and pixels.
pub uninterp spec fn encoded_png(width: u32, height: u32, pixels: Seq<u8>) -> Option<Seq<u8>>;

/// `png::Encoder` writing an 8-bit RGBA image; `None` when writing fails.
#[verifier::external_body]
fn encode_png_rgba(width: u32, height: u32, pixels: &[u8]) -> (r: Option<Vec<u8>>)
    ensures
        match r {
            Some(b) => encoded_png(width, height, pixels@) == Some(b@),
            None => encoded_png(width, height, pixels@) is None,
        },
{
    let mut out = Vec::new();
    {
        let mut encoder = png::Encoder::new(&mut out, width, height);
        encoder.set_color(png::ColorType::Rgba);
        encoder.set_depth(png::BitDepth::Eight);
        let mut writer = encoder.write_header().ok()?;
        writer.write_image_data(pixels).ok()?;
    }
    Some(out)
}

/// Why no avatar can be made from a skin.
#[derive(Debug)]
pub enum AvatarError {
    /// The skin is no PNG that decodes.
    Decode,
    /// The skin is smaller than 16×16 (width, height).
    TooSmall(u32, u32),
    /// The skin is not RGBA.
    NotRgba,
    /// The face could not be written as PNG.
    Encode,
}

/// The face of a skin PNG as an 8×8 RGBA PNG: the pixels from (8, 8) to
/// (15, 15), origin top left.
pub fn crop_face(png_bytes: &[u8]) -> (r: Result<Vec<u8>, AvatarError>)
    ensures
        match decoded_png(png_bytes@) {
            None => r matches Err(AvatarError::Decode),
            Some((w, h, rgba, px)) => if w < 16 || h < 16 {
                r matches Err(AvatarError::TooSmall(a, b)) && a == w && b == h
            } else if !rgba {
                r matches Err(AvatarError::NotRgba)
            } else {
                match encoded_png(8, 8, face_pixels(px, w as int)) {
                    Some(out) => r matches Ok(v) && v@ == out,
                    None => r matches Err(AvatarError::Encode),
                }
            },
        },
{
    let img = match decode_png(png_bytes) {
        Some(i) => i,
        None => {
            return Err(AvatarError::Decode);
        },
    };
    let face = match crop_face_pixels(&img) {
        Ok(f) => f,
        Err(FaceError::TooSmall(w, h)) => {
            return Err(AvatarError::TooSmall(w, h));
        },
        Err(FaceError::NotRgba) => {
            return Err(AvatarError::NotRgba);
        },
    };
    match encode_png_rgba(8, 8, face.as_slice()) {
        Some(b) => Ok(b),
        None => Err(AvatarError::Encode),
    }
}

} // verus!
