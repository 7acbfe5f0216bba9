//! The menu-bar icon's pixels: decoding the icon file, widening RGB to
//! RGBA, and the nearest-neighbour downscale to the menu-bar size. The
//! per-state tint, which works in floating point, is applied by the program.
use vstd::prelude::*;
use vstd::arithmetic::div_mod::{lemma_div_is_ordered, lemma_fundamental_div_mod_converse};
use vstd::arithmetic::mul::lemma_mul_inequality;

use crate::text::{chars_of, push_str, string_from_chars};

verus! {

/// The side of the menu-bar icon, in pixels.
pub const MENU_BAR_ICON_SIZE: u32 = 22;

/// A decoded frame, as the PNG decoder reports it.
pub struct DecodedImage {
    pub width: u32,
    pub height: u32,
    /// The PNG color type: 0 grayscale, 2 RGB, 3 indexed, 4 grayscale with
    /// alpha, 6 RGBA.
    pub color_code: u8,
    pub bit_depth: u8,
    /// How many leading bytes of `data` hold the frame.
    pub frame_len: usize,
    pub data: Vec<u8>,
}

/// A decoded frame as contracts speak of it.
pub struct FrameView {
    pub width: u32,
    pub height: u32,
    pub color_code: u8,
    pub bit_depth: u8,
    pub frame_len: usize,
    pub data: Seq<u8>,
}

pub open spec fn frame_view(img: DecodedImage) -> FrameView {
    FrameView {
        width: img.width,
        height: img.height,
        color_code: img.color_code,
        bit_depth: img.bit_depth,
        frame_len: img.frame_len,
        data: img.data@,
    }
}

pub open spec fn decode_view(r: Result<DecodedImage, String>) -> Result<FrameView, Seq<char>> {
    match r {
        Ok(img) => Ok(frame_view(img)),
        Err(e) => Err(e@),
    }
}

/// What the `png` crate decodes from these bytes with its default
/// transformations: the first frame, or the decoder's error message.
pub uninterp spec fn png_first_frame(bytes: Seq<u8>) -> Result<FrameView, Seq<char>>;

/// Decodes the first frame of a PNG file with `png::Decoder`: `read_info`,
/// then `next_frame` into a buffer of `output_buffer_size` bytes; the frame
/// fills the first `OutputInfo::buffer_size` of them. The contract claims
/// only that the outcome is the crate's decoding of these bytes; it says
/// nothing of what that decoding is.
#[verifier::external_body]
fn decode_png(bytes: &[u8]) -> (r: Result<DecodedImage, String>)
    ensures
        decode_view(r) == png_first_frame(bytes@),
{
    let decoder = png::Decoder::new(std::io::Cursor::new(bytes));
    let mut reader = decoder.read_info().map_err(|e| e.to_string())?;
    let mut data = vec![0u8; reader.output_buffer_size()];
    let info = reader.next_frame(&mut data).map_err(|e| e.to_string())?;
    Ok(DecodedImage {
        width: info.width,
        height: info.height,
        color_code: info.color_type as u8,
        bit_depth: info.bit_depth as u8,
        frame_len: info.buffer_size(),
        data,
    })
}

// ───────────────────────── RGB to RGBA ─────────────────────────

/// The length of `n` RGB bytes once each pixel gains an alpha byte; a
/// trailing partial pixel keeps its bytes and gains one too.
pub open spec fn rgba_len(n: nat) -> nat {
    (n / 3) * 4 + if n % 3 == 0 {
        0
    } else {
        (n % 3 + 1) as nat
    }
}

/// Byte `j` of the widened image: pixel `j / 4`, channel `j % 4`, with an
/// opaque alpha.
pub open spec fn widened_byte(s: Seq<u8>, j: int) -> u8 {
    let p = j / 4;
    let k = j % 4;
    if k < 3 && 3 * p + k < s.len() {
        s[3 * p + k]
    } else {
        255
    }
}

/// RGB bytes, each group of three followed by an opaque alpha byte.
pub open spec fn widened(s: Seq<u8>) -> Seq<u8> {
    Seq::new(rgba_len(s.len()), |j: int| widened_byte(s, j))
}

proof fn lemma_split4(q: int, k: int)
    requires
        0 <= k < 4,
    ensures
        (4 * q + k) / 4 == q,
        (4 * q + k) % 4 == k,
{
    lemma_fundamental_div_mod_converse(4 * q + k, 4, q, k);
}

/// Every three bytes followed by 255: RGB pixels made opaque RGBA.
pub fn rgb_to_rgba(src: &[u8]) -> (out: Vec<u8>)
    ensures
        out@ == widened(src@),
{
    let n = src.len();
    let mut out: Vec<u8> = Vec::new();
    let mut i: usize = 0;
    let ghost mut q: int = 0;
    while n - i >= 3
        invariant
            n == src@.len(),
            i <= n,
            i == 3 * q,
            out@.len() == 4 * q,
            forall|j: int| 0 <= j < out@.len() ==> out@[j] == widened_byte(src@, j),
        decreases n - i,
    {
        out.push(src[i]);
        out.push(src[i + 1]);
        out.push(src[i + 2]);
        out.push(255);
        proof {
            lemma_split4(q, 0);
            lemma_split4(q, 1);
            lemma_split4(q, 2);
            lemma_split4(q, 3);
            q = q + 1;
        }
        i = i + 3;
    }
    let r = n - i;
    proof {
        lemma_fundamental_div_mod_converse(n as int, 3, q, r as int);
        lemma_split4(q, 0);
        lemma_split4(q, 1);
        lemma_split4(q, 2);
    }
    if r > 0 {
        out.push(src[i]);
        if r > 1 {
            out.push(src[i + 1]);
        }
        out.push(255);
    }
    assert(out@ =~= widened(src@));
    out
}

// ───────────────────────── downscale ─────────────────────────

/// Where byte `j` of the scaled image comes from: destination pixel
/// `j / 4` at row `(j / 4) / dw` and column `(j / 4) % dw` reads source
/// pixel `(dy * sh / dh, dx * sw / dw)`, channel `j % 4`.
pub open spec fn scaled_index(sw: u32, sh: u32, dw: u32, dh: u32, j: int) -> int {
    let p = j / 4;
    let c = j % 4;
    let dy = p / (dw as int);
    let dx = p % (dw as int);
    ((dy * sh / (dh as int)) * sw + dx * sw / (dw as int)) * 4 + c
}

/// The nearest-neighbour downscale of an RGBA image from `sw` by `sh` to
/// `dw` by `dh`.
pub open spec fn scaled(src: Seq<u8>, sw: u32, sh: u32, dw: u32, dh: u32) -> Seq<u8> {
    Seq::new((dw * dh * 4) as nat, |j: int| src[scaled_index(sw, sh, dw, dh, j)])
}

/// The downscale has nothing to read (an empty target), or its arithmetic
/// stays within `u32` and every pixel it reads lies inside `src`.
pub open spec fn scale_fits(src_len: nat, sw: u32, sh: u32, dw: u32, dh: u32) -> bool {
    ||| dw == 0 || dh == 0
    ||| {
        &&& dw > 0
        &&& dh > 0
        &&& dw * dh * 4 <= u32::MAX
        &&& (dw - 1) * sw <= u32::MAX
        &&& (dh - 1) * sh <= u32::MAX
        &&& ((((dh - 1) * sh) / (dh as int)) * sw + ((dw - 1) * sw) / (dw as int)) * 4 + 4 <= src_len
    }
}

proof fn lemma_position(dw: int, dy: int, dx: int, c: int)
    requires
        dw > 0,
        0 <= dx < dw,
        0 <= dy,
        0 <= c < 4,
    ensures
        ((dy * dw + dx) * 4 + c) / 4 == dy * dw + dx,
        ((dy * dw + dx) * 4 + c) % 4 == c,
        (dy * dw + dx) / dw == dy,
        (dy * dw + dx) % dw == dx,
{
    lemma_fundamental_div_mod_converse((dy * dw + dx) * 4 + c, 4, dy * dw + dx, c);
    lemma_fundamental_div_mod_converse(dy * dw + dx, dw, dy, dx);
}

proof fn lemma_source_in_bounds(src_len: nat, sw: u32, sh: u32, dw: u32, dh: u32, dy: int, dx: int)
    requires
        scale_fits(src_len, sw, sh, dw, dh),
        dw > 0,
        dh > 0,
        0 <= dy < dh,
        0 <= dx < dw,
    ensures
        dy * sh <= u32::MAX,
        dx * sw <= u32::MAX,
        ((dy * sh / (dh as int)) * sw + dx * sw / (dw as int)) * 4 + 4 <= src_len,
{
    lemma_mul_inequality(dy, dh - 1, sh as int);
    lemma_div_is_ordered(dy * sh, (dh - 1) * sh, dh as int);
    lemma_mul_inequality(dx, dw - 1, sw as int);
    lemma_div_is_ordered(dx * sw, (dw - 1) * sw, dw as int);
    lemma_mul_inequality(dy * sh / (dh as int), ((dh - 1) * sh) / (dh as int), sw as int);
}

/// Nearest-neighbour downscale of an RGBA buffer from `sw` by `sh` to `dw`
/// by `dh`.
pub fn scale_nearest(src: &[u8], sw: u32, sh: u32, dw: u32, dh: u32) -> (out: Vec<u8>)
    requires
        scale_fits(src@.len(), sw, sh, dw, dh),
    ensures
        out@ == scaled(src@, sw, sh, dw, dh),
{
    let n = src.len();
    let mut out: Vec<u8> = Vec::new();
    if dw == 0 || dh == 0 {
        assert(out@ =~= scaled(src@, sw, sh, dw, dh));
        return out;
    }
    let mut dy: u32 = 0;
    while dy < dh
        invariant
            scale_fits(src@.len(), sw, sh, dw, dh),
            dw > 0,
            dh > 0,
            n == src@.len(),
            dy <= dh,
            out@.len() == dy * dw * 4,
            forall|j: int|
                0 <= j < out@.len() ==> out@[j] == src@[scaled_index(sw, sh, dw, dh, j)],
        decreases dh - dy,
    {
        proof {
            lemma_source_in_bounds(src@.len(), sw, sh, dw, dh, dy as int, 0);
        }
        let sy: u32 = dy * sh / dh;
        let mut dx: u32 = 0;
        while dx < dw
            invariant
                scale_fits(src@.len(), sw, sh, dw, dh),
                dw > 0,
                dh > 0,
                n == src@.len(),
                dy < dh,
                dx <= dw,
                sy == dy * sh / (dh as int),
                out@.len() == (dy * dw + dx) * 4,
                forall|j: int|
                    0 <= j < out@.len() ==> out@[j] == src@[scaled_index(sw, sh, dw, dh, j)],
            decreases dw - dx,
        {
            proof {
                lemma_source_in_bounds(src@.len(), sw, sh, dw, dh, dy as int, dx as int);
                lemma_position(dw as int, dy as int, dx as int, 0);
                lemma_position(dw as int, dy as int, dx as int, 1);
                lemma_position(dw as int, dy as int, dx as int, 2);
                lemma_position(dw as int, dy as int, dx as int, 3);
            }
            let sx: u32 = dx * sw / dw;
            assert((sy * sw + sx) * 4 + 4 <= src@.len());
            let si: usize = (sy as usize * sw as usize + sx as usize) * 4;
            out.push(src[si]);
            out.push(src[si + 1]);
            out.push(src[si + 2]);
            out.push(src[si + 3]);
            dx = dx + 1;
            assert((dy * dw + dx) * 4 == (dy * dw + (dx - 1)) * 4 + 4) by (nonlinear_arith);
        }
        assert((dy * dw + dw) * 4 == (dy + 1) * dw * 4) by (nonlinear_arith);
        dy = dy + 1;
    }
    assert(dh * dw * 4 == dw * dh * 4) by (nonlinear_arith);
    assert(out@ =~= scaled(src@, sw, sh, dw, dh));
    out
}

// ───────────────────────── the icon ─────────────────────────

/// How the decoder names a PNG color type.
pub open spec fn color_name(code: u8) -> Seq<char> {
    if code == 0 {
        "Grayscale"@
    } else if code == 2 {
        "Rgb"@
    } else if code == 3 {
        "Indexed"@
    } else if code == 4 {
        "GrayscaleAlpha"@
    } else if code == 6 {
        "Rgba"@
    } else {
        "Unknown"@
    }
}

/// The frame as RGBA bytes: RGBA frames as they are, RGB frames widened,
/// any other color type refused.
pub open spec fn frame_rgba(f: FrameView) -> Result<Seq<u8>, Seq<char>> {
    if f.frame_len > f.data.len() {
        Err("decoded frame is larger than its buffer"@)
    } else if f.color_code == 6 {
        Ok(f.data.take(f.frame_len as int))
    } else if f.color_code == 2 {
        Ok(widened(f.data.take(f.frame_len as int)))
    } else {
        Err("unsupported color type "@ + color_name(f.color_code))
    }
}

/// The icon's pixels: the frame as RGBA, scaled to `size` by `size`.
pub open spec fn icon_pixels(f: FrameView, size: u32) -> Result<Seq<u8>, Seq<char>> {
    match frame_rgba(f) {
        Err(e) => Err(e),
        Ok(rgba) => if scale_fits(rgba.len(), f.width, f.height, size, size) {
            Ok(scaled(rgba, f.width, f.height, size, size))
        } else {
            Err("decoded frame does not fit the icon size"@)
        },
    }
}

pub open spec fn bytes_view(r: Result<Vec<u8>, String>) -> Result<Seq<u8>, Seq<char>> {
    match r {
        Ok(v) => Ok(v@),
        Err(e) => Err(e@),
    }
}

fn message(s: &str) -> (r: String)
    ensures
        r@ == s@,
{
    string_from_chars(&chars_of(s))
}

fn color_name_exec(code: u8) -> (r: &'static str)
    ensures
        r@ == color_name(code),
{
    if code == 0 {
        "Grayscale"
    } else if code == 2 {
        "Rgb"
    } else if code == 3 {
        "Indexed"
    } else if code == 4 {
        "GrayscaleAlpha"
    } else if code == 6 {
        "Rgba"
    } else {
        "Unknown"
    }
}

fn fits_exec(src_len: usize, sw: u32, sh: u32, dw: u32, dh: u32) -> (b: bool)
    ensures
        b == scale_fits(src_len as nat, sw, sh, dw, dh),
{
    if dw == 0 || dh == 0 {
        return true;
    }
    let (sw, sh, dw, dh) = (sw as u128, sh as u128, dw as u128, dh as u128);
    assert(dw * dh <= 0xffff_ffff * 0xffff_ffff) by (nonlinear_arith)
        requires
            dw <= 0xffff_ffff,
            dh <= 0xffff_ffff,
    ;
    assert((dw - 1) * sw <= 0xffff_ffff * 0xffff_ffff) by (nonlinear_arith)
        requires
            1 <= dw <= 0xffff_ffff,
            sw <= 0xffff_ffff,
    ;
    assert((dh - 1) * sh <= 0xffff_ffff * 0xffff_ffff) by (nonlinear_arith)
        requires
            1 <= dh <= 0xffff_ffff,
            sh <= 0xffff_ffff,
    ;
    if dw * dh * 4 > 0xffff_ffff || (dw - 1) * sw > 0xffff_ffff || (dh - 1) * sh > 0xffff_ffff {
        return false;
    }
    let row = (dh - 1) * sh / dh;
    let col = (dw - 1) * sw / dw;
    assert(row * sw <= 0xffff_ffff * 0xffff_ffff) by (nonlinear_arith)
        requires
            row <= 0xffff_ffff,
            sw <= 0xffff_ffff,
    ;
    (row * sw + col) * 4 + 4 <= src_len as u128
}

/// The icon's pixels from a decoded frame, scaled to `size` by `size`.
pub fn icon_from_frame(frame: DecodedImage, size: u32) -> (r: Result<Vec<u8>, String>)
    ensures
        bytes_view(r) == icon_pixels(frame_view(frame), size),
{
    let ghost f = frame_view(frame);
    let DecodedImage { width, height, color_code, bit_depth: _, frame_len, data } = frame;
    if frame_len > data.len() {
        return Err(message("decoded frame is larger than its buffer"));
    }
    let mut data = data;
    data.truncate(frame_len);
    let rgba = if color_code == 6 {
        data
    } else if color_code == 2 {
        rgb_to_rgba(data.as_slice())
    } else {
        let mut out: Vec<char> = Vec::new();
        push_str(&mut out, "unsupported color type ");
        push_str(&mut out, color_name_exec(color_code));
        return Err(string_from_chars(&out));
    };
    assert(frame_rgba(f) == Ok::<Seq<u8>, Seq<char>>(rgba@));
    if !fits_exec(rgba.len(), width, height, size, size) {
        return Err(message("decoded frame does not fit the icon size"));
    }
    Ok(scale_nearest(rgba.as_slice(), width, height, size, size))
}

/// The menu-bar icon's untinted pixels from the bytes of a PNG file: the
/// first frame, as RGBA, scaled to `size` by `size`; or why that failed.
pub fn png_icon_pixels(bytes: &[u8], size: u32) -> (r: Result<Vec<u8>, String>)
    ensures
        bytes_view(r) == match png_first_frame(bytes@) {
            Ok(f) => icon_pixels(f, size),
            Err(e) => Err(e),
        },
{
    match decode_png(bytes) {
        Ok(frame) => icon_from_frame(frame, size),
        Err(e) => Err(e),
    }
}

} // verus!
