use vstd::prelude::*;

use crate::bytes::{get_u16, read_u16, u16_le, write_u16};
use crate::file_types::ImageFileType;

verus! {

/// Pixel formats of images.
#[derive(Clone, Copy, Debug, PartialEq, Eq, Structural)]
pub enum ImageFormat {
    Unknown,
    R1Unorm,
    R8Typeless,
    R8Unorm,
    R8Sint,
    R8Uint,
    R16Typeless,
    R16Float,
    R16Unorm,
    R16Snorm,
    R16Sint,
    R16Uint,
    Bc4Typeless,
    Bc4Unorm,
    Bc4Snorm,
    R8G8B8A8Unorm,
    R8G8B8A8UnormSrgb,
    B8G8R8A8Unorm,
    B8G8R8A8UnormSrgb,
    Bc1Unorm,
    Bc1UnormSrgb,
    Bc2Unorm,
    Bc2UnormSrgb,
    Bc3Unorm,
    Bc3UnormSrgb,
    Bc7Unorm,
    Bc7UnormSrgb,
}

/// Why an image could not be written.
#[derive(Clone, Copy, Debug, PartialEq, Eq, Structural)]
pub enum TextureError {
    /// The container cannot hold this pixel format.
    ContainerFormatInvalid(ImageFormat, ImageFileType),
    /// The image is too large for the container: width and total height.
    InvalidImageSize(u32, u32),
    /// The stream is not a TGA this reader handles.
    ContainerInvalid(ImageFileType),
    /// The stream ends before the image is complete, or its packets overrun the image.
    InvalidData,
}

/// An image: size, pixel format and frames, each frame a buffer of rows of pixels.
#[derive(Clone, Debug)]
pub struct Image {
    pub width: u32,
    pub height: u32,
    pub format: ImageFormat,
    pub frames: Vec<Vec<u8>>,
}

/// Whether a format stores sRGB colors.
pub open spec fn is_srgb(f: ImageFormat) -> bool {
    match f {
        ImageFormat::R8G8B8A8UnormSrgb | ImageFormat::B8G8R8A8UnormSrgb | ImageFormat::Bc1UnormSrgb
        | ImageFormat::Bc2UnormSrgb | ImageFormat::Bc3UnormSrgb | ImageFormat::Bc7UnormSrgb => true,
        _ => false,
    }
}

/// Whether a format stores sRGB colors.
pub fn is_format_srgb(f: ImageFormat) -> (r: bool)
    ensures
        r == is_srgb(f),
{
    match f {
        ImageFormat::R8G8B8A8UnormSrgb | ImageFormat::B8G8R8A8UnormSrgb | ImageFormat::Bc1UnormSrgb
        | ImageFormat::Bc2UnormSrgb | ImageFormat::Bc3UnormSrgb | ImageFormat::Bc7UnormSrgb => true,
        _ => false,
    }
}

/// The format an image is converted to before it is written as a TGA: single-channel formats
/// become 8-bit grayscale, everything else 32-bit BGRA, keeping sRGB.
pub open spec fn tga_format_for(f: ImageFormat) -> ImageFormat {
    match f {
        ImageFormat::R1Unorm | ImageFormat::R8Typeless | ImageFormat::R8Unorm | ImageFormat::R8Sint
        | ImageFormat::R8Uint | ImageFormat::R16Typeless | ImageFormat::R16Float
        | ImageFormat::R16Unorm | ImageFormat::R16Snorm | ImageFormat::R16Sint
        | ImageFormat::R16Uint | ImageFormat::Bc4Typeless | ImageFormat::Bc4Unorm
        | ImageFormat::Bc4Snorm => ImageFormat::R8Unorm,
        _ => if is_srgb(f) {
            ImageFormat::B8G8R8A8UnormSrgb
        } else {
            ImageFormat::B8G8R8A8Unorm
        },
    }
}

/// Picks the proper format required to save the input format to a TGA file.
pub fn pick_format(format: ImageFormat) -> (r: ImageFormat)
    ensures
        r == tga_format_for(format),
{
    match format {
        ImageFormat::R1Unorm => ImageFormat::R8Unorm,
        ImageFormat::R8Typeless | ImageFormat::R8Unorm | ImageFormat::R8Sint | ImageFormat::R8Uint => {
            ImageFormat::R8Unorm
        },
        ImageFormat::R16Typeless | ImageFormat::R16Float | ImageFormat::R16Unorm
        | ImageFormat::R16Snorm | ImageFormat::R16Sint | ImageFormat::R16Uint => ImageFormat::R8Unorm,
        ImageFormat::Bc4Typeless | ImageFormat::Bc4Unorm | ImageFormat::Bc4Snorm => ImageFormat::R8Unorm,
        _ => {
            if is_format_srgb(format) {
                ImageFormat::B8G8R8A8UnormSrgb
            } else {
                ImageFormat::B8G8R8A8Unorm
            }
        },
    }
}

/// The bytes per pixel of a format a TGA can hold: 1 for grayscale, 4 for BGRA.
pub open spec fn tga_bpp(f: ImageFormat) -> Option<nat> {
    match f {
        ImageFormat::R8Unorm => Some(1),
        ImageFormat::B8G8R8A8Unorm | ImageFormat::B8G8R8A8UnormSrgb => Some(4),
        _ => None,
    }
}

/// `p` repeated `n` times.
pub open spec fn repeat(p: Seq<u8>, n: nat) -> Seq<u8>
    decreases n,
{
    if n == 0 {
        seq![]
    } else {
        repeat(p, (n - 1) as nat) + p
    }
}

/// The bytes a stream of run-length packets stands for, with `bpp` bytes per pixel: an opcode
/// of 128 or more is followed by one pixel repeated `opcode - 127` times; a smaller opcode by
/// `opcode + 1` literal pixels.
pub open spec fn rle_decode(s: Seq<u8>, bpp: nat) -> Option<Seq<u8>>
    decreases s.len(),
{
    if s.len() == 0 {
        Some(seq![])
    } else {
        let op = s[0] as nat;
        let take: nat = if op >= 128 { 1 + bpp } else { 1 + (op + 1) * bpp };
        let out = if op >= 128 {
            repeat(s.subrange(1, (1 + bpp) as int), (op - 127) as nat)
        } else {
            s.subrange(1, take as int)
        };
        if take > s.len() {
            None
        } else {
            match rle_decode(s.subrange(take as int, s.len() as int), bpp) {
                Some(rest) => Some(out + rest),
                None => None,
            }
        }
    }
}

proof fn lemma_rle_concat(a: Seq<u8>, b: Seq<u8>, bpp: nat)
    requires
        rle_decode(a, bpp) is Some,
        rle_decode(b, bpp) is Some,
    ensures
        rle_decode(a + b, bpp) == Some(rle_decode(a, bpp)->Some_0 + rle_decode(b, bpp)->Some_0),
    decreases a.len(),
{
    let ab = a + b;
    if a.len() == 0 {
        assert(ab =~= b);
        assert(Seq::<u8>::empty() + rle_decode(b, bpp)->Some_0 =~= rle_decode(b, bpp)->Some_0);
    } else {
        let op = a[0] as nat;
        let take: nat = if op >= 128 { 1 + bpp } else { 1 + (op + 1) * bpp };
        assert(ab[0] == a[0]);
        let rest_a = a.subrange(take as int, a.len() as int);
        lemma_rle_concat(rest_a, b, bpp);
        assert(ab.subrange(take as int, ab.len() as int) =~= rest_a + b);
        if op >= 128 {
            assert(ab.subrange(1, (1 + bpp) as int) =~= a.subrange(1, (1 + bpp) as int));
        } else {
            assert(ab.subrange(1, take as int) =~= a.subrange(1, take as int));
        }
        let out = if op >= 128 {
            repeat(a.subrange(1, (1 + bpp) as int), (op - 127) as nat)
        } else {
            a.subrange(1, take as int)
        };
        assert(out + (rle_decode(rest_a, bpp)->Some_0 + rle_decode(b, bpp)->Some_0) =~= (out
            + rle_decode(rest_a, bpp)->Some_0) + rle_decode(b, bpp)->Some_0);
    }
}

proof fn lemma_rle_run_packet(p: Seq<u8>, n: nat, bpp: nat)
    requires
        p.len() == bpp,
        1 <= n <= 128,
    ensures
        rle_decode(seq![(127 + n) as u8] + p, bpp) == Some(repeat(p, n)),
{
    let s = seq![(127 + n) as u8] + p;
    assert(s.subrange(1, (1 + bpp) as int) =~= p);
    assert(s.subrange((1 + bpp) as int, s.len() as int) =~= Seq::<u8>::empty());
    assert(rle_decode(Seq::<u8>::empty(), bpp) == Some(Seq::<u8>::empty()));
    assert(repeat(p, n) + Seq::<u8>::empty() =~= repeat(p, n));
}

proof fn lemma_rle_raw_packet(d: Seq<u8>, n: nat, bpp: nat)
    requires
        d.len() == n * bpp,
        1 <= n <= 128,
    ensures
        rle_decode(seq![(n - 1) as u8] + d, bpp) == Some(d),
{
    let s = seq![(n - 1) as u8] + d;
    assert(s.subrange(1, (1 + n * bpp) as int) =~= d);
    assert(s.subrange((1 + n * bpp) as int, s.len() as int) =~= Seq::<u8>::empty());
    assert(rle_decode(Seq::<u8>::empty(), bpp) == Some(Seq::<u8>::empty()));
    assert(d + Seq::<u8>::empty() =~= d);
}

/// `s` is a sequence of whole packets with `bpp` bytes per pixel, where a repeat packet
/// holds 2 to 128 pixels and a literal packet 1 to 128.
pub open spec fn rle_packets_ok(s: Seq<u8>, bpp: nat) -> bool
    decreases s.len(),
{
    if s.len() == 0 {
        true
    } else {
        let op = s[0] as nat;
        let take: nat = if op >= 128 { 1 + bpp } else { 1 + (op + 1) * bpp };
        if take > s.len() {
            false
        } else {
            (op >= 128 ==> op >= 129) && rle_packets_ok(s.subrange(take as int, s.len() as int), bpp)
        }
    }
}

proof fn lemma_packets_concat(a: Seq<u8>, b: Seq<u8>, bpp: nat)
    requires
        rle_packets_ok(a, bpp),
        rle_packets_ok(b, bpp),
    ensures
        rle_packets_ok(a + b, bpp),
    decreases a.len(),
{
    let ab = a + b;
    if a.len() == 0 {
        assert(ab =~= b);
    } else {
        let op = a[0] as nat;
        let take: nat = if op >= 128 { 1 + bpp } else { 1 + (op + 1) * bpp };
        assert(ab[0] == a[0]);
        lemma_packets_concat(a.subrange(take as int, a.len() as int), b, bpp);
        assert(ab.subrange(take as int, ab.len() as int) =~= a.subrange(take as int, a.len() as int) + b);
    }
}

proof fn lemma_packet_ok(op: u8, d: Seq<u8>, bpp: nat)
    requires
        op >= 128 ==> op >= 129 && d.len() == bpp,
        op < 128 ==> d.len() == (op + 1) * bpp,
    ensures
        rle_packets_ok(seq![op] + d, bpp),
{
    let s = seq![op] + d;
    let take: nat = if op >= 128 { 1 + bpp } else { (1 + (op as nat + 1) * bpp) as nat };
    assert(s[0] == op);
    assert(s.len() == take);
    assert(s.subrange(take as int, s.len() as int) =~= Seq::<u8>::empty());
    assert(rle_packets_ok(Seq::<u8>::empty(), bpp));
}

fn range_eq(b: &Vec<u8>, i: usize, j: usize, n: usize) -> (r: bool)
    requires
        i + n <= b.len(),
        j + n <= b.len(),
    ensures
        r == (b@.subrange(i as int, i + n) == b@.subrange(j as int, j + n)),
{
    let mut k: usize = 0;
    while k < n
        invariant
            k <= n,
            i + n <= b.len(),
            j + n <= b.len(),
            b@.subrange(i as int, i + k) == b@.subrange(j as int, j + k),
        decreases n - k,
    {
        if b[i + k] != b[j + k] {
            assert(b@.subrange(i as int, i + n)[k as int] != b@.subrange(j as int, j + n)[k as int]);
            return false;
        }
        k = k + 1;
        assert(b@.subrange(i as int, i + k) =~= b@.subrange(j as int, j + k)) by {
            assert forall|t: int| 0 <= t < k implies #[trigger] b@.subrange(i as int, i + k)[t] == b@.subrange(j as int, j + k)[t] by {
                if t < k - 1 {
                    assert(b@.subrange(i as int, i + k - 1)[t] == b@.subrange(j as int, j + k - 1)[t]);
                }
            }
        }
    }
    true
}

fn push_range(out: &mut Vec<u8>, b: &Vec<u8>, lo: usize, hi: usize)
    requires
        lo <= hi <= b@.len(),
    ensures
        final(out)@ == old(out)@ + b@.subrange(lo as int, hi as int),
{
    let mut k: usize = lo;
    while k < hi
        invariant
            lo <= k <= hi <= b@.len(),
            out@ == old(out)@ + b@.subrange(lo as int, k as int),
        decreases hi - k,
    {
        out.push(b[k]);
        k = k + 1;
        assert(out@ =~= old(out)@ + b@.subrange(lo as int, k as int));
    }
}

proof fn lemma_pixel_step(x: int, bpp: int)
    requires
        bpp == 1 || bpp == 4,
        x % bpp == 0,
        x > 0,
    ensures
        x >= bpp,
        (x - bpp) % bpp == 0,
        x > bpp ==> x >= 2 * bpp,
{
}

/// The longest run a packet holds.
pub const MAXIMUM_RLE_LENGTH: usize = 128;

/// Writes the pixels in `buf[lo..hi]` as run-length packets: a run of equal pixels becomes a
/// repeat packet, other pixels literal packets, each packet holding at most 128 pixels. The
/// packets decode back to exactly those pixels.
#[verifier::rlimit(80)]
fn write_rle_encode(buf: &Vec<u8>, lo: usize, hi: usize, bpp: usize, out: &mut Vec<u8>)
    requires
        lo <= hi <= buf.len(),
        bpp == 1 || bpp == 4,
        (hi - lo) as int % bpp as int == 0,
    ensures
        final(out)@.len() >= old(out)@.len(),
        final(out)@.subrange(0, old(out)@.len() as int) == old(out)@,
        rle_decode(final(out)@.subrange(old(out)@.len() as int, final(out)@.len() as int), bpp as nat)
            == Some(buf@.subrange(lo as int, hi as int)),
        rle_packets_ok(final(out)@.subrange(old(out)@.len() as int, final(out)@.len() as int), bpp as nat),
        final(out)@.len() - old(out)@.len() <= (hi - lo) + (hi - lo) / (bpp as int),
{
    let ghost start = old(out)@;
    let ghost b = buf@;
    let mut cursor: usize = lo;
    proof {
        assert(out@.subrange(start.len() as int, out@.len() as int) =~= Seq::<u8>::empty());
        assert(b.subrange(lo as int, lo as int) =~= Seq::<u8>::empty());
    }
    while cursor < hi
        invariant
            lo <= cursor <= hi <= buf.len(),
            b == buf@,
            bpp == 1 || bpp == 4,
            (hi - cursor) as int % bpp as int == 0,
            out@.len() >= start.len(),
            out@.subrange(0, start.len() as int) == start,
            rle_decode(out@.subrange(start.len() as int, out@.len() as int), bpp as nat)
                == Some(b.subrange(lo as int, cursor as int)),
            rle_packets_ok(out@.subrange(start.len() as int, out@.len() as int), bpp as nat),
            (out@.len() - start.len()) * bpp <= (cursor - lo) * (bpp + 1),
        decreases hi - cursor,
    {
        let ghost enc = out@.subrange(start.len() as int, out@.len() as int);
        let ghost before = out@;
        let cs = cursor;
        proof {
            lemma_pixel_step((hi - cursor) as int, bpp as int);
        }
        let is_rle_packet = hi - cursor > bpp && range_eq(buf, cursor, cursor + bpp, bpp);
        let mut packet_size: usize = 1;
        cursor = cursor + bpp;
        proof {
            lemma_pixel_step((hi - cs) as int, bpp as int);
        }
        let ghost packet: Seq<u8>;
        if is_rle_packet {
            let ghost p = b.subrange(cs as int, cs + bpp);
            assert(b.subrange(cs as int, cursor as int) =~= repeat(p, 1)) by {
                assert(repeat(p, 0) =~= Seq::<u8>::empty());
                assert(Seq::<u8>::empty() + p =~= p);
            }
            loop
                invariant
                    cs + bpp <= cursor <= hi <= buf.len(),
                    b == buf@,
                    p == b.subrange(cs as int, cs + bpp),
                    bpp == 1 || bpp == 4,
                    (hi - cursor) as int % bpp as int == 0,
                    1 <= packet_size <= MAXIMUM_RLE_LENGTH,
                    b.subrange(cs as int, cursor as int) == repeat(p, packet_size as nat),
                    cursor as int == cs as int + packet_size as int * bpp as int,
                    packet_size == 1 ==> hi - cursor >= bpp && b.subrange(cs as int, cs + bpp) == b.subrange(
                        cursor as int,
                        cursor + bpp,
                    ),
                ensures
                    packet_size >= 2,
                    cs + bpp <= cursor <= hi,
                    b.subrange(cs as int, cursor as int) == repeat(p, packet_size as nat),
                    cursor as int == cs as int + packet_size as int * bpp as int,
                    (hi - cursor) as int % bpp as int == 0,
                    packet_size <= MAXIMUM_RLE_LENGTH,
                decreases hi - cursor,
            {
                if packet_size >= MAXIMUM_RLE_LENGTH || hi - cursor < bpp {
                    break;
                }
                if !range_eq(buf, cs, cursor, bpp) {
                    break;
                }
                proof {
                    assert(b.subrange(cs as int, cursor + bpp) =~= b.subrange(cs as int, cursor as int)
                        + b.subrange(cursor as int, cursor + bpp));
                    lemma_pixel_step((hi - cursor) as int, bpp as int);
                    assert(cursor as int + bpp as int == cs as int + (packet_size as int + 1) * bpp as int)
                        by (nonlinear_arith)
                        requires
                            cursor as int == cs as int + packet_size as int * bpp as int,
                    ;
                }
                packet_size = packet_size + 1;
                cursor = cursor + bpp;
            }
            assert(packet_size >= 2);
            out.push((127 + packet_size) as u8);
            push_range(out, buf, cs, cs + bpp);
            proof {
                packet = seq![(127 + packet_size) as u8] + p;
                assert(out@ =~= before + packet);
                lemma_rle_run_packet(p, packet_size as nat, bpp as nat);
                lemma_packet_ok((127 + packet_size) as u8, p, bpp as nat);
                assert(packet.len() * bpp <= (cursor - cs) * (bpp + 1)) by (nonlinear_arith)
                    requires
                        packet.len() == 1 + bpp,
                        cursor as int == cs as int + packet_size as int * bpp as int,
                        packet_size >= 2,
                        bpp >= 1,
                ;
            }
        } else {
            loop
                invariant
                    cs + bpp <= cursor <= hi <= buf.len(),
                    b == buf@,
                    bpp == 1 || bpp == 4,
                    (hi - cursor) as int % bpp as int == 0,
                    1 <= packet_size <= MAXIMUM_RLE_LENGTH,
                    cursor as int == cs as int + packet_size as int * bpp as int,
                decreases hi - cursor,
            {
                if packet_size >= MAXIMUM_RLE_LENGTH || hi - cursor < bpp {
                    break;
                }
                if hi - cursor > bpp {
                    proof {
                        lemma_pixel_step((hi - cursor) as int, bpp as int);
                    }
                    if range_eq(buf, cursor, cursor + bpp, bpp) {
                        break;
                    }
                }
                proof {
                    lemma_pixel_step((hi - cursor) as int, bpp as int);
                    assert(cursor as int + bpp as int == cs as int + (packet_size as int + 1) * bpp as int)
                        by (nonlinear_arith)
                        requires
                            cursor as int == cs as int + packet_size as int * bpp as int,
                    ;
                }
                packet_size = packet_size + 1;
                cursor = cursor + bpp;
            }
            out.push((packet_size - 1) as u8);
            push_range(out, buf, cs, cursor);
            proof {
                packet = seq![(packet_size - 1) as u8] + b.subrange(cs as int, cursor as int);
                assert(out@ =~= before + packet);
                lemma_rle_raw_packet(b.subrange(cs as int, cursor as int), packet_size as nat, bpp as nat);
                lemma_packet_ok((packet_size - 1) as u8, b.subrange(cs as int, cursor as int), bpp as nat);
                assert(packet.len() * bpp <= (cursor - cs) * (bpp + 1)) by (nonlinear_arith)
                    requires
                        packet.len() == 1 + (cursor - cs),
                        cursor as int == cs as int + packet_size as int * bpp as int,
                        packet_size >= 1,
                        bpp >= 1,
                ;
            }
        }
        proof {
            lemma_rle_concat(enc, packet, bpp as nat);
            lemma_packets_concat(enc, packet, bpp as nat);
            assert(out@.subrange(start.len() as int, out@.len() as int) =~= enc + packet);
            assert((enc.len() + packet.len()) * bpp <= (cursor - lo) * (bpp + 1)) by (nonlinear_arith)
                requires
                    enc.len() * bpp <= (cs - lo) * (bpp + 1),
                    packet.len() * bpp <= (cursor - cs) * (bpp + 1),
            ;
            assert(out@.subrange(0, start.len() as int) =~= before.subrange(0, start.len() as int));
            assert(b.subrange(lo as int, cs as int) + b.subrange(cs as int, cursor as int) =~= b.subrange(lo as int, cursor as int));
        }
    }
    proof {
        let added = out@.len() - start.len();
        let x = (hi - lo) as int;
        if bpp == 1 {
        } else {
            assert(added <= x + x / 4) by (nonlinear_arith)
                requires
                    added * 4 <= x * 5,
                    x % 4 == 0,
            ;
        }
    }
}

/// The most frames a TGA holds; they are stacked vertically.
pub const MAXIMUM_TGA_FRAMES: usize = 6;

impl Image {
    /// Every frame of a format a TGA can hold has `width * height` pixels.
    pub open spec fn wf(&self) -> bool {
        tga_bpp(self.format) matches Some(b) ==> forall|i: int|
            0 <= i < self.frames@.len() ==> (#[trigger] self.frames@[i])@.len() == self.width * self.height * b
    }
}

/// The number of frames written.
pub open spec fn tga_frames(image: Image) -> nat {
    if image.frames@.len() < 6 {
        image.frames@.len()
    } else {
        6
    }
}

/// The pixels of the frames written, one frame after another.
pub open spec fn tga_pixels(image: Image) -> Seq<u8> {
    image.frames@.subrange(0, tga_frames(image) as int).map_values(|f: Vec<u8>| f@).flatten()
}

/// The 18-byte header: run-length image type, no color map, origin 0, size, bit depth and a
/// top-left origin.
pub open spec fn tga_header(image_type: u8, width: u16, height: u16, bits: u8) -> Seq<u8> {
    seq![0u8, 0u8, image_type, 0u8, 0u8, 0u8, 0u8, 0u8, 0u8, 0u8, 0u8, 0u8] + u16_le(width) + u16_le(height)
        + seq![bits, 32u8]
}

/// Row `y` of frame `f`, with `b` bytes per pixel.
pub open spec fn frame_row(image: Image, f: int, y: int, b: nat) -> Seq<u8> {
    image.frames@[f]@.subrange(y * (image.width * b), y * (image.width * b) + image.width * b)
}

/// `c` is the encoding of row `y` of frame `f` on its own: whole packets, at most one opcode
/// per pixel beyond the pixel bytes, decoding to exactly that row.
pub open spec fn row_encoded(c: Seq<u8>, image: Image, f: int, y: int, b: nat) -> bool {
    &&& rle_packets_ok(c, b)
    &&& rle_decode(c, b) == Some(frame_row(image, f, y, b))
    &&& c.len() <= image.width * b + image.width
}

/// The row encodings of every frame, one after another.
pub open spec fn flatten_rows(c: Seq<Seq<Seq<u8>>>) -> Seq<u8> {
    c.map_values(|r: Seq<Seq<u8>>| r.flatten()).flatten()
}

/// The total height written, at most `u32::MAX`.
pub open spec fn tga_height(image: Image) -> int {
    let h = image.height * tga_frames(image);
    if h > u32::MAX {
        u32::MAX as int
    } else {
        h
    }
}

/// Writes an image as a run-length TGA: the header, then each row of the first six frames as
/// packets. Fails when a TGA cannot hold the pixel format, or the width or stacked height
/// exceeds 65535.
#[verifier::rlimit(80)]
pub fn to_tga(image: &Image) -> (r: Result<Vec<u8>, TextureError>)
    requires
        image.wf(),
    ensures
        tga_bpp(image.format) is None ==> r == Err::<Vec<u8>, TextureError>(
            TextureError::ContainerFormatInvalid(image.format, ImageFileType::Tga),
        ),
        tga_bpp(image.format) is Some && (image.width > 0xFFFF || tga_height(*image) > 0xFFFF) ==> r
            == Err::<Vec<u8>, TextureError>(TextureError::InvalidImageSize(image.width, tga_height(*image) as u32)),
        r is Ok <==> (tga_bpp(image.format) is Some && image.width <= 0xFFFF && tga_height(*image) <= 0xFFFF),
        r matches Ok(bytes) ==> {
            let b = tga_bpp(image.format)->Some_0;
            &&& bytes@.len() >= 18
            &&& bytes@.subrange(0, 18) == tga_header(
                if b == 1 { 11u8 } else { 10u8 },
                image.width as u16,
                tga_height(*image) as u16,
                (8 * b) as u8,
            )
            &&& rle_decode(bytes@.subrange(18, bytes@.len() as int), b) == Some(tga_pixels(*image))
            &&& exists|c: Seq<Seq<Seq<u8>>>| {
                &&& c.len() == tga_frames(*image)
                &&& bytes@.subrange(18, bytes@.len() as int) == flatten_rows(c)
                &&& forall|f: int| 0 <= f < c.len() ==> (#[trigger] c[f]).len() == image.height
                &&& forall|f: int, y: int| 0 <= f < c.len() && 0 <= y < image.height ==> row_encoded(#[trigger] c[f][y], *image, f, y, b)
            }
        },
{
    let bpp: usize = match image.format {
        ImageFormat::R8Unorm => 1,
        ImageFormat::B8G8R8A8Unorm | ImageFormat::B8G8R8A8UnormSrgb => 4,
        _ => {
            return Err(TextureError::ContainerFormatInvalid(image.format, ImageFileType::Tga));
        },
    };
    let frames: usize = if image.frames.len() < MAXIMUM_TGA_FRAMES {
        image.frames.len()
    } else {
        MAXIMUM_TGA_FRAMES
    };
    assert(image.height as u64 as int * frames as u64 as int <= 0xFFFF_FFFF * 6) by (nonlinear_arith)
        requires
            image.height <= 0xFFFF_FFFF,
            frames <= 6,
    ;
    let total: u64 = image.height as u64 * frames as u64;
    let height: u32 = if total > 0xFFFF_FFFFu64 {
        0xFFFF_FFFFu32
    } else {
        total as u32
    };
    if image.width > 0xFFFF || height > 0xFFFF {
        return Err(TextureError::InvalidImageSize(image.width, height));
    }
    let image_type: u8 = if bpp == 1 { 11 } else { 10 };
    let mut out: Vec<u8> = Vec::new();
    let mut k: usize = 0;
    while k < 12
        invariant
            k <= 12,
            out@ == Seq::new(k as nat, |i: int| if i == 2 { image_type } else { 0u8 }),
        decreases 12 - k,
    {
        out.push(if k == 2 { image_type } else { 0u8 });
        k = k + 1;
        assert(out@ =~= Seq::new(k as nat, |i: int| if i == 2 { image_type } else { 0u8 }));
    }
    write_u16(&mut out, image.width as u16);
    write_u16(&mut out, height as u16);
    out.push((8 * bpp) as u8);
    out.push(32u8);
    let ghost header = out@;
    assert(header =~= tga_header(image_type, image.width as u16, height as u16, (8 * bpp) as u8));
    let row_len: usize = image.width as usize * bpp;
    let rows: usize = image.height as usize;
    let ghost fv = image.frames@.map_values(|f: Vec<u8>| f@);
    let mut f: usize = 0;
    let ghost mut done: Seq<Seq<Seq<u8>>> = Seq::empty();
    proof {
        assert(out@.subrange(18, out@.len() as int) =~= Seq::<u8>::empty());
        assert(fv.subrange(0, 0).flatten() =~= Seq::<u8>::empty());
        assert(flatten_rows(done) =~= Seq::<u8>::empty());
    }
    while f < frames
        invariant
            f <= frames <= image.frames@.len(),
            frames == tga_frames(*image),
            bpp == 1 || bpp == 4,
            tga_bpp(image.format) == Some(bpp as nat),
            image.wf(),
            row_len == image.width * bpp,
            rows == image.height,
            fv == image.frames@.map_values(|f: Vec<u8>| f@),
            out@.len() >= 18,
            out@.subrange(0, 18) == header,
            rle_decode(out@.subrange(18, out@.len() as int), bpp as nat) == Some(fv.subrange(0, f as int).flatten()),
            done.len() == f,
            out@.subrange(18, out@.len() as int) == flatten_rows(done),
            forall|ff: int| 0 <= ff < f ==> (#[trigger] done[ff]).len() == image.height,
            forall|ff: int, yy: int| 0 <= ff < f && 0 <= yy < image.height ==> row_encoded(#[trigger] done[ff][yy], *image, ff, yy, bpp as nat),
        decreases frames - f,
    {
        let buf = &image.frames[f];
        let ghost prefix = fv.subrange(0, f as int).flatten();
        assert(buf@.len() == image.width * image.height * bpp);
        assert(buf@.len() == rows * row_len) by (nonlinear_arith)
            requires
                buf@.len() == image.width * image.height * bpp,
                row_len == image.width * bpp,
                rows == image.height,
        ;
        let n = buf.len();
        let mut y: usize = 0;
        let mut lo: usize = 0;
        let ghost mut rowsc: Seq<Seq<u8>> = Seq::empty();
        let ghost head = out@.subrange(18, out@.len() as int);
        assert(head + rowsc.flatten() =~= head);
        assert(buf@.subrange(0, 0) =~= Seq::<u8>::empty());
        assert(prefix + Seq::<u8>::empty() =~= prefix);
        while y < rows
            invariant
                y <= rows,
                bpp == 1 || bpp == 4,
                row_len == image.width * bpp,
                buf@.len() == rows * row_len,
                n == buf@.len(),
                lo == y * row_len,
                out@.len() >= 18,
                out@.subrange(0, 18) == header,
                rle_decode(out@.subrange(18, out@.len() as int), bpp as nat) == Some(prefix + buf@.subrange(0, lo as int)),
                rowsc.len() == y,
                out@.subrange(18, out@.len() as int) == head + rowsc.flatten(),
                head == flatten_rows(done),
                f < image.frames@.len(),
                *buf == image.frames@[f as int],
                forall|yy: int| 0 <= yy < y ==> row_encoded(#[trigger] rowsc[yy], *image, f as int, yy, bpp as nat),
            decreases rows - y,
        {
            assert(lo + row_len <= n) by (nonlinear_arith)
                requires
                    lo == y * row_len,
                    y < rows,
                    n == rows * row_len,
            ;
            assert((row_len as int) % (bpp as int) == 0) by {
                if bpp == 1 {
                } else {
                    assert((image.width as int * 4) % 4 == 0);
                }
            }
            let ghost before = out@;
            write_rle_encode(buf, lo, lo + row_len, bpp, &mut out);
            proof {
                let enc = before.subrange(18, before.len() as int);
                let added = out@.subrange(before.len() as int, out@.len() as int);
                lemma_rle_concat(enc, added, bpp as nat);
                assert(out@.subrange(18, out@.len() as int) =~= enc + added);
                assert(out@.subrange(0, 18) =~= before.subrange(0, 18)) by {
                    assert(out@.subrange(0, before.len() as int).subrange(0, 18) =~= out@.subrange(0, 18));
                }
                assert(prefix + buf@.subrange(0, lo as int) + buf@.subrange(lo as int, lo + row_len) =~= prefix
                    + buf@.subrange(0, lo + row_len));
                assert(lo + row_len == (y + 1) * row_len) by (nonlinear_arith)
                    requires
                        lo == y * row_len,
                ;
                assert(added.len() <= image.width * bpp + image.width) by {
                    if bpp == 1 {
                    } else {
                        assert((image.width as int * 4) / 4 == image.width);
                    }
                }
                assert(row_encoded(added, *image, f as int, y as int, bpp as nat));
                rowsc.lemma_flatten_push(added);
                assert(out@.subrange(18, out@.len() as int) =~= head + rowsc.push(added).flatten());
                let old_rows = rowsc;
                rowsc = rowsc.push(added);
                assert forall|yy: int| 0 <= yy < y + 1 implies row_encoded(#[trigger] rowsc[yy], *image, f as int, yy, bpp as nat) by {
                    if yy < y {
                        assert(rowsc[yy] == old_rows[yy]);
                    }
                }
            }
            lo = lo + row_len;
            y = y + 1;
        }
        proof {
            assert(buf@.subrange(0, lo as int) =~= buf@);
            fv.subrange(0, f as int).lemma_flatten_push(buf@);
            assert(fv.subrange(0, f as int).push(buf@) =~= fv.subrange(0, f + 1));
            let fl = done.map_values(|r: Seq<Seq<u8>>| r.flatten());
            fl.lemma_flatten_push(rowsc.flatten());
            assert(done.push(rowsc).map_values(|r: Seq<Seq<u8>>| r.flatten()) =~= fl.push(rowsc.flatten()));
            let old_done = done;
            done = done.push(rowsc);
            assert forall|ff: int| 0 <= ff < f + 1 implies (#[trigger] done[ff]).len() == image.height by {
                if ff < f {
                    assert(done[ff] == old_done[ff]);
                }
            }
            assert forall|ff: int, yy: int| 0 <= ff < f + 1 && 0 <= yy < image.height implies row_encoded(#[trigger] done[ff][yy], *image, ff, yy, bpp as nat) by {
                if ff < f {
                    assert(done[ff] == old_done[ff]);
                }
            }
        }
        f = f + 1;
    }
    proof {
        assert(fv.subrange(0, frames as int) =~= image.frames@.subrange(0, frames as int).map_values(|f: Vec<u8>| f@));
        assert(done.len() == tga_frames(*image));
        assert(out@.subrange(18, out@.len() as int) == flatten_rows(done));
    }
    Ok(out)
}

// ----- reading -----

/// The bytes `need` pixel bytes come from when run-length packets are read from `pos`, pixels
/// being 4 bytes wide when `wide`, else 1. A packet that overruns what is still needed, or
/// that the stream ends inside, makes the read fail.
pub open spec fn rle_fill(s: Seq<u8>, pos: int, need: int, wide: bool) -> Option<Seq<u8>>
    decreases need,
{
    let bpp: int = if wide { 4 } else { 1 };
    if need <= 0 {
        Some(seq![])
    } else if pos < 0 || pos >= s.len() {
        None
    } else {
        let op = s[pos] as int;
        if op >= 128 {
            let n = op - 127;
            let bytes = if wide { 4 * n } else { n };
            if pos + 1 + bpp > s.len() || bytes > need {
                None
            } else {
                match rle_fill(s, pos + 1 + bpp, need - bytes, wide) {
                    Some(r) => Some(repeat(s.subrange(pos + 1, pos + 1 + bpp), n as nat) + r),
                    None => None,
                }
            }
        } else {
            let n = op + 1;
            let bytes = if wide { 4 * n } else { n };
            if pos + 1 + bytes > s.len() || bytes > need {
                None
            } else {
                match rle_fill(s, pos + 1 + bytes, need - bytes, wide) {
                    Some(r) => Some(s.subrange(pos + 1, pos + 1 + bytes) + r),
                    None => None,
                }
            }
        }
    }
}

/// What a TGA stream holds: width, height, format and the pixels of its one frame; or why it
/// cannot be read.
pub open spec fn tga_read(b: Seq<u8>) -> Result<(u32, u32, ImageFormat, Seq<u8>), TextureError> {
    if b.len() < 18 {
        Err(TextureError::InvalidData)
    } else if b[1] != 0 || read_u16(b, 8) != 0 || read_u16(b, 10) != 0 || (b[16] != 8 && b[16] != 32) {
        Err(TextureError::ContainerInvalid(ImageFileType::Tga))
    } else {
        let format = if b[16] == 8 { ImageFormat::R8Unorm } else { ImageFormat::B8G8R8A8Unorm };
        let w = read_u16(b, 12) as int;
        let h = read_u16(b, 14) as int;
        let size = w * h * (if b[16] == 8 { 1int } else { 4int });
        let start = 18 + b[0] as int;
        if b[2] == 2 || b[2] == 3 {
            if start + size <= b.len() {
                Ok((w as u32, h as u32, format, b.subrange(start, start + size)))
            } else {
                Err(TextureError::InvalidData)
            }
        } else if b[2] == 10 || b[2] == 11 {
            match rle_fill(b, start, size, b[2] == 10) {
                Some(px) => Ok((w as u32, h as u32, format, px)),
                None => Err(TextureError::InvalidData),
            }
        } else {
            Err(TextureError::ContainerInvalid(ImageFileType::Tga))
        }
    }
}

/// Reads run-length packets from `pos` until `need` bytes are produced.
fn read_rle_decode(s: &Vec<u8>, pos: usize, need: u64, wide: bool) -> (r: Option<Vec<u8>>)
    ensures
        match r {
            Some(v) => rle_fill(s@, pos as int, need as int, wide) == Some(v@),
            None => rle_fill(s@, pos as int, need as int, wide) is None,
        },
{
    let bpp: usize = if wide { 4 } else { 1 };
    let mut acc: Vec<u8> = Vec::new();
    let mut cur: usize = pos;
    proof {
        match rle_fill(s@, pos as int, need as int, wide) {
            Some(rest) => {
                assert(acc@ + rest =~= rest);
            },
            None => {},
        }
    }
    while (acc.len() as u64) < need
        invariant
            acc@.len() <= need,
            bpp == (if wide { 4usize } else { 1usize }),
            match rle_fill(s@, cur as int, need - acc@.len(), wide) {
                Some(rest) => rle_fill(s@, pos as int, need as int, wide) == Some(acc@ + rest),
                None => rle_fill(s@, pos as int, need as int, wide) is None,
            },
        decreases need - acc@.len(),
    {
        if cur >= s.len() {
            return None;
        }
        let op = s[cur];
        let remaining: u64 = need - acc.len() as u64;
        let room = s.len() - cur;
        let ghost before = acc@;
        if op >= 128 {
            let n = (op - 127) as usize;
            let bytes = if wide { 4 * n } else { n };
            if room < 1 + bpp || bytes as u64 > remaining {
                return None;
            }
            let ghost p = s@.subrange(cur + 1, cur + 1 + bpp);
            let mut k: usize = 0;
            assert(acc@ =~= before + repeat(p, 0));
            while k < n
                invariant
                    k <= n,
                    cur + 1 + bpp <= s.len(),
                    p == s@.subrange(cur + 1, cur + 1 + bpp),
                    acc@ == before + repeat(p, k as nat),
                decreases n - k,
            {
                let mut j: usize = 0;
                let ghost mid = acc@;
                while j < bpp
                    invariant
                        j <= bpp,
                        cur + 1 + bpp <= s.len(),
                        p == s@.subrange(cur + 1, cur + 1 + bpp),
                        acc@ == mid + p.subrange(0, j as int),
                    decreases bpp - j,
                {
                    acc.push(s[cur + 1 + j]);
                    j = j + 1;
                    assert(acc@ =~= mid + p.subrange(0, j as int));
                }
                assert(p.subrange(0, j as int) =~= p);
                k = k + 1;
                assert(acc@ =~= before + repeat(p, k as nat));
            }
            proof {
                assert(p.len() == bpp);
                lemma_repeat_len(p, n as nat);
                if wide {
                    assert(repeat(p, n as nat).len() == n * 4);
                } else {
                    assert(repeat(p, n as nat).len() == n * 1);
                }
                assert(repeat(p, n as nat).len() == bytes);
                match rle_fill(s@, cur + 1 + bpp, remaining - bytes, wide) {
                    Some(r) => {
                        assert(before + (repeat(p, n as nat) + r) =~= acc@ + r);
                    },
                    None => {},
                }
            }
            cur = cur + 1 + bpp;
        } else {
            let n = op as usize + 1;
            let bytes = if wide { 4 * n } else { n };
            if room < 1 + bytes || bytes as u64 > remaining {
                return None;
            }
            let end = cur + 1 + bytes;
            let mut k: usize = cur + 1;
            while k < end
                invariant
                    cur + 1 <= k <= end <= s.len(),
                    end == cur + 1 + bytes,
                    acc@ == before + s@.subrange(cur + 1, k as int),
                decreases end - k,
            {
                acc.push(s[k]);
                k = k + 1;
                assert(acc@ =~= before + s@.subrange(cur + 1, k as int));
            }
            proof {
                match rle_fill(s@, cur + 1 + bytes, remaining - bytes, wide) {
                    Some(r) => {
                        assert(before + (s@.subrange(cur + 1, cur + 1 + bytes) + r) =~= acc@ + r);
                    },
                    None => {},
                }
            }
            cur = cur + 1 + bytes;
        }
    }
    proof {
        assert(acc@ + Seq::<u8>::empty() =~= acc@);
    }
    Some(acc)
}

proof fn lemma_repeat_len(p: Seq<u8>, n: nat)
    ensures
        repeat(p, n).len() == n * p.len(),
    decreases n,
{
    if n > 0 {
        let m = (n - 1) as nat;
        lemma_repeat_len(p, m);
        assert(repeat(p, n) == repeat(p, m) + p);
        assert(n * p.len() == m * p.len() + p.len()) by (nonlinear_arith)
            requires
                n == m + 1,
        ;
    } else {
        assert(n * p.len() == 0) by (nonlinear_arith)
            requires
                n == 0,
        ;
    }
}

/// Reads a TGA stream into an image of one frame: uncompressed or run-length, 8-bit grayscale
/// or 32-bit BGRA, with no color map and a zero origin.
pub fn from_tga(bytes: &Vec<u8>) -> (r: Result<Image, TextureError>)
    ensures
        match r {
            Ok(image) => image.frames@.len() == 1 && tga_read(bytes@) == Ok::<(u32, u32, ImageFormat, Seq<u8>), TextureError>(
                (image.width, image.height, image.format, image.frames@[0]@),
            ),
            Err(e) => tga_read(bytes@) == Err::<(u32, u32, ImageFormat, Seq<u8>), TextureError>(e),
        },
{
    if bytes.len() < 18 {
        return Err(TextureError::InvalidData);
    }
    if bytes[1] != 0 || get_u16(bytes, 8) != 0 || get_u16(bytes, 10) != 0 || (bytes[16] != 8 && bytes[16] != 32) {
        return Err(TextureError::ContainerInvalid(ImageFileType::Tga));
    }
    let format = if bytes[16] == 8 { ImageFormat::R8Unorm } else { ImageFormat::B8G8R8A8Unorm };
    let width = get_u16(bytes, 12) as u32;
    let height = get_u16(bytes, 14) as u32;
    let pw: u64 = if bytes[16] == 8 { 1 } else { 4 };
    assert(width as int * height as int * pw as int <= 0xFFFF * 0xFFFF * 4) by (nonlinear_arith)
        requires
            width <= 0xFFFF,
            height <= 0xFFFF,
            pw <= 4,
    ;
    let size: u64 = width as u64 * height as u64 * pw;
    let start: usize = 18 + bytes[0] as usize;
    let kind = bytes[2];
    if kind == 2 || kind == 3 {
        if start > bytes.len() || size > (bytes.len() - start) as u64 {
            return Err(TextureError::InvalidData);
        }
        let end = start + size as usize;
        let mut frame: Vec<u8> = Vec::new();
        let mut k: usize = start;
        while k < end
            invariant
                start <= k <= end <= bytes@.len(),
                frame@ == bytes@.subrange(start as int, k as int),
            decreases end - k,
        {
            frame.push(bytes[k]);
            k = k + 1;
            assert(frame@ =~= bytes@.subrange(start as int, k as int));
        }
        let mut frames: Vec<Vec<u8>> = Vec::new();
        frames.push(frame);
        Ok(Image { width, height, format, frames })
    } else if kind == 10 || kind == 11 {
        match read_rle_decode(bytes, start, size, kind == 10) {
            Some(frame) => {
                let mut frames: Vec<Vec<u8>> = Vec::new();
                frames.push(frame);
                Ok(Image { width, height, format, frames })
            },
            None => Err(TextureError::InvalidData),
        }
    } else {
        Err(TextureError::ContainerInvalid(ImageFileType::Tga))
    }
}

} // verus!
