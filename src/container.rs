use vstd::prelude::*;
use crate::color::Color;
use crate::pipeline::{append_all, copy_range};

verus! {

/// Smallest width or height that the container stores.
pub const MIN_DIMENSION: u32 = 2;

/// Largest width or height that the container stores (12 bits after the offset).
pub const MAX_DIMENSION: u32 = 4097;

/// Smallest palette size that the container stores.
pub const MIN_PALETTE_SIZE: usize = 2;

/// Largest palette size that the container stores (one byte after the offset).
pub const MAX_PALETTE_SIZE: usize = 257;

/// Why a header could not be written.
#[derive(Clone, Copy, Debug, PartialEq, Eq, Structural)]
pub enum HeaderError {
    WidthOutOfRange,
    HeightOutOfRange,
    PaletteSizeOutOfRange,
}

/// Why a container could not be read.
#[derive(Clone, Copy, Debug, PartialEq, Eq, Structural)]
pub enum FormatError {
    /// The buffer is shorter than its header and palette imply: it is
    /// corrupt, or still compressed.
    Truncated,
}

/// What the first four bytes of a container state.
#[derive(Clone, Copy, Debug, PartialEq, Eq, Structural)]
pub struct Header {
    pub width: u32,
    pub height: u32,
    pub palette_size: usize,
}

/// A parsed container: dimensions, palette and index stream.
pub struct Container {
    pub width: u32,
    pub height: u32,
    pub palette: Vec<Color>,
    pub indices: Vec<u8>,
}

/// The three bytes holding the 24-bit big-endian value `w * 4096 + h`.
pub open spec fn packed(w: int, h: int) -> Seq<u8> {
    let v = w * 4096 + h;
    seq![(v / 65536) as u8, ((v / 256) % 256) as u8, (v % 256) as u8]
}

/// The 24-bit big-endian value held by the first three bytes of `b`.
pub open spec fn packed_value(b: Seq<u8>) -> int {
    b[0] * 65536 + b[1] * 256 + b[2]
}

pub open spec fn dimension_ok(d: int) -> bool {
    MIN_DIMENSION <= d <= MAX_DIMENSION
}

pub open spec fn palette_size_ok(n: int) -> bool {
    MIN_PALETTE_SIZE <= n <= MAX_PALETTE_SIZE
}

/// The four header bytes: packed dimensions less two, then palette size less two.
pub open spec fn header_bytes(w: int, h: int, n: int) -> Seq<u8> {
    packed(w - 2, h - 2).push((n - 2) as u8)
}

/// Three bytes per palette entry, in palette order.
pub open spec fn palette_bytes(pal: Seq<Color>) -> Seq<u8>
    decreases pal.len(),
{
    if pal.len() == 0 {
        seq![]
    } else {
        palette_bytes(pal.drop_last()) + seq![pal.last().r, pal.last().g, pal.last().b]
    }
}

/// The palette that `b` lists, three bytes per entry; a trailing partial
/// entry is ignored.
pub open spec fn palette_of_bytes(b: Seq<u8>) -> Seq<Color> {
    Seq::new(
        (b.len() / 3) as nat,
        |i: int| Color { r: b[3 * i], g: b[3 * i + 1], b: b[3 * i + 2] },
    )
}

/// The whole container for the given dimensions, palette and index stream.
pub open spec fn container_bytes(w: int, h: int, pal: Seq<Color>, idx: Seq<u8>) -> Seq<u8> {
    header_bytes(w, h, pal.len() as int) + palette_bytes(pal) + idx
}

/// The header that the first four bytes of `b` state.
pub open spec fn header_of(b: Seq<u8>) -> Header {
    Header {
        width: (packed_value(b) / 4096 + 2) as u32,
        height: (packed_value(b) % 4096 + 2) as u32,
        palette_size: (b[3] + 2) as usize,
    }
}

pub proof fn lemma_palette_bytes(pal: Seq<Color>)
    ensures
        palette_bytes(pal).len() == 3 * pal.len(),
        forall|i: int|
            0 <= i < pal.len() ==> {
                &&& palette_bytes(pal)[3 * i] == (#[trigger] pal[i]).r
                &&& palette_bytes(pal)[3 * i + 1] == pal[i].g
                &&& palette_bytes(pal)[3 * i + 2] == pal[i].b
            },
    decreases pal.len(),
{
    if pal.len() > 0 {
        lemma_palette_bytes(pal.drop_last());
        assert forall|i: int| 0 <= i < pal.len() implies {
            &&& palette_bytes(pal)[3 * i] == (#[trigger] pal[i]).r
            &&& palette_bytes(pal)[3 * i + 1] == pal[i].g
            &&& palette_bytes(pal)[3 * i + 2] == pal[i].b
        } by {
            if i < pal.len() - 1 {
                assert(pal.drop_last()[i] == pal[i]);
            }
        }
    }
}

/// Decoding the bytes of a palette gives the palette back.
pub proof fn lemma_palette_round_trip(pal: Seq<Color>)
    ensures
        palette_of_bytes(palette_bytes(pal)) == pal,
{
    lemma_palette_bytes(pal);
    assert(palette_of_bytes(palette_bytes(pal)) =~= pal);
}

/// Packs `width` and `height` (each already less two, so below 4096) into three
/// bytes: a 24-bit big-endian value with `width` in bits 23..12 and `height` in
/// bits 11..0.
pub fn pack_dimensions(width: u16, height: u16) -> (r: [u8; 3])
    requires
        width < 4096,
        height < 4096,
    ensures
        r@ == packed(width as int, height as int),
{
    let combined: u32 = ((width as u32) << 12u32) | (height as u32);
    assert(combined == width as u32 * 4096 + height as u32) by (bit_vector)
        requires
            width < 4096,
            height < 4096,
            combined == ((width as u32) << 12u32) | (height as u32),
    ;
    let b0 = ((combined >> 16u32) & 0xFF) as u8;
    let b1 = ((combined >> 8u32) & 0xFF) as u8;
    let b2 = (combined & 0xFF) as u8;
    assert(((combined >> 16u32) & 0xFF) == combined / 65536 && ((combined >> 8u32) & 0xFF) == (
    combined / 256) % 256 && (combined & 0xFF) == combined % 256) by (bit_vector)
        requires
            combined < 0x1000000,
    ;
    let r = [b0, b1, b2];
    assert(r@ =~= packed(width as int, height as int));
    r
}

/// Reads the two 12-bit fields of the 24-bit big-endian value in `bytes[0..3]`.
pub fn unpack_dimensions(bytes: &[u8]) -> (r: (u32, u32))
    requires
        bytes@.len() >= 3,
    ensures
        r.0 == packed_value(bytes@) / 4096,
        r.1 == packed_value(bytes@) % 4096,
{
    let b0 = bytes[0] as u32;
    let b1 = bytes[1] as u32;
    let b2 = bytes[2] as u32;
    let combined: u32 = (b0 << 16u32) | (b1 << 8u32) | b2;
    assert(combined == b0 * 65536 + b1 * 256 + b2) by (bit_vector)
        requires
            b0 < 256,
            b1 < 256,
            b2 < 256,
            combined == (b0 << 16u32) | (b1 << 8u32) | b2,
    ;
    let width = (combined >> 12u32) & 0xFFF;
    let height = combined & 0xFFF;
    assert(((combined >> 12u32) & 0xFFF) == combined / 4096 && (combined & 0xFFF) == combined
        % 4096) by (bit_vector)
        requires
            combined < 0x1000000,
    ;
    (width, height)
}

/// Unpacking packed dimensions gives them back.
pub proof fn lemma_pack_round_trip(w: int, h: int)
    requires
        0 <= w < 4096,
        0 <= h < 4096,
    ensures
        packed_value(packed(w, h)) / 4096 == w,
        packed_value(packed(w, h)) % 4096 == h,
{
    let v = w * 4096 + h;
    assert(packed_value(packed(w, h)) == v) by (nonlinear_arith)
        requires
            0 <= v < 0x1000000,
            packed(w, h) == seq![(v / 65536) as u8, ((v / 256) % 256) as u8, (v % 256) as u8],
    ;
    assert(v / 4096 == w && v % 4096 == h) by (nonlinear_arith)
        requires
            v == w * 4096 + h,
            0 <= h < 4096,
    ;
}

/// The four header bytes for a `width` x `height` image with `palette_size`
/// entries; each value outside its range is refused before anything is written.
pub fn encode_header(width: u32, height: u32, palette_size: usize) -> (r: Result<
    Vec<u8>,
    HeaderError,
>)
    ensures
        !dimension_ok(width as int) ==> r == Err::<Vec<u8>, HeaderError>(
            HeaderError::WidthOutOfRange,
        ),
        dimension_ok(width as int) && !dimension_ok(height as int) ==> r == Err::<
            Vec<u8>,
            HeaderError,
        >(HeaderError::HeightOutOfRange),
        dimension_ok(width as int) && dimension_ok(height as int) && !palette_size_ok(
            palette_size as int,
        ) ==> r == Err::<Vec<u8>, HeaderError>(HeaderError::PaletteSizeOutOfRange),
        dimension_ok(width as int) && dimension_ok(height as int) && palette_size_ok(
            palette_size as int,
        ) ==> (r matches Ok(v) && v@ == header_bytes(
            width as int,
            height as int,
            palette_size as int,
        )),
{
    if width < MIN_DIMENSION || width > MAX_DIMENSION {
        return Err(HeaderError::WidthOutOfRange);
    }
    if height < MIN_DIMENSION || height > MAX_DIMENSION {
        return Err(HeaderError::HeightOutOfRange);
    }
    if palette_size < MIN_PALETTE_SIZE || palette_size > MAX_PALETTE_SIZE {
        return Err(HeaderError::PaletteSizeOutOfRange);
    }
    let dims = pack_dimensions((width - 2) as u16, (height - 2) as u16);
    let mut out: Vec<u8> = Vec::new();
    out.push(dims[0]);
    out.push(dims[1]);
    out.push(dims[2]);
    out.push((palette_size - 2) as u8);
    assert(out@ =~= header_bytes(width as int, height as int, palette_size as int));
    Ok(out)
}

/// Reads the header of a container from its first four bytes only; `None`
/// when there are fewer.
pub fn inspect(bytes: &[u8]) -> (r: Option<Header>)
    ensures
        bytes@.len() < 4 ==> r is None,
        bytes@.len() >= 4 ==> r == Some(header_of(bytes@)),
{
    if bytes.len() < 4 {
        return None;
    }
    let (w, h) = unpack_dimensions(bytes);
    Some(Header { width: w + 2, height: h + 2, palette_size: bytes[3] as usize + 2 })
}

/// Writes each palette entry as three bytes, in order.
pub fn encode_palette(colors: &[Color]) -> (r: Vec<u8>)
    requires
        colors@.len() <= MAX_PALETTE_SIZE,
    ensures
        r@ == palette_bytes(colors@),
{
    let mut out: Vec<u8> = Vec::new();
    let mut i: usize = 0;
    while i < colors.len()
        invariant
            i <= colors@.len() <= MAX_PALETTE_SIZE,
            out@ == palette_bytes(colors@.subrange(0, i as int)),
        decreases colors@.len() - i,
    {
        let c = colors[i];
        out.push(c.r);
        out.push(c.g);
        out.push(c.b);
        proof {
            let next = colors@.subrange(0, i + 1);
            assert(next.drop_last() =~= colors@.subrange(0, i as int));
        }
        i = i + 1;
    }
    assert(colors@.subrange(0, colors@.len() as int) =~= colors@);
    out
}

/// Reads three bytes per palette entry; a trailing partial entry is ignored.
pub fn decode_palette(bytes: &[u8]) -> (r: Vec<Color>)
    ensures
        r@ == palette_of_bytes(bytes@),
{
    let mut palette: Vec<Color> = Vec::new();
    let len = bytes.len();
    let n = len / 3;
    let mut i: usize = 0;
    while i < n
        invariant
            len == bytes@.len(),
            n == bytes@.len() / 3,
            i <= n,
            palette@ =~= palette_of_bytes(bytes@).subrange(0, i as int),
        decreases n - i,
    {
        assert(i * 3 + 2 < len) by (nonlinear_arith)
            requires
                i < n,
                n == len / 3,
        ;
        palette.push(Color { r: bytes[i * 3], g: bytes[i * 3 + 1], b: bytes[i * 3 + 2] });
        i = i + 1;
    }
    palette
}

/// Whether `b` is long enough for the header and the palette it announces.
pub open spec fn parse_ok(b: Seq<u8>) -> bool {
    b.len() >= 4 && b.len() >= 4 + 3 * (b[3] + 2)
}

/// Where the index stream of the container `b` starts.
pub open spec fn indices_start(b: Seq<u8>) -> int {
    4 + 3 * (b[3] + 2)
}

/// The whole container: the header, the palette, then the index stream.
/// Out-of-range dimensions or palette sizes are refused before anything is
/// written.
pub fn build_container(width: u32, height: u32, palette: &[Color], indices: &[u8]) -> (r: Result<
    Vec<u8>,
    HeaderError,
>)
    ensures
        !dimension_ok(width as int) ==> r == Err::<Vec<u8>, HeaderError>(
            HeaderError::WidthOutOfRange,
        ),
        dimension_ok(width as int) && !dimension_ok(height as int) ==> r == Err::<
            Vec<u8>,
            HeaderError,
        >(HeaderError::HeightOutOfRange),
        dimension_ok(width as int) && dimension_ok(height as int) && !palette_size_ok(
            palette@.len() as int,
        ) ==> r == Err::<Vec<u8>, HeaderError>(HeaderError::PaletteSizeOutOfRange),
        dimension_ok(width as int) && dimension_ok(height as int) && palette_size_ok(
            palette@.len() as int,
        ) ==> (r matches Ok(v) && v@ == container_bytes(
            width as int,
            height as int,
            palette@,
            indices@,
        )),
{
    let mut out = match encode_header(width, height, palette.len()) {
        Ok(h) => h,
        Err(e) => return Err(e),
    };
    let pal = encode_palette(palette);
    append_all(&mut out, pal.as_slice());
    append_all(&mut out, indices);
    Ok(out)
}

/// Splits a container into its dimensions, palette and index stream. Fails
/// when the buffer is shorter than its header and the palette it announces,
/// which is what a corrupt or still-compressed container looks like.
pub fn parse_container(bytes: &[u8]) -> (r: Result<Container, FormatError>)
    ensures
        !parse_ok(bytes@) ==> r is Err,
        parse_ok(bytes@) ==> (r matches Ok(c) && c.width == header_of(bytes@).width && c.height
            == header_of(bytes@).height && c.palette@ == palette_of_bytes(
            bytes@.subrange(4, indices_start(bytes@)),
        ) && c.indices@ == bytes@.subrange(indices_start(bytes@), bytes@.len() as int)),
{
    if bytes.len() < 4 {
        return Err(FormatError::Truncated);
    }
    let n = bytes[3] as usize + 2;
    let end = 4 + 3 * n;
    if bytes.len() < end {
        return Err(FormatError::Truncated);
    }
    let (w, h) = unpack_dimensions(bytes);
    let pal_bytes = copy_range(bytes, 4, end);
    let palette = decode_palette(pal_bytes.as_slice());
    let indices = copy_range(bytes, end, bytes.len());
    Ok(Container { width: w + 2, height: h + 2, palette, indices })
}

/// Format invariant: the container written for valid dimensions and palette
/// announces them in its header (byte 3 holds the palette size less two), and
/// parsing it gives back the dimensions, the palette and the index stream.
pub proof fn lemma_container_round_trip(w: int, h: int, pal: Seq<Color>, idx: Seq<u8>)
    requires
        dimension_ok(w),
        dimension_ok(h),
        palette_size_ok(pal.len() as int),
    ensures
        container_bytes(w, h, pal, idx)[3] == pal.len() - 2,
        parse_ok(container_bytes(w, h, pal, idx)),
        header_of(container_bytes(w, h, pal, idx)) == (Header {
            width: w as u32,
            height: h as u32,
            palette_size: pal.len() as usize,
        }),
        palette_of_bytes(
            container_bytes(w, h, pal, idx).subrange(4, indices_start(container_bytes(w, h, pal, idx))),
        ) == pal,
        container_bytes(w, h, pal, idx).subrange(
            indices_start(container_bytes(w, h, pal, idx)),
            container_bytes(w, h, pal, idx).len() as int,
        ) == idx,
{
    let b = container_bytes(w, h, pal, idx);
    let hb = header_bytes(w, h, pal.len() as int);
    lemma_palette_bytes(pal);
    lemma_pack_round_trip(w - 2, h - 2);
    assert(hb.len() == 4);
    assert(b[3] == hb[3]);
    assert(b.subrange(0, 3) =~= packed(w - 2, h - 2));
    assert(packed_value(b) == packed_value(packed(w - 2, h - 2)));
    assert(b.subrange(4, 4 + 3 * pal.len() as int) =~= palette_bytes(pal));
    lemma_palette_round_trip(pal);
    assert(b.subrange(4 + 3 * pal.len() as int, b.len() as int) =~= idx);
}

} // verus!
