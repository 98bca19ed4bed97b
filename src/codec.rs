use vstd::prelude::*;
use crate::color::{Color, Palette, nearest_index};
use crate::container::{
    Header, build_container, container_bytes, dimension_ok, header_of, indices_start,
    lemma_container_round_trip, palette_of_bytes, palette_size_ok, parse_container, parse_ok,
    MAX_DIMENSION, MAX_PALETTE_SIZE, MIN_DIMENSION, MIN_PALETTE_SIZE,
};
use crate::pipeline::{copy_range, index_stream, indexify, pixel_stream, pixelify};
use crate::quantize::{MAX_PIXELS, gen_palette, quantized};
use crate::transform::{
    cipher_accepts, compress_if_smaller, cpu_count, decrypt, decrypted, encrypt, encrypted, stored,
    zstd_decompress, zstd_decompressed,
};

verus! {

/// Why an image could not be encoded.
#[derive(Clone, Copy, Debug, PartialEq, Eq, Structural)]
pub enum EncodeError {
    WidthOutOfRange,
    HeightOutOfRange,
    PaletteSizeOutOfRange,
    /// The pixel buffer does not hold width x height pixels.
    PixelCountMismatch,
    /// The key is not URL-safe base64 for 16 bytes, or the index stream is
    /// too short for the cipher.
    InvalidKey,
}

/// Why a container could not be decoded.
#[derive(Clone, Copy, Debug, PartialEq, Eq, Structural)]
pub enum DecodeError {
    /// The compression flag is set but the bytes are not a zstd frame.
    DecompressionFailed,
    /// The buffer is shorter than its header and palette imply: it is corrupt,
    /// or compressed and decoded without the compression flag.
    Truncated,
    /// The key is not URL-safe base64 for 16 bytes, or the index stream is
    /// too short for the cipher.
    InvalidKey,
    /// The index stream holds fewer pixels than the dimensions ask for.
    NotEnoughData,
}

/// A decoded image: its dimensions and its pixels, row by row.
pub struct Image {
    pub width: u32,
    pub height: u32,
    pub pixels: Vec<Color>,
}

pub open spec fn key_view(key: Option<&str>) -> Option<Seq<char>> {
    match key {
        Some(k) => Some(k@),
        None => None,
    }
}

/// The first check that a request to encode fails, if any: width, height,
/// palette size, then pixel count.
pub open spec fn encode_check(w: int, h: int, n_pixels: int, n_colors: int) -> Option<EncodeError> {
    if !dimension_ok(w) {
        Some(EncodeError::WidthOutOfRange)
    } else if !dimension_ok(h) {
        Some(EncodeError::HeightOutOfRange)
    } else if !palette_size_ok(n_colors) {
        Some(EncodeError::PaletteSizeOutOfRange)
    } else if n_pixels != w * h {
        Some(EncodeError::PixelCountMismatch)
    } else {
        None
    }
}

/// The first range check that dimensions and a palette size fail, if any.
pub open spec fn header_check(w: int, h: int, n_colors: int) -> Option<EncodeError> {
    if !dimension_ok(w) {
        Some(EncodeError::WidthOutOfRange)
    } else if !dimension_ok(h) {
        Some(EncodeError::HeightOutOfRange)
    } else if !palette_size_ok(n_colors) {
        Some(EncodeError::PaletteSizeOutOfRange)
    } else {
        None
    }
}

/// The uncompressed container for an index stream: the stream, encrypted
/// when there is a key, after the header and the palette.
pub open spec fn sealed(
    w: int,
    h: int,
    pal: Seq<Color>,
    idx: Seq<u8>,
    key: Option<Seq<char>>,
) -> Result<Seq<u8>, EncodeError> {
    match header_check(w, h, pal.len() as int) {
        Some(e) => Err(e),
        None => match key {
            None => Ok(container_bytes(w, h, pal, idx)),
            Some(k) => match encrypted(k, idx) {
                Some(e) => Ok(container_bytes(w, h, pal, e)),
                None => Err(EncodeError::InvalidKey),
            },
        },
    }
}

/// The uncompressed container for an image of already palette-mapped pixels.
pub open spec fn encoded(
    w: int,
    h: int,
    pixels: Seq<Color>,
    pal: Seq<Color>,
    key: Option<Seq<char>>,
) -> Result<Seq<u8>, EncodeError> {
    match encode_check(w, h, pixels.len() as int, pal.len() as int) {
        Some(e) => Err(e),
        None => sealed(w, h, pal, index_stream(pal, pixels), key),
    }
}

/// What is stored for the uncompressed result `c`: `c` itself without the
/// compression flag; with it, the shorter of `c` and its zstd frame, which
/// gives `c` back on decompression when it is the frame.
pub open spec fn stored_as(c: Result<Seq<u8>, EncodeError>, compress: bool, r: Result<
    Vec<u8>,
    EncodeError,
>) -> bool {
    match c {
        Err(e) => r == Err::<Vec<u8>, EncodeError>(e),
        Ok(c) => if compress {
            r matches Ok(v) && v@ == stored(c) && (v@ == c || zstd_decompressed(v@) == Some(c))
        } else {
            r matches Ok(v) && v@ == c
        },
    }
}

/// The container once past the compression flag: the bytes themselves, or
/// what their zstd frame holds.
pub open spec fn unpacked(bytes: Seq<u8>, compress: bool) -> Option<Seq<u8>> {
    if compress {
        zstd_decompressed(bytes)
    } else {
        Some(bytes)
    }
}

/// The index stream of the container `c`, as stored.
pub open spec fn raw_indices(c: Seq<u8>) -> Seq<u8> {
    c.subrange(indices_start(c), c.len() as int)
}

/// What decoding gives: width, height and the pixels of the first
/// width x height indices, each index standing for its palette entry.
pub open spec fn decoded(bytes: Seq<u8>, key: Option<Seq<char>>, compress: bool) -> Result<
    (u32, u32, Seq<Color>),
    DecodeError,
> {
    match unpacked(bytes, compress) {
        None => Err(DecodeError::DecompressionFailed),
        Some(c) => if !parse_ok(c) {
            Err(DecodeError::Truncated)
        } else {
            let hd = header_of(c);
            let pal = palette_of_bytes(c.subrange(4, indices_start(c)));
            let raw = raw_indices(c);
            let idx = match key {
                None => Some(raw),
                Some(k) => decrypted(k, raw),
            };
            match idx {
                None => Err(DecodeError::InvalidKey),
                Some(i) => if i.len() < hd.width * hd.height {
                    Err(DecodeError::NotEnoughData)
                } else {
                    Ok(
                        (
                            hd.width,
                            hd.height,
                            pixel_stream(pal, i).subrange(0, hd.width * hd.height),
                        ),
                    )
                },
            }
        },
    }
}

/// Whether the container `c` decodes under `key`: it is long enough for its
/// header and palette, the cipher (when there is a key) takes the key and the
/// index stream, and the stream holds at least width x height indices.
pub open spec fn decodable(c: Seq<u8>, key: Option<Seq<char>>) -> bool {
    &&& parse_ok(c)
    &&& match key {
        None => true,
        Some(k) => cipher_accepts(k, raw_indices(c).len() as int),
    }
    &&& raw_indices(c).len() >= header_of(c).width * header_of(c).height
}

/// Checks the palette size and picks the palette by median cut.
pub fn quantize(pixels: &[Color], palette_size: usize) -> (r: Result<Palette, EncodeError>)
    requires
        0 < pixels@.len() <= MAX_PIXELS,
    ensures
        !palette_size_ok(palette_size as int) ==> r matches Err(
            EncodeError::PaletteSizeOutOfRange,
        ),
        palette_size_ok(palette_size as int) ==> (r matches Ok(p) && p.colors@ == quantized(
            pixels@,
            palette_size as int,
        )),
{
    if palette_size < MIN_PALETTE_SIZE || palette_size > MAX_PALETTE_SIZE {
        return Err(EncodeError::PaletteSizeOutOfRange);
    }
    Ok(Palette { colors: gen_palette(pixels, palette_size) })
}

/// Packs an index stream: checks the ranges first, encrypts the stream when
/// a key is given, writes header, palette and stream, and compresses the
/// container when asked and when that makes it shorter.
pub fn encode_indices(
    width: u32,
    height: u32,
    palette: &[Color],
    indices: Vec<u8>,
    key: Option<&str>,
    compress: bool,
) -> (r: Result<Vec<u8>, EncodeError>)
    ensures
        stored_as(
            sealed(width as int, height as int, palette@, indices@, key_view(key)),
            compress,
            r,
        ),
{
    if width < MIN_DIMENSION || width > MAX_DIMENSION {
        return Err(EncodeError::WidthOutOfRange);
    }
    if height < MIN_DIMENSION || height > MAX_DIMENSION {
        return Err(EncodeError::HeightOutOfRange);
    }
    if palette.len() < MIN_PALETTE_SIZE || palette.len() > MAX_PALETTE_SIZE {
        return Err(EncodeError::PaletteSizeOutOfRange);
    }
    let mut indices = indices;
    match key {
        Some(k) => {
            if encrypt(&mut indices, k).is_none() {
                return Err(EncodeError::InvalidKey);
            }
        },
        None => {},
    }
    let container = match build_container(width, height, palette, indices.as_slice()) {
        Ok(c) => c,
        Err(_) => return Err(EncodeError::PaletteSizeOutOfRange),
    };
    if compress {
        Ok(compress_if_smaller(container))
    } else {
        Ok(container)
    }
}

/// Encodes an image whose pixels were mapped onto `palette` (by dithering or
/// by nearest color): each pixel becomes the index of its nearest entry,
/// chunk by chunk over the machine's CPUs, and the stream is packed as
/// `encode_indices` does. Every range and the pixel count are checked before
/// any work.
pub fn encode_pixels(
    width: u32,
    height: u32,
    pixels: &[Color],
    palette: &Palette,
    key: Option<&str>,
    compress: bool,
) -> (r: Result<Vec<u8>, EncodeError>)
    ensures
        stored_as(
            encoded(width as int, height as int, pixels@, palette.colors@, key_view(key)),
            compress,
            r,
        ),
{
    if width < MIN_DIMENSION || width > MAX_DIMENSION {
        return Err(EncodeError::WidthOutOfRange);
    }
    if height < MIN_DIMENSION || height > MAX_DIMENSION {
        return Err(EncodeError::HeightOutOfRange);
    }
    if palette.colors.len() < MIN_PALETTE_SIZE || palette.colors.len() > MAX_PALETTE_SIZE {
        return Err(EncodeError::PaletteSizeOutOfRange);
    }
    assert(width as int * height as int <= MAX_DIMENSION * MAX_DIMENSION) by (nonlinear_arith)
        requires
            width <= MAX_DIMENSION,
            height <= MAX_DIMENSION,
    ;
    let n = width as usize * height as usize;
    if pixels.len() != n {
        return Err(EncodeError::PixelCountMismatch);
    }
    let indices = indexify(pixels, palette, cpu_count());
    encode_indices(width, height, palette.colors.as_slice(), indices, key, compress)
}

/// Decodes a container: undoes compression when the flag says so, parses the
/// header and the palette, decrypts the index stream when a key is given, and
/// expands it chunk by chunk over the machine's CPUs into width x height
/// pixels.
pub fn decode(bytes: &[u8], key: Option<&str>, compress: bool) -> (r: Result<Image, DecodeError>)
    ensures
        match decoded(bytes@, key_view(key), compress) {
            Ok((w, h, px)) => r matches Ok(img) && img.width == w && img.height == h
                && img.pixels@ == px,
            Err(e) => r matches Err(e2) && e2 == e,
        },
        unpacked(bytes@, compress) matches Some(c) && decodable(c, key_view(key)) ==> r is Ok,
{
    let unpacked_bytes = if compress {
        match zstd_decompress(bytes) {
            Some(v) => v,
            None => return Err(DecodeError::DecompressionFailed),
        }
    } else {
        copy_range(bytes, 0, bytes.len())
    };
    assert(bytes@.subrange(0, bytes@.len() as int) =~= bytes@);
    let container = match parse_container(unpacked_bytes.as_slice()) {
        Ok(c) => c,
        Err(_) => return Err(DecodeError::Truncated),
    };
    let mut indices = container.indices;
    match key {
        Some(k) => {
            if decrypt(&mut indices, k).is_none() {
                return Err(DecodeError::InvalidKey);
            }
        },
        None => {},
    }
    let ghost c = unpacked_bytes@;
    assert(container.palette@.len() >= 2) by {
        assert(c.subrange(4, indices_start(c)).len() == 3 * (c[3] + 2));
        assert((3 * (c[3] + 2)) / 3 == c[3] + 2) by (nonlinear_arith);
    }
    let palette = Palette { colors: container.palette };
    let width = container.width;
    let height = container.height;
    assert(width as int * height as int <= (MAX_DIMENSION) * (MAX_DIMENSION)) by (nonlinear_arith)
        requires
            width <= MAX_DIMENSION,
            height <= MAX_DIMENSION,
    ;
    let n = width as usize * height as usize;
    let mut pixels = pixelify(indices.as_slice(), &palette, cpu_count());
    if pixels.len() < n {
        return Err(DecodeError::NotEnoughData);
    }
    pixels.truncate(n);
    Ok(Image { width, height, pixels })
}

/// The pixels an image shows once mapped onto `pal`: each replaced by its
/// nearest entry.
pub open spec fn remapped(pal: Seq<Color>, pixels: Seq<Color>) -> Seq<Color> {
    pixels.map_values(|c: Color| pal[nearest_index(pal, c)])
}

/// Round trip: encoding an image without key or compression and decoding the
/// result gives back its dimensions and its pixels mapped onto the palette
/// (so every decoded pixel is a palette entry), provided every pixel's nearest
/// entry has an index that fits in a byte.
#[verifier::rlimit(30)]
pub proof fn lemma_round_trip(w: int, h: int, pixels: Seq<Color>, pal: Seq<Color>)
    requires
        dimension_ok(w),
        dimension_ok(h),
        palette_size_ok(pal.len() as int),
        pixels.len() == w * h,
        forall|i: int| 0 <= i < pixels.len() ==> nearest_index(pal, #[trigger] pixels[i]) < 256,
    ensures
        encoded(w, h, pixels, pal, None) matches Ok(c) && decoded(c, None, false) == Ok::<
            (u32, u32, Seq<Color>),
            DecodeError,
        >((w as u32, h as u32, remapped(pal, pixels))),
        forall|i: int| 0 <= i < pixels.len() ==> pal.contains(#[trigger] remapped(pal, pixels)[i]),
{
    let idx = index_stream(pal, pixels);
    let c = container_bytes(w, h, pal, idx);
    assert(encode_check(w, h, pixels.len() as int, pal.len() as int) is None);
    assert(header_check(w, h, pal.len() as int) is None);
    assert(encoded(w, h, pixels, pal, None) == Ok::<Seq<u8>, EncodeError>(c));
    lemma_container_round_trip(w, h, pal, idx);
    let hd = header_of(c);
    let raw = c.subrange(indices_start(c), c.len() as int);
    assert(raw == idx);
    assert(palette_of_bytes(c.subrange(4, indices_start(c))) == pal);
    assert(hd.width == w && hd.height == h);
    assert forall|i: int| 0 <= i < pixels.len() implies 0 <= nearest_index(
        pal,
        #[trigger] pixels[i],
    ) < pal.len() by {
        crate::color::lemma_nearest_upto(pal, pixels[i], pal.len() as int);
    }
    assert(pixel_stream(pal, idx).subrange(0, w * h) =~= remapped(pal, pixels));
    assert forall|i: int| 0 <= i < pixels.len() implies pal.contains(
        #[trigger] remapped(pal, pixels)[i],
    ) by {
        assert(pal[nearest_index(pal, pixels[i])] == remapped(pal, pixels)[i]);
    }
    assert(decoded(c, None, false) == Ok::<(u32, u32, Seq<Color>), DecodeError>(
        (w as u32, h as u32, remapped(pal, pixels)),
    ));
}

/// Format invariant: whatever the key, a container that encoding produces
/// (before compression) announces in its first four bytes the encoder's width,
/// height and palette size, byte 3 holding the palette size less two.
pub proof fn lemma_header_matches_input(
    w: int,
    h: int,
    pixels: Seq<Color>,
    pal: Seq<Color>,
    key: Option<Seq<char>>,
)
    requires
        encoded(w, h, pixels, pal, key) is Ok,
    ensures
        encoded(w, h, pixels, pal, key) matches Ok(c) && c[3] == pal.len() - 2 && header_of(c)
            == (Header { width: w as u32, height: h as u32, palette_size: pal.len() as usize }),
{
    let idx = index_stream(pal, pixels);
    match key {
        None => {
            lemma_container_round_trip(w, h, pal, idx);
        },
        Some(k) => {
            lemma_container_round_trip(w, h, pal, encrypted(k, idx).unwrap());
        },
    }
}

/// A container kept compressed decodes, with the compression flag, exactly as
/// the uncompressed container decodes without it.
pub proof fn lemma_compressed_decodes_alike(c: Seq<u8>, v: Seq<u8>, key: Option<Seq<char>>)
    requires
        zstd_decompressed(v) == Some(c),
    ensures
        decoded(v, key, true) == decoded(c, key, false),
{
}

} // verus!
