use palette_pack::codec::{decode, encode_indices, encode_pixels, quantize, DecodeError, EncodeError};
use palette_pack::color::{Color, Palette};
use palette_pack::transform::{base64url_to_bytes, compress_if_smaller, decrypt, encrypt, gen_key};

const A: Color = Color { r: 255, g: 0, b: 0 };
const B: Color = Color { r: 0, g: 0, b: 255 };

fn two_color_image() -> Vec<Color> {
    let mut px = Vec::new();
    for i in 0..16 {
        px.push(if i % 2 == 0 { A } else { B });
    }
    px
}

#[test]
fn four_by_four_two_colors() {
    let px = two_color_image();
    let pal = quantize(&px, 2).ok().unwrap();
    assert_eq!(pal.colors, vec![B, A]);
    let bytes = encode_pixels(4, 4, &px, &pal, None, false).unwrap();
    assert_eq!(bytes.len(), 26);
    assert_eq!(&bytes[..4], &[0x00, 0x20, 0x02, 0x00]);
    assert_eq!(&bytes[4..10], &[0, 0, 255, 255, 0, 0]);
    let img = decode(&bytes, None, false).ok().unwrap();
    assert_eq!((img.width, img.height), (4, 4));
    assert_eq!(img.pixels, px);
}

#[test]
fn round_trip_remaps_to_palette() {
    let px: Vec<Color> = (0..30u32)
        .map(|i| Color { r: (i * 8) as u8, g: (255 - i * 8) as u8, b: (i * 3) as u8 })
        .collect();
    let pal = quantize(&px, 4).ok().unwrap();
    let bytes = encode_pixels(6, 5, &px, &pal, None, false).unwrap();
    let img = decode(&bytes, None, false).ok().unwrap();
    assert_eq!((img.width, img.height), (6, 5));
    let expected: Vec<Color> = px.iter().map(|c| pal.colors[pal.index_of(c)]).collect();
    assert_eq!(img.pixels, expected);
}

#[test]
fn encode_rejects_before_work() {
    let pal = Palette { colors: vec![A, B] };
    let px = two_color_image();
    assert_eq!(encode_pixels(4098, 4, &px, &pal, None, false), Err(EncodeError::WidthOutOfRange));
    assert_eq!(encode_pixels(4, 1, &px, &pal, None, false), Err(EncodeError::HeightOutOfRange));
    assert_eq!(encode_pixels(4, 3, &px, &pal, None, false), Err(EncodeError::PixelCountMismatch));
    let big = Palette { colors: vec![A; 258] };
    assert_eq!(encode_pixels(4, 4, &px, &big, None, false), Err(EncodeError::PaletteSizeOutOfRange));
    assert!(matches!(quantize(&px, 258), Err(EncodeError::PaletteSizeOutOfRange)));
    assert!(matches!(quantize(&px, 1), Err(EncodeError::PaletteSizeOutOfRange)));
}

#[test]
fn largest_palette_size_accepted() {
    let px = two_color_image();
    let pal = Palette { colors: vec![A; 257] };
    let bytes = encode_pixels(4, 4, &px, &pal, None, false).unwrap();
    assert_eq!(bytes[3], 255);
    assert_eq!(bytes.len(), 4 + 3 * 257 + 16);
}

#[test]
fn largest_dimensions_in_header() {
    let pal = vec![A, B];
    let bytes = encode_indices(4097, 4097, &pal, vec![0u8; 4], None, false).unwrap();
    assert_eq!(&bytes[..4], &[0xFF, 0xFF, 0xFF, 0x00]);
    assert_eq!(encode_indices(4098, 4097, &pal, vec![], None, false), Err(EncodeError::WidthOutOfRange));
}

#[test]
fn key_round_trip() {
    let key = gen_key();
    assert_eq!(base64url_to_bytes(&key).unwrap().len(), 16);
    let data: Vec<u8> = (0..40u8).collect();
    let mut buf = data.clone();
    assert_eq!(encrypt(&mut buf, &key), Some(()));
    assert_eq!(buf.len(), data.len());
    assert_ne!(buf, data);
    assert_eq!(decrypt(&mut buf, &key), Some(()));
    assert_eq!(buf, data);
}

#[test]
fn wrong_length_key_fails() {
    let short = "AAECAwQFBgcICQ"; // ten bytes
    let mut buf = vec![1u8, 2, 3, 4];
    assert_eq!(encrypt(&mut buf, short), None);
    assert_eq!(buf, vec![1, 2, 3, 4]);
    assert_eq!(decrypt(&mut buf, "not base64 !"), None);
    let key = gen_key();
    let mut tiny = vec![1u8, 2];
    assert_eq!(encrypt(&mut tiny, &key), None);
}

#[test]
fn wrong_key_garbles_but_keeps_length() {
    let px = two_color_image();
    let pal = Palette { colors: vec![B, A] };
    let key = gen_key();
    let other = gen_key();
    let bytes = encode_pixels(4, 4, &px, &pal, Some(&key), false).unwrap();
    assert_eq!(bytes.len(), 26);
    let good = decode(&bytes, Some(&key), false).ok().unwrap();
    assert_eq!(good.pixels, px);
    let bad = decode(&bytes, Some(&other), false).ok().unwrap();
    assert_eq!(bad.pixels.len(), 16);
    assert!(matches!(decode(&bytes, Some("@@"), false), Err(DecodeError::InvalidKey)));
    assert!(matches!(encode_pixels(4, 4, &px, &pal, Some("AAAA"), false), Err(EncodeError::InvalidKey)));
}

#[test]
fn compression_falls_back_when_not_smaller() {
    let data = vec![1u8, 2, 3, 4, 5];
    assert_eq!(compress_if_smaller(data.clone()), data);
}

#[test]
fn compression_round_trip() {
    let px = vec![A; 64 * 64];
    let pal = Palette { colors: vec![A, B] };
    let plain = encode_pixels(64, 64, &px, &pal, None, false).unwrap();
    let packed = encode_pixels(64, 64, &px, &pal, None, true).unwrap();
    assert!(packed.len() < plain.len());
    let img = decode(&packed, None, true).ok().unwrap();
    assert_eq!(img.pixels, px);
    assert!(matches!(decode(&packed, None, false), Err(DecodeError::Truncated)));
    assert!(matches!(decode(&plain, None, true), Err(DecodeError::DecompressionFailed)));
}

#[test]
fn decode_reports_short_streams() {
    let bytes = vec![0u8, 0x20, 0x02, 0, 1, 1, 1, 2, 2, 2, 0, 1, 0];
    assert!(matches!(decode(&bytes, None, false), Err(DecodeError::NotEnoughData)));
    assert!(matches!(decode(&bytes[..8], None, false), Err(DecodeError::Truncated)));
}

#[test]
fn compression_keeps_frame_when_smaller() {
    let data = vec![7u8; 4096];
    let packed = compress_if_smaller(data.clone());
    assert!(packed.len() < data.len());
    assert_ne!(packed, data);
}
