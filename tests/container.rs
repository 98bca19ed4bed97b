use palette_pack::color::Color;
use palette_pack::container::{
    build_container, decode_palette, encode_header, encode_palette, inspect, pack_dimensions,
    parse_container, unpack_dimensions, FormatError, Header, HeaderError,
};

#[test]
fn pack_dimensions_layout() {
    assert_eq!(pack_dimensions(0x123, 0x456), [0x12, 0x34, 0x56]);
    assert_eq!(pack_dimensions(0, 0), [0, 0, 0]);
    assert_eq!(pack_dimensions(4095, 4095), [0xFF, 0xFF, 0xFF]);
}

#[test]
fn unpack_dimensions_layout() {
    assert_eq!(unpack_dimensions(&[0x12, 0x34, 0x56]), (0x123, 0x456));
    assert_eq!(unpack_dimensions(&[0xFF, 0xFF, 0xFF, 9]), (4095, 4095));
}

#[test]
fn pack_unpack_round_trip() {
    for &(w, h) in &[(0u16, 0u16), (1, 4095), (4095, 1), (2047, 3000), (4095, 4095)] {
        let b = pack_dimensions(w, h);
        assert_eq!(unpack_dimensions(&b), (w as u32, h as u32));
    }
}

#[test]
fn header_at_largest_sizes() {
    let h = encode_header(4097, 4097, 257).unwrap();
    assert_eq!(h, vec![0xFF, 0xFF, 0xFF, 0xFF]);
    assert_eq!(
        inspect(&h),
        Some(Header { width: 4097, height: 4097, palette_size: 257 })
    );
}

#[test]
fn header_at_smallest_sizes() {
    let h = encode_header(2, 2, 2).unwrap();
    assert_eq!(h, vec![0, 0, 0, 0]);
}

#[test]
fn header_rejects_out_of_range() {
    assert_eq!(encode_header(4098, 10, 2), Err(HeaderError::WidthOutOfRange));
    assert_eq!(encode_header(1, 10, 2), Err(HeaderError::WidthOutOfRange));
    assert_eq!(encode_header(10, 4098, 2), Err(HeaderError::HeightOutOfRange));
    assert_eq!(encode_header(10, 1, 2), Err(HeaderError::HeightOutOfRange));
    assert_eq!(encode_header(10, 10, 258), Err(HeaderError::PaletteSizeOutOfRange));
    assert_eq!(encode_header(10, 10, 1), Err(HeaderError::PaletteSizeOutOfRange));
}

#[test]
fn inspect_short_buffer() {
    assert_eq!(inspect(&[1, 2, 3]), None);
    assert_eq!(
        inspect(&[0x00, 0x10, 0x02, 5, 99]),
        Some(Header { width: 3, height: 4, palette_size: 7 })
    );
}

#[test]
fn palette_bytes_round_trip() {
    let pal = vec![Color { r: 1, g: 2, b: 3 }, Color { r: 250, g: 0, b: 7 }];
    let bytes = encode_palette(&pal);
    assert_eq!(bytes, vec![1, 2, 3, 250, 0, 7]);
    assert_eq!(decode_palette(&bytes), pal);
    assert_eq!(decode_palette(&[1, 2, 3, 4, 5]), vec![Color { r: 1, g: 2, b: 3 }]);
}

#[test]
fn container_build_and_parse() {
    let pal = vec![Color { r: 10, g: 20, b: 30 }, Color { r: 40, g: 50, b: 60 }];
    let idx = vec![0u8, 1, 1, 0];
    let c = build_container(2, 2, &pal, &idx).unwrap();
    assert_eq!(c, vec![0, 0, 0, 0, 10, 20, 30, 40, 50, 60, 0, 1, 1, 0]);
    let p = parse_container(&c).ok().unwrap();
    assert_eq!((p.width, p.height), (2, 2));
    assert_eq!(p.palette, pal);
    assert_eq!(p.indices, idx);
    assert_eq!(c[3] as usize, pal.len() - 2);
}

#[test]
fn parse_rejects_truncated() {
    assert!(matches!(parse_container(&[0, 0, 0]), Err(FormatError::Truncated)));
    assert!(matches!(parse_container(&[0, 0, 0, 0, 1, 2, 3, 4, 5]), Err(FormatError::Truncated)));
}

#[test]
fn build_rejects_bad_palette() {
    let pal = vec![Color { r: 10, g: 20, b: 30 }];
    assert_eq!(build_container(2, 2, &pal, &[0, 0, 0, 0]), Err(HeaderError::PaletteSizeOutOfRange));
    assert_eq!(build_container(4098, 2, &pal, &[]), Err(HeaderError::WidthOutOfRange));
}
