use palette_pack::color::{color_distance, Color, Palette};
use palette_pack::quantize::gen_palette;

const A: Color = Color { r: 255, g: 0, b: 0 };
const B: Color = Color { r: 0, g: 0, b: 255 };

#[test]
fn two_colors_two_entries() {
    let mut pixels = vec![A; 8];
    pixels.extend(vec![B; 8]);
    // Red and blue ranges tie, red wins; sorting by red puts B first.
    assert_eq!(gen_palette(&pixels, 2), vec![B, A]);
}

#[test]
fn single_pixel_gives_one_entry() {
    assert_eq!(gen_palette(&[A], 16), vec![A]);
}

#[test]
fn average_truncates() {
    let pixels = vec![Color { r: 1, g: 2, b: 3 }, Color { r: 2, g: 3, b: 5 }];
    assert_eq!(gen_palette(&pixels, 1), vec![Color { r: 1, g: 2, b: 4 }]);
}

#[test]
fn splits_widest_channel() {
    let pixels = vec![
        Color { r: 0, g: 0, b: 0 },
        Color { r: 0, g: 100, b: 0 },
        Color { r: 0, g: 10, b: 0 },
        Color { r: 0, g: 90, b: 0 },
    ];
    assert_eq!(
        gen_palette(&pixels, 2),
        vec![Color { r: 0, g: 5, b: 0 }, Color { r: 0, g: 95, b: 0 }]
    );
}

#[test]
fn stops_early_on_single_pixel_buckets() {
    let pixels = vec![Color { r: 0, g: 0, b: 0 }, Color { r: 200, g: 0, b: 0 }];
    let pal = gen_palette(&pixels, 5);
    assert_eq!(pal.len(), 2);
}

#[test]
fn nearest_index_first_on_ties() {
    let pal = Palette {
        colors: vec![Color { r: 10, g: 0, b: 0 }, Color { r: 0, g: 0, b: 0 }, Color { r: 20, g: 0, b: 0 }],
    };
    assert_eq!(pal.index_of(&Color { r: 10, g: 0, b: 0 }), 0);
    assert_eq!(pal.index_of(&Color { r: 15, g: 0, b: 0 }), 0);
    assert_eq!(pal.index_of(&Color { r: 16, g: 0, b: 0 }), 2);
    assert_eq!(pal.index_of(&Color { r: 4, g: 0, b: 0 }), 1);
    let mut c = Color { r: 18, g: 3, b: 1 };
    pal.map_color(&mut c);
    assert_eq!(c, Color { r: 20, g: 0, b: 0 });
}

#[test]
fn distance_is_squared_euclidean() {
    assert_eq!(color_distance(&Color { r: 1, g: 2, b: 3 }, &Color { r: 4, g: 6, b: 3 }), 25);
    assert_eq!(color_distance(&Color { r: 0, g: 0, b: 0 }, &Color { r: 255, g: 255, b: 255 }), 195075);
}
