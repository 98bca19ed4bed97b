use palette_pack::color::{Color, Palette};
use palette_pack::pipeline::{
    chunk_bounds, chunk_size, expand_indices, index_pixels, indexify, join_chunks, pixelify,
};
use palette_pack::progress::ProgressBar;

fn palette() -> Palette {
    Palette {
        colors: vec![Color { r: 0, g: 0, b: 0 }, Color { r: 255, g: 255, b: 255 }, Color { r: 255, g: 0, b: 0 }],
    }
}

#[test]
fn chunking_rounds_up_and_truncates() {
    assert_eq!(chunk_size(10, 4), 3);
    assert_eq!(chunk_size(12, 4), 3);
    assert_eq!(chunk_size(0, 4), 0);
    assert_eq!(chunk_bounds(10, 4, 0), (0, 3));
    assert_eq!(chunk_bounds(10, 4, 3), (9, 10));
    // Many workers on few items: the trailing chunks are empty.
    assert_eq!(chunk_bounds(20, 16, 10), (20, 20));
    assert_eq!(chunk_bounds(20, 16, 15), (20, 20));
}

#[test]
fn indexify_same_for_any_worker_count() {
    let pal = palette();
    let pixels: Vec<Color> = (0..37u32)
        .map(|i| Color { r: (i * 7 % 256) as u8, g: (i * 13 % 256) as u8, b: (i * 29 % 256) as u8 })
        .collect();
    let one = indexify(&pixels, &pal, 1);
    assert_eq!(one.len(), 37);
    for w in 2..20 {
        assert_eq!(indexify(&pixels, &pal, w), one);
    }
    assert_eq!(indexify(&pixels, &pal, 0), Vec::<u8>::new());
    let mut parts = Vec::new();
    for i in 0..5 {
        let (s, e) = chunk_bounds(pixels.len(), 5, i);
        parts.push(index_pixels(&pixels[s..e], &pal));
    }
    assert_eq!(join_chunks(&parts), one);
}

#[test]
fn pixelify_uses_entry_zero_past_palette() {
    let pal = palette();
    let px = pixelify(&[2, 1, 7, 0], &pal, 3);
    assert_eq!(
        px,
        vec![pal.colors[2], pal.colors[1], pal.colors[0], pal.colors[0]]
    );
    assert_eq!(expand_indices(&[1], &pal), vec![pal.colors[1]]);
    assert!(pixelify(&[1, 2], &pal, 0).is_empty());
}

#[test]
fn progress_counts_and_saturates() {
    let mut bar = ProgressBar::new(4);
    assert_eq!(bar.current_step(), 0);
    assert_eq!(bar.percent(), 0);
    bar.advance();
    assert_eq!(bar.percent(), 25);
    assert_eq!(bar.filled_width(), 12);
    for _ in 0..10 {
        bar.advance();
    }
    assert_eq!(bar.current_step(), 4);
    assert_eq!(bar.percent(), 100);
    assert_eq!(bar.filled_width(), 50);
    let empty = ProgressBar::new(0);
    assert_eq!(empty.percent(), 0);
}
