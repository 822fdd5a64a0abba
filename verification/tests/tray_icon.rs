use serylane::tray_icon::{
    tray_canvas_width, blend_pixel, draw_arrow, draw_brand_mark, draw_rect, draw_text, glyph, pixel_text_width,
};

fn synthetic_icon() -> Vec<u8> {
    let mut icon = vec![0_u8; 128 * 128 * 4];
    for y in 0..128_usize {
        for x in 0..128_usize {
            let dx = x as i64 - 64;
            let dy = y as i64 - 64;
            let d = dx * dx + dy * dy;
            let alpha = if d < 40 * 40 { 255 } else if d < 50 * 50 { ((x * 7 + y * 3) % 200) as u8 } else { 0 };
            let i = (y * 128 + x) * 4;
            icon[i] = (x % 256) as u8;
            icon[i + 1] = (y % 256) as u8;
            icon[i + 2] = 9;
            icon[i + 3] = alpha;
        }
    }
    icon
}

#[test]
fn tray_mark_is_the_application_icon_alpha_not_an_independent_glyph() {
    let icon = synthetic_icon();
    let mut rgba = vec![0_u8; 128 * 128 * 4];
    draw_brand_mark(&mut rgba, 128, 128, 0, 0, 128, &icon, 128, 128);
    let mut visible = 0;
    for (rendered, source) in rgba.chunks(4).zip(icon.chunks(4)) {
        assert_eq!(rendered[3], source[3]);
        if source[3] > 0 {
            visible += 1;
            assert_eq!(&rendered[..3], &[255, 255, 255]);
        }
    }
    assert!(visible > 1000 && visible < 128 * 128);
    let before = rgba.clone();
    draw_brand_mark(&mut rgba, 128, 128, 0, 0, 0, &icon, 128, 128);
    assert_eq!(rgba, before);
}

#[test]
fn brand_mark_averages_alpha_over_each_block() {
    // A 2x2 icon with alphas 0, 100, 200, 60 shrunk to one pixel: mean 90.
    let icon = vec![0, 0, 0, 0, 0, 0, 0, 100, 0, 0, 0, 200, 0, 0, 0, 60];
    let mut rgba = vec![0_u8; 3 * 3 * 4];
    draw_brand_mark(&mut rgba, 3, 3, 1, 1, 1, &icon, 2, 2);
    let i = (3 + 1) * 4;
    assert_eq!(&rgba[i..i + 4], &[255, 255, 255, 90]);
    assert_eq!(rgba.iter().filter(|b| **b != 0).count(), 4);
    // A more opaque pixel is kept.
    let mut opaque = vec![0_u8; 4];
    opaque[3] = 120;
    draw_brand_mark(&mut opaque, 1, 1, 0, 0, 1, &icon, 2, 2);
    assert_eq!(opaque, vec![0, 0, 0, 120]);
    // Clipped at the buffer edge.
    let mut clipped = vec![0_u8; 2 * 2 * 4];
    draw_brand_mark(&mut clipped, 2, 2, 1, 1, 4, &icon, 2, 2);
    assert!(clipped[..12].iter().all(|b| *b == 0));
}

#[test]
fn glyphs_cover_the_rate_alphabet() {
    for c in "0123456789./BGKMs".chars() {
        assert!(glyph(c).is_some(), "{c}");
    }
    assert_eq!(glyph('0'), Some([14, 17, 19, 21, 25, 17, 14]));
    assert_eq!(glyph('s'), Some([0, 0, 15, 16, 14, 1, 30]));
    assert!(glyph('x').is_none());
    assert!(glyph('b').is_none());
    assert_eq!(pixel_text_width("1.2M/s", 2), 70);
    assert_eq!(pixel_text_width("", 2), 0);
    assert_eq!(pixel_text_width("8", 1), 5);
}

#[test]
fn rectangles_are_clipped_and_pixels_blend_by_coverage() {
    let mut rgba = vec![0_u8; 4 * 2 * 4];
    draw_rect(&mut rgba, 4, 2, 3, 1, 5, 5, 77);
    assert_eq!(&rgba[(4 + 3) * 4..(4 + 3) * 4 + 4], &[255, 255, 255, 77]);
    assert_eq!(rgba.iter().filter(|b| **b != 0).count(), 4);
    let mut px = vec![0_u8; 4];
    blend_pixel(&mut px, 1, 1, 0, 0, [10, 20, 30, 128], 255);
    assert_eq!(px, vec![10, 20, 30, 128]);
    blend_pixel(&mut px, 1, 1, 0, 0, [1, 2, 3, 255], 100);
    assert_eq!(px, vec![10, 20, 30, 128]);
    blend_pixel(&mut px, 1, 1, -1, 0, [1, 2, 3, 255], 255);
    blend_pixel(&mut px, 1, 1, 1, 0, [1, 2, 3, 255], 255);
    assert_eq!(px, vec![10, 20, 30, 128]);
}

#[test]
fn arrows_and_text_use_opaque_white_cells() {
    let mut up = vec![0_u8; 16 * 16 * 4];
    draw_arrow(&mut up, 16, 16, 0, 0, true);
    let at = |buf: &Vec<u8>, x: usize, y: usize| buf[(y * 16 + x) * 4 + 3];
    assert_eq!(at(&up, 4, 3), 255);
    assert_eq!(at(&up, 5, 13), 255);
    assert_eq!(at(&up, 4, 14), 0);
    assert_eq!(at(&up, 1, 6), 255);
    assert_eq!(at(&up, 8, 7), 255);
    assert_eq!(at(&up, 1, 8), 0);
    let mut down = vec![0_u8; 16 * 16 * 4];
    draw_arrow(&mut down, 16, 16, 0, 0, false);
    assert_eq!(at(&down, 4, 0), 255);
    assert_eq!(at(&down, 1, 6), 255);
    assert_eq!(at(&down, 4, 11), 0);
    let mut text = vec![0_u8; 12 * 7 * 4];
    draw_text(&mut text, 12, 7, 0, 0, "1x", 1, 200);
    let lit: Vec<(usize, usize)> = (0..7)
        .flat_map(|y| (0..12).map(move |x| (x, y)))
        .filter(|(x, y)| text[(y * 12 + x) * 4 + 3] != 0)
        .collect();
    assert_eq!(lit.len(), 10);
    assert!(lit.iter().all(|(x, _)| *x < 5));
    assert_eq!(text[(0 * 12 + 2) * 4 + 3], 200);
}

#[test]
fn tray_canvas_is_between_ninety_and_one_hundred_nineteen_pixels() {
    assert_eq!(tray_canvas_width("0B/s", "0B/s"), 90);
    assert_eq!(tray_canvas_width("1.2M/s", "8.3K/s"), 109);
    assert_eq!(tray_canvas_width("123.4M/s", "1"), 119);
}
