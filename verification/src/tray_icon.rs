//! The pixel tray icon: a 5x7 bitmap font, arrows and the brand mark drawn into
//! an RGBA buffer of `width * height` pixels, row by row.
use vstd::prelude::*;
use crate::text::chars_of;
use vstd::string::*;

verus! {

/// Byte offset of channel `c` of pixel (`px`, `py`) in a buffer `w` pixels wide.
pub open spec fn pixel_at(w: int, px: int, py: int, c: int) -> int {
    (py * w + px) * 4 + c
}

/// The buffer holds exactly `width * height` pixels and its offsets fit in `u32`.
pub open spec fn canvas(buf: Seq<u8>, width: u32, height: u32) -> bool {
    buf.len() == width * height * 4 && width * height * 4 <= u32::MAX
}

pub open spec fn on_canvas(w: int, h: int, px: int, py: int, c: int) -> bool {
    0 <= px < w && 0 <= py < h && 0 <= c < 4
}

proof fn lemma_pixel_in_buffer(w: int, h: int, px: int, py: int, c: int)
    requires
        on_canvas(w, h, px, py, c),
    ensures
        0 <= pixel_at(w, px, py, c) < w * h * 4,
{
    assert(0 <= py * w + px < w * h) by (nonlinear_arith)
        requires
            0 <= px < w,
            0 <= py < h,
    {
        assert(py * w <= (h - 1) * w);
    }
}

proof fn lemma_pixel_distinct(w: int, h: int, x1: int, y1: int, c1: int, x2: int, y2: int, c2: int)
    requires
        on_canvas(w, h, x1, y1, c1),
        on_canvas(w, h, x2, y2, c2),
        pixel_at(w, x1, y1, c1) == pixel_at(w, x2, y2, c2),
    ensures
        x1 == x2 && y1 == y2 && c1 == c2,
{
    let k1 = y1 * w + x1;
    let k2 = y2 * w + x2;
    assert(k1 == k2 && c1 == c2);
    if y1 < y2 {
        assert(y1 * w + w <= y2 * w) by (nonlinear_arith)
            requires
                y1 < y2,
                w > 0,
        ;
    } else if y1 > y2 {
        assert(y2 * w + w <= y1 * w) by (nonlinear_arith)
            requires
                y2 < y1,
                w > 0,
        ;
    }
}

/// The value pixel (`px`, `py`) gets when painted `rgb` with alpha `a`.
pub open spec fn channel(rgb: (u8, u8, u8), a: u8, c: int) -> u8 {
    if c == 0 {
        rgb.0
    } else if c == 1 {
        rgb.1
    } else if c == 2 {
        rgb.2
    } else {
        a
    }
}

/// Sets one pixel; everything else stays.
fn paint(rgba: &mut [u8], width: u32, height: u32, px: u32, py: u32, rgb: (u8, u8, u8), a: u8)
    requires
        canvas(old(rgba)@, width, height),
        px < width,
        py < height,
    ensures
        final(rgba)@.len() == old(rgba)@.len(),
        forall|qx: int, qy: int, c: int|
            on_canvas(width as int, height as int, qx, qy, c) ==> #[trigger] final(rgba)@[pixel_at(
                width as int,
                qx,
                qy,
                c,
            )] == if qx == px && qy == py {
                channel(rgb, a, c)
            } else {
                old(rgba)@[pixel_at(width as int, qx, qy, c)]
            },
{
    proof {
        lemma_pixel_in_buffer(width as int, height as int, px as int, py as int, 3);
        assert(py * width + px < width * height) by (nonlinear_arith)
            requires
                px < width,
                py < height,
        {
            assert(py * width <= (height - 1) * width);
        }
    }
    let index = ((py * width + px) * 4) as usize;
    rgba[index] = rgb.0;
    rgba[index + 1] = rgb.1;
    rgba[index + 2] = rgb.2;
    rgba[index + 3] = a;
    proof {
        assert forall|qx: int, qy: int, c: int|
            on_canvas(width as int, height as int, qx, qy, c) implies #[trigger] rgba@[pixel_at(
                width as int,
                qx,
                qy,
                c,
            )] == if qx == px && qy == py {
                channel(rgb, a, c)
            } else {
                old(rgba)@[pixel_at(width as int, qx, qy, c)]
            } by {
            let i = pixel_at(width as int, qx, qy, c);
            lemma_pixel_in_buffer(width as int, height as int, qx, qy, c);
            if !(qx == px && qy == py) {
                if i == pixel_at(width as int, px as int, py as int, 0) {
                    lemma_pixel_distinct(width as int, height as int, qx, qy, c, px as int, py as int, 0);
                }
                if i == pixel_at(width as int, px as int, py as int, 1) {
                    lemma_pixel_distinct(width as int, height as int, qx, qy, c, px as int, py as int, 1);
                }
                if i == pixel_at(width as int, px as int, py as int, 2) {
                    lemma_pixel_distinct(width as int, height as int, qx, qy, c, px as int, py as int, 2);
                }
                if i == pixel_at(width as int, px as int, py as int, 3) {
                    lemma_pixel_distinct(width as int, height as int, qx, qy, c, px as int, py as int, 3);
                }
            }
        }
    }
}

pub open spec fn sat_add(a: u32, b: u32) -> int {
    if a + b > u32::MAX {
        u32::MAX as int
    } else {
        a + b
    }
}

pub open spec fn min_int(a: int, b: int) -> int {
    if a < b {
        a
    } else {
        b
    }
}

/// `start <= v < min(start + len, limit)`, the sum saturating at `u32::MAX`.
pub open spec fn in_span(v: int, start: u32, len: u32, limit: u32) -> bool {
    start <= v && v < min_int(sat_add(start, len), limit as int)
}

pub open spec fn in_rect(px: int, py: int, x: u32, y: u32, w: u32, h: u32, width: u32, height: u32) -> bool {
    in_span(px, x, w, width) && in_span(py, y, h, height)
}

/// Fills a rectangle, clipped to the buffer, with white of the given alpha.
pub fn draw_rect(
    rgba: &mut [u8],
    width: u32,
    height: u32,
    x: u32,
    y: u32,
    rect_width: u32,
    rect_height: u32,
    alpha: u8,
)
    requires
        canvas(old(rgba)@, width, height),
    ensures
        final(rgba)@.len() == old(rgba)@.len(),
        forall|qx: int, qy: int, c: int|
            on_canvas(width as int, height as int, qx, qy, c) ==> #[trigger] final(rgba)@[pixel_at(
                width as int,
                qx,
                qy,
                c,
            )] == if in_rect(qx, qy, x, y, rect_width, rect_height, width, height) {
                channel((255, 255, 255), alpha, c)
            } else {
                old(rgba)@[pixel_at(width as int, qx, qy, c)]
            },
{
    let y_end = match y.checked_add(rect_height) {
        Some(v) => v,
        None => u32::MAX,
    };
    let y_end = if y_end < height {
        y_end
    } else {
        height
    };
    let x_end = match x.checked_add(rect_width) {
        Some(v) => v,
        None => u32::MAX,
    };
    let x_end = if x_end < width {
        x_end
    } else {
        width
    };
    let mut py = y;
    while py < y_end
        invariant
            canvas(rgba@, width, height),
            rgba@.len() == old(rgba)@.len(),
            y <= py,
            y_end as int == min_int(sat_add(y, rect_height), height as int),
            x_end as int == min_int(sat_add(x, rect_width), width as int),
            forall|qx: int, qy: int, c: int|
                on_canvas(width as int, height as int, qx, qy, c) ==> #[trigger] rgba@[pixel_at(
                    width as int,
                    qx,
                    qy,
                    c,
                )] == if in_rect(qx, qy, x, y, rect_width, rect_height, width, height) && qy < py {
                    channel((255, 255, 255), alpha, c)
                } else {
                    old(rgba)@[pixel_at(width as int, qx, qy, c)]
                },
        decreases y_end - py,
    {
        let mut px = x;
        while px < x_end
            invariant
                canvas(rgba@, width, height),
                rgba@.len() == old(rgba)@.len(),
                y <= py < y_end,
                x <= px,
                y_end as int == min_int(sat_add(y, rect_height), height as int),
                x_end as int == min_int(sat_add(x, rect_width), width as int),
                forall|qx: int, qy: int, c: int|
                    on_canvas(width as int, height as int, qx, qy, c) ==> #[trigger] rgba@[pixel_at(
                        width as int,
                        qx,
                        qy,
                        c,
                    )] == if in_rect(qx, qy, x, y, rect_width, rect_height, width, height) && (qy
                        < py || (qy == py && qx < px)) {
                        channel((255, 255, 255), alpha, c)
                    } else {
                        old(rgba)@[pixel_at(width as int, qx, qy, c)]
                    },
            decreases x_end - px,
        {
            paint(rgba, width, height, px, py, (255, 255, 255), alpha);
            px = px + 1;
        }
        py = py + 1;
    }
}

/// Draws pixel (`x`, `y`) in `color` at `coverage`, unless it lies outside the
/// buffer or is already more opaque.
pub open spec fn blend_alpha(color: [u8; 4], coverage: u8) -> u8 {
    ((coverage as int * color[3] as int) / 255) as u8
}

pub fn blend_pixel(
    rgba: &mut [u8],
    width: u32,
    height: u32,
    x: i32,
    y: i32,
    color: [u8; 4],
    coverage: u8,
)
    requires
        canvas(old(rgba)@, width, height),
    ensures
        final(rgba)@.len() == old(rgba)@.len(),
        forall|qx: int, qy: int, c: int|
            on_canvas(width as int, height as int, qx, qy, c) ==> #[trigger] final(rgba)@[pixel_at(
                width as int,
                qx,
                qy,
                c,
            )] == if qx == x && qy == y && blend_alpha(color, coverage) >= old(rgba)@[pixel_at(
                width as int,
                qx,
                qy,
                3,
            )] {
                channel((color[0], color[1], color[2]), blend_alpha(color, coverage), c)
            } else {
                old(rgba)@[pixel_at(width as int, qx, qy, c)]
            },
{
    if x < 0 || y < 0 || x as i64 >= width as i64 || y as i64 >= height as i64 {
        return;
    }
    let px = x as u32;
    let py = y as u32;
    proof {
        lemma_pixel_in_buffer(width as int, height as int, px as int, py as int, 3);
    }
    assert((py * width + px) * 4 + 3 < width * height * 4) by (nonlinear_arith)
        requires
            px < width,
            py < height,
    {
        assert(py * width <= (height - 1) * width);
    }
    let index = ((py * width + px) * 4) as usize;
    let cv = coverage as u16;
    let ca = color[3] as u16;
    assert(cv * ca <= 255 * 255) by (nonlinear_arith)
        requires
            cv <= 255,
            ca <= 255,
    ;
    let product: u16 = cv * ca;
    let alpha = (product / 255) as u8;
    assert(alpha == blend_alpha(color, coverage));
    assert(index + 3 == pixel_at(width as int, px as int, py as int, 3));
    if alpha >= rgba[index + 3] {
        paint(rgba, width, height, px, py, (color[0], color[1], color[2]), alpha);
    }
}


/// The 5x7 bitmap of a character the tray font has: seven rows, the five low
/// bits of each from left to right.
pub open spec fn glyph_rows(c: char) -> Option<Seq<u8>> {
    if c == '0' {
        Some(seq![14u8, 17, 19, 21, 25, 17, 14])
    } else if c == '1' {
        Some(seq![4u8, 12, 4, 4, 4, 4, 14])
    } else if c == '2' {
        Some(seq![14u8, 17, 1, 2, 4, 8, 31])
    } else if c == '3' {
        Some(seq![30u8, 1, 1, 14, 1, 1, 30])
    } else if c == '4' {
        Some(seq![2u8, 6, 10, 18, 31, 2, 2])
    } else if c == '5' {
        Some(seq![31u8, 16, 16, 30, 1, 1, 30])
    } else if c == '6' {
        Some(seq![14u8, 16, 16, 30, 17, 17, 14])
    } else if c == '7' {
        Some(seq![31u8, 1, 2, 4, 8, 8, 8])
    } else if c == '8' {
        Some(seq![14u8, 17, 17, 14, 17, 17, 14])
    } else if c == '9' {
        Some(seq![14u8, 17, 17, 15, 1, 1, 14])
    } else if c == '.' {
        Some(seq![0u8, 0, 0, 0, 0, 12, 12])
    } else if c == '/' {
        Some(seq![1u8, 2, 2, 4, 8, 8, 16])
    } else if c == 'B' {
        Some(seq![30u8, 17, 17, 30, 17, 17, 30])
    } else if c == 'G' {
        Some(seq![14u8, 17, 16, 23, 17, 17, 15])
    } else if c == 'K' {
        Some(seq![17u8, 18, 20, 24, 20, 18, 17])
    } else if c == 'M' {
        Some(seq![17u8, 27, 21, 21, 17, 17, 17])
    } else if c == 's' {
        Some(seq![0u8, 0, 15, 16, 14, 1, 30])
    } else {
        None
    }
}

/// The bitmap of `character`, if the tray font has it.
pub fn glyph(character: char) -> (r: Option<[u8; 7]>)
    ensures
        match glyph_rows(character) {
            Some(rows) => r matches Some(a) && a@ == rows,
            None => r is None,
        },
{
    let rows: [u8; 7] = match character {
        '0' => [14, 17, 19, 21, 25, 17, 14],
        '1' => [4, 12, 4, 4, 4, 4, 14],
        '2' => [14, 17, 1, 2, 4, 8, 31],
        '3' => [30, 1, 1, 14, 1, 1, 30],
        '4' => [2, 6, 10, 18, 31, 2, 2],
        '5' => [31, 16, 16, 30, 1, 1, 30],
        '6' => [14, 16, 16, 30, 17, 17, 14],
        '7' => [31, 1, 2, 4, 8, 8, 8],
        '8' => [14, 17, 17, 14, 17, 17, 14],
        '9' => [14, 17, 17, 15, 1, 1, 14],
        '.' => [0, 0, 0, 0, 0, 12, 12],
        '/' => [1, 2, 2, 4, 8, 8, 16],
        'B' => [30, 17, 17, 30, 17, 17, 30],
        'G' => [14, 17, 16, 23, 17, 17, 15],
        'K' => [17, 18, 20, 24, 20, 18, 17],
        'M' => [17, 27, 21, 21, 17, 17, 17],
        's' => [0, 0, 15, 16, 14, 1, 30],
        _ => return None,
    };
    assert(rows@ == glyph_rows(character)->0);
    Some(rows)
}

pub open spec fn sat_mul(a: u32, b: u32) -> u32 {
    if a * b > u32::MAX {
        u32::MAX
    } else {
        (a * b) as u32
    }
}

pub open spec fn sat_sub32(a: u32, b: u32) -> u32 {
    if a >= b {
        (a - b) as u32
    } else {
        0
    }
}

/// Width in pixels of `text` at `scale`: six columns per character, less the
/// trailing gap.
pub open spec fn text_width(text: Seq<char>, scale: u32) -> u32 {
    sat_sub32(sat_mul(text.len() as u32, (6 * scale) as u32), scale)
}

pub fn pixel_text_width(text: &str, scale: u32) -> (r: u32)
    requires
        6 * scale <= u32::MAX,
    ensures
        r == text_width(text@, scale),
{
    let glyphs = chars_of(text).len() as u32;
    let total = match glyphs.checked_mul(6 * scale) {
        Some(v) => v,
        None => u32::MAX,
    };
    if total >= scale {
        total - scale
    } else {
        0
    }
}

/// A rectangle as (x, y, width, height).
pub type Rect = (u32, u32, u32, u32);

pub open spec fn in_any(rects: Seq<Rect>, qx: int, qy: int, width: u32, height: u32) -> bool {
    exists|k: int| 0 <= k < rects.len() && in_rect(qx, qy, (#[trigger] rects[k]).0, rects[k].1, rects[k].2, rects[k].3, width, height)
}

/// Fills every rectangle with white of the given alpha.
fn draw_rects(rgba: &mut [u8], width: u32, height: u32, rects: &Vec<Rect>, alpha: u8)
    requires
        canvas(old(rgba)@, width, height),
    ensures
        final(rgba)@.len() == old(rgba)@.len(),
        forall|qx: int, qy: int, c: int|
            on_canvas(width as int, height as int, qx, qy, c) ==> #[trigger] final(rgba)@[pixel_at(
                width as int,
                qx,
                qy,
                c,
            )] == if in_any(rects@, qx, qy, width, height) {
                channel((255, 255, 255), alpha, c)
            } else {
                old(rgba)@[pixel_at(width as int, qx, qy, c)]
            },
{
    let mut k: usize = 0;
    while k < rects.len()
        invariant
            k <= rects.len(),
            canvas(rgba@, width, height),
            rgba@.len() == old(rgba)@.len(),
            forall|qx: int, qy: int, c: int|
                on_canvas(width as int, height as int, qx, qy, c) ==> #[trigger] rgba@[pixel_at(
                    width as int,
                    qx,
                    qy,
                    c,
                )] == if in_any(rects@.take(k as int), qx, qy, width, height) {
                    channel((255, 255, 255), alpha, c)
                } else {
                    old(rgba)@[pixel_at(width as int, qx, qy, c)]
                },
        decreases rects.len() - k,
    {
        let (x, y, w, h) = rects[k];
        draw_rect(rgba, width, height, x, y, w, h, alpha);
        proof {
            let next = rects@.take(k + 1);
            let prev = rects@.take(k as int);
            assert forall|qx: int, qy: int| #[trigger] in_any(next, qx, qy, width, height) == (in_any(prev, qx, qy, width, height) || in_rect(qx, qy, x, y, w, h, width, height)) by {
                if in_any(next, qx, qy, width, height) {
                    let j = choose|j: int| 0 <= j < next.len() && in_rect(qx, qy, (#[trigger] next[j]).0, next[j].1, next[j].2, next[j].3, width, height);
                    if j < k {
                        assert(prev[j] == next[j]);
                    }
                }
                if in_any(prev, qx, qy, width, height) {
                    let j = choose|j: int| 0 <= j < prev.len() && in_rect(qx, qy, (#[trigger] prev[j]).0, prev[j].1, prev[j].2, prev[j].3, width, height);
                    assert(next[j] == prev[j]);
                }
                if in_rect(qx, qy, x, y, w, h, width, height) {
                    assert(next[k as int] == (x, y, w, h));
                }
            }
        }
        k = k + 1;
    }
    assert(rects@.take(rects.len() as int) =~= rects@);
}

/// The rectangles of the pixel arrow at (`x`, `y`): a shaft and a head of four
/// steps, pointing up or down.
pub open spec fn arrow_rects(x: u32, y: u32, up: bool) -> Seq<Rect> {
    let c = (x + 4) as u32;
    if up {
        seq![
            (c, (y + 3) as u32, 2u32, 11u32),
            (c, (y + 3) as u32, 2u32, 2u32),
            (c, (y + 3) as u32, 2u32, 2u32),
            ((c - 1) as u32, (y + 4) as u32, 2u32, 2u32),
            ((c + 1) as u32, (y + 4) as u32, 2u32, 2u32),
            ((c - 2) as u32, (y + 5) as u32, 2u32, 2u32),
            ((c + 2) as u32, (y + 5) as u32, 2u32, 2u32),
            ((c - 3) as u32, (y + 6) as u32, 2u32, 2u32),
            ((c + 3) as u32, (y + 6) as u32, 2u32, 2u32),
        ]
    } else {
        seq![
            (c, y, 2u32, 11u32),
            (c, (y + 9) as u32, 2u32, 2u32),
            (c, (y + 9) as u32, 2u32, 2u32),
            ((c - 1) as u32, (y + 8) as u32, 2u32, 2u32),
            ((c + 1) as u32, (y + 8) as u32, 2u32, 2u32),
            ((c - 2) as u32, (y + 7) as u32, 2u32, 2u32),
            ((c + 2) as u32, (y + 7) as u32, 2u32, 2u32),
            ((c - 3) as u32, (y + 6) as u32, 2u32, 2u32),
            ((c + 3) as u32, (y + 6) as u32, 2u32, 2u32),
        ]
    }
}

/// Draws the opaque white pixel arrow whose shaft starts four pixels right of `x`.
pub fn draw_arrow(rgba: &mut [u8], width: u32, height: u32, x: u32, y: u32, up: bool)
    requires
        canvas(old(rgba)@, width, height),
        x <= u32::MAX - 7,
        y <= u32::MAX - 9,
    ensures
        final(rgba)@.len() == old(rgba)@.len(),
        forall|qx: int, qy: int, c: int|
            on_canvas(width as int, height as int, qx, qy, c) ==> #[trigger] final(rgba)@[pixel_at(
                width as int,
                qx,
                qy,
                c,
            )] == if in_any(arrow_rects(x, y, up), qx, qy, width, height) {
                channel((255, 255, 255), 255, c)
            } else {
                old(rgba)@[pixel_at(width as int, qx, qy, c)]
            },
{
    let center = x + 4;
    let mut rects: Vec<Rect> = Vec::new();
    if up {
        rects.push((center, y + 3, 2, 11));
        let mut offset: u32 = 0;
        while offset < 4
            invariant
                offset <= 4,
                center == x + 4,
                x <= u32::MAX - 7,
                y <= u32::MAX - 9,
                rects@.len() == 1 + 2 * offset,
                forall|j: int| 0 <= j < rects@.len() ==> #[trigger] rects@[j] == arrow_rects(x, y, up)[j],
                up,
            decreases 4 - offset,
        {
            rects.push((center - offset, y + 3 + offset, 2, 2));
            rects.push((center + offset, y + 3 + offset, 2, 2));
            offset = offset + 1;
        }
    } else {
        rects.push((center, y, 2, 11));
        let mut offset: u32 = 0;
        while offset < 4
            invariant
                offset <= 4,
                center == x + 4,
                x <= u32::MAX - 7,
                y <= u32::MAX - 9,
                rects@.len() == 1 + 2 * offset,
                forall|j: int| 0 <= j < rects@.len() ==> #[trigger] rects@[j] == arrow_rects(x, y, up)[j],
                !up,
            decreases 4 - offset,
        {
            rects.push((center - offset, y + 9 - offset, 2, 2));
            rects.push((center + offset, y + 9 - offset, 2, 2));
            offset = offset + 1;
        }
    }
    assert(rects@ =~= arrow_rects(x, y, up));
    draw_rects(rgba, width, height, &rects, 255);
}


/// Column `col` (0 = leftmost) of a glyph row is lit.
pub open spec fn glyph_bit(bits: u8, col: int) -> bool {
    (bits & (1u8 << ((4 - col) as u8))) != 0
}

/// Column `c` of row `r` of the `k`-th character of `text` is lit.
pub open spec fn lit(text: Seq<char>, k: int, r: int, c: int) -> bool {
    &&& 0 <= k < text.len()
    &&& 0 <= r < 7
    &&& 0 <= c < 5
    &&& glyph_rows(text[k]) matches Some(rows)
    &&& glyph_bit(rows[r], c)
}

/// The square of a lit font cell: characters advance six columns.
pub open spec fn glyph_rect(x: u32, y: u32, scale: u32, k: int, r: int, c: int) -> Rect {
    ((x + k * 6 * scale + c * scale) as u32, (y + r * scale) as u32, scale, scale)
}

pub open spec fn rect_covers(rect: Rect, qx: int, qy: int, width: u32, height: u32) -> bool {
    in_rect(qx, qy, rect.0, rect.1, rect.2, rect.3, width, height)
}

/// Pixel (`qx`, `qy`) belongs to a lit cell of `text` drawn at (`x`, `y`).
pub open spec fn text_cell(text: Seq<char>, x: u32, y: u32, scale: u32, qx: int, qy: int, width: u32, height: u32) -> bool {
    exists|k: int, r: int, c: int|
        #![trigger lit(text, k, r, c), glyph_rect(x, y, scale, k, r, c)]
        lit(text, k, r, c) && rect_covers(glyph_rect(x, y, scale, k, r, c), qx, qy, width, height)
}

pub open spec fn is_lit_rect(text: Seq<char>, x: u32, y: u32, scale: u32, rect: Rect) -> bool {
    exists|k: int, r: int, c: int|
        #![trigger lit(text, k, r, c), glyph_rect(x, y, scale, k, r, c)]
        lit(text, k, r, c) && rect == glyph_rect(x, y, scale, k, r, c)
}

/// Cell (`k`, `r`, `c`) comes before the position (`k0`, `r0`, `c0`) of the scan.
pub open spec fn before(k: int, r: int, c: int, k0: int, r0: int, c0: int) -> bool {
    k < k0 || (k == k0 && (r < r0 || (r == r0 && c < c0)))
}

/// Draws `text` in the 5x7 font, each font pixel a `scale` square of white at
/// `alpha`; characters without a glyph leave a gap.
pub fn draw_text(
    rgba: &mut [u8],
    width: u32,
    height: u32,
    x: u32,
    y: u32,
    text: &str,
    scale: u32,
    alpha: u8,
)
    requires
        canvas(old(rgba)@, width, height),
        x + text@.len() * 6 * scale + 4 * scale <= u32::MAX,
        y + 6 * scale <= u32::MAX,
    ensures
        final(rgba)@.len() == old(rgba)@.len(),
        forall|qx: int, qy: int, c: int|
            on_canvas(width as int, height as int, qx, qy, c) ==> #[trigger] final(rgba)@[pixel_at(
                width as int,
                qx,
                qy,
                c,
            )] == if text_cell(text@, x, y, scale, qx, qy, width, height) {
                channel((255, 255, 255), alpha, c)
            } else {
                old(rgba)@[pixel_at(width as int, qx, qy, c)]
            },
{
    let cs = chars_of(text);
    let mut rects: Vec<Rect> = Vec::new();
    let mut cursor = x;
    let mut k: usize = 0;
    assert(x + cs@.len() * 6 * scale <= u32::MAX);
    while k < cs.len()
        invariant
            cs@ == text@,
            k <= cs.len(),
            x + cs@.len() * 6 * scale + 4 * scale <= u32::MAX,
            y + 6 * scale <= u32::MAX,
            cursor == x + k * 6 * scale,
            forall|j: int| 0 <= j < rects@.len() ==> is_lit_rect(text@, x, y, scale, #[trigger] rects@[j]),
            forall|k1: int, r1: int, c1: int|
                #![trigger lit(text@, k1, r1, c1)]
                lit(text@, k1, r1, c1) && k1 < k ==> rects@.contains(glyph_rect(x, y, scale, k1, r1, c1)),
        decreases cs.len() - k,
    {
        assert(cursor + 6 * scale + 4 * scale <= u32::MAX) by (nonlinear_arith)
            requires
                cursor == x + k * 6 * scale,
                k < cs@.len(),
                x + cs@.len() * 6 * scale + 4 * scale <= u32::MAX,
        ;
        match glyph(cs[k]) {
            Some(rows) => {
                let mut r: usize = 0;
                while r < 7
                    invariant
                        cs@ == text@,
                        k < cs.len(),
                        r <= 7,
                        glyph_rows(text@[k as int]) == Some(rows@),
                        cursor == x + k * 6 * scale,
                        cursor + 6 * scale + 4 * scale <= u32::MAX,
                        y + 6 * scale <= u32::MAX,
                        forall|j: int| 0 <= j < rects@.len() ==> is_lit_rect(text@, x, y, scale, #[trigger] rects@[j]),
                        forall|k1: int, r1: int, c1: int|
                            #![trigger lit(text@, k1, r1, c1)]
                            lit(text@, k1, r1, c1) && before(k1, r1, c1, k as int, r as int, 0) ==> rects@.contains(glyph_rect(x, y, scale, k1, r1, c1)),
                    decreases 7 - r,
                {
                    let bits = rows[r];
                    let mut column: u32 = 0;
                    while column < 5
                        invariant
                            cs@ == text@,
                            k < cs.len(),
                            r < 7,
                            column <= 5,
                            bits == rows@[r as int],
                            glyph_rows(text@[k as int]) == Some(rows@),
                            cursor == x + k * 6 * scale,
                            cursor + 6 * scale + 4 * scale <= u32::MAX,
                            y + 6 * scale <= u32::MAX,
                            forall|j: int| 0 <= j < rects@.len() ==> is_lit_rect(text@, x, y, scale, #[trigger] rects@[j]),
                            forall|k1: int, r1: int, c1: int|
                                #![trigger lit(text@, k1, r1, c1)]
                                lit(text@, k1, r1, c1) && before(k1, r1, c1, k as int, r as int, column as int) ==> rects@.contains(glyph_rect(x, y, scale, k1, r1, c1)),
                        decreases 5 - column,
                    {
                        assert(column * scale <= 4 * scale) by (nonlinear_arith)
                            requires
                                column < 5,
                        ;
                        assert(r * scale <= 6 * scale) by (nonlinear_arith)
                            requires
                                r < 7,
                        ;
                        if bits & (1u8 << (4 - column) as u8) != 0 {
                            let rect = (cursor + column * scale, y + (r as u32) * scale, scale, scale);
                            proof {
                                assert(lit(text@, k as int, r as int, column as int));
                                assert(rect == glyph_rect(x, y, scale, k as int, r as int, column as int));
                            }
                            let ghost prev = rects@;
                            rects.push(rect);
                            proof {
                                assert forall|j: int| 0 <= j < rects@.len() implies is_lit_rect(text@, x, y, scale, #[trigger] rects@[j]) by {
                                    if j < prev.len() {
                                        assert(rects@[j] == prev[j]);
                                    }
                                }
                                assert forall|k1: int, r1: int, c1: int|
                                    #![trigger lit(text@, k1, r1, c1)]
                                    lit(text@, k1, r1, c1) && before(k1, r1, c1, k as int, r as int, column + 1) implies rects@.contains(glyph_rect(x, y, scale, k1, r1, c1)) by {
                                    if before(k1, r1, c1, k as int, r as int, column as int) {
                                        let j = choose|j: int| 0 <= j < prev.len() && prev[j] == glyph_rect(x, y, scale, k1, r1, c1);
                                        assert(rects@[j] == prev[j]);
                                    } else {
                                        assert(rects@[prev.len() as int] == rect);
                                    }
                                }
                            }
                        } else {
                            proof {
                                assert(!lit(text@, k as int, r as int, column as int));
                            }
                        }
                        column = column + 1;
                    }
                    r = r + 1;
                }
            },
            None => {
                proof {
                    assert forall|r1: int, c1: int| !lit(text@, k as int, r1, c1) by {}
                }
            },
        }
        assert(x + (k + 1) * 6 * scale == x + k * 6 * scale + 6 * scale) by (nonlinear_arith);
        cursor = cursor + 6 * scale;
        k = k + 1;
    }
    draw_rects(rgba, width, height, &rects, alpha);
    proof {
        assert forall|qx: int, qy: int| #[trigger] in_any(rects@, qx, qy, width, height) == text_cell(text@, x, y, scale, qx, qy, width, height) by {
            if in_any(rects@, qx, qy, width, height) {
                let j = choose|j: int| 0 <= j < rects@.len() && in_rect(qx, qy, (#[trigger] rects@[j]).0, rects@[j].1, rects@[j].2, rects@[j].3, width, height);
                assert(is_lit_rect(text@, x, y, scale, rects@[j]));
                let (k1, r1, c1) = choose|k1: int, r1: int, c1: int| lit(text@, k1, r1, c1) && rects@[j] == glyph_rect(x, y, scale, k1, r1, c1);
                assert(rect_covers(glyph_rect(x, y, scale, k1, r1, c1), qx, qy, width, height));
            }
            if text_cell(text@, x, y, scale, qx, qy, width, height) {
                let (k1, r1, c1) = choose|k1: int, r1: int, c1: int| lit(text@, k1, r1, c1) && rect_covers(glyph_rect(x, y, scale, k1, r1, c1), qx, qy, width, height);
                assert(rects@.contains(glyph_rect(x, y, scale, k1, r1, c1)));
                let j = choose|j: int| 0 <= j < rects@.len() && rects@[j] == glyph_rect(x, y, scale, k1, r1, c1);
                assert(in_rect(qx, qy, rects@[j].0, rects@[j].1, rects@[j].2, rects@[j].3, width, height));
            }
        }
    }
}


/// First source row (or column) sampled for target row `d` when `n` source rows
/// are scaled to `size`.
pub open spec fn block_start(d: int, n: int, size: int) -> int {
    d * n / size
}

/// One past the last source row sampled for target row `d`: at least one row,
/// never past the source.
pub open spec fn block_end(d: int, n: int, size: int) -> int {
    let e = (d + 1) * n / size;
    let lo = d * n / size + 1;
    let m = if e > lo {
        e
    } else {
        lo
    };
    if m < n {
        m
    } else {
        n
    }
}

/// Sum of the alpha bytes of source row `sy`, columns `sx0 .. sx`.
pub open spec fn row_alpha(icon: Seq<u8>, iw: int, sy: int, sx0: int, sx: int) -> int
    decreases sx - sx0,
{
    if sx <= sx0 {
        0
    } else {
        row_alpha(icon, iw, sy, sx0, sx - 1) + icon[(sy * iw + sx - 1) * 4 + 3] as int
    }
}

/// Sum of the alpha bytes of source rows `sy0 .. sy`, columns `sx0 .. sx1`.
pub open spec fn block_alpha(icon: Seq<u8>, iw: int, sx0: int, sx1: int, sy0: int, sy: int) -> int
    decreases sy - sy0,
{
    if sy <= sy0 {
        0
    } else {
        block_alpha(icon, iw, sx0, sx1, sy0, sy - 1) + row_alpha(icon, iw, sy - 1, sx0, sx1)
    }
}

/// The mean source alpha over the block that target pixel (`dx`, `dy`) covers.
pub open spec fn mark_coverage(icon: Seq<u8>, iw: int, ih: int, size: int, dx: int, dy: int) -> int {
    let sx0 = block_start(dx, iw, size);
    let sx1 = block_end(dx, iw, size);
    let sy0 = block_start(dy, ih, size);
    let sy1 = block_end(dy, ih, size);
    block_alpha(icon, iw, sx0, sx1, sy0, sy1) / ((sy1 - sy0) * (sx1 - sx0))
}

/// Target pixel (`qx`, `qy`) lies in the drawn square, clipped to the buffer.
pub open spec fn in_mark(qx: int, qy: int, x: u32, y: u32, size: u32, width: u32, height: u32) -> bool {
    x <= qx < x + min_int(size as int, sat_sub32(width, x) as int) && y <= qy < y + min_int(
        size as int,
        sat_sub32(height, y) as int,
    )
}

proof fn lemma_row_alpha_bound(icon: Seq<u8>, iw: int, sy: int, sx0: int, sx: int)
    ensures
        0 <= row_alpha(icon, iw, sy, sx0, sx) <= 255 * (if sx > sx0 { sx - sx0 } else { 0 }),
    decreases sx - sx0,
{
    if sx > sx0 {
        lemma_row_alpha_bound(icon, iw, sy, sx0, sx - 1);
    }
}

proof fn lemma_block_alpha_bound(icon: Seq<u8>, iw: int, sx0: int, sx1: int, sy0: int, sy: int)
    requires
        sx0 <= sx1,
    ensures
        0 <= block_alpha(icon, iw, sx0, sx1, sy0, sy) <= 255 * (sx1 - sx0) * (if sy > sy0 { sy - sy0 } else { 0 }),
    decreases sy - sy0,
{
    if sy > sy0 {
        lemma_block_alpha_bound(icon, iw, sx0, sx1, sy0, sy - 1);
        lemma_row_alpha_bound(icon, iw, sy - 1, sx0, sx1);
        assert(255 * (sx1 - sx0) * (sy - 1 - sy0) + 255 * (sx1 - sx0) == 255 * (sx1 - sx0) * (sy - sy0)) by (nonlinear_arith);
        if sy - 1 <= sy0 {
            assert(sy - 1 == sy0);
        }
    }
}

proof fn lemma_block_bounds(d: int, n: int, size: int)
    requires
        0 <= d < size,
        n >= 1,
    ensures
        0 <= block_start(d, n, size) < block_end(d, n, size) <= n,
{
    assert(0 <= d * n / size < n) by (nonlinear_arith)
        requires
            0 <= d < size,
            n >= 1,
    {
        assert(d * n < size * n);
        assert(d * n / size <= d * n / size);
        if d * n / size >= n {
            assert(d * n >= (d * n / size) * size - 0) by (nonlinear_arith) requires size > 0, d * n >= 0;
            assert((d * n / size) * size >= n * size) by (nonlinear_arith) requires d * n / size >= n, size > 0;
        }
    }
}

/// The sum of one source row's alpha over `sx0 .. sx1`.
fn sum_row(icon: &[u8], iw: u32, ih: u32, sy: u32, sx0: u32, sx1: u32) -> (r: u32)
    requires
        icon@.len() == iw * ih * 4,
        iw * ih * 255 <= u32::MAX,
        sy < ih,
        sx0 <= sx1 <= iw,
    ensures
        r == row_alpha(icon@, iw as int, sy as int, sx0 as int, sx1 as int),
{
    let mut sum: u32 = 0;
    let mut sx = sx0;
    while sx < sx1
        invariant
            icon@.len() == iw * ih * 4,
            iw * ih * 255 <= u32::MAX,
            sy < ih,
            sx0 <= sx <= sx1 <= iw,
            sum == row_alpha(icon@, iw as int, sy as int, sx0 as int, sx as int),
        decreases sx1 - sx,
    {
        proof {
            lemma_row_alpha_bound(icon@, iw as int, sy as int, sx0 as int, sx as int);
            lemma_pixel_in_buffer(iw as int, ih as int, sx as int, sy as int, 3);
            assert(255 * (sx - sx0) + 255 <= iw * ih * 255) by (nonlinear_arith)
                requires
                    sx < iw,
                    sy < ih,
                    sx0 <= sx,
            {
                assert(iw <= iw * ih);
            }
        }
        let index = ((sy * iw + sx) * 4 + 3) as usize;
        sum = sum + icon[index] as u32;
        sx = sx + 1;
    }
    sum
}

/// Draws the brand mark: the alpha of the `icon_width` x `icon_height` RGBA
/// `icon`, scaled by area averaging to a `size` square at (`x`, `y`), as a white
/// template mask.
pub fn draw_brand_mark(
    rgba: &mut [u8],
    width: u32,
    height: u32,
    x: u32,
    y: u32,
    size: u32,
    icon: &[u8],
    icon_width: u32,
    icon_height: u32,
)
    requires
        canvas(old(rgba)@, width, height),
        icon@.len() == icon_width * icon_height * 4,
        icon_width >= 1,
        icon_height >= 1,
        icon_width * icon_height * 255 <= u32::MAX,
        size * icon_width <= u32::MAX - icon_width,
        size * icon_height <= u32::MAX - icon_height,
    ensures
        final(rgba)@.len() == old(rgba)@.len(),
        forall|qx: int, qy: int, c: int|
            on_canvas(width as int, height as int, qx, qy, c) ==> #[trigger] final(rgba)@[pixel_at(
                width as int,
                qx,
                qy,
                c,
            )] == if size > 0 && in_mark(qx, qy, x, y, size, width, height) && ({
                let cov = mark_coverage(icon@, icon_width as int, icon_height as int, size as int, qx - x, qy - y);
                cov > 0 && cov >= old(rgba)@[pixel_at(width as int, qx, qy, 3)]
            }) {
                channel((255, 255, 255), mark_coverage(icon@, icon_width as int, icon_height as int, size as int, qx - x, qy - y) as u8, c)
            } else {
                old(rgba)@[pixel_at(width as int, qx, qy, c)]
            },
{
    if size == 0 {
        return;
    }
    let rows = if height >= y {
        let room = height - y;
        if size < room {
            size
        } else {
            room
        }
    } else {
        0
    };
    let cols = if width >= x {
        let room = width - x;
        if size < room {
            size
        } else {
            room
        }
    } else {
        0
    };
    let ghost start = rgba@;
    let mut dy: u32 = 0;
    while dy < rows
        invariant
            canvas(rgba@, width, height),
            rgba@.len() == start.len(),
            start == old(rgba)@,
            size > 0,
            dy <= rows,
            rows as int == min_int(size as int, sat_sub32(height, y) as int),
            cols as int == min_int(size as int, sat_sub32(width, x) as int),
            icon@.len() == icon_width * icon_height * 4,
            icon_width >= 1,
            icon_height >= 1,
            icon_width * icon_height * 255 <= u32::MAX,
            size * icon_width <= u32::MAX - icon_width,
            size * icon_height <= u32::MAX - icon_height,
            forall|qx: int, qy: int, c: int|
                on_canvas(width as int, height as int, qx, qy, c) ==> #[trigger] rgba@[pixel_at(
                    width as int,
                    qx,
                    qy,
                    c,
                )] == if in_mark(qx, qy, x, y, size, width, height) && qy < y + dy && ({
                    let cov = mark_coverage(icon@, icon_width as int, icon_height as int, size as int, qx - x, qy - y);
                    cov > 0 && cov >= start[pixel_at(width as int, qx, qy, 3)]
                }) {
                    channel((255, 255, 255), mark_coverage(icon@, icon_width as int, icon_height as int, size as int, qx - x, qy - y) as u8, c)
                } else {
                    start[pixel_at(width as int, qx, qy, c)]
                },
        decreases rows - dy,
    {
        proof {
            lemma_block_bounds(dy as int, icon_height as int, size as int);
        }
        assert(dy * icon_height <= size * icon_height) by (nonlinear_arith)
            requires
                dy < size,
        ;
        assert((dy + 1) * icon_height <= size * icon_height + icon_height) by (nonlinear_arith)
            requires
                dy < size,
        ;
        let sy0 = dy * icon_height / size;
        let e = (dy + 1) * icon_height / size;
        let lo = sy0 + 1;
        let m = if e > lo {
            e
        } else {
            lo
        };
        let sy1 = if m < icon_height {
            m
        } else {
            icon_height
        };
        let mut dx: u32 = 0;
        while dx < cols
            invariant
                canvas(rgba@, width, height),
                rgba@.len() == start.len(),
                size > 0,
                dy < rows,
                dx <= cols,
                rows as int == min_int(size as int, sat_sub32(height, y) as int),
                cols as int == min_int(size as int, sat_sub32(width, x) as int),
                icon@.len() == icon_width * icon_height * 4,
                icon_width >= 1,
                icon_height >= 1,
                icon_width * icon_height * 255 <= u32::MAX,
                size * icon_width <= u32::MAX - icon_width,
                size * icon_height <= u32::MAX - icon_height,
                sy0 == block_start(dy as int, icon_height as int, size as int),
                sy1 == block_end(dy as int, icon_height as int, size as int),
                sy0 < sy1 <= icon_height,
                forall|qx: int, qy: int, c: int|
                    on_canvas(width as int, height as int, qx, qy, c) ==> #[trigger] rgba@[pixel_at(
                        width as int,
                        qx,
                        qy,
                        c,
                    )] == if in_mark(qx, qy, x, y, size, width, height) && (qy < y + dy || (qy == y + dy && qx < x + dx)) && ({
                        let cov = mark_coverage(icon@, icon_width as int, icon_height as int, size as int, qx - x, qy - y);
                        cov > 0 && cov >= start[pixel_at(width as int, qx, qy, 3)]
                    }) {
                        channel((255, 255, 255), mark_coverage(icon@, icon_width as int, icon_height as int, size as int, qx - x, qy - y) as u8, c)
                    } else {
                        start[pixel_at(width as int, qx, qy, c)]
                    },
            decreases cols - dx,
        {
            proof {
                lemma_block_bounds(dx as int, icon_width as int, size as int);
            }
            assert(dx * icon_width <= size * icon_width) by (nonlinear_arith)
                requires
                    dx < size,
            ;
            assert((dx + 1) * icon_width <= size * icon_width + icon_width) by (nonlinear_arith)
                requires
                    dx < size,
            ;
            let sx0 = dx * icon_width / size;
            let e = (dx + 1) * icon_width / size;
            let lo = sx0 + 1;
            let m = if e > lo {
                e
            } else {
                lo
            };
            let sx1 = if m < icon_width {
                m
            } else {
                icon_width
            };
            let mut alpha: u32 = 0;
            let mut sy = sy0;
            while sy < sy1
                invariant
                    icon@.len() == icon_width * icon_height * 4,
                    icon_width * icon_height * 255 <= u32::MAX,
                    sy0 <= sy <= sy1 <= icon_height,
                    sx0 < sx1 <= icon_width,
                    alpha == block_alpha(icon@, icon_width as int, sx0 as int, sx1 as int, sy0 as int, sy as int),
                decreases sy1 - sy,
            {
                proof {
                    lemma_block_alpha_bound(icon@, icon_width as int, sx0 as int, sx1 as int, sy0 as int, sy + 1);
                    assert(255 * (sx1 - sx0) * (sy + 1 - sy0) <= icon_width * icon_height * 255) by (nonlinear_arith)
                        requires
                            sx0 < sx1 <= icon_width,
                            sy0 <= sy < sy1 <= icon_height,
                    ;
                }
                let row = sum_row(icon, icon_width, icon_height, sy, sx0, sx1);
                assert(alpha + row == block_alpha(icon@, icon_width as int, sx0 as int, sx1 as int, sy0 as int, sy + 1));
                alpha = alpha + row;
                sy = sy + 1;
            }
            assert((sy1 - sy0) * (sx1 - sx0) <= icon_width * icon_height) by (nonlinear_arith)
                requires
                    sx0 < sx1 <= icon_width,
                    sy0 < sy1 <= icon_height,
            ;
            let area = (sy1 - sy0) * (sx1 - sx0);
            assert(area > 0) by (nonlinear_arith)
                requires
                    area == (sy1 - sy0) * (sx1 - sx0),
                    sx0 < sx1,
                    sy0 < sy1,
            ;
            proof {
                lemma_block_alpha_bound(icon@, icon_width as int, sx0 as int, sx1 as int, sy0 as int, sy1 as int);
                assert(alpha / area <= 255) by (nonlinear_arith)
                    requires
                        alpha <= 255 * (sx1 - sx0) * (sy1 - sy0),
                        area == (sy1 - sy0) * (sx1 - sx0),
                        area > 0,
                ;
            }
            let coverage = (alpha / area) as u8;
            assert(coverage as int == mark_coverage(icon@, icon_width as int, icon_height as int, size as int, dx as int, dy as int));
            assert(width <= 1073741823) by (nonlinear_arith)
                requires
                    width * height * 4 <= u32::MAX,
                    height >= 1,
            ;
            assert(height <= 1073741823) by (nonlinear_arith)
                requires
                    width * height * 4 <= u32::MAX,
                    width >= 1,
            ;
            let px = x + dx;
            let py = y + dy;
            if coverage > 0 {
                let ghost before = rgba@;
                blend_pixel(rgba, width, height, px as i32, py as i32, [255, 255, 255, 255], coverage);
                proof {
                    assert(blend_alpha([255u8, 255, 255, 255], coverage) == coverage) by (nonlinear_arith)
                        requires
                            coverage <= 255,
                    ;
                    assert(before[pixel_at(width as int, px as int, py as int, 3)] == start[pixel_at(width as int, px as int, py as int, 3)]);
                }
            }
            dx = dx + 1;
        }
        dy = dy + 1;
    }
}


/// Drawn at the icon's own size, the mark is the icon's alpha channel pixel for
/// pixel: each target pixel covers exactly one source pixel.
pub proof fn native_size_mark_copies_icon_alpha(icon: Seq<u8>, n: int, dx: int, dy: int)
    requires
        n >= 1,
        0 <= dx < n,
        0 <= dy < n,
    ensures
        mark_coverage(icon, n, n, n, dx, dy) == icon[(dy * n + dx) * 4 + 3] as int,
{
    assert(dx * n / n == dx) by (nonlinear_arith)
        requires
            n >= 1,
    ;
    assert((dx + 1) * n / n == dx + 1) by (nonlinear_arith)
        requires
            n >= 1,
    ;
    assert(dy * n / n == dy) by (nonlinear_arith)
        requires
            n >= 1,
    ;
    assert((dy + 1) * n / n == dy + 1) by (nonlinear_arith)
        requires
            n >= 1,
    ;
    assert(block_start(dx, n, n) == dx);
    assert(block_end(dx, n, n) == dx + 1);
    assert(block_start(dy, n, n) == dy);
    assert(block_end(dy, n, n) == dy + 1);
    assert(row_alpha(icon, n, dy, dx, dx) == 0);
    assert(row_alpha(icon, n, dy, dx, dx + 1) == icon[(dy * n + dx) * 4 + 3] as int);
    assert(block_alpha(icon, n, dx, dx + 1, dy, dy) == 0);
    assert(block_alpha(icon, n, dx, dx + 1, dy, dy + 1) == icon[(dy * n + dx) * 4 + 3] as int);
    assert((dy + 1 - dy) * (dx + 1 - dx) == 1) by (nonlinear_arith);
    let a = block_alpha(icon, n, dx, dx + 1, dy, dy + 1);
    assert(a / 1 == a);
}


/// Width of the pixel tray icon: the mark, the arrows and the wider of the two
/// rate texts at scale 2, kept between 90 and 119 pixels.
pub open spec fn canvas_width(upload: Seq<char>, download: Seq<char>) -> u32 {
    let a = text_width(upload, 2);
    let b = text_width(download, 2);
    let w = 36 + (if a > b { a } else { b }) + 3;
    if w < 90 {
        90
    } else if w > 119 {
        119
    } else {
        w as u32
    }
}

pub fn tray_canvas_width(upload: &str, download: &str) -> (r: u32)
    requires
        text_width(upload@, 2) + 39 <= u32::MAX,
        text_width(download@, 2) + 39 <= u32::MAX,
    ensures
        r == canvas_width(upload@, download@),
{
    let a = pixel_text_width(upload, 2);
    let b = pixel_text_width(download, 2);
    let widest = if a > b {
        a
    } else {
        b
    };
    let w = 36 + widest + 3;
    if w < 90 {
        90
    } else if w > 119 {
        119
    } else {
        w
    }
}

} // verus!
