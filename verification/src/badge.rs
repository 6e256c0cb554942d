//! The tray badge: a red disc with the update count (a digit, or `!` from
//! ten on) drawn into the top right corner of an icon.

use vstd::prelude::*;

verus! {

/// The digit glyphs `0`..`9` and `!` (index 10), 3 pixels wide and 5 high,
/// row by row; 1 is an ink pixel.
pub open spec fn glyph(d: int) -> Seq<u8> {
    if d == 0 {
        seq![1u8, 1, 1, 1, 0, 1, 1, 0, 1, 1, 0, 1, 1, 1, 1]
    } else if d == 1 {
        seq![0u8, 1, 0, 1, 1, 0, 0, 1, 0, 0, 1, 0, 1, 1, 1]
    } else if d == 2 {
        seq![1u8, 1, 1, 0, 0, 1, 1, 1, 1, 1, 0, 0, 1, 1, 1]
    } else if d == 3 {
        seq![1u8, 1, 1, 0, 0, 1, 0, 1, 1, 0, 0, 1, 1, 1, 1]
    } else if d == 4 {
        seq![1u8, 0, 1, 1, 0, 1, 1, 1, 1, 0, 0, 1, 0, 0, 1]
    } else if d == 5 {
        seq![1u8, 1, 1, 1, 0, 0, 1, 1, 1, 0, 0, 1, 1, 1, 1]
    } else if d == 6 {
        seq![1u8, 1, 1, 1, 0, 0, 1, 1, 1, 1, 0, 1, 1, 1, 1]
    } else if d == 7 {
        seq![1u8, 1, 1, 0, 0, 1, 0, 1, 0, 0, 1, 0, 0, 1, 0]
    } else if d == 8 {
        seq![1u8, 1, 1, 1, 0, 1, 1, 1, 1, 1, 0, 1, 1, 1, 1]
    } else if d == 9 {
        seq![1u8, 1, 1, 1, 0, 1, 1, 1, 1, 0, 0, 1, 1, 1, 1]
    } else {
        seq![0u8, 1, 0, 0, 1, 0, 0, 1, 0, 0, 0, 0, 0, 1, 0]
    }
}

/// Whether pixel `k` (row-major) of glyph `d` is ink.
fn glyph_pixel(d: usize, k: usize) -> (b: bool)
    requires
        d <= 10,
        k < 15,
    ensures
        b == (glyph(d as int)[k as int] == 1),
{
    let g: [u8; 15] = if d == 0 {
        [1, 1, 1, 1, 0, 1, 1, 0, 1, 1, 0, 1, 1, 1, 1]
    } else if d == 1 {
        [0, 1, 0, 1, 1, 0, 0, 1, 0, 0, 1, 0, 1, 1, 1]
    } else if d == 2 {
        [1, 1, 1, 0, 0, 1, 1, 1, 1, 1, 0, 0, 1, 1, 1]
    } else if d == 3 {
        [1, 1, 1, 0, 0, 1, 0, 1, 1, 0, 0, 1, 1, 1, 1]
    } else if d == 4 {
        [1, 0, 1, 1, 0, 1, 1, 1, 1, 0, 0, 1, 0, 0, 1]
    } else if d == 5 {
        [1, 1, 1, 1, 0, 0, 1, 1, 1, 0, 0, 1, 1, 1, 1]
    } else if d == 6 {
        [1, 1, 1, 1, 0, 0, 1, 1, 1, 1, 0, 1, 1, 1, 1]
    } else if d == 7 {
        [1, 1, 1, 0, 0, 1, 0, 1, 0, 0, 1, 0, 0, 1, 0]
    } else if d == 8 {
        [1, 1, 1, 1, 0, 1, 1, 1, 1, 1, 0, 1, 1, 1, 1]
    } else if d == 9 {
        [1, 1, 1, 1, 0, 1, 1, 1, 1, 0, 0, 1, 1, 1, 1]
    } else {
        [0, 1, 0, 0, 1, 0, 0, 1, 0, 0, 0, 0, 0, 1, 0]
    };
    assert(g@ =~= glyph(d as int));
    g[k] == 1
}

// ── The canvas ──────────────────────────────────────────────────────────────

/// An RGBA image as rows of `(r, g, b, a)` pixels, each `width` long.
#[derive(Debug, Clone)]
pub struct Canvas {
    pub width: u32,
    pub rows: Vec<Vec<(u8, u8, u8, u8)>>,
}

pub open spec fn grid_of(rows: Seq<Vec<(u8, u8, u8, u8)>>) -> Seq<Seq<(u8, u8, u8, u8)>> {
    rows.map_values(|r: Vec<(u8, u8, u8, u8)>| r@)
}

impl Canvas {
    pub open spec fn grid(&self) -> Seq<Seq<(u8, u8, u8, u8)>> {
        grid_of(self.rows@)
    }

    pub open spec fn wf(&self) -> bool {
        &&& self.rows@.len() <= u32::MAX
        &&& forall|y: int| 0 <= y < self.rows@.len() ==> (#[trigger] self.rows@[y])@.len() == self.width
    }
}

/// Pixel `i` of a flat RGBA buffer.
pub open spec fn pixel_at(s: Seq<u8>, i: int) -> (u8, u8, u8, u8) {
    (s[4 * i], s[4 * i + 1], s[4 * i + 2], s[4 * i + 3])
}

/// A flat RGBA buffer as `h` rows of `w` pixels.
pub open spec fn rgba_grid(s: Seq<u8>, w: int, h: int) -> Seq<Seq<(u8, u8, u8, u8)>> {
    Seq::new(h as nat, |y: int| Seq::new(w as nat, |x: int| pixel_at(s, y * w + x)))
}

proof fn lemma_cell_index(y: int, x: int, w: int, h: int)
    by (nonlinear_arith)
    requires
        0 <= y < h,
        0 <= x < w,
    ensures
        0 <= y * w + x,
        y * w + x < w * h,
        y * w + w == (y + 1) * w,
{
}

/// The canvas of a flat RGBA buffer of `width` × `height` pixels; `None`
/// when the buffer does not hold exactly that many pixels.
pub fn canvas_from_rgba(width: u32, height: u32, rgba: &Vec<u8>) -> (r: Option<Canvas>)
    ensures
        rgba@.len() != 4 * (width * height) ==> r is None,
        rgba@.len() == 4 * (width * height) ==> (r matches Some(c) && c.wf() && c.width == width
            && c.grid() == rgba_grid(rgba@, width as int, height as int)),
{
    proof {
        assert((width as u64) * (height as u64) <= 0xffff_ffff_ffff_ffff) by (nonlinear_arith)
            requires
                width <= 0xffff_ffff,
                height <= 0xffff_ffff,
        ;
    }
    let cells = (width as u64) * (height as u64);
    let n = rgba.len();
    let total = match cells.checked_mul(4) {
        Some(t) => t,
        None => {
            assert(n <= 0xffff_ffff_ffff_ffffu64);
            return None;
        },
    };
    if total != rgba.len() as u64 {
        return None;
    }
    let ghost s = rgba@;
    let ghost w = width as int;
    let ghost h = height as int;
    let mut rows: Vec<Vec<(u8, u8, u8, u8)>> = Vec::new();
    let mut off: usize = 0;
    let mut y: u32 = 0;
    while y < height
        invariant
            y <= height,
            s == rgba@,
            w == width,
            h == height,
            s.len() == 4 * (w * h),
            s.len() <= usize::MAX,
            rows@.len() == y,
            off == 4 * (y * w),
            forall|yy: int| 0 <= yy < y ==> (#[trigger] rows@[yy])@ == rgba_grid(s, w, h)[yy],
        decreases height - y,
    {
        let mut row: Vec<(u8, u8, u8, u8)> = Vec::new();
        let mut x: u32 = 0;
        while x < width
            invariant
                y < height,
                x <= width,
                s == rgba@,
                w == width,
                h == height,
                s.len() == 4 * (w * h),
                s.len() <= usize::MAX,
                off == 4 * (y * w + x),
                row@ == Seq::new(x as nat, |xx: int| pixel_at(s, y * w + xx)),
            decreases width - x,
        {
            proof {
                lemma_cell_index(y as int, x as int, w, h);
            }
            row.push((rgba[off], rgba[off + 1], rgba[off + 2], rgba[off + 3]));
            off = off + 4;
            x = x + 1;
            assert(row@ =~= Seq::new(x as nat, |xx: int| pixel_at(s, y * w + xx)));
        }
        proof {
            if w > 0 {
                lemma_cell_index(y as int, 0, w, h);
            } else {
                assert(y * w == 0 && (y + 1) * w == 0) by (nonlinear_arith)
                    requires
                        w == 0,
                ;
            }
        }
        assert(row@ =~= rgba_grid(s, w, h)[y as int]);
        rows.push(row);
        y = y + 1;
    }
    let c = Canvas { width, rows };
    assert(c.grid() =~= rgba_grid(s, w, h));
    Some(c)
}

// ── The disc ────────────────────────────────────────────────────────────────

/// Whether `(x, y)` is on the disc of radius `r` around `(cx, cy)`, its
/// offsets taken within `-r..=r` on both axes.
pub open spec fn in_disc(x: int, y: int, cx: int, cy: int, r: int) -> bool {
    let dx = x - cx;
    let dy = y - cy;
    -r <= dx <= r && -r <= dy <= r && dx * dx + dy * dy <= r * r
}

pub open spec fn disc_row_spec(
    row: Seq<(u8, u8, u8, u8)>,
    y: int,
    cx: int,
    cy: int,
    r: int,
    color: (u8, u8, u8, u8),
) -> Seq<(u8, u8, u8, u8)> {
    Seq::new(row.len(), |x: int| if in_disc(x, y, cx, cy, r) { color } else { row[x] })
}

/// The grid with the disc painted in `color`.
pub open spec fn disc_painted(
    g: Seq<Seq<(u8, u8, u8, u8)>>,
    cx: int,
    cy: int,
    r: int,
    color: (u8, u8, u8, u8),
) -> Seq<Seq<(u8, u8, u8, u8)>> {
    Seq::new(g.len(), |y: int| disc_row_spec(g[y], y, cx, cy, r, color))
}

proof fn lemma_square_bound(a: int, r: int)
    by (nonlinear_arith)
    requires
        -r <= a <= r,
        r <= 32767,
    ensures
        0 <= a * a <= 32767 * 32767,
{
}

fn on_disc(dx: i64, dy: i64, r: i64) -> (b: bool)
    requires
        -32767 <= r <= 32767,
        -0x1_0000_0000_0000 <= dx <= 0x1_0000_0000_0000,
        -0x1_0000_0000_0000 <= dy <= 0x1_0000_0000_0000,
    ensures
        b == (-r <= dx <= r && -r <= dy <= r && dx * dx + dy * dy <= r * r),
{
    if -r <= dx && dx <= r && -r <= dy && dy <= r {
        proof {
            lemma_square_bound(dx as int, r as int);
            lemma_square_bound(dy as int, r as int);
            lemma_square_bound(r as int, 32767);
        }
        dx * dx + dy * dy <= r * r
    } else {
        false
    }
}

fn disc_row(
    old: &Vec<(u8, u8, u8, u8)>,
    y: i64,
    cx: i64,
    cy: i64,
    r: i64,
    color: (u8, u8, u8, u8),
) -> (new: Vec<(u8, u8, u8, u8)>)
    requires
        old@.len() <= u32::MAX,
        0 <= y <= u32::MAX,
        -32767 <= r <= 32767,
        i32::MIN <= cx <= i32::MAX,
        i32::MIN <= cy <= i32::MAX,
    ensures
        new@ == disc_row_spec(old@, y as int, cx as int, cy as int, r as int, color),
{
    let mut new: Vec<(u8, u8, u8, u8)> = Vec::new();
    let mut x: usize = 0;
    while x < old.len()
        invariant
            x <= old@.len(),
            old@.len() <= u32::MAX,
            0 <= y <= u32::MAX,
            -32767 <= r <= 32767,
            i32::MIN <= cx <= i32::MAX,
            i32::MIN <= cy <= i32::MAX,
            new@ == disc_row_spec(old@, y as int, cx as int, cy as int, r as int, color).subrange(
                0,
                x as int,
            ),
        decreases old@.len() - x,
    {
        let inside = on_disc(x as i64 - cx, y - cy, r);
        if inside {
            new.push(color);
        } else {
            new.push(old[x]);
        }
        x = x + 1;
        assert(new@ =~= disc_row_spec(old@, y as int, cx as int, cy as int, r as int, color).subrange(
            0,
            x as int,
        ));
    }
    assert(new@ =~= disc_row_spec(old@, y as int, cx as int, cy as int, r as int, color));
    new
}

/// Paint the disc of radius `r` around `(cx, cy)` in `color`, within the
/// canvas.
pub fn fill_circle(c: &mut Canvas, cx: i32, cy: i32, r: i32, color: (u8, u8, u8, u8))
    requires
        old(c).wf(),
        -32767 <= r <= 32767,
        r >= 0 ==> i32::MIN <= cx - r && cx + r <= i32::MAX && i32::MIN <= cy - r && cy + r
            <= i32::MAX,
    ensures
        final(c).wf(),
        final(c).width == old(c).width,
        final(c).grid() == disc_painted(old(c).grid(), cx as int, cy as int, r as int, color),
{
    let ghost g0 = c.grid();
    let h: i64 = c.rows.len() as i64;
    let ylo: i64 = if (cy as i64) - (r as i64) > 0 {
        (cy as i64) - (r as i64)
    } else {
        0
    };
    let yhi: i64 = if (cy as i64) + (r as i64) + 1 < h {
        (cy as i64) + (r as i64) + 1
    } else {
        h
    };
    let mut y: i64 = ylo;
    while y < yhi
        invariant
            c.wf(),
            c.width == old(c).width,
            g0 == old(c).grid(),
            h == g0.len(),
            c.rows@.len() == g0.len(),
            0 <= ylo <= y,
            y <= yhi || yhi < ylo,
            yhi <= h,
            -32767 <= r <= 32767,
            c.grid() == Seq::new(
                g0.len(),
                |yy: int|
                    if ylo <= yy < y {
                        disc_row_spec(g0[yy], yy, cx as int, cy as int, r as int, color)
                    } else {
                        g0[yy]
                    },
            ),
        decreases yhi - y,
    {
        assert(c.rows@[y as int]@ == c.grid()[y as int]);
        assert(c.grid()[y as int] == g0[y as int]);
        let ghost prev = c.grid();
        let new_row = disc_row(&c.rows[y as usize], y, cx as i64, cy as i64, r as i64, color);
        let ghost nv = new_row@;
        c.rows.set(y as usize, new_row);
        assert(c.grid() =~= prev.update(y as int, nv));
        y = y + 1;
        assert(c.grid() =~= Seq::new(
            g0.len(),
            |yy: int|
                if ylo <= yy < y {
                    disc_row_spec(g0[yy], yy, cx as int, cy as int, r as int, color)
                } else {
                    g0[yy]
                },
        ));
    }
    assert forall|yy: int| 0 <= yy < g0.len() && !(ylo <= yy < y) implies disc_row_spec(
        g0[yy],
        yy,
        cx as int,
        cy as int,
        r as int,
        color,
    ) =~= g0[yy] by {}
    assert(c.grid() =~= disc_painted(g0, cx as int, cy as int, r as int, color));
}

// ── The digit ───────────────────────────────────────────────────────────────

/// Whether glyph `d` has ink at `row`, `col`.
pub open spec fn glyph_on(d: int, row: int, col: int) -> bool {
    0 <= row < 5 && 0 <= col < 3 && glyph(d)[row * 3 + col] == 1
}

pub open spec fn digit_row_spec(
    old: Seq<(u8, u8, u8, u8)>,
    d: int,
    row: int,
    cx: int,
    color: (u8, u8, u8, u8),
) -> Seq<(u8, u8, u8, u8)> {
    Seq::new(old.len(), |x: int| if glyph_on(d, row, x - cx + 1) { color } else { old[x] })
}

/// The grid with glyph `d` drawn in `color`, its middle pixel at `(cx, cy)`.
pub open spec fn digit_painted(
    g: Seq<Seq<(u8, u8, u8, u8)>>,
    d: int,
    cx: int,
    cy: int,
    color: (u8, u8, u8, u8),
) -> Seq<Seq<(u8, u8, u8, u8)>> {
    Seq::new(g.len(), |y: int| digit_row_spec(g[y], d, y - cy + 2, cx, color))
}

fn digit_row(old: &Vec<(u8, u8, u8, u8)>, d: usize, row: usize, cx: i64, color: (u8, u8, u8, u8)) -> (new: Vec<(u8, u8, u8, u8)>)
    requires
        d <= 10,
        row < 5,
        old@.len() <= u32::MAX,
        i32::MIN <= cx <= i32::MAX,
    ensures
        new@ == digit_row_spec(old@, d as int, row as int, cx as int, color),
{
    let mut new: Vec<(u8, u8, u8, u8)> = Vec::new();
    let mut x: usize = 0;
    while x < old.len()
        invariant
            x <= old@.len(),
            d <= 10,
            row < 5,
            old@.len() <= u32::MAX,
            i32::MIN <= cx <= i32::MAX,
            new@ == digit_row_spec(old@, d as int, row as int, cx as int, color).subrange(0, x as int),
        decreases old@.len() - x,
    {
        let col: i64 = x as i64 - cx + 1;
        let ink = if 0 <= col && col < 3 {
            glyph_pixel(d, row * 3 + col as usize)
        } else {
            false
        };
        if ink {
            new.push(color);
        } else {
            new.push(old[x]);
        }
        x = x + 1;
        assert(new@ =~= digit_row_spec(old@, d as int, row as int, cx as int, color).subrange(0, x as int));
    }
    assert(new@ =~= digit_row_spec(old@, d as int, row as int, cx as int, color));
    new
}

/// Draw glyph `digit_idx` (at most 10, `!`) with its middle pixel at
/// `(cx, cy)`, within the canvas.
pub fn draw_digit(c: &mut Canvas, digit_idx: usize, cx: i32, cy: i32, color: (u8, u8, u8, u8))
    requires
        old(c).wf(),
        i32::MIN <= cx - 1,
        cx + 1 <= i32::MAX,
        i32::MIN <= cy - 2,
        cy + 2 <= i32::MAX,
    ensures
        final(c).wf(),
        final(c).width == old(c).width,
        final(c).grid() == digit_painted(
            old(c).grid(),
            if digit_idx < 10 { digit_idx as int } else { 10 },
            cx as int,
            cy as int,
            color,
        ),
{
    let d: usize = if digit_idx < 10 {
        digit_idx
    } else {
        10
    };
    let ghost g0 = c.grid();
    let h: i64 = c.rows.len() as i64;
    let mut row: usize = 0;
    while row < 5
        invariant
            row <= 5,
            d <= 10,
            c.wf(),
            c.width == old(c).width,
            g0 == old(c).grid(),
            h == g0.len(),
            c.rows@.len() == g0.len(),
            i32::MIN <= cx - 1,
            cx + 1 <= i32::MAX,
            i32::MIN <= cy - 2,
            cy + 2 <= i32::MAX,
            c.grid() == Seq::new(
                g0.len(),
                |yy: int|
                    if 0 <= yy - cy + 2 < row {
                        digit_row_spec(g0[yy], d as int, yy - cy + 2, cx as int, color)
                    } else {
                        g0[yy]
                    },
            ),
        decreases 5 - row,
    {
        let y: i64 = (cy as i64) - 2 + row as i64;
        if 0 <= y && y < h {
            let ghost prev = c.grid();
            assert(c.rows@[y as int]@ == prev[y as int]);
            let new_row = digit_row(&c.rows[y as usize], d, row, cx as i64, color);
            let ghost nv = new_row@;
            c.rows.set(y as usize, new_row);
            assert(c.grid() =~= prev.update(y as int, nv));
        }
        row = row + 1;
        assert(c.grid() =~= Seq::new(
            g0.len(),
            |yy: int|
                if 0 <= yy - cy + 2 < row {
                    digit_row_spec(g0[yy], d as int, yy - cy + 2, cx as int, color)
                } else {
                    g0[yy]
                },
        ));
    }
    assert forall|yy: int| 0 <= yy < g0.len() && !(0 <= yy - cy + 2 < 5) implies digit_row_spec(
        g0[yy],
        d as int,
        yy - cy + 2,
        cx as int,
        color,
    ) =~= g0[yy] by {}
    assert(c.grid() =~= digit_painted(g0, d as int, cx as int, cy as int, color));
}

// ── The icon ────────────────────────────────────────────────────────────────

/// A pixel as ARGB bytes.
pub open spec fn argb(p: (u8, u8, u8, u8)) -> Seq<u8> {
    seq![p.3, p.0, p.1, p.2]
}

pub open spec fn row_bytes(row: Seq<(u8, u8, u8, u8)>) -> Seq<u8>
    decreases row.len(),
{
    if row.len() == 0 {
        Seq::empty()
    } else {
        row_bytes(row.drop_last()) + argb(row.last())
    }
}

/// The pixels of a grid, row by row, as ARGB bytes.
pub open spec fn grid_bytes(g: Seq<Seq<(u8, u8, u8, u8)>>) -> Seq<u8>
    decreases g.len(),
{
    if g.len() == 0 {
        Seq::empty()
    } else {
        grid_bytes(g.drop_last()) + row_bytes(g.last())
    }
}

/// The canvas as ARGB bytes, row by row.
pub fn argb_bytes(c: &Canvas) -> (r: Vec<u8>)
    ensures
        r@ == grid_bytes(c.grid()),
{
    let ghost g = c.grid();
    let mut out: Vec<u8> = Vec::new();
    let mut y: usize = 0;
    while y < c.rows.len()
        invariant
            y <= c.rows@.len(),
            g == c.grid(),
            g.len() == c.rows@.len(),
            out@ == grid_bytes(g.take(y as int)),
        decreases c.rows@.len() - y,
    {
        let row = &c.rows[y];
        let ghost before = out@;
        assert(row@ == g[y as int]);
        let mut x: usize = 0;
        while x < row.len()
            invariant
                x <= row@.len(),
                out@ == before + row_bytes(row@.take(x as int)),
            decreases row@.len() - x,
        {
            let p = row[x];
            out.push(p.3);
            out.push(p.0);
            out.push(p.1);
            out.push(p.2);
            x = x + 1;
            assert(row@.take(x as int).drop_last() =~= row@.take(x - 1));
            assert(out@ =~= before + row_bytes(row@.take(x as int)));
        }
        assert(row@.take(row@.len() as int) =~= row@);
        y = y + 1;
        assert(g.take(y as int).drop_last() =~= g.take(y - 1));
    }
    assert(g.take(g.len() as int) =~= g);
    out
}

/// The badge radius for an icon `w` pixels wide: a fifth of it, at least 4.
pub open spec fn badge_radius(w: int) -> int {
    if w / 5 > 4 {
        w / 5
    } else {
        4
    }
}

/// An icon grid `w` pixels wide with the badge for `count` drawn into it:
/// a red disc in the top right corner and, in white on it, the count's
/// digit (`!` from ten on).
pub open spec fn badge_grid(g: Seq<Seq<(u8, u8, u8, u8)>>, w: int, count: int) -> Seq<
    Seq<(u8, u8, u8, u8)>,
> {
    let r = badge_radius(w);
    let cx = w - r - 1;
    let cy = r + 1;
    digit_painted(
        disc_painted(g, cx, cy, r, (227u8, 57u8, 53u8, 255u8)),
        if count < 10 { count } else { 10 },
        cx,
        cy,
        (255u8, 255u8, 255u8, 255u8),
    )
}

/// The `!` drawn for ten updates or more, 3 × 5 pixels row by row.
pub open spec fn exclamation() -> Seq<u8> {
    seq![0u8, 1, 0, 0, 1, 0, 0, 1, 0, 0, 0, 0, 0, 1, 0]
}

/// The pixel of cell `(row, col)` of the 3 × 5 glyph area of the badge.
pub open spec fn badge_cell(g: Seq<Seq<(u8, u8, u8, u8)>>, w: int, count: int, row: int, col: int) -> (
    u8,
    u8,
    u8,
    u8,
) {
    let r = badge_radius(w);
    badge_grid(g, w, count)[(r + 1) - 2 + row][(w - r - 1) - 1 + col]
}

/// On the glyph area of the badge (inside the red disc), a cell is white
/// where the glyph has ink and red elsewhere: for ten updates or more the
/// glyph is `!`, whatever the count; below ten it is the count's digit.
pub proof fn law_badge_glyph(g: Seq<Seq<(u8, u8, u8, u8)>>, w: int, count: int, row: int, col: int)
    requires
        0 <= row < 5,
        0 <= col < 3,
        0 <= count,
        0 <= (badge_radius(w) + 1) - 2 + row < g.len(),
        0 <= (w - badge_radius(w) - 1) - 1 + col < g[(badge_radius(w) + 1) - 2 + row].len(),
    ensures
        count >= 10 ==> badge_cell(g, w, count, row, col) == if exclamation()[row * 3 + col] == 1 {
            (255u8, 255u8, 255u8, 255u8)
        } else {
            (227u8, 57u8, 53u8, 255u8)
        },
        count < 10 ==> badge_cell(g, w, count, row, col) == if glyph(count)[row * 3 + col] == 1 {
            (255u8, 255u8, 255u8, 255u8)
        } else {
            (227u8, 57u8, 53u8, 255u8)
        },
        count >= 10 ==> badge_grid(g, w, count) == badge_grid(g, w, 10),
{
    let r = badge_radius(w);
    let cx = w - r - 1;
    let cy = r + 1;
    let y = cy - 2 + row;
    let x = cx - 1 + col;
    let dx = x - cx;
    let dy = y - cy;
    assert(r >= 4);
    assert(r * r >= 16) by (nonlinear_arith)
        requires
            r >= 4,
    ;
    assert(dx * dx <= 1) by (nonlinear_arith)
        requires
            -1 <= dx <= 1,
    ;
    assert(dy * dy <= 4) by (nonlinear_arith)
        requires
            -2 <= dy <= 2,
    ;
    assert(in_disc(x, y, cx, cy, r));
    let disc = disc_painted(g, cx, cy, r, (227u8, 57u8, 53u8, 255u8));
    assert(disc[y][x] == (227u8, 57u8, 53u8, 255u8));
    assert(glyph(10) == exclamation());
    assert(y - cy + 2 == row && x - cx + 1 == col);
}

/// The ARGB bytes of a `width` × `height` RGBA icon with the badge for
/// `count` drawn into it; `None` when the buffer does not hold that many
/// pixels.
pub fn badge_from_rgba(width: u32, height: u32, rgba: &Vec<u8>, count: usize) -> (r: Option<Vec<u8>>)
    requires
        width <= 163839,
    ensures
        rgba@.len() != 4 * (width * height) ==> r is None,
        rgba@.len() == 4 * (width * height) ==> (r matches Some(b) && b@ == grid_bytes(
            badge_grid(rgba_grid(rgba@, width as int, height as int), width as int, count as int),
        )),
{
    let mut c = match canvas_from_rgba(width, height, rgba) {
        Some(c) => c,
        None => return None,
    };
    let w: i32 = width as i32;
    let r: i32 = if w / 5 > 4 {
        w / 5
    } else {
        4
    };
    let cx: i32 = w - r - 1;
    let cy: i32 = r + 1;
    fill_circle(&mut c, cx, cy, r, (227, 57, 53, 255));
    let d: usize = if count < 10 {
        count
    } else {
        10
    };
    draw_digit(&mut c, d, cx, cy, (255, 255, 255, 255));
    Some(argb_bytes(&c))
}

/// What `image` decodes a PNG file into: width, height and RGBA bytes.
pub uninterp spec fn png_rgba_of(data: Seq<u8>) -> Option<(u32, u32, Seq<u8>)>;

/// `image::load_from_memory_with_format(data, ImageFormat::Png)` and
/// `to_rgba8`: the decoded width, height and RGBA bytes, `None` when the data
/// do not decode. The contract names the result and claims nothing more of it.
#[verifier::external_body]
fn decode_png_rgba(data: &[u8]) -> (r: Option<(u32, u32, Vec<u8>)>)
    ensures
        match r {
            Some((w, h, px)) => png_rgba_of(data@) == Some((w, h, px@)),
            None => png_rgba_of(data@) is None,
        },
{
    match image::load_from_memory_with_format(data, image::ImageFormat::Png) {
        Ok(img) => {
            let rgba = img.to_rgba8();
            let (w, h) = rgba.dimensions();
            Some((w, h, rgba.into_raw()))
        },
        Err(_) => None,
    }
}

/// The badge icon for `count` drawn into a PNG icon: its width, height and
/// ARGB bytes. `None` when the data do not decode, or when the icon is wider
/// than 163839 pixels (from there the badge's disc arithmetic would leave
/// the 32-bit range).
pub fn badge_icon(png: &[u8], count: usize) -> (r: Option<(u32, u32, Vec<u8>)>)
    ensures
        match png_rgba_of(png@) {
            None => r is None,
            Some((w, h, px)) => if w <= 163839 && px.len() == 4 * (w * h) {
                r matches Some((rw, rh, b)) && rw == w && rh == h && b@ == grid_bytes(
                    badge_grid(rgba_grid(px, w as int, h as int), w as int, count as int),
                )
            } else {
                r is None
            },
        },
{
    let (w, h, px) = match decode_png_rgba(png) {
        Some(d) => d,
        None => return None,
    };
    if w > 163839 {
        return None;
    }
    match badge_from_rgba(w, h, &px, count) {
        Some(b) => Some((w, h, b)),
        None => None,
    }
}

} // verus!
