//! The pixel footprints of the drawing primitives, and what holds of them.
use vstd::arithmetic::div_mod::lemma_fundamental_div_mod_converse;
use vstd::prelude::*;

use crate::bits::bit_of;
use crate::framebuffer::{
    in_panel, lemma_rows_from_pixels, lemma_with_pixel, pixel_at, shaped, with_pixel,
};
use crate::graphics::Vect2D;

verus! {

/// `after` is `before` with exactly the pixels of `shape` set to `color`.
pub open spec fn painted(
    before: Seq<Seq<u8>>,
    after: Seq<Seq<u8>>,
    width: int,
    height: int,
    shape: spec_fn(int, int) -> bool,
    color: bool,
) -> bool {
    &&& shaped(after, width, height)
    &&& forall|px: int, py: int|
        in_panel(width, height, px, py) ==> #[trigger] pixel_at(after, px, py) == if shape(px, py) {
            color
        } else {
            pixel_at(before, px, py)
        }
}

/// The `len` pixels of line `c.y` from column `c.x` rightwards.
pub open spec fn on_hline(c: Vect2D, len: int) -> spec_fn(int, int) -> bool {
    |px: int, py: int| py == c.y && c.x <= px < c.x + len
}

/// The `height` pixels of column `c.x` from line `c.y` downwards.
pub open spec fn on_vline(c: Vect2D, height: int) -> spec_fn(int, int) -> bool {
    |px: int, py: int| px == c.x && c.y <= py < c.y + height
}

/// A horizontal run fits on the panel.
pub open spec fn hline_fits(width: int, height: int, c: Vect2D, len: int) -> bool {
    c.x < width && c.y < height && c.x + len <= width
}

/// A vertical run fits on the panel.
pub open spec fn vline_fits(width: int, height: int, c: Vect2D, len: int) -> bool {
    c.x < width && c.y < height && c.y + len <= height
}

/// The outline of the rectangle with opposite corners `c1` and `c2`, both included.
pub open spec fn on_outline(c1: Vect2D, c2: Vect2D) -> spec_fn(int, int) -> bool {
    |px: int, py: int|
        {
            let (x0, x1) = if c1.x <= c2.x { (c1.x as int, c2.x as int) } else { (c2.x as int, c1.x as int) };
            let (y0, y1) = if c1.y <= c2.y { (c1.y as int, c2.y as int) } else { (c2.y as int, c1.y as int) };
            ||| (py == y0 || py == y1) && x0 <= px <= x1
            ||| (px == x0 || px == x1) && y0 <= py <= y1
        }
}

/// The half-open box from the lesser to the greater coordinates of `c1` and `c2`.
pub open spec fn in_box(c1: Vect2D, c2: Vect2D) -> spec_fn(int, int) -> bool {
    |px: int, py: int|
        {
            let (x0, x1) = if c1.x <= c2.x { (c1.x as int, c2.x as int) } else { (c2.x as int, c1.x as int) };
            let (y0, y1) = if c1.y <= c2.y { (c1.y as int, c2.y as int) } else { (c2.y as int, c1.y as int) };
            x0 <= px < x1 && y0 <= py < y1
        }
}

/// The union of two footprints.
pub open spec fn either(a: spec_fn(int, int) -> bool, b: spec_fn(int, int) -> bool) -> spec_fn(int, int) -> bool {
    |px: int, py: int| a(px, py) || b(px, py)
}

/// The top, bottom, left and right edges that `draw_rectangle` draws: full-width
/// runs on the top and bottom lines, and the side columns strictly between them.
pub open spec fn rect_edges(c1: Vect2D, c2: Vect2D) -> spec_fn(int, int) -> bool {
    let x0 = if c1.x <= c2.x { c1.x } else { c2.x };
    let x1 = if c1.x <= c2.x { c2.x } else { c1.x };
    let y0 = if c1.y <= c2.y { c1.y } else { c2.y };
    let y1 = if c1.y <= c2.y { c2.y } else { c1.y };
    let side = if y1 > y0 + 1 { y1 - y0 - 1 } else { 0 };
    either(
        either(
            on_hline(Vect2D { x: x0, y: y0 }, x1 - x0 + 1),
            on_hline(Vect2D { x: x0, y: y1 }, x1 - x0 + 1),
        ),
        either(
            on_vline(Vect2D { x: x0, y: (y0 + 1) as u16 }, side),
            on_vline(Vect2D { x: x1, y: (y0 + 1) as u16 }, side),
        ),
    )
}

/// Painting `a` and then `b` paints their union, the later color winning.
pub proof fn lemma_painted_then(
    r0: Seq<Seq<u8>>,
    r1: Seq<Seq<u8>>,
    r2: Seq<Seq<u8>>,
    width: int,
    height: int,
    a: spec_fn(int, int) -> bool,
    b: spec_fn(int, int) -> bool,
    color: bool,
)
    requires
        painted(r0, r1, width, height, a, color),
        painted(r1, r2, width, height, b, color),
    ensures
        painted(r0, r2, width, height, either(a, b), color),
{
    assert forall|px: int, py: int| in_panel(width, height, px, py) implies #[trigger] pixel_at(r2, px, py)
        == if (either(a, b))(px, py) {
        color
    } else {
        pixel_at(r0, px, py)
    } by {
        assert(pixel_at(r1, px, py) == if a(px, py) { color } else { pixel_at(r0, px, py) });
    }
}

/// Painting a footprint determines the result: two results of one painting agree.
pub proof fn lemma_painted_unique(
    before: Seq<Seq<u8>>,
    a: Seq<Seq<u8>>,
    b: Seq<Seq<u8>>,
    width: int,
    height: int,
    shape: spec_fn(int, int) -> bool,
    color: bool,
)
    requires
        painted(before, a, width, height, shape, color),
        painted(before, b, width, height, shape, color),
    ensures
        a == b,
{
    assert forall|x: int, y: int| in_panel(width, height, x, y) implies #[trigger] pixel_at(a, x, y)
        == pixel_at(b, x, y) by {
        assert(pixel_at(a, x, y) == if shape(x, y) { color } else { pixel_at(before, x, y) });
        assert(pixel_at(b, x, y) == if shape(x, y) { color } else { pixel_at(before, x, y) });
    }
    lemma_rows_from_pixels(a, b, width, height);
}

/// The distance between two integers.
pub open spec fn abs_diff(a: int, b: int) -> int {
    if a <= b {
        b - a
    } else {
        a - b
    }
}

/// A line is steep when it spans more lines than columns; it then steps along `y`.
pub open spec fn is_steep(c1: Vect2D, c2: Vect2D) -> bool {
    abs_diff(c1.y as int, c2.y as int) > abs_diff(c1.x as int, c2.x as int)
}

/// The coordinate a line steps along.
pub open spec fn major(c: Vect2D, steep: bool) -> int {
    if steep {
        c.y as int
    } else {
        c.x as int
    }
}

/// The coordinate a line moves on by the error term.
pub open spec fn minor(c: Vect2D, steep: bool) -> int {
    if steep {
        c.x as int
    } else {
        c.y as int
    }
}

/// The endpoint a line is drawn from: the lesser on the major axis, `c1` on a tie.
pub open spec fn line_start(c1: Vect2D, c2: Vect2D) -> Vect2D {
    if major(c1, is_steep(c1, c2)) <= major(c2, is_steep(c1, c2)) {
        c1
    } else {
        c2
    }
}

/// The endpoint a line is drawn to.
pub open spec fn line_end(c1: Vect2D, c2: Vect2D) -> Vect2D {
    if major(c1, is_steep(c1, c2)) <= major(c2, is_steep(c1, c2)) {
        c2
    } else {
        c1
    }
}

/// The number of major-axis steps of a line.
pub open spec fn line_run(c1: Vect2D, c2: Vect2D) -> int {
    major(line_end(c1, c2), is_steep(c1, c2)) - major(line_start(c1, c2), is_steep(c1, c2))
}

/// Minor-axis steps taken after `k` of `dx` major-axis steps over a minor span of
/// `dy`, with the error term starting at `dx / 2`: the least `s` with
/// `dx / 2 - k * dy + s * dx >= 0`.
pub open spec fn minor_steps(k: int, dx: int, dy: int) -> int {
    if dx == 0 {
        0
    } else {
        (k * dy + dx - 1 - dx / 2) / dx
    }
}

/// The first `n` pixels of the Bresenham line from `c1` to `c2`, along the major axis.
pub open spec fn line_prefix(c1: Vect2D, c2: Vect2D, n: int) -> spec_fn(int, int) -> bool {
    |px: int, py: int|
        {
            let st = is_steep(c1, c2);
            let s = line_start(c1, c2);
            let e = line_end(c1, c2);
            let dx = major(e, st) - major(s, st);
            let dy = abs_diff(minor(s, st), minor(e, st));
            let pa = if st { py } else { px };
            let pb = if st { px } else { py };
            let k = pa - major(s, st);
            &&& 0 <= k < n
            &&& pb == if minor(s, st) <= minor(e, st) {
                minor(s, st) + minor_steps(k, dx, dy)
            } else {
                minor(s, st) - minor_steps(k, dx, dy)
            }
        }
}

/// The pixels of the Bresenham line from `c1` to `c2`, both endpoints included.
pub open spec fn on_line(c1: Vect2D, c2: Vect2D) -> spec_fn(int, int) -> bool {
    line_prefix(c1, c2, line_run(c1, c2) + 1)
}

/// The error term of Bresenham's algorithm pins the minor-axis steps taken.
pub proof fn lemma_minor_steps(k: int, dx: int, dy: int, s: int, err: int)
    requires
        0 < dx,
        0 <= dy <= dx,
        0 <= k <= dx,
        err == dx / 2 - k * dy + s * dx,
        0 <= err < dx,
    ensures
        s == minor_steps(k, dx, dy),
        0 <= s <= dy,
{
    let a = k * dy + dx - 1 - dx / 2;
    assert(a == s * dx + (dx - 1 - err)) by (nonlinear_arith)
        requires
            err == dx / 2 - k * dy + s * dx,
            a == k * dy + dx - 1 - dx / 2,
    ;
    lemma_fundamental_div_mod_converse(a, dx, s, dx - 1 - err);
    assert(0 <= s) by (nonlinear_arith)
        requires
            err == dx / 2 - k * dy + s * dx,
            0 <= k,
            0 <= dy,
            0 < dx,
            0 <= dx / 2 < dx,
            0 <= err,
    {
        if s < 0 {
            assert(s * dx <= -dx);
        }
    }
    assert(s <= dy) by (nonlinear_arith)
        requires
            err == dx / 2 - k * dy + s * dx,
            0 <= k <= dx,
            0 <= dy,
            0 < dx,
            0 <= dx / 2,
            err < dx,
    {
        if s > dy {
            assert(s * dx >= (dy + 1) * dx);
            assert(k * dy <= dx * dy);
        }
    }
}

/// The 6-by-8 cell of a glyph whose top-left pixel is `c`: five glyph columns and
/// a spacing column.
pub open spec fn in_cell(c: Vect2D, px: int, py: int) -> bool {
    c.x <= px < c.x + 6 && c.y <= py < c.y + 8
}

/// The five column bytes of character `code` in a font table.
pub open spec fn glyph_of(font: Seq<u8>, code: int) -> Seq<u8> {
    font.subrange(5 * code, 5 * code + 5)
}

/// Pixel `(i, j)` of a glyph cell: `color` where the glyph's column `i` has bit
/// `j` set, the inverse elsewhere, the spacing column included.
pub open spec fn glyph_pixel(glyph: Seq<u8>, i: int, j: int, color: bool) -> bool {
    if i < 5 && bit_of(glyph[i], j) {
        color
    } else {
        !color
    }
}

/// `after` is `before` with the first `n` pixels of the glyph cell at `c` drawn,
/// column by column, top down.
pub open spec fn glyph_drawn_upto(
    before: Seq<Seq<u8>>,
    after: Seq<Seq<u8>>,
    width: int,
    height: int,
    c: Vect2D,
    glyph: Seq<u8>,
    color: bool,
    n: int,
) -> bool {
    &&& shaped(after, width, height)
    &&& forall|px: int, py: int|
        in_panel(width, height, px, py) ==> #[trigger] pixel_at(after, px, py) == if in_cell(c, px, py)
            && (px - c.x) * 8 + (py - c.y) < n {
            glyph_pixel(glyph, px - c.x, py - c.y, color)
        } else {
            pixel_at(before, px, py)
        }
}

/// `after` is `before` with the whole glyph cell at `c` drawn.
pub open spec fn glyph_drawn(
    before: Seq<Seq<u8>>,
    after: Seq<Seq<u8>>,
    width: int,
    height: int,
    c: Vect2D,
    glyph: Seq<u8>,
    color: bool,
) -> bool {
    glyph_drawn_upto(before, after, width, height, c, glyph, color, 48)
}

/// The byte a texture places at byte `b` of line `y`, when its rows start on line
/// `top` and at byte `col`; `None` where it places none.
pub open spec fn texture_byte(texture: Seq<Seq<u8>>, top: int, col: int, y: int, b: int) -> Option<u8> {
    if top <= y < top + texture.len() && col <= b < col + texture[y - top].len() {
        Some(texture[y - top][b - col])
    } else {
        None
    }
}

/// `after` is `before` with the bytes of the texture rows `0 .. ty`, and the first
/// `tb` bytes of row `ty`, copied in, clipped to the panel.
pub open spec fn textured_upto(
    before: Seq<Seq<u8>>,
    after: Seq<Seq<u8>>,
    width: int,
    height: int,
    top: int,
    col: int,
    texture: Seq<Seq<u8>>,
    ty: int,
    tb: int,
) -> bool {
    &&& shaped(after, width, height)
    &&& forall|y: int, b: int|
        0 <= y < height && 0 <= b < width / 8 ==> #[trigger] after[y][b] == match texture_byte(
            texture,
            top,
            col,
            y,
            b,
        ) {
            Some(v) => if y - top < ty || (y - top == ty && b - col < tb) {
                v
            } else {
                before[y][b]
            },
            None => before[y][b],
        }
}

/// `after` is `before` with the whole texture copied in, clipped to the panel.
pub open spec fn textured(
    before: Seq<Seq<u8>>,
    after: Seq<Seq<u8>>,
    width: int,
    height: int,
    top: int,
    col: int,
    texture: Seq<Seq<u8>>,
) -> bool {
    &&& shaped(after, width, height)
    &&& forall|y: int, b: int|
        0 <= y < height && 0 <= b < width / 8 ==> #[trigger] after[y][b] == match texture_byte(
            texture,
            top,
            col,
            y,
            b,
        ) {
            Some(v) => v,
            None => before[y][b],
        }
}

/// `rows` after `set_pixel` on `(x, y)`, `(x + 1, y)`, ... for `len` pixels, in order.
pub open spec fn set_pixel_run(rows: Seq<Seq<u8>>, x: int, y: int, len: int, color: bool) -> Seq<Seq<u8>>
    decreases len,
{
    if len <= 0 {
        rows
    } else {
        with_pixel(set_pixel_run(rows, x, y, len - 1, color), x + len - 1, y, color)
    }
}

/// `rows` after `set_pixel` on `(x, y)`, `(x, y + 1)`, ... for `len` pixels, in order.
pub open spec fn set_pixel_column(rows: Seq<Seq<u8>>, x: int, y: int, len: int, color: bool) -> Seq<Seq<u8>>
    decreases len,
{
    if len <= 0 {
        rows
    } else {
        with_pixel(set_pixel_column(rows, x, y, len - 1, color), x, y + len - 1, color)
    }
}

proof fn lemma_set_pixel_run_paints(rows: Seq<Seq<u8>>, width: int, height: int, c: Vect2D, n: int, color: bool)
    requires
        shaped(rows, width, height),
        0 <= n,
        c.x + n <= width,
        c.y < height,
    ensures
        painted(
            rows,
            set_pixel_run(rows, c.x as int, c.y as int, n, color),
            width,
            height,
            on_hline(c, n),
            color,
        ),
    decreases n,
{
    if n > 0 {
        lemma_set_pixel_run_paints(rows, width, height, c, n - 1, color);
        let prev = set_pixel_run(rows, c.x as int, c.y as int, n - 1, color);
        lemma_with_pixel(prev, width, height, c.x + n - 1, c.y as int, color);
        assert forall|px: int, py: int| in_panel(width, height, px, py) implies #[trigger] pixel_at(
            set_pixel_run(rows, c.x as int, c.y as int, n, color), px, py)
            == if (on_hline(c, n))(px, py) { color } else { pixel_at(rows, px, py) } by {
            assert(pixel_at(prev, px, py) == if (on_hline(c, n - 1))(px, py) { color } else { pixel_at(rows, px, py) });
        }
    }
}

proof fn lemma_set_pixel_column_paints(rows: Seq<Seq<u8>>, width: int, height: int, c: Vect2D, n: int, color: bool)
    requires
        shaped(rows, width, height),
        0 <= n,
        c.x < width,
        c.y + n <= height,
    ensures
        painted(
            rows,
            set_pixel_column(rows, c.x as int, c.y as int, n, color),
            width,
            height,
            on_vline(c, n),
            color,
        ),
    decreases n,
{
    if n > 0 {
        lemma_set_pixel_column_paints(rows, width, height, c, n - 1, color);
        let prev = set_pixel_column(rows, c.x as int, c.y as int, n - 1, color);
        lemma_with_pixel(prev, width, height, c.x as int, c.y + n - 1, color);
        assert forall|px: int, py: int| in_panel(width, height, px, py) implies #[trigger] pixel_at(
            set_pixel_column(rows, c.x as int, c.y as int, n, color), px, py)
            == if (on_vline(c, n))(px, py) { color } else { pixel_at(rows, px, py) } by {
            assert(pixel_at(prev, px, py) == if (on_vline(c, n - 1))(px, py) { color } else { pixel_at(rows, px, py) });
        }
    }
}

/// A horizontal run drawn by `draw_hline` is the framebuffer that `set_pixel` on
/// each of its pixels in turn gives.
pub proof fn lemma_hline_is_set_pixel_run(
    before: Seq<Seq<u8>>,
    after: Seq<Seq<u8>>,
    width: int,
    height: int,
    c: Vect2D,
    len: u16,
    color: bool,
)
    requires
        shaped(before, width, height),
        hline_fits(width, height, c, len as int),
        painted(before, after, width, height, on_hline(c, len as int), color),
    ensures
        after == set_pixel_run(before, c.x as int, c.y as int, len as int, color),
{
    lemma_set_pixel_run_paints(before, width, height, c, len as int, color);
    lemma_painted_unique(
        before,
        after,
        set_pixel_run(before, c.x as int, c.y as int, len as int, color),
        width,
        height,
        on_hline(c, len as int),
        color,
    );
}

/// A vertical run drawn by `draw_vline` is the framebuffer that `set_pixel` on
/// each of its pixels in turn gives.
pub proof fn lemma_vline_is_set_pixel_column(
    before: Seq<Seq<u8>>,
    after: Seq<Seq<u8>>,
    width: int,
    height: int,
    c: Vect2D,
    len: u16,
    color: bool,
)
    requires
        shaped(before, width, height),
        vline_fits(width, height, c, len as int),
        painted(before, after, width, height, on_vline(c, len as int), color),
    ensures
        after == set_pixel_column(before, c.x as int, c.y as int, len as int, color),
{
    lemma_set_pixel_column_paints(before, width, height, c, len as int, color);
    lemma_painted_unique(
        before,
        after,
        set_pixel_column(before, c.x as int, c.y as int, len as int, color),
        width,
        height,
        on_vline(c, len as int),
        color,
    );
}

/// The outline of a rectangle is the union of its four edges.
pub proof fn lemma_outline_is_edges(c1: Vect2D, c2: Vect2D)
    ensures
        forall|px: int, py: int| #[trigger] (on_outline(c1, c2))(px, py) == (rect_edges(c1, c2))(px, py),
{
}

/// Drawing the same footprint in the same color twice gives what drawing it once
/// gave: a pixel that two edges share ends up the same whichever draws it.
pub proof fn lemma_repaint_idempotent(
    r0: Seq<Seq<u8>>,
    r1: Seq<Seq<u8>>,
    r2: Seq<Seq<u8>>,
    width: int,
    height: int,
    shape: spec_fn(int, int) -> bool,
    color: bool,
)
    requires
        painted(r0, r1, width, height, shape, color),
        painted(r1, r2, width, height, shape, color),
    ensures
        r2 == r1,
{
    assert(painted(r1, r1, width, height, shape, color)) by {
        assert forall|px: int, py: int| in_panel(width, height, px, py) implies #[trigger] pixel_at(r1, px, py)
            == if shape(px, py) { color } else { pixel_at(r1, px, py) } by {}
    }
    lemma_painted_unique(r1, r2, r1, width, height, shape, color);
}

} // verus!
