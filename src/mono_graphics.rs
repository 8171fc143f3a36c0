//! The drawing engine: primitives on a framebuffer, shown through a panel.
use vstd::prelude::*;

use crate::bits::{bit_of, cap_mask, fill_byte, run_mask, shift_mask};
use crate::error::DisplayError;
use crate::framebuffer::{
    in_panel, lemma_mask_pixels, lemma_with_byte, lemma_with_pixel, pixel_at, rows_view, shaped,
    with_pixel, Framebuffer,
};
use crate::graphics::{Draw, Print, SetPixel, Vect2D};
use crate::protocol::{Panel, PanelRequest};
use crate::raster::{
    abs_diff, either, glyph_drawn, glyph_drawn_upto, glyph_of, glyph_pixel, hline_fits, in_box,
    in_cell, is_steep, lemma_minor_steps, lemma_outline_is_edges, lemma_painted_then, line_end,
    line_prefix, line_run, line_start, major, minor, minor_steps, on_hline, on_line, on_outline,
    on_vline, painted, rect_edges, texture_byte, textured, textured_upto, vline_fits,
};

verus! {

/// The set pixel color.
pub const WHITE: bool = true;

/// The clear pixel color.
pub const BLACK: bool = false;

/// A monochrome drawing surface: a framebuffer, the panel that shows it and
/// the font that glyphs are drawn from.
pub struct MonoGraphics<D: Panel> {
    display: D,
    frame: Framebuffer,
    font: Vec<u8>,
}

impl<D: Panel> MonoGraphics<D> {
    /// The packed rows of the framebuffer.
    pub closed spec fn rows(&self) -> Seq<Seq<u8>> {
        self.frame.rows()
    }

    /// The panel width in pixels.
    pub closed spec fn spec_width(&self) -> int {
        self.frame.spec_width()
    }

    /// The panel height in pixels.
    pub closed spec fn spec_height(&self) -> int {
        self.frame.spec_height()
    }

    /// The font table: five column bytes per character code.
    pub closed spec fn font(&self) -> Seq<u8> {
        self.font@
    }

    /// The panel the framebuffer is shown on.
    pub closed spec fn panel(&self) -> D {
        self.display
    }

    /// The framebuffer has the panel's shape.
    pub open spec fn wf(&self) -> bool {
        shaped(self.rows(), self.spec_width(), self.spec_height())
    }

    /// `self` and `other` differ at most in their pixels.
    pub open spec fn same_setup(&self, other: &Self) -> bool {
        &&& self.spec_width() == other.spec_width()
        &&& self.spec_height() == other.spec_height()
        &&& self.font() == other.font()
        &&& self.panel() == other.panel()
    }

    /// A blank (all set) surface of `width` by `height` pixels on `display`, with an
    /// empty font; fails with `InvalidDimensions` unless `width` is a multiple of eight.
    pub fn new(display: D, width: u16, height: u16) -> (r: Result<Self, DisplayError>)
        ensures
            width % 8 != 0 ==> r is Err && r->Err_0 == DisplayError::InvalidDimensions,
            width % 8 == 0 ==> r is Ok,
            r matches Ok(g) ==> {
                &&& g.wf()
                &&& g.spec_width() == width
                &&& g.spec_height() == height
                &&& g.font() == Seq::<u8>::empty()
                &&& g.panel() == display
                &&& forall|x: int, y: int|
                    in_panel(width as int, height as int, x, y) ==> #[trigger] pixel_at(g.rows(), x, y)
            },
    {
        match Framebuffer::new(width, height) {
            Ok(frame) => {
                assert forall|x: int, y: int|
                    in_panel(width as int, height as int, x, y) implies #[trigger] pixel_at(frame.rows(), x, y) by {
                    assert(frame.rows()[y][x / 8] == 0xFF);
                    let k = (x % 8) as u8;
                    assert((0xFFu8 >> k) & 1u8 == 1u8) by (bit_vector)
                        requires k < 8,
                    ;
                }
                Ok(MonoGraphics { display, frame, font: Vec::new() })
            },
            Err(e) => Err(e),
        }
    }

    /// Draws `len` pixels of `color` on line `c.y` from column `c.x` rightwards,
    /// masking the partial bytes at either end and filling the whole bytes between;
    /// fails with `OutOfBounds`, changing nothing, unless the run fits on the panel.
    pub fn draw_hline(&mut self, c: Vect2D, len: u16, color: bool) -> (r: Result<(), DisplayError>)
        requires
            old(self).wf(),
        ensures
            final(self).wf(),
            final(self).same_setup(old(self)),
            hline_fits(old(self).spec_width(), old(self).spec_height(), c, len as int) ==> {
                &&& r is Ok
                &&& painted(
                    old(self).rows(),
                    final(self).rows(),
                    old(self).spec_width(),
                    old(self).spec_height(),
                    on_hline(c, len as int),
                    color,
                )
            },
            !hline_fits(old(self).spec_width(), old(self).spec_height(), c, len as int) ==> {
                &&& r == Err::<(), DisplayError>(DisplayError::OutOfBounds)
                &&& final(self).rows() == old(self).rows()
            },
    {
        let w = self.frame.width();
        let h = self.frame.height();
        if c.x >= w || c.y >= h || len > w - c.x {
            return Err(DisplayError::OutOfBounds);
        }
        let ghost r0 = self.rows();
        let ghost wi = w as int;
        let ghost hi = h as int;
        let ghost y = c.y as int;
        let ghost x = c.x as int;
        let left: u16 = c.x % 8;
        let first: u16 = c.x / 8;
        let end: u16 = c.x + len;
        if len == 0 {
            return Ok(());
        }
        if 8 - left > len {
            let mask = run_mask(left as u8, (left + len) as u8);
            self.frame.mask_byte(c.y, first, mask, color);
            proof {
                lemma_mask_pixels(r0, wi, hi, y, first as int, mask, color);
                assert forall|px: int, py: int| in_panel(wi, hi, px, py) implies #[trigger] pixel_at(
                    self.rows(),
                    px,
                    py,
                ) == if (on_hline(c, len as int))(px, py) {
                    color
                } else {
                    pixel_at(r0, px, py)
                } by {
                    if py == y && px / 8 == first as int {
                        assert(bit_of(mask, px % 8) == (left <= px % 8 < left + len));
                    }
                }
            }
            return Ok(());
        }
        let start: u16 = (c.x + 7) / 8;
        let e8: u16 = end / 8;
        if left != 0 {
            let m = cap_mask(left as u8);
            self.frame.mask_byte(c.y, first, m, color);
            proof {
                lemma_mask_pixels(r0, wi, hi, y, first as int, m, color);
                assert forall|px: int, py: int| in_panel(wi, hi, px, py) && py == y && px / 8
                    == first as int implies bit_of(m, px % 8) == (x <= px < 8 * start) by {}
            }
        }
        let ghost r1 = self.rows();
        assert(forall|px: int, py: int| in_panel(wi, hi, px, py) ==> #[trigger] pixel_at(r1, px, py)
            == if py == y && x <= px < 8 * start {
            color
        } else {
            pixel_at(r0, px, py)
        });
        let right: u16 = end % 8;
        if right != 0 {
            let m = shift_mask(right as u8);
            self.frame.mask_byte(c.y, e8, m, color);
            proof {
                lemma_mask_pixels(r1, wi, hi, y, e8 as int, m, color);
                assert forall|px: int, py: int| in_panel(wi, hi, px, py) && py == y && px / 8
                    == e8 as int implies bit_of(m, px % 8) == (8 * e8 <= px < end) by {}
            }
        }
        let fill = fill_byte(color);
        let mut i: u16 = start;
        while i < e8
            invariant
                self.wf(),
                self.same_setup(old(self)),
                wi == self.spec_width(),
                hi == self.spec_height(),
                start <= i <= e8,
                8 * e8 <= end <= wi,
                x <= 8 * start,
                y < hi,
                y == c.y,
                x == c.x,
                end == x + len,
                forall|k: int| 0 <= k < 8 ==> #[trigger] bit_of(fill, k) == color,
                forall|px: int, py: int|
                    in_panel(wi, hi, px, py) ==> #[trigger] pixel_at(self.rows(), px, py) == if py
                        == y && x <= px < end && (px < 8 * i || px >= 8 * e8) {
                        color
                    } else {
                        pixel_at(r0, px, py)
                    },
            decreases e8 - i,
        {
            let ghost cur = self.rows();
            self.frame.put_byte(c.y, i, fill);
            proof {
                lemma_with_byte(cur, wi, hi, y, i as int, fill);
            }
            i = i + 1;
        }
        Ok(())
    }
    /// Draws `height` pixels of `color` in column `c.x` from line `c.y` downwards, one
    /// bit per line; fails with `OutOfBounds`, changing nothing, unless the run fits
    /// within the panel's height.
    pub fn draw_vline(&mut self, c: Vect2D, height: u16, color: bool) -> (r: Result<(), DisplayError>)
        requires
            old(self).wf(),
        ensures
            final(self).wf(),
            final(self).same_setup(old(self)),
            vline_fits(old(self).spec_width(), old(self).spec_height(), c, height as int) ==> {
                &&& r is Ok
                &&& painted(
                    old(self).rows(),
                    final(self).rows(),
                    old(self).spec_width(),
                    old(self).spec_height(),
                    on_vline(c, height as int),
                    color,
                )
            },
            !vline_fits(old(self).spec_width(), old(self).spec_height(), c, height as int) ==> {
                &&& r == Err::<(), DisplayError>(DisplayError::OutOfBounds)
                &&& final(self).rows() == old(self).rows()
            },
    {
        let w = self.frame.width();
        let h = self.frame.height();
        if c.x >= w || c.y >= h || height > h - c.y {
            return Err(DisplayError::OutOfBounds);
        }
        let ghost r0 = self.rows();
        let ghost wi = w as int;
        let ghost hi = h as int;
        let col: u16 = c.x / 8;
        let bit: u8 = (c.x % 8) as u8;
        let mask: u8 = 1u8 << bit;
        proof {
            assert forall|k: int| 0 <= k < 8 implies #[trigger] bit_of(mask, k) == (k == bit) by {
                let kk = k as u8;
                assert((((1u8 << bit) >> kk) & 1u8 == 1u8) == (kk == bit)) by (bit_vector)
                    requires
                        bit < 8,
                        kk < 8,
                ;
            }
        }
        let mut j: u16 = 0;
        while j < height
            invariant
                self.wf(),
                self.same_setup(old(self)),
                wi == self.spec_width(),
                hi == self.spec_height(),
                j <= height,
                hi == h,
                c.y + height <= hi,
                c.x < wi,
                col == c.x / 8,
                bit == c.x % 8,
                forall|k: int| 0 <= k < 8 ==> #[trigger] bit_of(mask, k) == (k == bit),
                forall|px: int, py: int|
                    in_panel(wi, hi, px, py) ==> #[trigger] pixel_at(self.rows(), px, py) == if px
                        == c.x && c.y <= py < c.y + j {
                        color
                    } else {
                        pixel_at(r0, px, py)
                    },
            decreases height - j,
        {
            let ghost cur = self.rows();
            self.frame.mask_byte(c.y + j, col, mask, color);
            proof {
                lemma_mask_pixels(cur, wi, hi, c.y + j, col as int, mask, color);
                assert forall|px: int, py: int| in_panel(wi, hi, px, py) && px / 8 == col as int
                    implies bit_of(mask, px % 8) == (px == c.x) by {}
            }
            j = j + 1;
        }
        Ok(())
    }

    /// Draws the outline of the rectangle with opposite corners `corner1` and
    /// `corner2`: full-width top and bottom runs and the side columns between them,
    /// so that no corner is drawn twice; fails with `OutOfBounds`, changing nothing,
    /// unless both corners lie on the panel.
    pub fn draw_rectangle(&mut self, corner1: Vect2D, corner2: Vect2D, color: bool) -> (r: Result<
        (),
        DisplayError,
    >)
        requires
            old(self).wf(),
        ensures
            final(self).wf(),
            final(self).same_setup(old(self)),
            in_panel(old(self).spec_width(), old(self).spec_height(), corner1.x as int, corner1.y as int)
                && in_panel(old(self).spec_width(), old(self).spec_height(), corner2.x as int, corner2.y as int) ==>
                    {
                &&& r is Ok
                &&& painted(
                    old(self).rows(),
                    final(self).rows(),
                    old(self).spec_width(),
                    old(self).spec_height(),
                    on_outline(corner1, corner2),
                    color,
                )
            },
            !(in_panel(old(self).spec_width(), old(self).spec_height(), corner1.x as int, corner1.y as int)
                && in_panel(old(self).spec_width(), old(self).spec_height(), corner2.x as int, corner2.y as int)) ==>
                    {
                &&& r == Err::<(), DisplayError>(DisplayError::OutOfBounds)
                &&& final(self).rows() == old(self).rows()
            },
    {
        let w = self.frame.width();
        let h = self.frame.height();
        if corner1.x >= w || corner1.y >= h || corner2.x >= w || corner2.y >= h {
            return Err(DisplayError::OutOfBounds);
        }
        let ghost r0 = self.rows();
        let ghost wi = w as int;
        let ghost hi = h as int;
        let x0 = if corner1.x <= corner2.x { corner1.x } else { corner2.x };
        let x1 = if corner1.x <= corner2.x { corner2.x } else { corner1.x };
        let y0 = if corner1.y <= corner2.y { corner1.y } else { corner2.y };
        let y1 = if corner1.y <= corner2.y { corner2.y } else { corner1.y };
        let side: u16 = if y1 > y0 + 1 { y1 - y0 - 1 } else { 0 };
        let top = Vect2D { x: x0, y: y0 };
        let bottom = Vect2D { x: x0, y: y1 };
        let _ = self.draw_hline(top, x1 - x0 + 1, color);
        let ghost r1 = self.rows();
        let _ = self.draw_hline(bottom, x1 - x0 + 1, color);
        let ghost r2 = self.rows();
        proof {
            lemma_painted_then(
                r0,
                r1,
                r2,
                wi,
                hi,
                on_hline(top, x1 - x0 + 1),
                on_hline(bottom, x1 - x0 + 1),
                color,
            );
        }
        if side > 0 {
            let left = Vect2D { x: x0, y: y0 + 1 };
            let right = Vect2D { x: x1, y: y0 + 1 };
            let _ = self.draw_vline(left, side, color);
            let ghost r3 = self.rows();
            let _ = self.draw_vline(right, side, color);
            proof {
                lemma_painted_then(
                    r2,
                    r3,
                    self.rows(),
                    wi,
                    hi,
                    on_vline(left, side as int),
                    on_vline(right, side as int),
                    color,
                );
                lemma_painted_then(r0, r2, self.rows(), wi, hi,
                    either(on_hline(top, x1 - x0 + 1), on_hline(bottom, x1 - x0 + 1)),
                    either(on_vline(left, side as int), on_vline(right, side as int)), color);
            }
        }
        proof {
            lemma_outline_is_edges(corner1, corner2);
            assert forall|px: int, py: int| in_panel(wi, hi, px, py) implies #[trigger] pixel_at(self.rows(), px, py)
                == if (on_outline(corner1, corner2))(px, py) { color } else { pixel_at(r0, px, py) } by {
                assert((on_outline(corner1, corner2))(px, py) == (rect_edges(corner1, corner2))(px, py));
            }
        }
        Ok(())
    }

    /// Fills the half-open box from the lesser to the greater coordinates of
    /// `corner1` and `corner2` with `color`, one horizontal run per line; fails with
    /// `OutOfBounds`, changing nothing, unless both corners lie on the panel.
    pub fn fill_rectangle(&mut self, corner1: Vect2D, corner2: Vect2D, color: bool) -> (r: Result<
        (),
        DisplayError,
    >)
        requires
            old(self).wf(),
        ensures
            final(self).wf(),
            final(self).same_setup(old(self)),
            in_panel(old(self).spec_width(), old(self).spec_height(), corner1.x as int, corner1.y as int)
                && in_panel(old(self).spec_width(), old(self).spec_height(), corner2.x as int, corner2.y as int) ==>
                    {
                &&& r is Ok
                &&& painted(
                    old(self).rows(),
                    final(self).rows(),
                    old(self).spec_width(),
                    old(self).spec_height(),
                    in_box(corner1, corner2),
                    color,
                )
            },
            !(in_panel(old(self).spec_width(), old(self).spec_height(), corner1.x as int, corner1.y as int)
                && in_panel(old(self).spec_width(), old(self).spec_height(), corner2.x as int, corner2.y as int)) ==>
                    {
                &&& r == Err::<(), DisplayError>(DisplayError::OutOfBounds)
                &&& final(self).rows() == old(self).rows()
            },
    {
        let w = self.frame.width();
        let h = self.frame.height();
        if corner1.x >= w || corner1.y >= h || corner2.x >= w || corner2.y >= h {
            return Err(DisplayError::OutOfBounds);
        }
        let ghost r0 = self.rows();
        let ghost wi = w as int;
        let ghost hi = h as int;
        let x0 = if corner1.x <= corner2.x { corner1.x } else { corner2.x };
        let x1 = if corner1.x <= corner2.x { corner2.x } else { corner1.x };
        let y0 = if corner1.y <= corner2.y { corner1.y } else { corner2.y };
        let y1 = if corner1.y <= corner2.y { corner2.y } else { corner1.y };
        let mut row: u16 = y0;
        while row < y1
            invariant
                self.wf(),
                self.same_setup(old(self)),
                wi == self.spec_width(),
                hi == self.spec_height(),
                y0 <= row <= y1 < hi,
                x0 <= x1 < wi,
                x0 == (if corner1.x <= corner2.x { corner1.x } else { corner2.x }),
                x1 == (if corner1.x <= corner2.x { corner2.x } else { corner1.x }),
                y0 == (if corner1.y <= corner2.y { corner1.y } else { corner2.y }),
                forall|px: int, py: int|
                    in_panel(wi, hi, px, py) ==> #[trigger] pixel_at(self.rows(), px, py) == if x0
                        <= px < x1 && y0 <= py < row {
                        color
                    } else {
                        pixel_at(r0, px, py)
                    },
            decreases y1 - row,
        {
            let ghost cur = self.rows();
            let _ = self.draw_hline(Vect2D { x: x0, y: row }, x1 - x0, color);
            proof {
                assert forall|px: int, py: int| in_panel(wi, hi, px, py) implies #[trigger] pixel_at(self.rows(), px, py)
                    == if x0 <= px < x1 && y0 <= py < row + 1 { color } else { pixel_at(r0, px, py) } by {
                    assert(pixel_at(cur, px, py) == if x0 <= px < x1 && y0 <= py < row { color } else { pixel_at(r0, px, py) });
                }
            }
            row = row + 1;
        }
        Ok(())
    }
    /// Draws the Bresenham line from `c1` to `c2`, both endpoints included: it steps
    /// along the axis of the greater extent from the endpoint lesser on that axis,
    /// with an error term starting at half the run; fails with `OutOfBounds`,
    /// changing nothing, unless both endpoints lie on the panel.
    pub fn draw_line(&mut self, c1: Vect2D, c2: Vect2D, color: bool) -> (r: Result<(), DisplayError>)
        requires
            old(self).wf(),
        ensures
            final(self).wf(),
            final(self).same_setup(old(self)),
            in_panel(old(self).spec_width(), old(self).spec_height(), c1.x as int, c1.y as int)
                && in_panel(old(self).spec_width(), old(self).spec_height(), c2.x as int, c2.y as int) ==> {
                &&& r is Ok
                &&& painted(
                    old(self).rows(),
                    final(self).rows(),
                    old(self).spec_width(),
                    old(self).spec_height(),
                    on_line(c1, c2),
                    color,
                )
            },
            !(in_panel(old(self).spec_width(), old(self).spec_height(), c1.x as int, c1.y as int)
                && in_panel(old(self).spec_width(), old(self).spec_height(), c2.x as int, c2.y as int)) ==> {
                &&& r == Err::<(), DisplayError>(DisplayError::OutOfBounds)
                &&& final(self).rows() == old(self).rows()
            },
    {
        let w = self.frame.width();
        let h = self.frame.height();
        if c1.x >= w || c1.y >= h || c2.x >= w || c2.y >= h {
            return Err(DisplayError::OutOfBounds);
        }
        let ghost r0 = self.rows();
        let ghost wi = w as int;
        let ghost hi = h as int;
        let span_x: u16 = if c1.x <= c2.x { c2.x - c1.x } else { c1.x - c2.x };
        let span_y: u16 = if c1.y <= c2.y { c2.y - c1.y } else { c1.y - c2.y };
        let steep = span_y > span_x;
        let forward = if steep { c1.y <= c2.y } else { c1.x <= c2.x };
        let s = if forward { c1 } else { c2 };
        let e = if forward { c2 } else { c1 };
        let sa: u16 = if steep { s.y } else { s.x };
        let sb: u16 = if steep { s.x } else { s.y };
        let ea: u16 = if steep { e.y } else { e.x };
        let eb: u16 = if steep { e.x } else { e.y };
        let dx: u16 = ea - sa;
        let dy: u16 = if sb <= eb { eb - sb } else { sb - eb };
        let up = sb <= eb;
        let ghost bound: int = if steep { hi } else { wi };
        let ghost minor_bound: int = if steep { wi } else { hi };
        assert(steep == is_steep(c1, c2));
        assert(s == line_start(c1, c2));
        assert(e == line_end(c1, c2));
        assert(dx == line_run(c1, c2));
        assert(dy <= dx);
        let mut err: i32 = (dx / 2) as i32;
        let mut k: u16 = 0;
        let mut b: u16 = sb;
        let ghost mut taken: int = 0;
        proof {
            assert(0 * dy == 0 && 0 * dx == 0) by (nonlinear_arith);
            if dx > 0 {
                lemma_minor_steps(0, dx as int, dy as int, 0, (dx / 2) as int);
            }
        }
        while k < dx
            invariant
                self.wf(),
                self.same_setup(old(self)),
                wi == self.spec_width(),
                hi == self.spec_height(),
                wi == w,
                hi == h,
                steep == is_steep(c1, c2),
                s == line_start(c1, c2),
                e == line_end(c1, c2),
                sa == major(s, steep),
                sb == minor(s, steep),
                ea == major(e, steep),
                eb == minor(e, steep),
                dx == ea - sa,
                dy == abs_diff(sb as int, eb as int),
                dy <= dx,
                up == (sb <= eb),
                ea < bound,
                sb < minor_bound,
                eb < minor_bound,
                bound == if steep { hi } else { wi },
                minor_bound == if steep { wi } else { hi },
                k <= dx,
                err == dx / 2 - k * dy + taken * dx,
                0 <= err,
                dx > 0 ==> err < dx,
                taken == minor_steps(k as int, dx as int, dy as int),
                0 <= taken <= dy,
                b == if up { sb + taken } else { sb - taken },
                forall|px: int, py: int|
                    in_panel(wi, hi, px, py) ==>
                        #[trigger] pixel_at(self.rows(), px, py) == if (line_prefix(c1, c2, k as int))(px, py) {
                        color
                    } else {
                        pixel_at(r0, px, py)
                    },
            decreases dx - k,
        {
            let a = sa + k;
            let ghost cur = self.rows();
            let ghost pb = b as int;
            let ghost pa = a as int;
            if steep {
                let _ = self.frame.set_pixel(b, a, color);
            } else {
                let _ = self.frame.set_pixel(a, b, color);
            }
            proof {
                let (px0, py0) = if steep { (pb, pa) } else { (pa, pb) };
                lemma_with_pixel(cur, wi, hi, px0, py0, color);
                assert forall|px: int, py: int| in_panel(wi, hi, px, py) implies #[trigger] pixel_at(self.rows(), px, py)
                    == if (line_prefix(c1, c2, k + 1))(px, py) { color } else { pixel_at(r0, px, py) } by {
                    assert(pixel_at(cur, px, py) == if (line_prefix(c1, c2, k as int))(px, py) { color } else { pixel_at(r0, px, py) });
                }
            }
            let stepped: i32 = err - dy as i32;
            if stepped < 0 {
                proof {
                    assert(stepped + dx == dx / 2 - (k + 1) * dy + (taken + 1) * dx) by (nonlinear_arith)
                        requires
                            stepped == dx / 2 - k * dy + taken * dx - dy,
                    ;
                    lemma_minor_steps(k + 1, dx as int, dy as int, taken + 1, stepped + dx);
                }
                b = if up { b + 1 } else { b - 1 };
                err = stepped + dx as i32;
                proof { taken = taken + 1; }
            } else {
                proof {
                    assert(stepped == dx / 2 - (k + 1) * dy + taken * dx) by (nonlinear_arith)
                        requires
                            stepped == dx / 2 - k * dy + taken * dx - dy,
                    ;
                    lemma_minor_steps(k + 1, dx as int, dy as int, taken, stepped as int);
                }
                err = stepped;
            }
            k = k + 1;
        }
        let a = sa + k;
        let ghost cur = self.rows();
        if steep {
            let _ = self.frame.set_pixel(b, a, color);
        } else {
            let _ = self.frame.set_pixel(a, b, color);
        }
        proof {
            let (px0, py0) = if steep { (b as int, a as int) } else { (a as int, b as int) };
            lemma_with_pixel(cur, wi, hi, px0, py0, color);
            assert forall|px: int, py: int| in_panel(wi, hi, px, py) implies #[trigger] pixel_at(self.rows(), px, py)
                == if (on_line(c1, c2))(px, py) { color } else { pixel_at(r0, px, py) } by {
                assert(pixel_at(cur, px, py) == if (line_prefix(c1, c2, k as int))(px, py) { color } else { pixel_at(r0, px, py) });
            }
        }
        Ok(())
    }
    /// Draws the glyph of `chr` from the font in the 6-by-8 cell whose top-left pixel
    /// is `c`: for each of the five columns, the column byte is shifted out bit by bit,
    /// `color` where a bit is set and the inverse elsewhere; the sixth column is
    /// cleared to the inverse. Fails with `OutOfBounds`, changing nothing, unless the
    /// cell lies on the panel and the font holds a glyph for `chr`.
    pub fn put_char(&mut self, c: &Vect2D, chr: char, color: bool) -> (r: Result<(), DisplayError>)
        requires
            old(self).wf(),
        ensures
            final(self).wf(),
            final(self).same_setup(old(self)),
            ({
                let fits = c.x + 6 <= old(self).spec_width() && c.y + 8 <= old(self).spec_height()
                    && 5 * (chr as int) + 5 <= old(self).font().len();
                &&& fits ==> r is Ok && glyph_drawn(
                    old(self).rows(),
                    final(self).rows(),
                    old(self).spec_width(),
                    old(self).spec_height(),
                    *c,
                    glyph_of(old(self).font(), chr as int),
                    color,
                )
                &&& !fits ==> r == Err::<(), DisplayError>(DisplayError::OutOfBounds) && final(self).rows()
                    == old(self).rows()
            }),
    {
        let w = self.frame.width();
        let h = self.frame.height();
        let code: usize = chr as u32 as usize;
        if c.x >= w || c.y >= h || w - c.x < 6 || h - c.y < 8 || code >= self.font.len() / 5 {
            return Err(DisplayError::OutOfBounds);
        }
        let ghost r0 = self.rows();
        let ghost wi = w as int;
        let ghost hi = h as int;
        let ghost glyph = glyph_of(self.font(), chr as int);
        let base: usize = code * 5;
        let mut i: u16 = 0;
        while i < 5
            invariant
                self.wf(),
                self.same_setup(old(self)),
                wi == self.spec_width(),
                hi == self.spec_height(),
                wi == w,
                hi == h,
                c.x + 6 <= wi,
                c.y + 8 <= hi,
                base == 5 * (chr as int),
                base + 5 <= self.font@.len(),
                glyph == self.font@.subrange(base as int, base + 5),
                i <= 5,
                glyph_drawn_upto(r0, self.rows(), wi, hi, *c, glyph, color, i * 8),
            decreases 5 - i,
        {
            let column: u8 = self.font[base + i as usize];
            assert(column == glyph[i as int]);
            let mut line: u8 = column;
            assert(line == column >> 0u8) by (bit_vector)
                requires
                    line == column,
            ;
            let mut j: u16 = 0;
            while j < 8
                invariant
                    self.wf(),
                    self.same_setup(old(self)),
                    wi == self.spec_width(),
                    hi == self.spec_height(),
                    wi == w,
                    hi == h,
                    c.x + 6 <= wi,
                    c.y + 8 <= hi,
                    i < 5,
                    j <= 8,
                    glyph.len() == 5,
                    column == glyph[i as int],
                    line == column >> (j as u8),
                    glyph_drawn_upto(r0, self.rows(), wi, hi, *c, glyph, color, i * 8 + j),
                decreases 8 - j,
            {
                let ghost cur = self.rows();
                let ink = if line & 1 == 1 { color } else { !color };
                let jj = j as u8;
                assert((line & 1u8 == 1u8) == bit_of(column, j as int));
                let _ = self.frame.set_pixel(c.x + i, c.y + j, ink);
                proof {
                    lemma_with_pixel(cur, wi, hi, c.x + i, c.y + j, ink);
                    assert(line >> 1u8 == column >> ((jj + 1) as u8)) by (bit_vector)
                        requires
                            line == column >> jj,
                            jj < 8,
                    ;
                    assert forall|px: int, py: int| in_panel(wi, hi, px, py) implies #[trigger] pixel_at(self.rows(), px, py)
                        == if in_cell(*c, px, py) && (px - c.x) * 8 + (py - c.y) < i * 8 + j + 1 {
                        glyph_pixel(glyph, px - c.x, py - c.y, color)
                    } else {
                        pixel_at(r0, px, py)
                    } by {
                        assert(pixel_at(cur, px, py) == if in_cell(*c, px, py) && (px - c.x) * 8 + (py - c.y) < i * 8 + j {
                            glyph_pixel(glyph, px - c.x, py - c.y, color)
                        } else {
                            pixel_at(r0, px, py)
                        });
                    }
                }
                line = line >> 1;
                j = j + 1;
            }
            i = i + 1;
        }
        let ghost r5 = self.rows();
        let gap = Vect2D { x: c.x + 5, y: c.y };
        let _ = self.draw_vline(gap, 8, !color);
        proof {
            assert forall|px: int, py: int| in_panel(wi, hi, px, py) implies #[trigger] pixel_at(self.rows(), px, py)
                == if in_cell(*c, px, py) && (px - c.x) * 8 + (py - c.y) < 48 {
                glyph_pixel(glyph, px - c.x, py - c.y, color)
            } else {
                pixel_at(r0, px, py)
            } by {
                assert(pixel_at(r5, px, py) == if in_cell(*c, px, py) && (px - c.x) * 8 + (py - c.y) < 40 {
                    glyph_pixel(glyph, px - c.x, py - c.y, color)
                } else {
                    pixel_at(r0, px, py)
                });
            }
        }
        Ok(())
    }

    /// Copies packed texture rows into the framebuffer, row `i` onto line
    /// `corner.y + i` from the byte that holds column `corner.x`, clipped to the
    /// panel; the bytes are written as they are. Fails with `OutOfBounds`, changing
    /// nothing, unless `corner` lies on the panel.
    pub fn draw_texture(&mut self, corner: Vect2D, texture: &Vec<Vec<u8>>) -> (r: Result<(), DisplayError>)
        requires
            old(self).wf(),
        ensures
            final(self).wf(),
            final(self).same_setup(old(self)),
            in_panel(old(self).spec_width(), old(self).spec_height(), corner.x as int, corner.y as int) ==> {
                &&& r is Ok
                &&& textured(
                    old(self).rows(),
                    final(self).rows(),
                    old(self).spec_width(),
                    old(self).spec_height(),
                    corner.y as int,
                    corner.x as int / 8,
                    rows_view(texture),
                )
            },
            !in_panel(old(self).spec_width(), old(self).spec_height(), corner.x as int, corner.y as int) ==> {
                &&& r == Err::<(), DisplayError>(DisplayError::OutOfBounds)
                &&& final(self).rows() == old(self).rows()
            },
    {
        let w = self.frame.width();
        let h = self.frame.height();
        if corner.x >= w || corner.y >= h {
            return Err(DisplayError::OutOfBounds);
        }
        let ghost r0 = self.rows();
        let ghost wi = w as int;
        let ghost hi = h as int;
        let ghost tex = rows_view(texture);
        let bpr: u16 = w / 8;
        let col: u16 = corner.x / 8;
        let mut ty: usize = 0;
        while ty < texture.len() && (ty as u32) < (h - corner.y) as u32
            invariant
                self.wf(),
                self.same_setup(old(self)),
                wi == self.spec_width(),
                hi == self.spec_height(),
                wi == w,
                hi == h,
                bpr == wi / 8,
                col < bpr,
                corner.y < hi,
                tex == rows_view(texture),
                ty <= texture.len(),
                ty <= hi - corner.y,
                textured_upto(r0, self.rows(), wi, hi, corner.y as int, col as int, tex, ty as int, 0),
            decreases texture.len() - ty,
        {
            let row: &Vec<u8> = &texture[ty];
            let y: u16 = corner.y + ty as u16;
            let mut tb: usize = 0;
            while tb < row.len() && (tb as u32) < (bpr - col) as u32
                invariant
                    self.wf(),
                    self.same_setup(old(self)),
                    wi == self.spec_width(),
                    hi == self.spec_height(),
                    wi == w,
                    hi == h,
                    bpr == wi / 8,
                    col < bpr,
                    tex == rows_view(texture),
                    ty < texture.len(),
                    y == corner.y + ty,
                    y < hi,
                    row@ == tex[ty as int],
                    tb <= row.len(),
                    tb <= bpr - col,
                    textured_upto(
                        r0,
                        self.rows(),
                        wi,
                        hi,
                        corner.y as int,
                        col as int,
                        tex,
                        ty as int,
                        tb as int,
                    ),
                decreases row.len() - tb,
            {
                let ghost cur = self.rows();
                self.frame.put_byte(y, col + tb as u16, row[tb]);
                proof {
                    assert forall|yy: int, b: int| 0 <= yy < hi && 0 <= b < wi / 8 implies #[trigger] self.rows()[yy][b]
                        == match texture_byte(tex, corner.y as int, col as int, yy, b) {
                        Some(v) => if yy - corner.y < ty || (yy - corner.y == ty && b - col < tb + 1) { v } else { r0[yy][b] },
                        None => r0[yy][b],
                    } by {
                        assert(cur[yy][b] == match texture_byte(tex, corner.y as int, col as int, yy, b) {
                            Some(v) => if yy - corner.y < ty || (yy - corner.y == ty && b - col < tb) { v } else { r0[yy][b] },
                            None => r0[yy][b],
                        });
                    }
                }
                tb = tb + 1;
            }
            proof {
                assert forall|yy: int, b: int| 0 <= yy < hi && 0 <= b < wi / 8 implies #[trigger] self.rows()[yy][b]
                    == match texture_byte(tex, corner.y as int, col as int, yy, b) {
                    Some(v) => if yy - corner.y < ty + 1 || (yy - corner.y == ty + 1 && b - col < 0) { v } else { r0[yy][b] },
                    None => r0[yy][b],
                } by {
                    assert(self.rows()[yy][b] == match texture_byte(tex, corner.y as int, col as int, yy, b) {
                        Some(v) => if yy - corner.y < ty || (yy - corner.y == ty && b - col < tb) { v } else { r0[yy][b] },
                        None => r0[yy][b],
                    });
                }
            }
            ty = ty + 1;
        }
        Ok(())
    }
    /// The panel width in pixels.
    pub fn width(&self) -> (r: u16)
        ensures
            r == self.spec_width(),
    {
        self.frame.width()
    }

    /// The panel height in pixels.
    pub fn height(&self) -> (r: u16)
        ensures
            r == self.spec_height(),
    {
        self.frame.height()
    }

    /// The packed rows of the framebuffer.
    pub fn buffer(&self) -> (r: &Vec<Vec<u8>>)
        ensures
            rows_view(r) == self.rows(),
    {
        self.frame.buffer()
    }

    /// The panel the framebuffer is shown on.
    pub fn display(&self) -> (r: &D)
        ensures
            *r == self.panel(),
    {
        &self.display
    }

    /// Replaces the font table: five column bytes per character code, code 0 first.
    pub fn set_font(&mut self, font: Vec<u8>)
        requires
            old(self).wf(),
        ensures
            final(self).wf(),
            final(self).font() == font@,
            final(self).rows() == old(self).rows(),
            final(self).spec_width() == old(self).spec_width(),
            final(self).spec_height() == old(self).spec_height(),
            final(self).panel() == old(self).panel(),
    {
        self.font = font;
    }

    /// Blanks the panel; the framebuffer is left as it is.
    pub fn clear_display(&mut self) -> (r: Result<(), DisplayError>)
        requires
            old(self).wf(),
        ensures
            final(self).wf(),
            final(self).rows() == old(self).rows(),
            final(self).spec_width() == old(self).spec_width(),
            final(self).spec_height() == old(self).spec_height(),
            final(self).font() == old(self).font(),
            final(self).panel().last_request() == Some(PanelRequest::Clear),
            r == final(self).panel().last_result(),
    {
        self.display.clear_display()
    }

    /// Shows the framebuffer on the panel.
    pub fn draw(&mut self) -> (r: Result<(), DisplayError>)
        requires
            old(self).wf(),
        ensures
            final(self).wf(),
            final(self).rows() == old(self).rows(),
            final(self).spec_width() == old(self).spec_width(),
            final(self).spec_height() == old(self).spec_height(),
            final(self).font() == old(self).font(),
            final(self).panel().last_request() == Some(PanelRequest::Rows(old(self).rows())),
            r == final(self).panel().last_result(),
    {
        self.display.refresh(self.frame.buffer())
    }

    /// Shows line `line_num` (0-based) of the framebuffer alone; fails with
    /// `OutOfBounds`, asking nothing of the panel, past the last line.
    pub fn refresh_line(&mut self, line_num: u8) -> (r: Result<(), DisplayError>)
        requires
            old(self).wf(),
        ensures
            final(self).wf(),
            final(self).rows() == old(self).rows(),
            final(self).spec_width() == old(self).spec_width(),
            final(self).spec_height() == old(self).spec_height(),
            final(self).font() == old(self).font(),
            line_num < old(self).spec_height() ==> {
                &&& final(self).panel().last_request() == Some(
                    PanelRequest::Line(line_num, old(self).rows()[line_num as int]),
                )
                &&& r == final(self).panel().last_result()
            },
            line_num >= old(self).spec_height() ==> {
                &&& r == Err::<(), DisplayError>(DisplayError::OutOfBounds)
                &&& final(self).panel() == old(self).panel()
            },
    {
        if line_num as u16 >= self.frame.height() {
            return Err(DisplayError::OutOfBounds);
        }
        let row = self.frame.row(line_num as u16);
        self.display.refresh_line(line_num, row.as_slice())
    }

    /// The pixel at `c`, or `OutOfBounds` off the panel.
    pub fn get_pixel(&self, c: Vect2D) -> (r: Result<bool, DisplayError>)
        requires
            self.wf(),
        ensures
            in_panel(self.spec_width(), self.spec_height(), c.x as int, c.y as int) ==>
                r == Ok::<bool, DisplayError>(pixel_at(self.rows(), c.x as int, c.y as int)),
            !in_panel(self.spec_width(), self.spec_height(), c.x as int, c.y as int) ==>
                r == Err::<bool, DisplayError>(DisplayError::OutOfBounds),
    {
        self.frame.get_pixel(c.x, c.y)
    }

    /// Sets the pixel at `c` to `color`, or fails with `OutOfBounds` off the panel,
    /// changing nothing.
    pub fn set_pixel(&mut self, c: Vect2D, color: bool) -> (r: Result<(), DisplayError>)
        requires
            old(self).wf(),
        ensures
            final(self).wf(),
            final(self).same_setup(old(self)),
            in_panel(old(self).spec_width(), old(self).spec_height(), c.x as int, c.y as int) ==> {
                &&& r is Ok
                &&& final(self).rows() == with_pixel(old(self).rows(), c.x as int, c.y as int, color)
            },
            !in_panel(old(self).spec_width(), old(self).spec_height(), c.x as int, c.y as int) ==> {
                &&& r == Err::<(), DisplayError>(DisplayError::OutOfBounds)
                &&& final(self).rows() == old(self).rows()
            },
    {
        self.frame.set_pixel(c.x, c.y, color)
    }

    /// Fills every byte of the framebuffer with `0xFF` when `color` is set, with
    /// `0x00` when not.
    pub fn clear(&mut self, color: bool) -> (r: Result<(), DisplayError>)
        requires
            old(self).wf(),
        ensures
            r is Ok,
            final(self).wf(),
            final(self).same_setup(old(self)),
            forall|y: int, i: int|
                0 <= y < old(self).spec_height() && 0 <= i < old(self).spec_width() / 8
                    ==> #[trigger] final(self).rows()[y][i] == if color {
                    0xFFu8
                } else {
                    0x00u8
                },
    {
        self.frame.clear(color);
        Ok(())
    }
}

impl<D: Panel> SetPixel<bool> for MonoGraphics<D> {
    open spec fn can_draw(&self) -> bool {
        self.wf()
    }

    fn set_pixel(&mut self, c: Vect2D, color: bool) -> Result<(), DisplayError> {
        MonoGraphics::set_pixel(self, c, color)
    }
}

impl<D: Panel> Draw<bool> for MonoGraphics<D> {
    fn clear(&mut self, color: bool) -> Result<(), DisplayError> {
        MonoGraphics::clear(self, color)
    }

    fn draw_line(&mut self, c1: Vect2D, c2: Vect2D, color: bool) -> Result<(), DisplayError> {
        MonoGraphics::draw_line(self, c1, c2, color)
    }

    fn draw_hline(&mut self, c: Vect2D, len: u16, color: bool) -> Result<(), DisplayError> {
        MonoGraphics::draw_hline(self, c, len, color)
    }

    fn draw_vline(&mut self, c: Vect2D, height: u16, color: bool) -> Result<(), DisplayError> {
        MonoGraphics::draw_vline(self, c, height, color)
    }

    fn draw_rectangle(&mut self, corner1: Vect2D, corner2: Vect2D, color: bool) -> Result<(), DisplayError> {
        MonoGraphics::draw_rectangle(self, corner1, corner2, color)
    }

    fn fill_rectangle(&mut self, corner1: Vect2D, corner2: Vect2D, color: bool) -> Result<(), DisplayError> {
        MonoGraphics::fill_rectangle(self, corner1, corner2, color)
    }

    fn draw_texture(&mut self, corner: Vect2D, texture: &Vec<Vec<u8>>) -> Result<(), DisplayError> {
        MonoGraphics::draw_texture(self, corner, texture)
    }
}

impl<D: Panel> Print<bool> for MonoGraphics<D> {
    open spec fn can_print(&self) -> bool {
        self.wf()
    }

    open spec fn accepts(&self, c: Vect2D, chr: char) -> bool {
        c.x + 6 <= self.spec_width() && c.y + 8 <= self.spec_height() && 5 * (chr as int) + 5
            <= self.font().len()
    }

    fn put_char(&mut self, c: &Vect2D, chr: char, color: bool) -> Result<(), DisplayError> {
        MonoGraphics::put_char(self, c, chr, color)
    }
}

} // verus!
