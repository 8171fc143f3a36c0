//! The bit-packed framebuffer: one row of `width / 8` bytes per panel line,
//! bit `b` of byte `i` holding pixel `x = 8 * i + b`.
use vstd::prelude::*;

use crate::bits::{
    bit_of, fill_byte, lemma_byte_from_bits, lemma_with_bit, lemma_with_mask, with_bit, with_mask,
};
use crate::error::DisplayError;

verus! {

/// The pixel at `(x, y)` of packed rows.
pub open spec fn pixel_at(rows: Seq<Seq<u8>>, x: int, y: int) -> bool {
    bit_of(rows[y][x / 8], x % 8)
}

/// `rows` is a panel of `width` by `height` pixels, `width` a multiple of eight.
pub open spec fn shaped(rows: Seq<Seq<u8>>, width: int, height: int) -> bool {
    &&& width % 8 == 0
    &&& rows.len() == height
    &&& forall|y: int| 0 <= y < height ==> #[trigger] rows[y].len() == width / 8
}

/// `(x, y)` lies on a panel of `width` by `height` pixels.
pub open spec fn in_panel(width: int, height: int, x: int, y: int) -> bool {
    0 <= x < width && 0 <= y < height
}

/// `rows` after setting the pixel at `(x, y)` to `color`.
pub open spec fn with_pixel(rows: Seq<Seq<u8>>, x: int, y: int, color: bool) -> Seq<Seq<u8>> {
    rows.update(y, rows[y].update(x / 8, with_bit(rows[y][x / 8], x % 8, color)))
}

/// Two panels of one shape with the same pixels hold the same bytes.
pub proof fn lemma_rows_from_pixels(a: Seq<Seq<u8>>, b: Seq<Seq<u8>>, width: int, height: int)
    requires
        shaped(a, width, height),
        shaped(b, width, height),
        forall|x: int, y: int|
            in_panel(width, height, x, y) ==> #[trigger] pixel_at(a, x, y) == pixel_at(b, x, y),
    ensures
        a == b,
{
    assert forall|y: int| 0 <= y < height implies #[trigger] a[y] == b[y] by {
        assert forall|i: int| 0 <= i < width / 8 implies a[y][i] == b[y][i] by {
            assert forall|k: int| 0 <= k < 8 implies bit_of(a[y][i], k) == bit_of(b[y][i], k) by {
                let x = 8 * i + k;
                assert(x / 8 == i && x % 8 == k);
                assert(pixel_at(a, x, y) == pixel_at(b, x, y));
            }
            lemma_byte_from_bits(a[y][i], b[y][i]);
        }
        assert(a[y] =~= b[y]);
    }
    assert(a =~= b);
}

/// Setting one pixel keeps the shape and changes that pixel alone.
pub proof fn lemma_with_pixel(rows: Seq<Seq<u8>>, width: int, height: int, x: int, y: int, color: bool)
    requires
        shaped(rows, width, height),
        in_panel(width, height, x, y),
    ensures
        shaped(with_pixel(rows, x, y, color), width, height),
        forall|px: int, py: int|
            in_panel(width, height, px, py) ==> #[trigger] pixel_at(
                with_pixel(rows, x, y, color),
                px,
                py,
            ) == if px == x && py == y {
                color
            } else {
                pixel_at(rows, px, py)
            },
{
    let r = with_pixel(rows, x, y, color);
    lemma_with_bit(rows[y][x / 8], x % 8, color);
    assert forall|py: int| 0 <= py < height implies #[trigger] r[py].len() == width / 8 by {}
    assert forall|px: int, py: int| in_panel(width, height, px, py) implies #[trigger] pixel_at(
        r,
        px,
        py,
    ) == if px == x && py == y {
        color
    } else {
        pixel_at(rows, px, py)
    } by {
        if py == y && px / 8 == x / 8 {
            assert(px % 8 == x % 8 <==> px == x);
        }
    }
}

/// `rows` with byte `b` of line `y` replaced by `v`.
pub open spec fn with_byte(rows: Seq<Seq<u8>>, y: int, b: int, v: u8) -> Seq<Seq<u8>> {
    rows.update(y, rows[y].update(b, v))
}

/// Replacing one byte keeps the shape; the eight pixels it holds take its bits.
pub proof fn lemma_with_byte(rows: Seq<Seq<u8>>, width: int, height: int, y: int, b: int, v: u8)
    requires
        shaped(rows, width, height),
        0 <= y < height,
        0 <= b < width / 8,
    ensures
        shaped(with_byte(rows, y, b, v), width, height),
        forall|px: int, py: int|
            in_panel(width, height, px, py) ==> #[trigger] pixel_at(with_byte(rows, y, b, v), px, py)
                == if py == y && px / 8 == b {
                bit_of(v, px % 8)
            } else {
                pixel_at(rows, px, py)
            },
{
    let r = with_byte(rows, y, b, v);
    assert forall|py: int| 0 <= py < height implies #[trigger] r[py].len() == width / 8 by {}
}

/// Forcing the masked bits of one byte: the pixels under the mask take `color`.
pub proof fn lemma_mask_pixels(
    rows: Seq<Seq<u8>>,
    width: int,
    height: int,
    y: int,
    b: int,
    mask: u8,
    color: bool,
)
    requires
        shaped(rows, width, height),
        0 <= y < height,
        0 <= b < width / 8,
    ensures
        shaped(with_byte(rows, y, b, with_mask(rows[y][b], mask, color)), width, height),
        forall|px: int, py: int|
            in_panel(width, height, px, py) ==> #[trigger] pixel_at(
                with_byte(rows, y, b, with_mask(rows[y][b], mask, color)),
                px,
                py,
            ) == if py == y && px / 8 == b && bit_of(mask, px % 8) {
                color
            } else {
                pixel_at(rows, px, py)
            },
{
    lemma_with_byte(rows, width, height, y, b, with_mask(rows[y][b], mask, color));
    lemma_with_mask(rows[y][b], mask, color);
}

/// Reading a pixel back after setting it gives the color it was set to.
pub proof fn lemma_get_after_set(rows: Seq<Seq<u8>>, width: int, height: int, x: int, y: int, color: bool)
    requires
        shaped(rows, width, height),
        in_panel(width, height, x, y),
    ensures
        pixel_at(with_pixel(rows, x, y, color), x, y) == color,
{
    lemma_with_pixel(rows, width, height, x, y, color);
}

/// The bytes of each row of `rows`.
pub open spec fn rows_view(rows: &Vec<Vec<u8>>) -> Seq<Seq<u8>> {
    rows@.map_values(|r: Vec<u8>| r@)
}

/// A panel of `width` by `height` 1-bit pixels.
pub struct Framebuffer {
    rows: Vec<Vec<u8>>,
    width: u16,
    height: u16,
}

impl Framebuffer {
    /// The packed rows, top line first.
    pub closed spec fn rows(&self) -> Seq<Seq<u8>> {
        rows_view(&self.rows)
    }

    /// The width in pixels.
    pub closed spec fn spec_width(&self) -> int {
        self.width as int
    }

    /// The height in pixels.
    pub closed spec fn spec_height(&self) -> int {
        self.height as int
    }

    /// The rows have the panel's shape.
    pub open spec fn wf(&self) -> bool {
        shaped(self.rows(), self.spec_width(), self.spec_height())
    }

    /// The pixel at `(x, y)`.
    pub open spec fn pixel(&self, x: int, y: int) -> bool {
        pixel_at(self.rows(), x, y)
    }

    /// A panel with every pixel set; fails unless `width` is a multiple of eight.
    pub fn new(width: u16, height: u16) -> (r: Result<Framebuffer, DisplayError>)
        ensures
            width % 8 != 0 ==> r == Err::<Framebuffer, DisplayError>(DisplayError::InvalidDimensions),
            width % 8 == 0 ==> r is Ok,
            r matches Ok(f) ==> {
                &&& f.wf()
                &&& f.spec_width() == width
                &&& f.spec_height() == height
                &&& forall|y: int, i: int|
                    0 <= y < height && 0 <= i < width / 8 ==> #[trigger] f.rows()[y][i] == 0xFF
            },
    {
        if width % 8 != 0 {
            return Err(DisplayError::InvalidDimensions);
        }
        let bpr: usize = (width / 8) as usize;
        let mut rows: Vec<Vec<u8>> = Vec::new();
        let mut y: u16 = 0;
        while y < height
            invariant
                y <= height,
                bpr == width / 8,
                rows@.len() == y,
                forall|j: int| 0 <= j < y ==> (#[trigger] rows@[j])@ == Seq::new(bpr as nat, |i: int| 0xFFu8),
            decreases height - y,
        {
            let mut row: Vec<u8> = Vec::new();
            let mut i: usize = 0;
            while i < bpr
                invariant
                    i <= bpr,
                    row@ == Seq::new(i as nat, |k: int| 0xFFu8),
                decreases bpr - i,
            {
                row.push(0xFF);
                i = i + 1;
                assert(row@ =~= Seq::new(i as nat, |k: int| 0xFFu8));
            }
            rows.push(row);
            y = y + 1;
        }
        let f = Framebuffer { rows, width, height };
        assert forall|j: int| 0 <= j < height implies #[trigger] f.rows()[j].len() == width / 8 by {
            assert(rows@[j]@ == Seq::new(bpr as nat, |i: int| 0xFFu8));
        }
        assert forall|j: int, i: int| 0 <= j < height && 0 <= i < width / 8 implies #[trigger] f.rows()[j][i] == 0xFF by {
            assert(rows@[j]@ == Seq::new(bpr as nat, |i: int| 0xFFu8));
        }
        Ok(f)
    }

    /// The width in pixels.
    pub fn width(&self) -> (r: u16)
        ensures
            r == self.spec_width(),
    {
        self.width
    }

    /// The height in pixels.
    pub fn height(&self) -> (r: u16)
        ensures
            r == self.spec_height(),
    {
        self.height
    }

    /// The packed rows, for the protocol encoder.
    pub fn buffer(&self) -> (r: &Vec<Vec<u8>>)
        ensures
            rows_view(r) == self.rows(),
    {
        &self.rows
    }

    /// The packed bytes of line `y`.
    pub fn row(&self, y: u16) -> (r: &Vec<u8>)
        requires
            self.wf(),
            y < self.spec_height(),
        ensures
            r@ == self.rows()[y as int],
    {
        &self.rows[y as usize]
    }

    /// The pixel at `(x, y)`, or `OutOfBounds` off the panel.
    pub fn get_pixel(&self, x: u16, y: u16) -> (r: Result<bool, DisplayError>)
        requires
            self.wf(),
        ensures
            in_panel(self.spec_width(), self.spec_height(), x as int, y as int) ==>
                r == Ok::<bool, DisplayError>(self.pixel(x as int, y as int)),
            !in_panel(self.spec_width(), self.spec_height(), x as int, y as int) ==>
                r == Err::<bool, DisplayError>(DisplayError::OutOfBounds),
    {
        if x >= self.width || y >= self.height {
            return Err(DisplayError::OutOfBounds);
        }
        assert(self.rows()[y as int].len() == self.width / 8);
        let byte = self.rows[y as usize][(x / 8) as usize];
        let bit = (x % 8) as u8;
        Ok((byte >> bit) & 1 == 1)
    }

    /// Sets the pixel at `(x, y)` to `color`, or fails with `OutOfBounds` off the panel,
    /// changing nothing.
    pub fn set_pixel(&mut self, x: u16, y: u16, color: bool) -> (r: Result<(), DisplayError>)
        requires
            old(self).wf(),
        ensures
            final(self).wf(),
            final(self).spec_width() == old(self).spec_width(),
            final(self).spec_height() == old(self).spec_height(),
            in_panel(old(self).spec_width(), old(self).spec_height(), x as int, y as int) ==> {
                &&& r is Ok
                &&& final(self).rows() == with_pixel(old(self).rows(), x as int, y as int, color)
            },
            !in_panel(old(self).spec_width(), old(self).spec_height(), x as int, y as int) ==> {
                &&& r == Err::<(), DisplayError>(DisplayError::OutOfBounds)
                &&& final(self).rows() == old(self).rows()
            },
    {
        if x >= self.width || y >= self.height {
            return Err(DisplayError::OutOfBounds);
        }
        let b = (x / 8) as usize;
        let bit = (x % 8) as u8;
        assert(self.rows()[y as int].len() == self.width / 8);
        let old_byte = self.rows[y as usize][b];
        let new_byte = if color {
            old_byte | (1u8 << bit)
        } else {
            old_byte & !(1u8 << bit)
        };
        self.rows[y as usize][b] = new_byte;
        proof {
            lemma_with_pixel(
                old(self).rows(),
                self.width as int,
                self.height as int,
                x as int,
                y as int,
                color,
            );
            assert(self.rows() =~~= with_pixel(old(self).rows(), x as int, y as int, color));
        }
        Ok(())
    }
    /// Fills every byte with `0xFF` when `color` is set, with `0x00` when not.
    pub fn clear(&mut self, color: bool)
        requires
            old(self).wf(),
        ensures
            final(self).wf(),
            final(self).spec_width() == old(self).spec_width(),
            final(self).spec_height() == old(self).spec_height(),
            forall|y: int, i: int|
                0 <= y < old(self).spec_height() && 0 <= i < old(self).spec_width() / 8
                    ==> #[trigger] final(self).rows()[y][i] == if color {
                    0xFFu8
                } else {
                    0x00u8
                },
    {
        let fill = fill_byte(color);
        let ghost expect: u8 = if color { 0xFFu8 } else { 0x00u8 };
        proof {
            assert forall|k: int| 0 <= k < 8 implies bit_of(fill, k) == bit_of(expect, k) by {
                let kk = k as u8;
                assert((0xFFu8 >> kk) & 1u8 == 1u8) by (bit_vector)
                    requires
                        kk < 8,
                ;
                assert((0x00u8 >> kk) & 1u8 != 1u8) by (bit_vector)
                    requires
                        kk < 8,
                ;
            }
            lemma_byte_from_bits(fill, expect);
        }
        let bpr: usize = (self.width / 8) as usize;
        let mut y: usize = 0;
        while y < self.rows.len()
            invariant
                self.wf(),
                self.spec_width() == old(self).spec_width(),
                self.spec_height() == old(self).spec_height(),
                bpr == self.width / 8,
                fill == expect,
                y <= self.rows@.len(),
                forall|j: int, i: int|
                    0 <= j < y && 0 <= i < bpr ==> #[trigger] self.rows()[j][i] == expect,
            decreases self.rows@.len() - y,
        {
            let mut i: usize = 0;
            assert(self.rows()[y as int].len() == bpr);
            while i < bpr
                invariant
                    self.wf(),
                    self.spec_width() == old(self).spec_width(),
                    self.spec_height() == old(self).spec_height(),
                    bpr == self.width / 8,
                    fill == expect,
                    y < self.rows@.len(),
                    i <= bpr,
                    forall|j: int, k: int|
                        0 <= j < y && 0 <= k < bpr ==> #[trigger] self.rows()[j][k] == expect,
                    forall|k: int| 0 <= k < i ==> #[trigger] self.rows()[y as int][k] == expect,
                decreases bpr - i,
            {
                let ghost before = self.rows();
                assert(self.rows()[y as int].len() == bpr);
                self.rows[y][i] = fill;
                proof {
                    lemma_with_byte(before, self.width as int, self.height as int, y as int, i as int, fill);
                    assert(self.rows() =~~= with_byte(before, y as int, i as int, fill));
                }
                i = i + 1;
            }
            y = y + 1;
        }
    }

    /// Forces the bits of `mask` in byte `b` of line `y` to `color`.
    pub fn mask_byte(&mut self, y: u16, b: u16, mask: u8, color: bool)
        requires
            old(self).wf(),
            y < old(self).spec_height(),
            b < old(self).spec_width() / 8,
        ensures
            final(self).wf(),
            final(self).spec_width() == old(self).spec_width(),
            final(self).spec_height() == old(self).spec_height(),
            final(self).rows() == with_byte(
                old(self).rows(),
                y as int,
                b as int,
                with_mask(old(self).rows()[y as int][b as int], mask, color),
            ),
    {
        assert(self.rows()[y as int].len() == self.width / 8);
        let v = self.rows[y as usize][b as usize];
        let nv = if color {
            v | mask
        } else {
            v & !mask
        };
        self.rows[y as usize][b as usize] = nv;
        proof {
            lemma_with_byte(old(self).rows(), self.width as int, self.height as int, y as int, b as int, nv);
            assert(self.rows() =~~= with_byte(old(self).rows(), y as int, b as int, nv));
        }
    }

    /// Replaces byte `b` of line `y` by `v`.
    pub fn put_byte(&mut self, y: u16, b: u16, v: u8)
        requires
            old(self).wf(),
            y < old(self).spec_height(),
            b < old(self).spec_width() / 8,
        ensures
            final(self).wf(),
            final(self).spec_width() == old(self).spec_width(),
            final(self).spec_height() == old(self).spec_height(),
            final(self).rows() == with_byte(old(self).rows(), y as int, b as int, v),
    {
        assert(self.rows()[y as int].len() == self.width / 8);
        self.rows[y as usize][b as usize] = v;
        proof {
            lemma_with_byte(old(self).rows(), self.width as int, self.height as int, y as int, b as int, v);
            assert(self.rows() =~~= with_byte(old(self).rows(), y as int, b as int, v));
        }
    }
}

} // verus!
