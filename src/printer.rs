//! A text cursor that prints strings glyph by glyph.
use vstd::prelude::*;
use vstd::string::StringSliceAdditionalSpecFns;

use crate::error::DisplayError;
use crate::graphics::{Print, Vect2D};

verus! {

/// The width of a printed character cell, spacing column included.
pub const CELL_WIDTH: u16 = 6;

/// The cell of the `i`-th character printed from `start`.
pub open spec fn cell_at(start: Vect2D, i: int) -> Vect2D {
    Vect2D { x: (start.x + CELL_WIDTH * i) as u16, y: start.y }
}

/// The cell of `text` byte `i` printed from `start` fits the coordinate range.
pub open spec fn cell_fits(start: Vect2D, i: int) -> bool {
    start.x + CELL_WIDTH * i <= u16::MAX - CELL_WIDTH
}

/// A cursor and a color for printing text; it moves right by one cell per
/// character and never wraps.
pub struct Printer<T> {
    cursor_position: Vect2D,
    color: T,
    handed: Ghost<Seq<(Vect2D, char, T, Result<(), DisplayError>)>>,
}

impl<T: Clone> Printer<T> {
    /// Where the next character goes.
    pub closed spec fn cursor(&self) -> Vect2D {
        self.cursor_position
    }

    /// The color characters are printed in.
    pub closed spec fn color(&self) -> T {
        self.color
    }

    /// The `put_char` calls of the most recent `print`, in order: the cell, the
    /// character, the color handed over, and what the call returned.
    pub closed spec fn handed(&self) -> Seq<(Vect2D, char, T, Result<(), DisplayError>)> {
        self.handed@
    }

    /// A printer at `cursor_position` in `color`.
    pub fn new(cursor_position: Vect2D, color: T) -> (r: Self)
        ensures
            r.cursor() == cursor_position,
            r.color() == color,
            r.handed() == Seq::<(Vect2D, char, T, Result<(), DisplayError>)>::empty(),
    {
        Printer { cursor_position, color, handed: Ghost(Seq::empty()) }
    }

    /// Where the next character goes.
    pub fn cursor_position(&self) -> (r: Vect2D)
        ensures
            r == self.cursor(),
    {
        self.cursor_position
    }

    /// Moves the cursor to `cursor_position`.
    pub fn set_position(&mut self, cursor_position: Vect2D)
        ensures
            final(self).cursor() == cursor_position,
            final(self).color() == old(self).color(),
            final(self).handed() == old(self).handed(),
    {
        self.cursor_position = cursor_position;
    }

    /// Prints in `color` from now on.
    pub fn set_color(&mut self, color: T)
        ensures
            final(self).cursor() == old(self).cursor(),
            final(self).color() == color,
            final(self).handed() == old(self).handed(),
    {
        self.color = color;
    }

    /// Prints the bytes of `text` one glyph cell after another from the cursor,
    /// calling `put_char` on byte `i` at the cell `6 * i` columns right of the cursor,
    /// and moving the cursor one cell per byte drawn. Stops at the first failure of
    /// `put_char` and returns it, leaving the cursor on that byte's cell; fails with
    /// `OutOfBounds`, before calling `put_char`, on a byte whose cell would move the
    /// cursor past the largest coordinate.
    pub fn print<U>(&mut self, printable_interface: &mut U, text: &str) -> (r: Result<(), DisplayError>)
        where
            U: Print<T>,
        requires
            old(printable_interface).can_print(),
        ensures
            final(printable_interface).can_print(),
            final(self).color() == old(self).color(),
            ({
                let b = text.spec_bytes();
                let h = final(self).handed();
                let start = old(self).cursor();
                &&& h.len() <= b.len()
                &&& forall|i: int|
                    0 <= i < h.len() ==> {
                        &&& (#[trigger] h[i]).0 == cell_at(start, i)
                        &&& h[i].1 == b[i] as char
                        &&& cloned(old(self).color(), h[i].2)
                    }
                &&& forall|i: int| 0 <= i < h.len() - 1 ==> (#[trigger] h[i]).3 is Ok
                &&& b.len() == 0 ==> r is Ok
                &&& r is Ok ==> h.len() == b.len() && final(self).cursor() == cell_at(start, b.len() as int)
                    && (h.len() > 0 ==> h[h.len() - 1].3 is Ok)
                &&& r is Err ==> {
                    ||| {
                        &&& h.len() < b.len()
                        &&& final(self).cursor() == cell_at(start, h.len() as int)
                        &&& !cell_fits(start, h.len() as int)
                        &&& h.len() > 0 ==> h[h.len() - 1].3 is Ok
                        &&& r == Err::<(), DisplayError>(DisplayError::OutOfBounds)
                    }
                    ||| {
                        &&& 1 <= h.len()
                        &&& final(self).cursor() == cell_at(start, h.len() - 1)
                        &&& cell_fits(start, h.len() - 1)
                        &&& r == h[h.len() - 1].3
                        &&& !old(printable_interface).accepts(cell_at(start, h.len() - 1), b[h.len() - 1] as char)
                    }
                }
                &&& (forall|i: int| 0 <= i < b.len() ==> cell_fits(start, i) && old(printable_interface).accepts(
                    #[trigger] cell_at(start, i),
                    b[i] as char,
                )) ==> r is Ok
            }),
    {
        let bytes = text.as_bytes();
        let ghost start = self.cursor_position;
        let ghost surface0 = *printable_interface;
        self.handed = Ghost(Seq::empty());
        let mut i: usize = 0;
        while i < bytes.len()
            invariant
                printable_interface.can_print(),
                surface0 == *old(printable_interface),
                forall|d: Vect2D, k: char| #[trigger] surface0.accepts(d, k) ==> printable_interface.accepts(d, k),
                bytes@ == text.spec_bytes(),
                i <= bytes@.len(),
                self.color() == old(self).color(),
                start == old(self).cursor(),
                self.cursor() == cell_at(start, i as int),
                start.x + CELL_WIDTH * i <= u16::MAX,
                self.handed().len() == i,
                forall|j: int|
                    0 <= j < i ==> {
                        &&& (#[trigger] self.handed()[j]).0 == cell_at(start, j)
                        &&& self.handed()[j].1 == bytes@[j] as char
                        &&& cloned(old(self).color(), self.handed()[j].2)
                        &&& self.handed()[j].3 is Ok
                    },
                forall|j: int| 0 <= j < i ==> cell_fits(start, j),
            decreases bytes@.len() - i,
        {
            if self.cursor_position.x > u16::MAX - CELL_WIDTH {
                return Err(DisplayError::OutOfBounds);
            }
            let chr = bytes[i] as char;
            let color = self.color.clone();
            let ghost handed_color = color;
            let ghost before = *printable_interface;
            let r = printable_interface.put_char(&self.cursor_position, chr, color);
            self.handed = Ghost(self.handed@.push((self.cursor_position, chr, handed_color, r)));
            if r.is_err() {
                return r;
            }
            self.cursor_position.x = self.cursor_position.x + CELL_WIDTH;
            i = i + 1;
        }
        Ok(())
    }
}

} // verus!
