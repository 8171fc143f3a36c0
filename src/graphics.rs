//! Coordinates and the drawing interfaces.
use vstd::prelude::*;

use crate::error::DisplayError;

verus! {

/// A pixel coordinate: origin top-left, `x` growing right, `y` growing down.
#[derive(Clone, Copy, Debug, PartialEq, Eq, Structural)]
pub struct Vect2D {
    pub x: u16,
    pub y: u16,
}

impl Vect2D {
    pub fn new(x: u16, y: u16) -> (r: Self)
        ensures
            r.x == x,
            r.y == y,
    {
        Vect2D { x, y }
    }
}

/// A surface whose pixels can be set one at a time.
pub trait SetPixel<T> {
    /// The surface is in a state its operations accept.
    spec fn can_draw(&self) -> bool;

    fn set_pixel(&mut self, c: Vect2D, color: T) -> (r: Result<(), DisplayError>)
        requires
            old(self).can_draw(),
        ensures
            final(self).can_draw(),
    ;
}

/// A surface that renders one glyph cell at a time.
pub trait Print<T> {
    /// The surface is in a state `put_char` accepts.
    spec fn can_print(&self) -> bool;

    /// The glyph cell of `chr` with top-left pixel `c` can be drawn.
    spec fn accepts(&self, c: Vect2D, chr: char) -> bool;

    /// Draws the glyph cell of `chr` with top-left pixel `c`; succeeds on every cell
    /// the surface accepts, and accepts afterwards every cell it accepted before.
    fn put_char(&mut self, c: &Vect2D, chr: char, color: T) -> (r: Result<(), DisplayError>)
        requires
            old(self).can_print(),
        ensures
            final(self).can_print(),
            old(self).accepts(*c, chr) ==> r is Ok,
            forall|d: Vect2D, k: char| #[trigger] old(self).accepts(d, k) ==> final(self).accepts(d, k),
    ;
}

/// The drawing primitives of a surface.
pub trait Draw<T>: SetPixel<T> {
    fn clear(&mut self, color: T) -> (r: Result<(), DisplayError>)
        requires
            old(self).can_draw(),
        ensures
            final(self).can_draw(),
    ;

    fn draw_line(&mut self, c1: Vect2D, c2: Vect2D, color: T) -> (r: Result<(), DisplayError>)
        requires
            old(self).can_draw(),
        ensures
            final(self).can_draw(),
    ;

    fn draw_hline(&mut self, c: Vect2D, len: u16, color: T) -> (r: Result<(), DisplayError>)
        requires
            old(self).can_draw(),
        ensures
            final(self).can_draw(),
    ;

    fn draw_vline(&mut self, c: Vect2D, height: u16, color: T) -> (r: Result<(), DisplayError>)
        requires
            old(self).can_draw(),
        ensures
            final(self).can_draw(),
    ;

    fn draw_rectangle(&mut self, corner1: Vect2D, corner2: Vect2D, color: T) -> (r: Result<
        (),
        DisplayError,
    >)
        requires
            old(self).can_draw(),
        ensures
            final(self).can_draw(),
    ;

    fn fill_rectangle(&mut self, corner1: Vect2D, corner2: Vect2D, color: T) -> (r: Result<
        (),
        DisplayError,
    >)
        requires
            old(self).can_draw(),
        ensures
            final(self).can_draw(),
    ;

    fn draw_texture(&mut self, corner: Vect2D, texture: &Vec<Vec<u8>>) -> (r: Result<
        (),
        DisplayError,
    >)
        requires
            old(self).can_draw(),
        ensures
            final(self).can_draw(),
    ;
}

} // verus!
