//! A display that owns its framebuffer: pixels are set in memory, then sent as
//! whole frames or single lines.
use vstd::prelude::*;

use crate::error::DisplayError;
use crate::framebuffer::{in_panel, pixel_at, rows_view, shaped, with_pixel, Framebuffer};
use crate::error::TransportError;
use crate::protocol::{clear_frame, line_frame, outcome_of, refresh_frame, SharpMemoryDisplay, Transport};

verus! {

/// A framebuffer together with the panel it is shown on.
pub struct DisplayDriver<T: Transport> {
    frame: Framebuffer,
    panel: SharpMemoryDisplay<T>,
}

impl<T: Transport> DisplayDriver<T> {
    /// The packed rows of the framebuffer.
    pub closed spec fn rows(&self) -> Seq<Seq<u8>> {
        self.frame.rows()
    }

    /// The panel width in pixels.
    pub closed spec fn spec_width(&self) -> int {
        self.frame.spec_width()
    }

    /// The panel height in pixels.
    pub closed spec fn spec_height(&self) -> int {
        self.frame.spec_height()
    }

    /// The VCOM polarity the next frame carries.
    pub closed spec fn vcom(&self) -> bool {
        self.panel.vcom()
    }

    /// The frame most recently handed to the transport.
    pub closed spec fn sent(&self) -> Seq<u8> {
        self.panel.sent()
    }

    /// What the transport returned for the most recent frame, if one was sent.
    pub closed spec fn written(&self) -> Option<Result<(), TransportError>> {
        self.panel.written()
    }

    /// The transport the frames are written to.
    pub closed spec fn transport(&self) -> T {
        self.panel.transport()
    }

    /// The framebuffer has the panel's shape.
    pub open spec fn wf(&self) -> bool {
        shaped(self.rows(), self.spec_width(), self.spec_height())
    }

    /// A driver for a `width` by `height` panel on `device`, every pixel set and VCOM
    /// low; fails with `InvalidDimensions` unless `width` is a multiple of eight.
    pub fn new(device: T, width: u16, height: u16) -> (r: Result<Self, DisplayError>)
        ensures
            width % 8 != 0 ==> r is Err && r->Err_0 == DisplayError::InvalidDimensions,
            width % 8 == 0 ==> r is Ok,
            r matches Ok(d) ==> {
                &&& d.wf()
                &&& d.spec_width() == width
                &&& d.spec_height() == height
                &&& !d.vcom()
                &&& d.transport() == device
                &&& d.written() is None
                &&& forall|y: int, i: int|
                    0 <= y < height && 0 <= i < width / 8 ==> #[trigger] d.rows()[y][i] == 0xFF
            },
    {
        match Framebuffer::new(width, height) {
            Ok(frame) => Ok(DisplayDriver { frame, panel: SharpMemoryDisplay::new(device) }),
            Err(e) => Err(e),
        }
    }

    /// The width in pixels.
    pub fn width(&self) -> (r: u16)
        ensures
            r == self.spec_width(),
    {
        self.frame.width()
    }

    /// The height in pixels.
    pub fn height(&self) -> (r: u16)
        ensures
            r == self.spec_height(),
    {
        self.frame.height()
    }

    /// The packed rows of the framebuffer.
    pub fn buffer(&self) -> (r: &Vec<Vec<u8>>)
        ensures
            rows_view(r) == self.rows(),
    {
        self.frame.buffer()
    }

    /// The transport the frames are written to.
    pub fn device(&self) -> (r: &T)
        ensures
            *r == self.transport(),
    {
        self.panel.device()
    }

    /// Sends the clear command, then inverts VCOM whatever the bus reports; the
    /// framebuffer is left as it is.
    pub fn clear_display(&mut self) -> (r: Result<(), DisplayError>)
        requires
            old(self).wf(),
        ensures
            final(self).wf(),
            final(self).rows() == old(self).rows(),
            final(self).spec_width() == old(self).spec_width(),
            final(self).spec_height() == old(self).spec_height(),
            final(self).vcom() == !old(self).vcom(),
            final(self).sent() == clear_frame(old(self).vcom()),
            final(self).written() matches Some(w) && r == outcome_of(w),
    {
        self.panel.clear_display()
    }

    /// Sets every pixel of the framebuffer.
    pub fn clear_buffer(&mut self)
        requires
            old(self).wf(),
        ensures
            final(self).wf(),
            final(self).spec_width() == old(self).spec_width(),
            final(self).spec_height() == old(self).spec_height(),
            final(self).vcom() == old(self).vcom(),
            final(self).sent() == old(self).sent(),
            final(self).written() == old(self).written(),
            forall|y: int, i: int|
                0 <= y < old(self).spec_height() && 0 <= i < old(self).spec_width() / 8
                    ==> #[trigger] final(self).rows()[y][i] == 0xFF,
    {
        self.frame.clear(true);
    }

    /// Sends the whole framebuffer in one frame, then inverts VCOM whatever the bus
    /// reports.
    pub fn refresh(&mut self) -> (r: Result<(), DisplayError>)
        requires
            old(self).wf(),
        ensures
            final(self).wf(),
            final(self).rows() == old(self).rows(),
            final(self).spec_width() == old(self).spec_width(),
            final(self).spec_height() == old(self).spec_height(),
            final(self).vcom() == !old(self).vcom(),
            final(self).sent() == refresh_frame(old(self).vcom(), old(self).rows()),
            final(self).written() matches Some(w) && r == outcome_of(w),
    {
        self.panel.refresh(self.frame.buffer())
    }

    /// Sends line `line_num` (0-based) alone, then inverts VCOM whatever the bus
    /// reports; fails with `OutOfBounds`, sending nothing, past the last line.
    pub fn refresh_line(&mut self, line_num: u8) -> (r: Result<(), DisplayError>)
        requires
            old(self).wf(),
        ensures
            final(self).wf(),
            final(self).rows() == old(self).rows(),
            final(self).spec_width() == old(self).spec_width(),
            final(self).spec_height() == old(self).spec_height(),
            line_num < old(self).spec_height() ==> {
                &&& final(self).vcom() == !old(self).vcom()
                &&& final(self).sent() == line_frame(old(self).vcom(), line_num, old(self).rows()[line_num as int])
                &&& final(self).written() matches Some(w) && r == outcome_of(w)
            },
            line_num >= old(self).spec_height() ==> {
                &&& r == Err::<(), DisplayError>(DisplayError::OutOfBounds)
                &&& final(self).vcom() == old(self).vcom()
                &&& final(self).sent() == old(self).sent()
                &&& final(self).written() == old(self).written()
            },
    {
        if line_num as u16 >= self.frame.height() {
            return Err(DisplayError::OutOfBounds);
        }
        let row = self.frame.row(line_num as u16);
        self.panel.refresh_line(line_num, row.as_slice())
    }

    /// The pixel at `(x, y)`, or `OutOfBounds` off the panel.
    pub fn get_pixel(&self, x: u16, y: u16) -> (r: Result<bool, DisplayError>)
        requires
            self.wf(),
        ensures
            in_panel(self.spec_width(), self.spec_height(), x as int, y as int) ==>
                r == Ok::<bool, DisplayError>(pixel_at(self.rows(), x as int, y as int)),
            !in_panel(self.spec_width(), self.spec_height(), x as int, y as int) ==>
                r == Err::<bool, DisplayError>(DisplayError::OutOfBounds),
    {
        self.frame.get_pixel(x, y)
    }

    /// Sets the pixel at `(x, y)` to `pixel`, or fails with `OutOfBounds` off the
    /// panel, changing nothing.
    pub fn set_pixel(&mut self, x: u16, y: u16, pixel: bool) -> (r: Result<(), DisplayError>)
        requires
            old(self).wf(),
        ensures
            final(self).wf(),
            final(self).spec_width() == old(self).spec_width(),
            final(self).spec_height() == old(self).spec_height(),
            final(self).vcom() == old(self).vcom(),
            final(self).sent() == old(self).sent(),
            final(self).written() == old(self).written(),
            in_panel(old(self).spec_width(), old(self).spec_height(), x as int, y as int) ==> {
                &&& r is Ok
                &&& final(self).rows() == with_pixel(old(self).rows(), x as int, y as int, pixel)
            },
            !in_panel(old(self).spec_width(), old(self).spec_height(), x as int, y as int) ==> {
                &&& r == Err::<(), DisplayError>(DisplayError::OutOfBounds)
                &&& final(self).rows() == old(self).rows()
            },
    {
        self.frame.set_pixel(x, y, pixel)
    }
}

} // verus!
