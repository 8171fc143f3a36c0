//! A 1-bit framebuffer, drawing primitives and wire protocol for row-addressable
//! Sharp Memory LCD panels.
pub mod bits;
pub mod driver;
pub mod error;
pub mod framebuffer;
pub mod graphics;
pub mod mono_graphics;
pub mod printer;
pub mod protocol;
pub mod raster;
pub mod texture;

pub use driver::DisplayDriver;
pub use error::{DisplayError, TransportError};
pub use framebuffer::Framebuffer;
pub use graphics::{Draw, Print, SetPixel, Vect2D};
pub use mono_graphics::MonoGraphics;
pub use printer::Printer;
pub use protocol::{Panel, SharpMemoryDisplay, Transport};
