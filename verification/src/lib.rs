//! Drawing primitives and a bitmap-font text renderer over a linear frame
//! buffer, with the channel order of the hardware pixel format hidden behind
//! one drawing interface.

pub mod color;
pub mod geometry;
pub mod frame;
pub mod buffer;
pub mod writer;
pub mod font;
pub mod display;

pub use color::{PixelColor, PixelFormat};
pub use geometry::Vector2D;
pub use frame::Frame;
pub use buffer::FrameBuffer;
pub use writer::{BGRResv8BitPerColorPixelWriter, PixelWriter, RGBResv8BitPerColorPixelWriter};
pub use font::{Font, ShinonomeFont};
pub use display::{init_global_writer, DisplayWriter, GlobalWriter};
