//! The display side of an emulator core for handheld games.
//!
//! Games ask the firmware for display services: filled and outlined rectangles, text, images and
//! compressed resource streams. The services work on the guest's memory and registers, which the
//! library models byte by byte. Each function's contract says what it does to that state, down to
//! the single pixel.
//!
//! What only a host can do stays outside: running guest code, decoding image files and loading
//! resource packages. A service that needs the host says so and is resumed with the reply.

pub mod arguments;
pub mod blit;
pub mod blit_laws;
pub mod builtin_files;
pub mod drawing;
pub mod font;
pub mod heap;
pub mod image_laws;
pub mod images;
pub mod lcd;
pub mod lcd_laws;
pub mod lettering;
pub mod machine;
pub mod memory;
pub mod rect_laws;
pub mod rotation;
pub mod service_laws;
pub mod stream;
pub mod stream_laws;
pub mod surface;
pub mod text;
pub mod text_laws;
pub mod token_laws;

use vstd::prelude::*;

pub use crate::images::DecodedImage;
pub use crate::machine::NicaiMachine;
pub use crate::rotation::Rotation;
pub use crate::surface::{FRAME_HEIGHT, FRAME_WIDTH};

verus! {

/// How often a second the guest's screen scheduler runs.
pub const GUEST_FRAME_RATE: u32 = 10;

/// How many instructions a guest callback may take unless told otherwise.
///
/// Some games draw very heavy frames in one callback, up to some seventy million instructions.
/// The budget has to allow for those and still end a guest that loops forever.
pub const DEFAULT_INSTRUCTION_LIMIT: u64 = 100_000_000;

} // verus!
