use vstd::prelude::*;

verus! {

/// Bus address of the touch controller.
pub const I2C_ADDR: u16 = 0x4B;

/// GPIO line wired to the controller's interrupt output.
pub const RPPAL_INT_PIN: u8 = 4;

/// GPIO line wired to the controller's reset input.
pub const RPPAL_RESPIN: u8 = 17;

/// Bus to use when none can be detected.
pub const DEFAULT_I2C_BUS: u8 = 1;

/// Padding byte the controller sends while it has nothing to say.
pub const INVALID_BYTE: u8 = 0x5A;

/// Number of consecutive padding bytes after which the rest of a read is dropped.
pub const SKIP_THRESHOLD: u8 = 200;

/// Panel width in pixels.
pub const DISPLAY_WIDTH: i32 = 1520;

/// Panel height in pixels.
pub const DISPLAY_HEIGHT: i32 = 720;

/// Whether the panel's axes are swapped against the display's.
pub const NEEDS_COORDINATE_INVERSION: bool = true;

/// Number of bytes asked from the bus on each read.
pub const READ_CHUNK: usize = 60;

} // verus!
