//! A verified CHIP-8 virtual machine core.
//!
//! The crate models the processor state of the CHIP-8 family (the original
//! interpreter, the SuperChip variants and XO-Chip) and executes one
//! fetch-decode-execute cycle at a time.  Presentation concerns (rendering,
//! audio, host input) live outside the crate; the core only exposes the
//! framebuffer, a sound flag and entry points for key events and timer ticks.

pub mod chip8;
pub mod laws;
pub mod profile;
pub mod state;
pub mod screen;
pub mod util;
