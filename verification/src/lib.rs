//! A text console for a memory-mapped character display, with the harness
//! that runs self-checks under an emulator.
//!
//! - [`device`]: display memory and the volatile access path to it.
//! - [`vga_buffer`]: colors, cells and the writer that appends text to the
//!   last row, wrapping and scrolling as it goes.
//! - [`screen`]: what the console shows, as a value, and what each write does
//!   to it.
//! - [`lines`]: where lines of text stand as they scroll up the display.
//! - [`lock`]: the spin lock that guards the one writer.
//! - [`harness`]: exit codes and the decisions of the self-check runner.

pub mod device;
pub mod harness;
pub mod lines;
pub mod lock;
pub mod screen;
pub mod vga_buffer;

pub use harness::{test_runner, QemuExitCode, Testable};
