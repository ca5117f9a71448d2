//! Driver core for a synchronous serial (SPI) peripheral.
//!
//! The crate covers the transfer engine and configuration state machine of a
//! small clock-generating (controller) or clock-following (peripheral) serial
//! unit: deriving register values from a requested mode and bit rate, the
//! configuration lifecycle, and the blocking full-duplex and send-only
//! transfer algorithms that keep the shallow hardware FIFO from overflowing
//! while classifying fault conditions.
//!
//! The memory-mapped register block itself is out of scope and is modelled by
//! [`regs::SpiRegs`]: an addressable set of control, status and data
//! registers whose status readings follow a caller-controlled script, so that
//! every polling path of the engine can be exercised deterministically.

pub mod divisor;
pub mod regs;
pub mod spi;
