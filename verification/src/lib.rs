//! Driver-side logic for the DMA engine of the RP2040, verified.
//!
//! The driver decides and the caller does. A function of this crate never
//! touches a register: it takes what was read from the device as a plain
//! value and gives what is to be written as a list of [`registers::Action`]s.
//! Every such list opens with a barrier, so that the trigger of a transfer
//! never overtakes what the processor wrote to its source buffer, and the
//! wait for a transfer ends in one. That keeps every decision of the driver
//! inside the reach of the verifier: which control word a configuration
//! comes to, in which order a channel is programmed, which channels one
//! trigger starts, when a channel may be given back.
//!
//! - [`registers`]: the register map and the layout of the control word.
//! - [`lax_dma`]: configurations, and the handle of a channel.
//! - [`registry`]: which channels are taken, and how they are chained.
//! - [`engine`]: a model of the engine, which can stand in for the device.
//! - [`transfers`]: what a programmed transfer does to memory.
//! - [`chaining`]: what two channels do that are chained to each other.
//! - [`mirror`]: that registry and engine stay in step.
//! - [`experiments`]: the transfers that are run on a board.
//! - [`pio_asm`]: the coprocessor's assembler, as far as it is needed.
//! - [`uart_log`]: the text of the diagnostic log.

pub mod chaining;
pub mod engine;
pub mod experiments;
pub mod lax_dma;
pub mod mirror;
pub mod pio_asm;
pub mod registers;
pub mod registry;
pub mod transfers;
pub mod uart_log;
