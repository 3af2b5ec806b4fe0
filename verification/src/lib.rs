//! Cycle-accurate simulator of a Tomasulo-style out-of-order processor core.
//!
//! Programs are sequences of textual assembly instructions over a sixteen-entry
//! register file and a byte-addressable data memory.  Each simulated clock tick
//! advances every in-flight instruction by one step: result-bus commit, parallel
//! execution in the functional units, fetch/decode/issue of one instruction,
//! and register renaming.  The intra-cycle order (commit, advance, issue) is
//! load-bearing: an instruction issued on cycle `k` can never reach an execute
//! stage within cycle `k`.

pub mod arithmetic_unit;
pub mod decoder;
pub mod dram;
pub mod execution_path;
pub mod factory;
pub mod memory_access_unit;
pub mod nop_unit;
pub mod processor;
pub mod queue;
pub mod register;
pub mod reservation_station;
pub mod result_bus;
pub mod util;
pub mod virtual_machine;
