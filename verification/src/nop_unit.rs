//! The built-in `nop` execution path: it accepts any number of `nop`
//! instructions, never touches the result bus, and is always idle.

use vstd::prelude::*;

use crate::decoder::InstFormat;
use crate::execution_path::{ArgState, RStag};
use crate::result_bus::ResultBus;

verus! {

/// The no-operation execution path.  Its name is reserved by the processor.
#[derive(Debug)]
pub struct Unit {}

impl Unit {
    pub fn new() -> (r: Self)
        ensures
            true,
    {
        Self {  }
    }

    /// The reserved name of the path.
    pub fn name(&self) -> (r: String)
        ensures
            r@ == "nop1"@,
    {
        String::from_str("nop1")
    }

    /// The class of the functional unit.
    pub fn function(&self) -> (r: String)
        ensures
            r@ == "nop"@,
    {
        String::from_str("nop")
    }

    /// The single instruction this path implements: `nop`, with no arguments.
    pub fn list_insts(&self) -> (r: Vec<InstFormat>)
        ensures
            r@.len() == 1,
            r@[0]@.name == "nop"@,
            r@[0]@.syntax == Seq::<crate::decoder::TokenType>::empty(),
    {
        let mut v: Vec<InstFormat> = Vec::new();
        v.push(InstFormat::create("nop").done());
        v
    }

    /// A `nop` waits on nothing: forwarding is ignored.
    pub fn forward(&mut self, tag: RStag, val: u32)
        ensures
            true,
    {
        let _ = tag;
        let _ = val;
    }

    /// A `nop` always issues; its tag is inert (no writeback ever matches it,
    /// and the slot is never occupied).
    pub fn try_issue(&mut self, inst: String, vals: &[ArgState]) -> (r: Result<RStag, ()>)
        ensures
            r matches Ok(tag) && tag@ == ("nop1"@, 0nat),
    {
        let _ = inst;
        let _ = vals;
        Ok(RStag::new("nop1", 0))
    }

    /// A `nop` path does nothing in a cycle and never touches the bus.
    pub fn next_cycle(&mut self, bus: &mut ResultBus) -> (r: Result<(), String>)
        ensures
            r is Ok,
            final(bus)@ == old(bus)@,
    {
        let _ = bus;
        Ok(())
    }

    /// No instruction is ever pending here.
    pub fn pending(&self) -> (r: usize)
        ensures
            r == 0,
    {
        0
    }

    /// The path is always idle.
    pub fn is_idle(&self) -> (r: bool)
        ensures
            r,
    {
        true
    }
}

} // verus!
