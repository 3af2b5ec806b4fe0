//! The factory of functional units: it owns the counters that mint the
//! per-class unit names (`arith0`, `arith1`, ..., `mem_access0`, ...).

use vstd::prelude::*;

use crate::arithmetic_unit;
use crate::execution_path::ExecPath;
use crate::memory_access_unit;

verus! {

/// The classes of general functional units the factory can build.
#[derive(Hash, PartialEq, Eq, Structural, Clone, Copy, Debug)]
pub enum Function {
    Arithmetic,
}

/// The classes of memory functional units the factory can build.
#[derive(Hash, PartialEq, Eq, Structural, Clone, Copy, Debug)]
pub enum MemFunction {
    MemoryAccess,
}

/// A factory used to construct functional units with distinct names.
#[derive(Debug)]
pub struct Factory {
    arith_index: usize,
    mem_index: usize,
}

impl Factory {
    /// How many arithmetic units were built so far.
    pub closed spec fn spec_arith_count(&self) -> nat {
        self.arith_index as nat
    }

    /// How many memory units were built so far.
    pub closed spec fn spec_mem_count(&self) -> nat {
        self.mem_index as nat
    }

    pub fn new() -> (r: Self)
        ensures
            r.spec_arith_count() == 0,
            r.spec_mem_count() == 0,
    {
        Self { arith_index: 0, mem_index: 0 }
    }

    /// Build one general execution path; the `i`-th unit of a class is named
    /// after the class and `i`.
    pub fn new_unit(&mut self, func: Function) -> (r: ExecPath)
        requires
            old(self).spec_arith_count() < usize::MAX,
        ensures
            final(self).spec_arith_count() == old(self).spec_arith_count() + 1,
            final(self).spec_mem_count() == old(self).spec_mem_count(),
            r matches ExecPath::Arith(u) && u@.name == "arith"@ + crate::util::spec_dec(
                old(self).spec_arith_count(),
            ) && u@.slots.len() == 2 && (forall|i: int| 0 <= i < 2 ==> u@.slots[i] is Empty)
                && u@.stage is None,
    {
        let index = self.arith_index;
        self.arith_index = self.arith_index + 1;
        match func {
            Function::Arithmetic => ExecPath::Arith(arithmetic_unit::Unit::new(index)),
        }
    }

    /// Build one memory execution path.
    pub fn new_mem_unit(&mut self, func: MemFunction) -> (r: memory_access_unit::Unit)
        requires
            old(self).spec_mem_count() < usize::MAX,
        ensures
            final(self).spec_mem_count() == old(self).spec_mem_count() + 1,
            final(self).spec_arith_count() == old(self).spec_arith_count(),
            r.wf(),
            r@.name == "mem_access"@ + crate::util::spec_dec(old(self).spec_mem_count()),
            r@.queue.len() == 0,
    {
        let index = self.mem_index;
        self.mem_index = self.mem_index + 1;
        match func {
            MemFunction::MemoryAccess => memory_access_unit::Unit::new(index),
        }
    }
}

} // verus!
