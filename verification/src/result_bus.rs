//! The single shared result bus: a one-slot buffer carrying a `(tag, result)`
//! pair from a functional unit to the register file and every station.

use vstd::prelude::*;

use crate::execution_path::{ExecResult, RStag};

verus! {

/// What the bus holds in spec terms: nothing, or one `(tag view, result)`.
pub type BusV = Option<((Seq<char>, nat), ExecResult)>;

/// Placing a value on a bus in state `b`: the attempt succeeds exactly when
/// the bus is free; an occupied bus is left unchanged.
pub open spec fn spec_bus_set(b: BusV, tag: (Seq<char>, nat), result: ExecResult) -> (BusV, bool) {
    if b is None {
        (Some((tag, result)), true)
    } else {
        (b, false)
    }
}

/// The single-cell result bus.  By construction it holds at most one value at
/// any time: the cell is an `Option`, and `set` refuses an occupied cell.
#[derive(Debug)]
pub struct ResultBus {
    value: Option<(RStag, ExecResult)>,
}

impl View for ResultBus {
    type V = BusV;

    closed spec fn view(&self) -> BusV {
        match self.value {
            Some((tag, result)) => Some((tag@, result)),
            None => None,
        }
    }
}

impl ResultBus {
    pub fn new() -> (r: Self)
        ensures
            r@ is None,
    {
        Self { value: None }
    }

    /// Try to place `(tag, result)` on the bus; succeeds only when free.
    pub fn set(&mut self, tag: RStag, result: ExecResult) -> (r: bool)
        ensures
            (final(self)@, r) == spec_bus_set(old(self)@, tag@, result),
    {
        if self.value.is_none() {
            self.value = Some((tag, result));
            true
        } else {
            false
        }
    }

    /// Drain the bus: return its content, leaving the bus free.
    pub fn take(&mut self) -> (r: Option<(RStag, ExecResult)>)
        ensures
            final(self)@ is None,
            old(self)@ is None ==> r is None,
            old(self)@ matches Some((t, res)) ==> r matches Some((rt, rres)) && rt@ == t && rres
                == res,
    {
        self.value.take()
    }

    /// Whether the bus is free.
    pub fn is_free(&self) -> (r: bool)
        ensures
            r == (self@ is None),
    {
        self.value.is_none()
    }
}

/// Single-slot law: the bus holds at most one value at any time.  An attempt
/// to place a value is granted exactly when the cell is empty, and a refused
/// attempt leaves the bus unchanged: no second value can ever join a first.
pub proof fn lemma_bus_single_slot(b: BusV, tag: (Seq<char>, nat), result: ExecResult)
    ensures
        spec_bus_set(b, tag, result).1 <==> b is None,
        !spec_bus_set(b, tag, result).1 ==> spec_bus_set(b, tag, result).0 == b,
{
}

/// Bus bandwidth law: the bus serializes writebacks.  Between two drains, at
/// most one attempt to place a value succeeds: if a first `set` succeeded on a
/// bus, any further `set` on the resulting bus fails and changes nothing, so
/// two simultaneously finishing units can never both commit to the register
/// file in the same cycle.
pub proof fn lemma_bus_serializes(
    b: BusV,
    t1: (Seq<char>, nat),
    r1: ExecResult,
    t2: (Seq<char>, nat),
    r2: ExecResult,
)
    requires
        spec_bus_set(b, t1, r1).1,
    ensures
        !spec_bus_set(spec_bus_set(b, t1, r1).0, t2, r2).1,
        spec_bus_set(spec_bus_set(b, t1, r1).0, t2, r2).0 == spec_bus_set(b, t1, r1).0,
{
}

} // verus!
