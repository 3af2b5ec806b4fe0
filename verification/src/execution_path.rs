//! The values that flow between the functional units, the result bus and the
//! register file: renaming tags, argument states, execution results, and the
//! request/response pair of the external memory bus.

use vstd::prelude::*;

use crate::util::spec_be_u32;

verus! {

/// Tag of a reservation-station slot: the sole renaming namespace.
///
/// A tag is an (issuing-station name, slot index) pair; equality is
/// component-wise.  Tags are opaque handles outside the issuing station.
#[derive(Debug)]
pub struct RStag {
    name: String,
    slot: usize,
}

impl RStag {
    /// Spec-level equality of two tags: same station name, same slot.
    pub open spec fn spec_eq(&self, other: &RStag) -> bool {
        self@ == other@
    }
}

impl View for RStag {
    type V = (Seq<char>, nat);

    closed spec fn view(&self) -> (Seq<char>, nat) {
        (self.name@, self.slot as nat)
    }
}

impl RStag {
    pub fn new(name: &str, slot: usize) -> (r: Self)
        ensures
            r@ == (name@, slot as nat),
    {
        Self { name: name.to_owned(), slot }
    }

    /// The name of the execution path that owns the slot.
    pub fn station(&self) -> (r: String)
        ensures
            r@ == self@.0,
    {
        self.name.clone()
    }

    pub fn slot(&self) -> (r: usize)
        ensures
            r as nat == self@.1,
    {
        self.slot
    }
}

impl Clone for RStag {
    fn clone(&self) -> (r: Self)
        ensures
            r == *self,
    {
        Self { name: self.name.clone(), slot: self.slot }
    }
}

impl PartialEq for RStag {
    #[verifier::rlimit(100)]
    fn eq(&self, other: &Self) -> (r: bool)
        ensures
            r == (self@ == other@),
    {
        crate::util::str_eq(self.name.as_str(), other.name.as_str()) && self.slot == other.slot
    }
}

impl vstd::std_specs::cmp::PartialEqSpecImpl for RStag {
    open spec fn obeys_eq_spec() -> bool {
        true
    }

    open spec fn eq_spec(&self, other: &RStag) -> bool {
        self.spec_eq(other)
    }
}

/// State of one operand of an in-flight instruction: either waiting on the
/// result named by a tag, or ready with a concrete value.
#[derive(Debug)]
pub enum ArgState {
    Waiting(RStag),
    Ready(u32),
}

/// View-level equivalence of two argument states: equal readiness, and equal
/// value or tag.
pub open spec fn arg_eqv(a: ArgState, b: ArgState) -> bool {
    match a {
        ArgState::Waiting(t) => b matches ArgState::Waiting(u) && t@ == u@,
        ArgState::Ready(v) => b matches ArgState::Ready(w) && v == w,
    }
}

/// The argument after a broadcast of `val` for the tag `tag`: a matching
/// waiting argument becomes ready, anything else is unchanged.
pub open spec fn spec_arg_forward(a: ArgState, tag: (Seq<char>, nat), val: u32) -> ArgState {
    match a {
        ArgState::Waiting(t) => if t@ == tag {
            ArgState::Ready(val)
        } else {
            a
        },
        ArgState::Ready(_) => a,
    }
}

/// Forwarding law: a broadcast of `(tag, val)` resolves exactly the
/// arguments waiting on that tag, and leaves every other argument untouched.
/// Once the owning slot's result is on the bus, every dependent pending
/// instruction's matching argument becomes ready with that value, and no
/// argument that saw the broadcast still waits on that tag.
pub proof fn lemma_forward_resolves(a: ArgState, tag: (Seq<char>, nat), val: u32)
    ensures
        (a matches ArgState::Waiting(t) && t@ == tag) ==> spec_arg_forward(a, tag, val)
            == ArgState::Ready(val),
        !(a matches ArgState::Waiting(t) && t@ == tag) ==> spec_arg_forward(a, tag, val) == a,
        !(spec_arg_forward(a, tag, val) matches ArgState::Waiting(t) && t@ == tag),
{
}

impl ArgState {
    /// The value of the argument if it is ready, `None` while it waits.
    pub fn val(&self) -> (r: Option<u32>)
        ensures
            match *self {
                ArgState::Ready(v) => r == Some(v),
                ArgState::Waiting(_) => r is None,
            },
    {
        match self {
            ArgState::Waiting(_) => None,
            ArgState::Ready(val) => Some(*val),
        }
    }

    /// Resolve the argument if the broadcast tag matches the one it waits on.
    pub fn forwarding(&mut self, tag: &RStag, val: u32)
        ensures
            *final(self) == spec_arg_forward(*old(self), tag@, val),
    {
        if let ArgState::Waiting(wait) = self {
            if *wait == *tag {
                *self = ArgState::Ready(val);
            }
        }
    }
}

impl Clone for ArgState {
    fn clone(&self) -> (r: Self)
        ensures
            r == *self,
    {
        match self {
            ArgState::Waiting(tag) => ArgState::Waiting(tag.clone()),
            ArgState::Ready(v) => ArgState::Ready(*v),
        }
    }
}

impl PartialEq for ArgState {
    fn eq(&self, other: &Self) -> bool {
        match (self, other) {
            (ArgState::Waiting(t), ArgState::Waiting(u)) => t == u,
            (ArgState::Ready(v), ArgState::Ready(w)) => v == w,
            _ => false,
        }
    }
}

impl vstd::std_specs::cmp::PartialEqSpecImpl for ArgState {
    open spec fn obeys_eq_spec() -> bool {
        true
    }

    open spec fn eq_spec(&self, other: &ArgState) -> bool {
        arg_eqv(*self, *other)
    }
}

/// A value carried by the result bus from a functional unit.
#[derive(Debug)]
pub enum ExecResult {
    Arth(u32),
    MemLoad(Vec<u8>),
    MemStore,
    Error(String),
}

/// The 32-bit value that a commit writes for `r`: an arithmetic result as is,
/// loaded bytes decoded big-endian, zero for a completed store.
pub open spec fn spec_result_val(r: ExecResult) -> u32 {
    match r {
        ExecResult::Arth(val) => val,
        ExecResult::MemLoad(bytes) => spec_be_u32(bytes@),
        ExecResult::MemStore => 0,
        ExecResult::Error(_) => 0,
    }
}

impl ExecResult {
    /// The committed value of a successful result.  An error result carries no
    /// value; the processor aborts the step before asking for one.
    pub fn val(&self) -> (r: u32)
        requires
            !(*self is Error),
        ensures
            r == spec_result_val(*self),
    {
        match self {
            ExecResult::Arth(val) => *val,
            ExecResult::MemLoad(val) => crate::util::raw_to_u32_big_endian(val.as_slice()),
            ExecResult::MemStore => 0,
            ExecResult::Error(_) => 0,
        }
    }
}

/// A command on the external memory bus.
#[derive(Debug)]
pub enum BusAccess {
    /// Load(base address, length in bytes)
    Load(u32, usize),
    /// Store(base address, bytes to write)
    Store(u32, Vec<u8>),
}

/// What the memory answered for one command.
#[derive(Debug)]
pub enum BusAccessResult {
    Load(Vec<u8>),
    Store,
}

/// Routing information of one bus access: which execution path issued it and
/// which logical slot of that path waits for the answer.
#[derive(Debug)]
struct BusAccessHandler {
    path: String,
    slot: usize,
}

/// Spec-level contents of a bus request: the command plus its handler.
pub ghost struct BusReqV {
    pub access: BusAccess,
    pub path: Seq<char>,
    pub slot: nat,
}

/// A memory access on its way to the external memory, tagged with the handler
/// that will route the response back.
#[derive(Debug)]
pub struct BusAccessRequst {
    access: BusAccess,
    handler: BusAccessHandler,
}

impl View for BusAccessRequst {
    type V = BusReqV;

    closed spec fn view(&self) -> BusReqV {
        BusReqV {
            access: self.access,
            path: self.handler.path@,
            slot: self.handler.slot as nat,
        }
    }
}

impl BusAccessRequst {
    pub fn new_load(path: String, slot: usize, address: u32, len: usize) -> (r: Self)
        ensures
            r@.access == BusAccess::Load(address, len),
            r@.path == path@,
            r@.slot == slot as nat,
    {
        Self {
            access: BusAccess::Load(address, len),
            handler: BusAccessHandler { path, slot },
        }
    }

    pub fn new_store(path: String, slot: usize, address: u32, value: Vec<u8>) -> (r: Self)
        ensures
            r@.access == BusAccess::Store(address, value),
            r@.path == path@,
            r@.slot == slot as nat,
    {
        Self {
            access: BusAccess::Store(address, value),
            handler: BusAccessHandler { path, slot },
        }
    }

    /// The access command carried by the request.
    pub fn request(&self) -> (r: &BusAccess)
        ensures
            *r == self@.access,
    {
        &self.access
    }

    /// Consume the request and build the response that mirrors its handler.
    pub fn into_respose(self, result: Result<BusAccessResult, String>) -> (r: BusAccessResponse)
        ensures
            r@.result == result,
            r@.path == self@.path,
            r@.slot == self@.slot,
    {
        BusAccessResponse { result, handler: self.handler }
    }
}

/// Spec-level contents of a bus response.
pub ghost struct BusRespV {
    pub result: Result<BusAccessResult, String>,
    pub path: Seq<char>,
    pub slot: nat,
}

/// The memory's answer to one request, tagged with the issuing handler.
#[derive(Debug)]
pub struct BusAccessResponse {
    result: Result<BusAccessResult, String>,
    handler: BusAccessHandler,
}

impl View for BusAccessResponse {
    type V = BusRespV;

    closed spec fn view(&self) -> BusRespV {
        BusRespV {
            result: self.result,
            path: self.handler.path@,
            slot: self.handler.slot as nat,
        }
    }
}

impl BusAccessResponse {
    /// The name of the execution path that issued the matching request.
    pub fn path_name(&self) -> (r: String)
        ensures
            r@ == self@.path,
    {
        self.handler.path.clone()
    }

    pub fn slot(&self) -> (r: usize)
        ensures
            r as nat == self@.slot,
    {
        self.handler.slot
    }

    pub fn into_result(self) -> (r: Result<BusAccessResult, String>)
        ensures
            r == self@.result,
    {
        self.result
    }
}

} // verus!

use crate::result_bus::ResultBus;
use crate::decoder::InstFormat;

verus! {

/// Spec-level state of a general execution path.
pub ghost enum ExecPathV {
    Nop,
    Arith(crate::arithmetic_unit::ArithUnitV),
}

/// A general (non-memory) execution path of the processor: the built-in
/// no-operation path or an arithmetic unit.
#[derive(Debug)]
pub enum ExecPath {
    Nop(crate::nop_unit::Unit),
    Arith(crate::arithmetic_unit::Unit),
}

impl View for ExecPath {
    type V = ExecPathV;

    open spec fn view(&self) -> ExecPathV {
        match self {
            ExecPath::Nop(_) => ExecPathV::Nop,
            ExecPath::Arith(u) => ExecPathV::Arith(u@),
        }
    }
}

/// The name of a path in spec terms.
pub open spec fn spec_path_name(p: ExecPathV) -> Seq<char> {
    match p {
        ExecPathV::Nop => "nop1"@,
        ExecPathV::Arith(u) => u.name,
    }
}

/// The pending-instruction count of a path in spec terms.
pub open spec fn spec_path_pending(p: ExecPathV) -> nat {
    match p {
        ExecPathV::Nop => 0,
        ExecPathV::Arith(u) => crate::reservation_station::count_pending(u.slots),
    }
}

/// The opcodes a path implements, in registration order.
pub open spec fn spec_path_ops(p: ExecPathV) -> Seq<Seq<char>> {
    match p {
        ExecPathV::Nop => seq!["nop"@],
        ExecPathV::Arith(_) => seq!["add"@, "addi"@, "muli"@, "mul"@],
    }
}

/// How a `(tag, val)` broadcast changes a path: a no-operation path is
/// untouched; an arithmetic unit resolves its own slot and forwards into
/// every pending slot.
pub open spec fn path_forwarded(
    p0: ExecPathV,
    p1: ExecPathV,
    tag: (Seq<char>, nat),
    val: u32,
) -> bool {
    match p0 {
        ExecPathV::Nop => p1 == p0,
        ExecPathV::Arith(u) => p1 matches ExecPathV::Arith(u2) && u2.name == u.name && u2.stage
            == u.stage && u2.slots == crate::arithmetic_unit::spec_unit_forward(
            u.slots,
            u.name,
            tag,
            val,
        ),
    }
}

/// Whether a path can accept an issue with the given operand list.
pub open spec fn spec_path_accepts(p: ExecPathV, vals: Seq<ArgState>) -> bool {
    match p {
        ExecPathV::Nop => true,
        ExecPathV::Arith(u) => crate::arithmetic_unit::arith_accepts(u, vals),
    }
}

/// The effect of a successful issue on a path, per its class.
pub open spec fn path_issued_rel(
    p0: ExecPathV,
    p1: ExecPathV,
    tag: (Seq<char>, nat),
    op: Seq<char>,
    vals: Seq<ArgState>,
) -> bool {
    match p0 {
        ExecPathV::Nop => p1 == p0 && tag == ("nop1"@, 0nat),
        ExecPathV::Arith(u0) => p1 matches ExecPathV::Arith(u1)
            && crate::arithmetic_unit::arith_issued_rel(u0, u1, tag, op, vals),
    }
}

/// Whether a path is idle in spec terms.
pub open spec fn spec_path_idle(p: ExecPathV) -> bool {
    match p {
        ExecPathV::Nop => true,
        ExecPathV::Arith(u) => crate::reservation_station::count_occupied(u.slots) == 0,
    }
}

impl ExecPath {
    /// The path's name.
    pub fn name(&self) -> (r: String)
        ensures
            r@ == spec_path_name(self@),
    {
        match self {
            ExecPath::Nop(u) => u.name(),
            ExecPath::Arith(u) => u.name(),
        }
    }

    /// The name of the path's class of functional unit.
    pub fn function(&self) -> (r: String)
        ensures
            (self@ is Nop ==> r@ == "nop"@) && (self@ is Arith ==> r@ == "arith"@),
    {
        match self {
            ExecPath::Nop(u) => u.function(),
            ExecPath::Arith(u) => u.function(),
        }
    }

    /// The formats of every instruction the path implements.
    pub fn list_insts(&self) -> (r: Vec<InstFormat>)
        ensures
            r@.map_values(|f: InstFormat| f@.name) == spec_path_ops(self@),
            forall|i: int, j: int|
                0 <= i < j < r@.len() ==> (#[trigger] r@[i])@.name != (#[trigger] r@[j])@.name,
    {
        let r = match self {
            ExecPath::Nop(u) => u.list_insts(),
            ExecPath::Arith(u) => u.list_insts(),
        };
        proof {
            broadcast use vstd::string::group_string_axioms;

            reveal_strlit("nop");
            reveal_strlit("add");
            reveal_strlit("addi");
            reveal_strlit("mul");
            reveal_strlit("muli");
            assert("add"@.len() == 3);
            assert("addi"@.len() == 4);
            assert("muli"@.len() == 4);
            assert("mul"@.len() == 3);
            assert("add"@[0] == 'a');
            assert("mul"@[0] == 'm');
            assert("addi"@[0] == 'a');
            assert("muli"@[0] == 'm');
            assert("add"@ != "addi"@);
            assert("add"@ != "muli"@);
            assert("add"@ != "mul"@);
            assert("addi"@ != "muli"@);
            assert("addi"@ != "mul"@);
            assert("muli"@ != "mul"@);
            assert(r@.map_values(|f: InstFormat| f@.name) =~= spec_path_ops(self@));
        }
        r
    }

    /// Forward a `(tag, val)` broadcast into the path.
    pub fn forward(&mut self, tag: RStag, val: u32)
        ensures
            path_forwarded(old(self)@, final(self)@, tag@, val),
            (match *old(self) {
                ExecPath::Nop(_) => *final(self) == *old(self),
                ExecPath::Arith(u) => (*final(self)) matches ExecPath::Arith(u2) && u2@.name
                    == u@.name && u2@.stage == u@.stage && u2@.slots
                    == crate::arithmetic_unit::spec_unit_forward(u@.slots, u@.name, tag@, val),
            }),
    {
        match self {
            ExecPath::Nop(u) => u.forward(tag, val),
            ExecPath::Arith(u) => u.forward(tag, val),
        }
    }

    /// Try to issue one instruction with its renamed operands.
    pub fn try_issue(&mut self, inst: String, vals: &[ArgState]) -> (r: Result<RStag, ()>)
        ensures
            (match *old(self) {
                ExecPath::Nop(_) => *final(self) == *old(self) && (r matches Ok(tag) && tag@ == (
                "nop1"@,
                0nat,
                )),
                ExecPath::Arith(_) => (*final(self)) is Arith && (r matches Ok(tag) ==> tag@.0
                    == spec_path_name(old(self)@)),
            }),
            r is Err ==> *final(self) == *old(self),
            spec_path_name(final(self)@) == spec_path_name(old(self)@),
            r is Ok <==> spec_path_accepts(old(self)@, vals@),
            r matches Ok(tag) ==> path_issued_rel(old(self)@, final(self)@, tag@, inst@, vals@),
    {
        match self {
            ExecPath::Nop(u) => u.try_issue(inst, vals),
            ExecPath::Arith(u) => u.try_issue(inst, vals),
        }
    }

    /// Advance the path one cycle against the shared result bus.
    pub fn next_cycle(&mut self, bus: &mut ResultBus) -> (r: Result<(), String>)
        ensures
            r is Ok,
            spec_path_name(final(self)@) == spec_path_name(old(self)@),
            (match *old(self) {
                ExecPath::Nop(_) => *final(self) == *old(self) && final(bus)@ == old(bus)@,
                ExecPath::Arith(u) => (*final(self)) matches ExecPath::Arith(u2) && (u2@, final(bus)@)
                    == crate::arithmetic_unit::spec_arith_step(u@, old(bus)@),
            }),
    {
        match self {
            ExecPath::Nop(u) => u.next_cycle(bus),
            ExecPath::Arith(u) => u.next_cycle(bus),
        }
    }

    /// The number of pending instructions in the path.
    pub fn pending(&self) -> (r: usize)
        ensures
            r as nat == spec_path_pending(self@),
    {
        match self {
            ExecPath::Nop(u) => u.pending(),
            ExecPath::Arith(u) => u.pending(),
        }
    }

    /// Whether the path holds no in-flight instruction.
    pub fn is_idle(&self) -> (r: bool)
        ensures
            r == spec_path_idle(self@),
    {
        match self {
            ExecPath::Nop(u) => u.is_idle(),
            ExecPath::Arith(u) => u.is_idle(),
        }
    }
}

} // verus!
