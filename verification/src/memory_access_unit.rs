//! The memory-access functional unit: an address-evaluation FIFO feeding a
//! one-cycle address adder, separate load and store reservation stations with
//! inter-access dependency tracking, and a staging cell for results on their
//! way to the shared bus.

use vstd::prelude::*;

use crate::decoder::{InstFormat, TokenType};
use crate::execution_path::{
    spec_arg_forward, ArgState, BusAccess, BusAccessRequst, BusAccessResult, ExecResult, RStag,
};
use crate::queue::Queue;
use crate::reservation_station::{
    count_occupied, count_pending, RenamedInst, ReservationStation, SlotState,
};
use crate::result_bus::ResultBus;
use crate::util::{spec_be_bytes, str_eq, u32_to_raw_big_endian};

verus! {

/// Capacity of the load reservation station.
pub open spec fn load_station_size() -> nat {
    4
}

/// Capacity of the store reservation station.
pub open spec fn store_station_size() -> nat {
    4
}

/// Whether a memory access reads or writes.
#[derive(Clone, Copy, PartialEq, Eq, Structural, Debug)]
pub enum AccessType {
    Load,
    Store,
}

/// The access type and byte length denoted by an opcode: `l`/`s` selects the
/// direction, a trailing `w` a four-byte word.  Anything else denotes no
/// memory access.
pub open spec fn spec_mem_op(op: Seq<char>) -> Option<(AccessType, nat)> {
    if op.len() >= 2 && op[1] == 'w' {
        if op[0] == 'l' {
            Some((AccessType::Load, 4))
        } else if op[0] == 's' {
            Some((AccessType::Store, 4))
        } else {
            None
        }
    } else {
        None
    }
}

/// Two half-open byte ranges overlap exactly when each starts before the
/// other ends.
pub open spec fn spec_overlap(a0: int, a1: int, b0: int, b1: int) -> bool {
    a1 > b0 && b1 > a0
}

/// Check whether the byte ranges `[a0, a1)` and `[b0, b1)` overlap.
pub fn access_overlap(a0: u32, a1: u32, b0: u32, b1: u32) -> (r: bool)
    ensures
        r == spec_overlap(a0 as int, a1 as int, b0 as int, b1 as int),
{
    !(a1 <= b0 || a0 >= b1)
}

/// The memory address an access is going to touch: already evaluated to an
/// exact number, or still waiting on its base register, plus the immediate
/// offset.
#[derive(Debug)]
pub enum MemAddress {
    Evaluated(u32),
    Evaluating(ArgState, u32),
}

/// The address after a `(tag, val)` broadcast.
pub open spec fn spec_addr_forward(a: MemAddress, tag: (Seq<char>, nat), val: u32) -> MemAddress {
    match a {
        MemAddress::Evaluating(arg, off) => MemAddress::Evaluating(
            spec_arg_forward(arg, tag, val),
            off,
        ),
        MemAddress::Evaluated(_) => a,
    }
}

/// The arguments of a memory access: a load holds only the address, a store
/// also the value to write.
#[derive(Debug)]
pub enum AccessArgs {
    Load(MemAddress),
    Store(ArgState, MemAddress),
}

/// The arguments after a `(tag, val)` broadcast.
pub open spec fn spec_args_forward(a: AccessArgs, tag: (Seq<char>, nat), val: u32) -> AccessArgs {
    match a {
        AccessArgs::Load(addr) => AccessArgs::Load(spec_addr_forward(addr, tag, val)),
        AccessArgs::Store(src, addr) => AccessArgs::Store(
            spec_arg_forward(src, tag, val),
            spec_addr_forward(addr, tag, val),
        ),
    }
}

/// `deps` with every tag equal to `tag` removed, order kept.
pub open spec fn spec_deps_without(deps: Seq<RStag>, tag: (Seq<char>, nat)) -> Seq<RStag>
    decreases deps.len(),
{
    if deps.len() == 0 {
        Seq::empty()
    } else if deps[0]@ == tag {
        spec_deps_without(deps.drop_first(), tag)
    } else {
        seq![deps[0]] + spec_deps_without(deps.drop_first(), tag)
    }
}

/// Dependency-release law: a broadcast removes every copy of its tag from a
/// dependency list, so no access goes on waiting for a result that has
/// already reached the bus; all other dependencies are kept, in order.
pub proof fn lemma_deps_without_complete(deps: Seq<RStag>, tag: (Seq<char>, nat))
    ensures
        forall|k: int|
            0 <= k < spec_deps_without(deps, tag).len() ==> (#[trigger] spec_deps_without(
                deps,
                tag,
            )[k])@ != tag,
    decreases deps.len(),
{
    if deps.len() > 0 {
        lemma_deps_without_complete(deps.drop_first(), tag);
        if deps[0]@ != tag {
            let rest = spec_deps_without(deps.drop_first(), tag);
            assert(forall|k: int|
                1 <= k < spec_deps_without(deps, tag).len() ==> spec_deps_without(deps, tag)[k]
                    == rest[k - 1]);
        }
    }
}

/// A memory-access instruction as held by the evaluation queue and the
/// stations: opcode, arguments, and the tags of earlier overlapping accesses
/// it must wait for.
#[derive(Debug)]
pub struct AccessInst {
    pub name: String,
    pub args: AccessArgs,
    pub dependencies: Vec<RStag>,
}

/// The argument-state list of an access, base address last: `[addr]` for a
/// load, `[value, addr]` for a store.
pub open spec fn spec_inst_args(inst: AccessInst) -> Seq<ArgState> {
    match inst.args {
        AccessArgs::Load(addr) => seq![spec_addr_arg(addr)],
        AccessArgs::Store(src, addr) => seq![src, spec_addr_arg(addr)],
    }
}

/// The address position as one argument state.
pub open spec fn spec_addr_arg(a: MemAddress) -> ArgState {
    match a {
        MemAddress::Evaluated(b) => ArgState::Ready(b),
        MemAddress::Evaluating(arg, _) => arg,
    }
}

/// The evaluated base address of an access, when its address argument is
/// ready.
pub open spec fn spec_inst_base(inst: AccessInst) -> Option<u32> {
    match spec_addr_arg(spec_inst_addr(inst)) {
        ArgState::Ready(b) => Some(b),
        ArgState::Waiting(_) => None,
    }
}

/// The address position of an access.
pub open spec fn spec_inst_addr(inst: AccessInst) -> MemAddress {
    match inst.args {
        AccessArgs::Load(addr) => addr,
        AccessArgs::Store(_, addr) => addr,
    }
}

/// An access instruction is ready exactly when its dependency list is empty
/// and all its value arguments are ready.
pub open spec fn spec_mem_ready(inst: AccessInst) -> bool {
    inst.dependencies@.len() == 0 && (match inst.args {
        AccessArgs::Load(addr) => spec_addr_arg(addr) is Ready,
        AccessArgs::Store(src, addr) => src is Ready && spec_addr_arg(addr) is Ready,
    })
}

/// The instruction after a `(tag, val)` broadcast: arguments take the value,
/// and every copy of the tag leaves the dependency list.  The dependency list
/// is characterized through its view, so the result is a relation.
pub open spec fn mem_forward_rel(a: AccessInst, tag: (Seq<char>, nat), val: u32, b: AccessInst) -> bool {
    b.name == a.name && b.args == spec_args_forward(a.args, tag, val) && b.dependencies@
        == spec_deps_without(a.dependencies@, tag)
}

impl RenamedInst for AccessInst {
    open spec fn spec_ready(&self) -> bool {
        spec_mem_ready(*self)
    }

    open spec fn spec_forward_rel(&self, tag: (Seq<char>, nat), val: u32, to: &Self) -> bool {
        mem_forward_rel(*self, tag, val, *to)
    }

    open spec fn spec_name(&self) -> Seq<char> {
        self.name@
    }

    open spec fn spec_arguments(&self) -> Seq<ArgState> {
        spec_inst_args(*self)
    }

    fn name(&self) -> (r: String) {
        self.name.clone()
    }

    fn arguments(&self) -> (r: Vec<ArgState>) {
        let mut v: Vec<ArgState> = Vec::new();
        match &self.args {
            AccessArgs::Load(addr) => {
                v.push(addr_arg(addr));
            },
            AccessArgs::Store(src, addr) => {
                v.push(src.clone());
                v.push(addr_arg(addr));
            },
        }
        proof {
            assert(v@ =~= spec_inst_args(*self));
        }
        v
    }

    fn is_ready(&self) -> (r: bool) {
        if self.dependencies.len() != 0 {
            return false;
        }
        match &self.args {
            AccessArgs::Load(addr) => addr_arg(addr).val().is_some(),
            AccessArgs::Store(src, addr) => src.val().is_some() && addr_arg(addr).val().is_some(),
        }
    }

    fn forwarding(&mut self, tag: &RStag, val: u32) {
        match &mut self.args {
            AccessArgs::Load(addr) => {
                addr_forward(addr, tag, val);
            },
            AccessArgs::Store(src, addr) => {
                src.forwarding(tag, val);
                addr_forward(addr, tag, val);
            },
        }
        self.drop_dependency(tag);
    }
}

/// The address position cloned into one argument state.
fn addr_arg(a: &MemAddress) -> (r: ArgState)
    ensures
        r == spec_addr_arg(*a),
{
    match a {
        MemAddress::Evaluated(b) => ArgState::Ready(*b),
        MemAddress::Evaluating(arg, _) => arg.clone(),
    }
}

/// Forward a broadcast into the address position.
fn addr_forward(a: &mut MemAddress, tag: &RStag, val: u32)
    ensures
        *final(a) == spec_addr_forward(*old(a), tag@, val),
{
    match a {
        MemAddress::Evaluating(arg, _) => {
            arg.forwarding(tag, val);
        },
        MemAddress::Evaluated(_) => {},
    }
}

impl AccessInst {
    /// Remove every copy of `tag` from the dependency list; the instruction
    /// stops waiting on a resolved access.
    fn drop_dependency(&mut self, tag: &RStag)
        ensures
            final(self).name == old(self).name,
            final(self).args == old(self).args,
            final(self).dependencies@ == spec_deps_without(old(self).dependencies@, tag@),
    {
        let n = self.dependencies.len();
        let mut kept: Vec<RStag> = Vec::new();
        let mut i: usize = 0;
        proof {
            assert(self.dependencies@.skip(0) =~= self.dependencies@);
        }
        while i < n
            invariant
                n == self.dependencies@.len(),
                i <= n,
                spec_deps_without(self.dependencies@, tag@) == kept@ + spec_deps_without(
                    self.dependencies@.skip(i as int),
                    tag@,
                ),
            decreases n - i,
        {
            let ghost pre = kept@;
            let dep = self.dependencies[i].clone();
            proof {
                assert(self.dependencies@.skip(i as int)[0] == self.dependencies@[i as int]);
                assert(self.dependencies@.skip(i as int).drop_first() =~= self.dependencies@.skip(
                    i as int + 1,
                ));
            }
            if !(dep == *tag) {
                kept.push(dep);
                proof {
                    assert(kept@ =~= pre.push(old(self).dependencies@[i as int]));
                    assert(seq![old(self).dependencies@[i as int]] + spec_deps_without(
                        self.dependencies@.skip(i as int + 1),
                        tag@,
                    ) =~= spec_deps_without(self.dependencies@.skip(i as int), tag@));
                }
            }
            i = i + 1;
        }
        proof {
            assert(self.dependencies@.skip(n as int) =~= Seq::<RStag>::empty());
            assert(spec_deps_without(self.dependencies@, tag@) =~= kept@);
        }
        self.dependencies = kept;
    }
}

/// The one-cycle address adder.
#[derive(Debug)]
struct EvaluationUnit {
    remain_cycle: usize,
    result: u32,
}

/// Spec-level contents of the address adder.
pub ghost struct EvalV {
    pub remain: nat,
    pub result: u32,
}

impl View for EvaluationUnit {
    type V = EvalV;

    closed spec fn view(&self) -> EvalV {
        EvalV { remain: self.remain_cycle as nat, result: self.result }
    }
}

impl EvaluationUnit {
    /// Seed the adder: the effective address is `base + offset`, modulo 2^32.
    fn exec(base: u32, offset: u32) -> (r: Self)
        ensures
            r@.remain == 1,
            r@.result == ((base + offset) % 0x1_0000_0000) as u32,
    {
        let sum = (((base as u64) + (offset as u64)) % 0x1_0000_0000) as u32;
        Self { remain_cycle: 1, result: sum }
    }

    /// One tick: report the sum once the single wait cycle has passed.
    fn next_cycle(&mut self) -> (r: Option<u32>)
        ensures
            old(self)@.remain == 0 ==> r == Some(old(self)@.result) && final(self)@ == old(self)@,
            old(self)@.remain > 0 ==> r is None && final(self)@ == (EvalV {
                remain: (old(self)@.remain - 1) as nat,
                result: old(self)@.result,
            }),
    {
        if self.remain_cycle == 0 {
            Some(self.result)
        } else {
            self.remain_cycle = self.remain_cycle - 1;
            None
        }
    }
}

/// Logical slot index of a physical station slot: loads keep their index,
/// stores come after the whole load station.
pub open spec fn spec_phys_to_logical(ty: AccessType, phy: nat) -> nat {
    match ty {
        AccessType::Load => phy,
        AccessType::Store => load_station_size() + phy,
    }
}

/// Whether a slot holds a pending or executing access whose base is ready
/// and whose byte range overlaps `[t0, t1)`.
pub open spec fn spec_slot_dep(s: SlotState<AccessInst>, t0: int, t1: int) -> bool {
    match s {
        SlotState::Pending(inst) => spec_inst_overlaps(inst, t0, t1),
        SlotState::Executing(inst) => spec_inst_overlaps(inst, t0, t1),
        _ => false,
    }
}

/// Whether an access with a ready base covers bytes overlapping `[t0, t1)`.
pub open spec fn spec_inst_overlaps(inst: AccessInst, t0: int, t1: int) -> bool {
    match spec_inst_base(inst) {
        Some(b) => spec_mem_op(inst.name@) matches Some((_ty, len)) && spec_overlap(
            b as int,
            b as int + len,
            t0,
            t1,
        ),
        None => false,
    }
}

/// The dependency tags contributed by one station, scanned from slot `i` on:
/// for every pending or executing access with a ready base overlapping
/// `[t0, t1)`, the tag of its logical slot, in slot order.
pub open spec fn spec_scan(
    slots: Seq<SlotState<AccessInst>>,
    ty: AccessType,
    name: Seq<char>,
    t0: int,
    t1: int,
    i: int,
) -> Seq<(Seq<char>, nat)>
    decreases slots.len() - i,
{
    if i < 0 || i >= slots.len() {
        Seq::empty()
    } else {
        let rest = spec_scan(slots, ty, name, t0, t1, i + 1);
        if spec_slot_dep(slots[i], t0, t1) {
            seq![(name, spec_phys_to_logical(ty, i as nat))] + rest
        } else {
            rest
        }
    }
}

/// Dependency-scan completeness: every pending or executing access whose
/// byte range overlaps the scanned range is named in the scan's result, under
/// the tag of its logical slot.  A new access therefore waits on every
/// conflicting in-flight access of a scanned station.
pub proof fn lemma_scan_complete(
    slots: Seq<SlotState<AccessInst>>,
    ty: AccessType,
    name: Seq<char>,
    t0: int,
    t1: int,
    phy: int,
)
    requires
        0 <= phy < slots.len(),
        spec_slot_dep(slots[phy], t0, t1),
    ensures
        spec_scan(slots, ty, name, t0, t1, 0).contains((name, spec_phys_to_logical(ty, phy as nat))),
{
    lemma_scan_complete_from(slots, ty, name, t0, t1, phy, 0);
}

proof fn lemma_scan_complete_from(
    slots: Seq<SlotState<AccessInst>>,
    ty: AccessType,
    name: Seq<char>,
    t0: int,
    t1: int,
    phy: int,
    k: int,
)
    requires
        0 <= k <= phy < slots.len(),
        spec_slot_dep(slots[phy], t0, t1),
    ensures
        spec_scan(slots, ty, name, t0, t1, k).contains((name, spec_phys_to_logical(ty, phy as nat))),
    decreases phy - k,
{
    let tag = (name, spec_phys_to_logical(ty, phy as nat));
    if k == phy {
        assert(spec_scan(slots, ty, name, t0, t1, k)[0] == tag);
    } else {
        lemma_scan_complete_from(slots, ty, name, t0, t1, phy, k + 1);
        let rest = spec_scan(slots, ty, name, t0, t1, k + 1);
        let i = choose|i: int| 0 <= i < rest.len() && rest[i] == tag;
        if spec_slot_dep(slots[k], t0, t1) {
            assert(spec_scan(slots, ty, name, t0, t1, k)[i + 1] == tag);
        }
    }
}

/// The whole dependency list of a new access of type `ty` over `[t0, t1)`:
/// stores in flight always matter; an incoming store also waits for loads in
/// flight.  Loads do not depend on loads.
pub open spec fn spec_dependencies(
    load_slots: Seq<SlotState<AccessInst>>,
    store_slots: Seq<SlotState<AccessInst>>,
    ty: AccessType,
    name: Seq<char>,
    t0: int,
    t1: int,
) -> Seq<(Seq<char>, nat)> {
    spec_scan(store_slots, AccessType::Store, name, t0, t1, 0) + (if ty is Store {
        spec_scan(load_slots, AccessType::Load, name, t0, t1, 0)
    } else {
        Seq::empty()
    })
}

/// The opcodes a memory unit implements, in registration order.
pub open spec fn spec_mem_ops() -> Seq<Seq<char>> {
    seq!["lw"@, "sw"@]
}

/// Spec-level state of a memory-access unit.
pub ghost struct MemUnitV {
    pub name: Seq<char>,
    pub queue: Seq<(usize, AccessInst)>,
    pub evaluating: Option<EvalV>,
    pub load_slots: Seq<SlotState<AccessInst>>,
    pub store_slots: Seq<SlotState<AccessInst>>,
    pub staged: Option<(usize, ExecResult)>,
}

/// Whether the unit can accept an issue of `op` with operand list `vals`:
/// room in the evaluation queue, a well-formed access with a ready immediate
/// offset, and a free slot in the station the opcode selects.
pub open spec fn mem_accepts(u: MemUnitV, op: Seq<char>, vals: Seq<ArgState>) -> bool {
    let opv = spec_mem_op(op);
    let acceptable = opv is Some && (if (opv->0).0 is Load {
        vals.len() == 2 && vals[1] is Ready
    } else {
        vals.len() == 3 && vals[2] is Ready
    });
    let slots = if opv is Some && (opv->0).0 is Load {
        u.load_slots
    } else {
        u.store_slots
    };
    u.queue.len() < load_station_size() + store_station_size() && acceptable && count_occupied(
        slots,
    ) < slots.len()
}

/// The effect of a successful issue: the first empty slot of the selected
/// station is reserved, the packed access joins the back of the evaluation
/// queue, and the minted tag names the unit's logical slot.
pub open spec fn mem_issued_rel(
    u0: MemUnitV,
    u1: MemUnitV,
    tag: (Seq<char>, nat),
    op: Seq<char>,
    vals: Seq<ArgState>,
) -> bool {
    let ty = (spec_mem_op(op)->0).0;
    let slots = if ty is Load {
        u0.load_slots
    } else {
        u0.store_slots
    };
    &&& u1.name == u0.name
    &&& u1.evaluating == u0.evaluating
    &&& u1.staged == u0.staged
    &&& exists|i: int|
        {
            &&& 0 <= i < slots.len()
            &&& slots[i] is Empty
            &&& (forall|j: int| 0 <= j < i ==> !((#[trigger] slots[j]) is Empty))
            &&& tag == (u0.name, spec_phys_to_logical(ty, i as nat))
            &&& (if ty is Load {
                u1.load_slots == slots.update(i, SlotState::Reserved) && u1.store_slots
                    == u0.store_slots
            } else {
                u1.store_slots == slots.update(i, SlotState::Reserved) && u1.load_slots
                    == u0.load_slots
            })
            &&& u1.queue.len() == u0.queue.len() + 1
            &&& u1.queue.drop_last() == u0.queue
            &&& (#[trigger] u1.queue.last()).0 == i
            &&& u1.queue.last().1.name@ == op
            &&& u1.queue.last().1.dependencies@.len() == 0
            &&& (if ty is Load {
                u1.queue.last().1.args == AccessArgs::Load(
                    MemAddress::Evaluating(vals[0], crate::arithmetic_unit::spec_arg_value(vals[1])),
                )
            } else {
                u1.queue.last().1.args == AccessArgs::Store(
                    vals[0],
                    MemAddress::Evaluating(vals[1], crate::arithmetic_unit::spec_arg_value(vals[2])),
                )
            })
        }
}

/// How a `(tag, val)` broadcast changes a memory unit: its own executing
/// slot resolves when the tag names this unit, every queued access and every
/// pending slot takes the forwarded value, and the adder and staging cell
/// are untouched.
pub open spec fn mem_forwarded_rel(
    u0: MemUnitV,
    u1: MemUnitV,
    tag: (Seq<char>, nat),
    val: u32,
) -> bool {
    &&& u1.name == u0.name
    &&& u1.evaluating == u0.evaluating
    &&& u1.staged == u0.staged
    &&& u1.queue.len() == u0.queue.len()
    &&& (forall|k: int|
        0 <= k < u0.queue.len() ==> (#[trigger] u1.queue[k]).0 == u0.queue[k].0
            && mem_forward_rel(u0.queue[k].1, tag, val, u1.queue[k].1))
    &&& slots_forward_rel(
        spec_resolved(u0.load_slots, u0.store_slots, u0.name, tag).0,
        u1.load_slots,
        tag,
        val,
    )
    &&& slots_forward_rel(
        spec_resolved(u0.load_slots, u0.store_slots, u0.name, tag).1,
        u1.store_slots,
        tag,
        val,
    )
}

/// The memory-access execution path.
#[derive(Debug)]
pub struct Unit {
    name: String,
    /// (reserved physical slot, partially renamed access), in issue order.
    evaluation_queue: Queue<(usize, AccessInst)>,
    evaluating: Option<EvaluationUnit>,
    load_station: ReservationStation<AccessInst>,
    store_station: ReservationStation<AccessInst>,
    /// (logical slot, execution result) waiting for the result bus.
    result: Option<(usize, ExecResult)>,
}

impl View for Unit {
    type V = MemUnitV;

    closed spec fn view(&self) -> MemUnitV {
        MemUnitV {
            name: self.name@,
            queue: self.evaluation_queue@,
            evaluating: match self.evaluating {
                Some(e) => Some(e@),
                None => None,
            },
            load_slots: self.load_station@,
            store_slots: self.store_station@,
            staged: self.result,
        }
    }
}

/// The access type of a queued entry's opcode, for the distinctness part of
/// the invariant.
pub open spec fn queue_entry_type(entry: (usize, AccessInst)) -> Option<AccessType> {
    match spec_mem_op(entry.1.name@) {
        Some((ty, _)) => Some(ty),
        None => None,
    }
}

/// Whether an access instruction's opcode and argument shape agree with the
/// access type `ty`.
pub open spec fn inst_matches_ty(inst: AccessInst, ty: AccessType) -> bool {
    &&& spec_mem_op(inst.name@) matches Some((t, _)) && t == ty
    &&& (match ty {
        AccessType::Load => inst.args is Load,
        AccessType::Store => inst.args is Store,
    })
}

/// Whether every in-flight instruction of a station carries an opcode and
/// argument shape of the station's own access type.
pub open spec fn station_ops_ok(slots: Seq<SlotState<AccessInst>>, ty: AccessType) -> bool {
    forall|i: int|
        0 <= i < slots.len() ==> match #[trigger] slots[i] {
            SlotState::Pending(inst) => inst_matches_ty(inst, ty),
            SlotState::Executing(inst) => inst_matches_ty(inst, ty),
            _ => true,
        }
}

/// The per-cycle-stable part of the invariant: fixed station sizes, every
/// queued access holding a distinct reserved slot of the station its opcode
/// selects, and every station resident matching its station's type.
pub open spec fn mem_unit_wf_core(u: MemUnitV) -> bool {
    &&& u.load_slots.len() == load_station_size()
    &&& u.store_slots.len() == store_station_size()
    &&& station_ops_ok(u.load_slots, AccessType::Load)
    &&& station_ops_ok(u.store_slots, AccessType::Store)
    &&& forall|k: int|
        0 <= k < u.queue.len() ==> {
            let entry = #[trigger] u.queue[k];
            match spec_mem_op(entry.1.name@) {
                Some((AccessType::Load, _)) => inst_matches_ty(entry.1, AccessType::Load)
                    && entry.0 < u.load_slots.len() && u.load_slots[entry.0 as int] is Reserved,
                Some((AccessType::Store, _)) => inst_matches_ty(entry.1, AccessType::Store)
                    && entry.0 < u.store_slots.len() && u.store_slots[entry.0 as int] is Reserved,
                None => false,
            }
        }
    &&& forall|k1: int, k2: int|
        0 <= k1 < k2 < u.queue.len() ==> !((#[trigger] u.queue[k1]).0 == (
        #[trigger] u.queue[k2]).0 && queue_entry_type(u.queue[k1]) == queue_entry_type(
            u.queue[k2],
        ))
}

/// The full structural invariant: additionally, an active address adder
/// always works on the (still queued) head access.
pub open spec fn mem_unit_wf(u: MemUnitV) -> bool {
    mem_unit_wf_core(u) && (u.evaluating is Some ==> u.queue.len() > 0)
}

impl Unit {
    /// Capacity checks used by the queue: the sum of both station sizes.
    pub closed spec fn spec_queue_capacity(&self) -> nat {
        self.evaluation_queue.spec_capacity()
    }

    /// A fresh unit named `mem_access<index>`.
    pub fn new(idx: usize) -> (r: Self)
        ensures
            r@.name == "mem_access"@ + crate::util::spec_dec(idx as nat),
            r.wf(),
            mem_unit_wf(r@),
            r@.queue.len() == 0,
            r@.evaluating is None,
            r@.staged is None,
            forall|i: int| 0 <= i < r@.load_slots.len() ==> r@.load_slots[i] is Empty,
            forall|i: int| 0 <= i < r@.store_slots.len() ==> r@.store_slots[i] is Empty,
            r.spec_queue_capacity() == load_station_size() + store_station_size(),
    {
        let mut name = String::from_str("mem_access");
        let idx_str = crate::util::dec_string(idx);
        name.append(idx_str.as_str());
        Self {
            name,
            evaluation_queue: Queue::new(8),
            evaluating: None,
            load_station: ReservationStation::new(4),
            store_station: ReservationStation::new(4),
            result: None,
        }
    }

    /// The unit's name, which prefixes every tag it mints.
    pub fn name(&self) -> (r: String)
        ensures
            r@ == self@.name,
    {
        self.name.clone()
    }

    /// The class of the functional unit.
    pub fn function(&self) -> (r: String)
        ensures
            r@ == "mem_access"@,
    {
        String::from_str("mem_access")
    }

    /// The formats of the instructions this path implements: `lw Rd, Rs, #o`
    /// and `sw Rs, Rb, #o`.
    pub fn list_insts(&self) -> (r: Vec<InstFormat>)
        ensures
            r@.map_values(|f: InstFormat| f@.name) == spec_mem_ops(),
            forall|i: int, j: int|
                0 <= i < j < r@.len() ==> (#[trigger] r@[i])@.name != (#[trigger] r@[j])@.name,
            r@.len() == 2,
            r@[0]@.name == "lw"@ && r@[0]@.syntax == seq![
                TokenType::Writeback,
                TokenType::Register,
                TokenType::Immediate,
            ],
            r@[1]@.name == "sw"@ && r@[1]@.syntax == seq![
                TokenType::Register,
                TokenType::Register,
                TokenType::Immediate,
            ],
    {
        let mut v: Vec<InstFormat> = Vec::new();
        v.push(
            InstFormat::create("lw")
                .add_syntax(TokenType::Writeback)
                .add_syntax(TokenType::Register)
                .add_syntax(TokenType::Immediate)
                .done(),
        );
        v.push(
            InstFormat::create("sw")
                .add_syntax(TokenType::Register)
                .add_syntax(TokenType::Register)
                .add_syntax(TokenType::Immediate)
                .done(),
        );
        proof {
            broadcast use vstd::string::group_string_axioms;

            reveal_strlit("lw");
            reveal_strlit("sw");
            assert("lw"@.len() == 2);
            assert("sw"@.len() == 2);
            assert("lw"@[0] == 'l');
            assert("sw"@[0] == 's');
            assert("lw"@ != "sw"@);
            assert(v@[0]@.syntax =~= seq![
                TokenType::Writeback,
                TokenType::Register,
                TokenType::Immediate,
            ]);
            assert(v@[1]@.syntax =~= seq![
                TokenType::Register,
                TokenType::Register,
                TokenType::Immediate,
            ]);
            assert(v@.map_values(|f: InstFormat| f@.name) =~= spec_mem_ops());
        }
        v
    }

    /// Parse the opcode's access type and byte length.
    fn parse_op(op: &str) -> (r: Option<(AccessType, usize)>)
        ensures
            match spec_mem_op(op@) {
                Some((ty, len)) => r matches Some((rty, rlen)) && rty == ty && rlen as nat == len,
                None => r is None,
            },
    {
        let n = op.unicode_len();
        if n < 2 {
            return None;
        }
        let c0 = op.get_char(0);
        let c1 = op.get_char(1);
        if c1 != 'w' {
            return None;
        }
        if c0 == 'l' {
            Some((AccessType::Load, 4))
        } else if c0 == 's' {
            Some((AccessType::Store, 4))
        } else {
            None
        }
    }
}

/// Whether a slot holds a pending access that is ready to go.
pub open spec fn mem_slot_ready(s: SlotState<AccessInst>) -> bool {
    s matches SlotState::Pending(p) && spec_mem_ready(p)
}

/// Whether `i` is the first ready pending slot of `s`.
pub open spec fn is_first_ready_mem(s: Seq<SlotState<AccessInst>>, i: int) -> bool {
    0 <= i < s.len() && mem_slot_ready(s[i]) && (forall|j: int|
        0 <= j < i ==> !mem_slot_ready(#[trigger] s[j]))
}

/// The first ready pending slot of `s`, if any.
pub open spec fn spec_first_ready_mem(s: Seq<SlotState<AccessInst>>) -> Option<int> {
    if exists|i: int| is_first_ready_mem(s, i) {
        Some(choose|i: int| is_first_ready_mem(s, i))
    } else {
        None
    }
}

proof fn lemma_first_ready_mem_unique(s: Seq<SlotState<AccessInst>>, i: int, j: int)
    requires
        is_first_ready_mem(s, i),
        is_first_ready_mem(s, j),
    ensures
        i == j,
{
    if i < j {
        assert(!mem_slot_ready(s[i]));
    }
    if j < i {
        assert(!mem_slot_ready(s[j]));
    }
}

/// The arguments with the address position evaluated to `base`.
pub open spec fn spec_args_evaluated(a: AccessArgs, base: u32) -> AccessArgs {
    match a {
        AccessArgs::Load(MemAddress::Evaluating(_, _)) => AccessArgs::Load(
            MemAddress::Evaluated(base),
        ),
        AccessArgs::Store(src, MemAddress::Evaluating(_, _)) => AccessArgs::Store(
            src,
            MemAddress::Evaluated(base),
        ),
        _ => a,
    }
}

/// The `(base, offset)` pair of an access whose base register is ready.
pub open spec fn spec_eval_ready(inst: AccessInst) -> Option<(u32, u32)> {
    match spec_inst_addr(inst) {
        MemAddress::Evaluated(b) => Some((b, 0)),
        MemAddress::Evaluating(arg, off) => match arg {
            ArgState::Ready(b) => Some((b, off)),
            ArgState::Waiting(_) => None,
        },
    }
}

/// The station slots after resolving the unit's own tag: an executing slot
/// named by the tag is freed; everything else is untouched.
pub open spec fn spec_resolved(
    load: Seq<SlotState<AccessInst>>,
    store: Seq<SlotState<AccessInst>>,
    name: Seq<char>,
    tag: (Seq<char>, nat),
) -> (Seq<SlotState<AccessInst>>, Seq<SlotState<AccessInst>>) {
    if tag.0 == name {
        if tag.1 < load.len() {
            if load[tag.1 as int] is Executing {
                (load.update(tag.1 as int, SlotState::Empty), store)
            } else {
                (load, store)
            }
        } else if tag.1 - load.len() < store.len() {
            if store[tag.1 - load.len()] is Executing {
                (load, store.update(tag.1 - load.len(), SlotState::Empty))
            } else {
                (load, store)
            }
        } else {
            (load, store)
        }
    } else {
        (load, store)
    }
}

/// Element-wise forwarding relation between two slot arrays: every pending
/// slot's instruction took the broadcast, everything else is unchanged.
pub open spec fn slots_forward_rel(
    before: Seq<SlotState<AccessInst>>,
    after: Seq<SlotState<AccessInst>>,
    tag: (Seq<char>, nat),
    val: u32,
) -> bool {
    after.len() == before.len() && (forall|i: int|
        0 <= i < before.len() ==> match before[i] {
            SlotState::Pending(inst) => (#[trigger] after[i]) matches SlotState::Pending(to)
                && mem_forward_rel(inst, tag, val, to),
            s => after[i] == s,
        })
}

impl Unit {
    /// The whole structural invariant, including the queue capacity.
    pub closed spec fn wf(&self) -> bool {
        mem_unit_wf(self@) && self.evaluation_queue.spec_capacity() == load_station_size()
            + store_station_size()
    }

    /// The invariant without the adder-head tie, held mid-cycle.
    pub closed spec fn wf_core(&self) -> bool {
        mem_unit_wf_core(self@) && self.evaluation_queue.spec_capacity() == load_station_size()
            + store_station_size()
    }

    /// Broadcast into every queued access.
    fn evaluating_queue_forward(&mut self, tag: &RStag, val: u32)
        ensures
            final(self).name == old(self).name,
            final(self).evaluating == old(self).evaluating,
            final(self).load_station == old(self).load_station,
            final(self).store_station == old(self).store_station,
            final(self).result == old(self).result,
            final(self).evaluation_queue.spec_capacity() == old(
                self,
            ).evaluation_queue.spec_capacity(),
            final(self)@.queue.len() == old(self)@.queue.len(),
            forall|k: int|
                0 <= k < old(self)@.queue.len() ==> (#[trigger] final(self)@.queue[k]).0 == old(
                    self,
                )@.queue[k].0 && mem_forward_rel(
                    old(self)@.queue[k].1,
                    tag@,
                    val,
                    final(self)@.queue[k].1,
                ),
    {
        let n = self.evaluation_queue.len();
        let mut i: usize = 0;
        while i < n
            invariant
                n as nat == self.evaluation_queue@.len(),
                i <= n,
                self.name == old(self).name,
                self.evaluating == old(self).evaluating,
                self.load_station == old(self).load_station,
                self.store_station == old(self).store_station,
                self.result == old(self).result,
                self.evaluation_queue.spec_capacity() == old(
                    self,
                ).evaluation_queue.spec_capacity(),
                forall|k: int|
                    0 <= k < i ==> (#[trigger] self.evaluation_queue@[k]).0 == old(
                        self,
                    ).evaluation_queue@[k].0 && mem_forward_rel(
                        old(self).evaluation_queue@[k].1,
                        tag@,
                        val,
                        self.evaluation_queue@[k].1,
                    ),
                forall|k: int|
                    i <= k < n ==> (#[trigger] self.evaluation_queue@[k]) == old(
                        self,
                    ).evaluation_queue@[k],
            decreases n - i,
        {
            match self.evaluation_queue.get_mut(i) {
                Some(entry) => {
                    let (_, inst) = entry;
                    inst.forwarding(tag, val);
                },
                None => {},
            }
            i = i + 1;
        }
    }

    /// Take a `(tag, val)` broadcast: resolve (free) the unit's own executing
    /// slot when the tag names this unit, then forward the value into the
    /// evaluation queue and both reservation stations.
    pub fn forward(&mut self, tag: RStag, val: u32)
        requires
            old(self).wf(),
        ensures
            final(self).wf(),
            final(self)@.name == old(self)@.name,
            final(self)@.evaluating == old(self)@.evaluating,
            final(self)@.staged == old(self)@.staged,
            final(self)@.queue.len() == old(self)@.queue.len(),
            forall|k: int|
                0 <= k < old(self)@.queue.len() ==> (#[trigger] final(self)@.queue[k]).0 == old(
                    self,
                )@.queue[k].0 && mem_forward_rel(
                    old(self)@.queue[k].1,
                    tag@,
                    val,
                    final(self)@.queue[k].1,
                ),
            slots_forward_rel(
                spec_resolved(old(self)@.load_slots, old(self)@.store_slots, old(self)@.name, tag@).0,
                final(self)@.load_slots,
                tag@,
                val,
            ),
            slots_forward_rel(
                spec_resolved(old(self)@.load_slots, old(self)@.store_slots, old(self)@.name, tag@).1,
                final(self)@.store_slots,
                tag@,
                val,
            ),
    {
        let inst_src = tag.station();
        if str_eq(self.name.as_str(), inst_src.as_str()) {
            let logical = tag.slot();
            let cap = self.load_station.capacity();
            if logical < cap {
                let is_exe = match self.load_station.get_slot(logical) {
                    Some(SlotState::Executing(_)) => true,
                    _ => false,
                };
                if is_exe {
                    self.load_station.sloved(logical);
                }
            } else {
                let phy = logical - cap;
                let is_exe = match self.store_station.get_slot(phy) {
                    Some(SlotState::Executing(_)) => true,
                    _ => false,
                };
                if is_exe {
                    self.store_station.sloved(phy);
                }
            }
        }
        self.evaluating_queue_forward(&tag, val);
        self.load_station.forwarding(&tag, val);
        self.store_station.forwarding(&tag, val);
    }

    /// Issue one decoded access: classify it by its opcode, reserve a slot in
    /// the matching station, and push it onto the address-evaluation queue.
    /// The returned tag names the unit's logical slot.  Issue fails (a stall)
    /// when the queue or the station is full, and refuses an opcode or
    /// argument list that denotes no well-formed access.
    pub fn try_issue(&mut self, inst: String, vals: &[ArgState]) -> (r: Result<RStag, ()>)
        requires
            old(self).wf(),
        ensures
            final(self).wf(),
            final(self)@.name == old(self)@.name,
            final(self)@.evaluating == old(self)@.evaluating,
            final(self)@.staged == old(self)@.staged,
            r is Err ==> *final(self) == *old(self),
            r matches Ok(tag) ==> mem_issued_rel(old(self)@, final(self)@, tag@, inst@, vals@),
            r is Ok <==> mem_accepts(old(self)@, inst@, vals@),
    {
        if self.evaluation_queue.is_full() {
            return Err(());
        }
        let opv = match Self::parse_op(inst.as_str()) {
            Some(o) => o,
            None => {
                return Err(());
            },
        };
        let (ty, _len) = opv;
        // Pack the access; the offset argument must be a ready immediate.
        let packed: AccessInst = match ty {
            AccessType::Load => {
                if vals.len() != 2 {
                    return Err(());
                }
                let offset = match vals[1].val() {
                    Some(v) => v,
                    None => {
                        return Err(());
                    },
                };
                AccessInst {
                    name: inst,
                    args: AccessArgs::Load(MemAddress::Evaluating(vals[0].clone(), offset)),
                    dependencies: Vec::new(),
                }
            },
            AccessType::Store => {
                if vals.len() != 3 {
                    return Err(());
                }
                let offset = match vals[2].val() {
                    Some(v) => v,
                    None => {
                        return Err(());
                    },
                };
                AccessInst {
                    name: inst,
                    args: AccessArgs::Store(
                        vals[0].clone(),
                        MemAddress::Evaluating(vals[1].clone(), offset),
                    ),
                    dependencies: Vec::new(),
                }
            },
        };
        let station = match ty {
            AccessType::Load => &mut self.load_station,
            AccessType::Store => &mut self.store_station,
        };
        if station.is_full() {
            return Err(());
        }
        proof {
            match ty {
                AccessType::Load => {
                    crate::reservation_station::lemma_occupied_all(old(self)@.load_slots);
                },
                AccessType::Store => {
                    crate::reservation_station::lemma_occupied_all(old(self)@.store_slots);
                },
            }
        }
        let phy = match station.reserve() {
            Some(p) => p,
            None => {
                proof {
                    assert(false);
                }
                return Err(());
            },
        };
        let logical = match ty {
            AccessType::Load => phy,
            AccessType::Store => self.load_station.capacity() + phy,
        };
        let tag = RStag::new(self.name.as_str(), logical);
        let insert_result = self.evaluation_queue.insert((phy, packed));
        proof {
            assert(insert_result is Ok);
            assert(final(self)@.queue.drop_last() =~= old(self)@.queue);
            crate::reservation_station::lemma_station_counts(old(self)@.load_slots);
            crate::reservation_station::lemma_station_counts(old(self)@.store_slots);
        }
        Ok(tag)
    }

    /// The tags of every in-flight access in the chosen station overlapping
    /// `[t0, t1)`, in slot order.
    fn dependency_check_of_station(&self, access_type: AccessType, t0: u64, t1: u64) -> (r: Vec<
        RStag,
    >)
        requires
            self@.load_slots.len() == load_station_size(),
            self@.store_slots.len() == store_station_size(),
        ensures
            ({
                let slots = if access_type is Load {
                    self@.load_slots
                } else {
                    self@.store_slots
                };
                r@.map_values(|t: RStag| t@) == spec_scan(
                    slots,
                    access_type,
                    self@.name,
                    t0 as int,
                    t1 as int,
                    0,
                )
            }),
    {
        let station = match access_type {
            AccessType::Load => &self.load_station,
            AccessType::Store => &self.store_station,
        };
        let ghost slots = station@;
        let n = station.capacity();
        let mut deps: Vec<RStag> = Vec::new();
        let mut phy: usize = 0;
        while phy < n
            invariant
                n as nat == slots.len(),
                slots == station@,
                slots == (if access_type is Load {
                    self@.load_slots
                } else {
                    self@.store_slots
                }),
                phy <= n,
                n == 4,
                spec_scan(slots, access_type, self@.name, t0 as int, t1 as int, 0) == deps@.map_values(
                    |t: RStag| t@,
                ) + spec_scan(slots, access_type, self@.name, t0 as int, t1 as int, phy as int),
            decreases n - phy,
        {
            let ghost prev = deps@.map_values(|t: RStag| t@);
            let slot_ref = station.get_slot(phy);
            let mut overlaps: bool = false;
            match slot_ref {
                Some(slot) => {
                    proof {
                        assert(*slot == slots[phy as int]);
                    }
                    match slot {
                        SlotState::Pending(inst) => {
                            proof {
                                assert(slots[phy as int] matches SlotState::Pending(ii) && ii
                                    == *inst);
                            }
                            overlaps = Self::inst_overlaps(inst, t0, t1);
                        },
                        SlotState::Executing(inst) => {
                            proof {
                                assert(slots[phy as int] matches SlotState::Executing(ii) && ii
                                    == *inst);
                            }
                            overlaps = Self::inst_overlaps(inst, t0, t1);
                        },
                        _ => {},
                    }
                },
                None => {},
            }
            proof {
                assert(spec_slot_dep(slots[phy as int], t0 as int, t1 as int) == overlaps);
            }
            if overlaps {
                let logical = match access_type {
                    AccessType::Load => phy,
                    AccessType::Store => 4 + phy,
                };
                let tag = RStag::new(self.name.as_str(), logical);
                deps.push(tag);
                proof {
                    let x = (self@.name, spec_phys_to_logical(access_type, phy as nat));
                    let rest = spec_scan(
                        slots,
                        access_type,
                        self@.name,
                        t0 as int,
                        t1 as int,
                        phy as int + 1,
                    );
                    assert(deps@.map_values(|t: RStag| t@) =~= prev.push(x));
                    assert(spec_scan(slots, access_type, self@.name, t0 as int, t1 as int, phy as int)
                        == seq![x] + rest);
                    assert(prev + (seq![x] + rest) =~= prev.push(x) + rest);
                }
            }
            phy = phy + 1;
        }
        deps
    }

    /// Whether this in-flight access covers bytes overlapping `[t0, t1)`.
    fn inst_overlaps(inst: &AccessInst, t0: u64, t1: u64) -> (r: bool)
        ensures
            r == spec_inst_overlaps(*inst, t0 as int, t1 as int),
    {
        let base = match &inst.args {
            AccessArgs::Load(addr) => addr_arg(addr).val(),
            AccessArgs::Store(_, addr) => addr_arg(addr).val(),
        };
        match base {
            Some(b) => {
                match Self::parse_op(inst.name.as_str()) {
                    Some((_, len)) => {
                        let b0 = b as u64;
                        let b1 = b as u64 + len as u64;
                        !(b1 <= t0 || b0 >= t1)
                    },
                    None => false,
                }
            },
            None => false,
        }
    }

    /// All dependency tags of a new access of type `access_type` over
    /// `[t0, t1)`: loads wait for overlapping stores; stores additionally
    /// wait for overlapping loads.
    fn dependency_check(&self, access_type: AccessType, t0: u64, t1: u64) -> (r: Vec<RStag>)
        requires
            self@.load_slots.len() == load_station_size(),
            self@.store_slots.len() == store_station_size(),
        ensures
            r@.map_values(|t: RStag| t@) == spec_dependencies(
                self@.load_slots,
                self@.store_slots,
                access_type,
                self@.name,
                t0 as int,
                t1 as int,
            ),
    {
        let mut dependencies = self.dependency_check_of_station(AccessType::Store, t0, t1);
        if let AccessType::Store = access_type {
            let mut load_dependencies = self.dependency_check_of_station(AccessType::Load, t0, t1);
            let ghost d0 = dependencies@;
            let ghost l0 = load_dependencies@;
            dependencies.append(&mut load_dependencies);
            proof {
                assert(dependencies@.map_values(|t: RStag| t@) =~= d0.map_values(|t: RStag| t@)
                    + l0.map_values(|t: RStag| t@));
            }
        }
        proof {
            if !(access_type is Store) {
                assert(dependencies@.map_values(|t: RStag| t@) =~= spec_dependencies(
                    self@.load_slots,
                    self@.store_slots,
                    access_type,
                    self@.name,
                    t0 as int,
                    t1 as int,
                ));
            }
        }
        dependencies
    }
}

/// The value a store is going to write (zero for a load or an unready store;
/// readiness is established before this is used).
pub open spec fn spec_store_val(inst: AccessInst) -> u32 {
    match inst.args {
        AccessArgs::Store(src, _) => crate::arithmetic_unit::spec_arg_value(src),
        AccessArgs::Load(_) => 0,
    }
}

/// The effect on `u` of issuing its queue head, evaluated to address `base`,
/// into its reservation station: the head leaves the queue and its station
/// slot turns from reserved to pending, with the address made concrete and
/// the dependency list filled from a scan of both stations.
pub open spec fn spec_issued_effect(
    u: MemUnitV,
    base: u32,
    vq: Seq<(usize, AccessInst)>,
    vl: Seq<SlotState<AccessInst>>,
    vs: Seq<SlotState<AccessInst>>,
) -> bool {
    &&& u.queue.len() > 0
    &&& vq == u.queue.drop_first()
    &&& ({
        let entry = u.queue[0];
        let ty = queue_entry_type(entry)->0;
        let t0 = base as int;
        let t1 = t0 + 4;
        let deps = spec_dependencies(u.load_slots, u.store_slots, ty, u.name, t0, t1);
        let slots = if ty is Load {
            u.load_slots
        } else {
            u.store_slots
        };
        let final_slots = if ty is Load {
            vl
        } else {
            vs
        };
        &&& (if ty is Load {
            vs == u.store_slots
        } else {
            vl == u.load_slots
        })
        &&& final_slots.len() == slots.len()
        &&& (forall|i: int|
            0 <= i < slots.len() && i != entry.0 ==> final_slots[i] == #[trigger] slots[i])
        &&& final_slots[entry.0 as int] matches SlotState::Pending(inst2) && inst2.name
            == entry.1.name && inst2.args == spec_args_evaluated(entry.1.args, base)
            && inst2.dependencies@.map_values(|t: RStag| t@) == deps
    })
}

/// One whole cycle of a memory unit against the bus: the address adder
/// ticks (issuing a finished evaluation into its station) or is seeded from
/// a ready queue head, and a staged result is driven onto a free bus.
pub open spec fn mem_cycle_rel(u0: MemUnitV, bus0: crate::result_bus::BusV, u1: MemUnitV, bus1: crate::result_bus::BusV) -> bool {
    &&& u1.name == u0.name
    &&& (match u0.evaluating {
        Some(e) => if e.remain > 0 {
            u1.evaluating == Some(EvalV { remain: (e.remain - 1) as nat, result: e.result })
                && u1.queue == u0.queue && u1.load_slots == u0.load_slots && u1.store_slots
                == u0.store_slots
        } else {
            u1.evaluating is None && spec_issued_effect(
                u0,
                e.result,
                u1.queue,
                u1.load_slots,
                u1.store_slots,
            )
        },
        None => {
            let seeded = u0.queue.len() > 0 && spec_eval_ready(u0.queue[0].1) is Some;
            &&& (if seeded {
                u1.evaluating == Some(
                    EvalV {
                        remain: 1,
                        result: (((spec_eval_ready(u0.queue[0].1)->0).0 as int + (spec_eval_ready(
                            u0.queue[0].1,
                        )->0).1 as int) % 0x1_0000_0000) as u32,
                    },
                )
            } else {
                u1.evaluating is None
            })
            &&& u1.queue == u0.queue
            &&& u1.load_slots == u0.load_slots
            &&& u1.store_slots == u0.store_slots
        },
    })
    &&& (match (bus0, u0.staged) {
        (None, Some((lid, res))) => bus1 == Some(((u0.name, lid as nat), res)) && u1.staged
            is None,
        _ => bus1 == bus0 && u1.staged == u0.staged,
    })
}

/// The request a memory unit emits, and how its stations change: the busier
/// lane's first ready access (ties to loads) turns executing and its request
/// carries the unit's logical slot; `None` when nothing is ready.
pub open spec fn mem_request_rel(u0: MemUnitV, u1: MemUnitV, r: Option<BusAccessRequst>) -> bool {
    &&& u1.name == u0.name
    &&& u1.evaluating == u0.evaluating
    &&& u1.queue == u0.queue
    &&& u1.staged == u0.staged
    &&& ({
        let lro = spec_first_ready_mem(u0.load_slots);
        let sro = spec_first_ready_mem(u0.store_slots);
        if lro is None && sro is None {
            r is None && u1.load_slots == u0.load_slots && u1.store_slots == u0.store_slots
        } else {
            let ty = if lro is Some && sro is Some {
                if count_pending(u0.store_slots) > count_pending(u0.load_slots) {
                    AccessType::Store
                } else {
                    AccessType::Load
                }
            } else if lro is Some {
                AccessType::Load
            } else {
                AccessType::Store
            };
            let i = (if ty is Load {
                lro
            } else {
                sro
            })->0;
            let slots = if ty is Load {
                u0.load_slots
            } else {
                u0.store_slots
            };
            let inst = slots[i]->Pending_0;
            &&& r matches Some(req)
            &&& req@.path == u0.name
            &&& req@.slot == spec_phys_to_logical(ty, i as nat)
            &&& (if ty is Load {
                u1.load_slots == slots.update(i, SlotState::Executing(inst)) && u1.store_slots
                    == u0.store_slots && req@.access == BusAccess::Load(spec_inst_base(inst)->0, 4)
            } else {
                u1.store_slots == slots.update(i, SlotState::Executing(inst)) && u1.load_slots
                    == u0.load_slots && (req@.access matches BusAccess::Store(a, bytes) && a
                    == spec_inst_base(inst)->0 && bytes@ == spec_be_bytes(spec_store_val(inst)))
            })
        }
    })
}

impl Unit {
    /// Issue the first instruction of the evaluation queue, with its address
    /// evaluated to `evaluated_base`, into its reservation station.  The
    /// returned index is the logical slot it went to.
    fn issue_evaluated_instruction_to_station(&mut self, evaluated_base: u32) -> (r: Result<
        usize,
        String,
    >)
        requires
            old(self).wf_core(),
            old(self)@.queue.len() > 0,
        ensures
            final(self).wf_core(),
            r is Ok,
            final(self)@.name == old(self)@.name,
            final(self)@.evaluating == old(self)@.evaluating,
            final(self)@.staged == old(self)@.staged,
            spec_issued_effect(
                old(self)@,
                evaluated_base,
                final(self)@.queue,
                final(self)@.load_slots,
                final(self)@.store_slots,
            ),
    {
        let ghost u0 = self@;
        let popped = self.evaluation_queue.pop();
        let (reserved_id, issuing) = match popped {
            Some(x) => x,
            None => {
                proof {
                    assert(false);
                }
                return Err(String::from_str("Evaluation queue unexpectedly empty"));
            },
        };
        let opv = match Self::parse_op(issuing.name.as_str()) {
            Some(o) => o,
            None => {
                proof {
                    assert(queue_entry_type(u0.queue[0]) is Some);
                    assert(false);
                }
                return Err(String::from_str("Malformed access opcode"));
            },
        };
        let (ty, len) = opv;
        let t0 = evaluated_base as u64;
        let t1 = t0 + len as u64;
        let deps = self.dependency_check(ty, t0, t1);
        let AccessInst { name, args, dependencies: _ } = issuing;
        let new_args = match args {
            AccessArgs::Load(MemAddress::Evaluating(_, _)) => AccessArgs::Load(
                MemAddress::Evaluated(evaluated_base),
            ),
            AccessArgs::Store(src, MemAddress::Evaluating(_, _)) => AccessArgs::Store(
                src,
                MemAddress::Evaluated(evaluated_base),
            ),
            other => other,
        };
        let issuing2 = AccessInst { name, args: new_args, dependencies: deps };
        let insert_result = match ty {
            AccessType::Load => self.load_station.insert_into_reserved_slot(issuing2, reserved_id),
            AccessType::Store => self.store_station.insert_into_reserved_slot(
                issuing2,
                reserved_id,
            ),
        };
        let phy = match insert_result {
            Ok(p) => p,
            Err(e) => {
                proof {
                    assert(false);
                }
                return Err(e);
            },
        };
        let logical = match ty {
            AccessType::Load => phy,
            AccessType::Store => self.load_station.capacity() + phy,
        };
        proof {
            let uf = self@;
            assert(uf.queue == u0.queue.drop_first());
            assert(forall|k: int| 0 <= k < uf.queue.len() ==> uf.queue[k] == u0.queue[k + 1]);
            assert forall|k: int| 0 <= k < uf.queue.len() implies {
                let entry = #[trigger] uf.queue[k];
                match spec_mem_op(entry.1.name@) {
                    Some((AccessType::Load, _)) => inst_matches_ty(entry.1, AccessType::Load)
                        && entry.0 < uf.load_slots.len() && uf.load_slots[
                        entry.0 as int
                    ] is Reserved,
                    Some((AccessType::Store, _)) => inst_matches_ty(entry.1, AccessType::Store)
                        && entry.0 < uf.store_slots.len() && uf.store_slots[
                        entry.0 as int
                    ] is Reserved,
                    None => false,
                }
            } by {
                assert(uf.queue[k] == u0.queue[k + 1]);
                assert(!(u0.queue[0].0 == u0.queue[k + 1].0 && queue_entry_type(u0.queue[0])
                    == queue_entry_type(u0.queue[k + 1])));
            }
            assert forall|k1: int, k2: int| 0 <= k1 < k2 < uf.queue.len() implies !((
            #[trigger] uf.queue[k1]).0 == (#[trigger] uf.queue[k2]).0 && queue_entry_type(
                uf.queue[k1],
            ) == queue_entry_type(uf.queue[k2])) by {
                assert(uf.queue[k1] == u0.queue[k1 + 1]);
                assert(uf.queue[k2] == u0.queue[k2 + 1]);
            }
        }
        Ok(logical)
    }

    /// One cycle: tick the address adder (issuing a finished evaluation into
    /// its station), or seed the adder from the queue head when its base
    /// register is ready; then drive a staged result onto the bus when free.
    pub fn next_cycle(&mut self, bus: &mut ResultBus) -> (r: Result<(), String>)
        requires
            old(self).wf(),
        ensures
            final(self).wf(),
            r is Ok,
            mem_cycle_rel(old(self)@, old(bus)@, final(self)@, final(bus)@),
    {
        let mut finished: Option<u32> = None;
        let mut has_stage = false;
        match &mut self.evaluating {
            Some(evaluating) => {
                has_stage = true;
                finished = evaluating.next_cycle();
            },
            None => {},
        }
        if has_stage {
            if let Some(evaluated_base) = finished {
                let ghost umid = self@;
                proof {
                    assert(umid.queue == old(self)@.queue);
                    assert(umid.load_slots == old(self)@.load_slots);
                    assert(umid.store_slots == old(self)@.store_slots);
                    assert(umid.name == old(self)@.name);
                }
                match self.issue_evaluated_instruction_to_station(evaluated_base) {
                    Ok(_) => {},
                    Err(e) => {
                        return Err(e);
                    },
                }
                proof {
                    assert(old(self)@ == umid);
                }
                self.evaluating = None;
            }
        } else {
            let seed: Option<(u32, u32)> = match self.evaluation_queue.head() {
                Some(entry) => {
                    let (_, to_evaluate) = entry;
                    match &to_evaluate.args {
                        AccessArgs::Load(MemAddress::Evaluated(b)) => Some((*b, 0)),
                        AccessArgs::Load(MemAddress::Evaluating(arg, off)) => match arg.val() {
                            Some(b) => Some((b, *off)),
                            None => None,
                        },
                        AccessArgs::Store(_, MemAddress::Evaluated(b)) => Some((*b, 0)),
                        AccessArgs::Store(_, MemAddress::Evaluating(arg, off)) => match arg.val() {
                            Some(b) => Some((b, *off)),
                            None => None,
                        },
                    }
                },
                None => None,
            };
            if let Some((base, offset)) = seed {
                self.evaluating = Some(EvaluationUnit::exec(base, offset));
            }
        }
        if bus.is_free() {
            if let Some((logical_id, result)) = self.result.take() {
                let tag = RStag::new(self.name.as_str(), logical_id);
                let _ = bus.set(tag, result);
            }
        }
        Ok(())
    }

    /// Emit the next memory-bus request, if any station has a ready access:
    /// the busier lane goes first (more pending instructions wins, a tie goes
    /// to the load station).  The chosen slot turns from pending to executing
    /// and the request carries the unit's logical slot as its handler.
    pub fn request(&mut self) -> (r: Option<BusAccessRequst>)
        requires
            old(self).wf(),
        ensures
            final(self).wf(),
            mem_request_rel(old(self)@, final(self)@, r),
    {
        let ghost u0 = self@;
        let lro = self.load_station.ready();
        let sro = self.store_station.ready();
        proof {
            match lro {
                Some(i) => {
                    assert(is_first_ready_mem(u0.load_slots, i as int));
                    lemma_first_ready_mem_unique(
                        u0.load_slots,
                        i as int,
                        choose|k: int| is_first_ready_mem(u0.load_slots, k),
                    );
                },
                None => {
                    assert forall|k: int| !is_first_ready_mem(u0.load_slots, k) by {
                        if 0 <= k < u0.load_slots.len() {
                            assert(!(u0.load_slots[k] matches SlotState::Pending(p)
                                && p.spec_ready()));
                        }
                    }
                },
            }
            match sro {
                Some(i) => {
                    assert(is_first_ready_mem(u0.store_slots, i as int));
                    lemma_first_ready_mem_unique(
                        u0.store_slots,
                        i as int,
                        choose|k: int| is_first_ready_mem(u0.store_slots, k),
                    );
                },
                None => {
                    assert forall|k: int| !is_first_ready_mem(u0.store_slots, k) by {
                        if 0 <= k < u0.store_slots.len() {
                            assert(!(u0.store_slots[k] matches SlotState::Pending(p)
                                && p.spec_ready()));
                        }
                    }
                },
            }
        }
        let chosen: Option<(AccessType, usize)> = match (lro, sro) {
            (None, None) => None,
            (Some(i), None) => Some((AccessType::Load, i)),
            (None, Some(i)) => Some((AccessType::Store, i)),
            (Some(li), Some(si)) => {
                if self.store_station.pending() > self.load_station.pending() {
                    Some((AccessType::Store, si))
                } else {
                    Some((AccessType::Load, li))
                }
            },
        };
        let (ty, slot_id) = match chosen {
            None => {
                return None;
            },
            Some(x) => x,
        };
        // Gather the request data from the chosen slot.
        let slot_data: Option<(Option<u32>, u32)> = {
            let station = match ty {
                AccessType::Load => &self.load_station,
                AccessType::Store => &self.store_station,
            };
            match station.get_slot(slot_id) {
                Some(slot) => match slot {
                    SlotState::Pending(inst) => {
                        let base = match &inst.args {
                            AccessArgs::Load(addr) => addr_arg(addr).val(),
                            AccessArgs::Store(_, addr) => addr_arg(addr).val(),
                        };
                        let value = match &inst.args {
                            AccessArgs::Store(src, _) => match src.val() {
                                Some(v) => Some(v),
                                None => None,
                            },
                            AccessArgs::Load(_) => None,
                        };
                        match base {
                            Some(b) => Some((value, b)),
                            None => None,
                        }
                    },
                    _ => None,
                },
                None => None,
            }
        };
        let (value, address) = match slot_data {
            Some(x) => x,
            None => {
                proof {
                    assert(false);
                }
                return None;
            },
        };
        let logical = match ty {
            AccessType::Load => slot_id,
            AccessType::Store => self.load_station.capacity() + slot_id,
        };
        let path = self.name.clone();
        let request = match ty {
            AccessType::Load => BusAccessRequst::new_load(path, logical, address, 4),
            AccessType::Store => {
                let v = match value {
                    Some(v) => v,
                    None => {
                        proof {
                            assert(false);
                        }
                        0
                    },
                };
                let raw = u32_to_raw_big_endian(v);
                BusAccessRequst::new_store(path, logical, address, raw)
            },
        };
        let start_result = match ty {
            AccessType::Load => self.load_station.start_execute(slot_id),
            AccessType::Store => self.store_station.start_execute(slot_id),
        };
        proof {
            assert(start_result is Ok);
        }
        Some(request)
    }

    /// Stage an answered memory access for the result bus: a load's bytes, a
    /// completed store, or the error carried by the response.
    pub fn response(&mut self, slot: usize, response: Result<BusAccessResult, String>)
        requires
            old(self).wf(),
        ensures
            final(self).wf(),
            final(self)@.name == old(self)@.name,
            final(self)@.evaluating == old(self)@.evaluating,
            final(self)@.queue == old(self)@.queue,
            final(self)@.load_slots == old(self)@.load_slots,
            final(self)@.store_slots == old(self)@.store_slots,
            final(self)@.staged matches Some((s, res)) && s == slot && (match response {
                Ok(BusAccessResult::Load(v)) => res == ExecResult::MemLoad(v),
                Ok(BusAccessResult::Store) => res == ExecResult::MemStore,
                Err(msg) => res == ExecResult::Error(msg),
            }),
    {
        let result = match response {
            Ok(BusAccessResult::Load(value)) => ExecResult::MemLoad(value),
            Ok(BusAccessResult::Store) => ExecResult::MemStore,
            Err(msg) => ExecResult::Error(msg),
        };
        self.result = Some((slot, result));
    }

    /// The number of pending instructions over both stations.
    pub fn pending(&self) -> (r: usize)
        requires
            self.wf(),
        ensures
            r as nat == count_pending(self@.load_slots) + count_pending(self@.store_slots),
    {
        proof {
            crate::reservation_station::lemma_station_counts(self@.load_slots);
            crate::reservation_station::lemma_station_counts(self@.store_slots);
        }
        self.load_station.pending() + self.store_station.pending()
    }

    /// Whether the unit holds no access at all: nothing being evaluated and
    /// both stations empty.
    pub fn is_idle(&self) -> (r: bool)
        ensures
            r == (self@.queue.len() == 0 && count_occupied(self@.load_slots) == 0
                && count_occupied(self@.store_slots) == 0),
    {
        let evaluating = !self.evaluation_queue.is_empty();
        let loading = self.load_station.occupied() != 0;
        let storing = self.store_station.occupied() != 0;
        !(evaluating || loading || storing)
    }
}

} // verus!
