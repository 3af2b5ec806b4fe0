//! The arithmetic functional unit: a reservation station plus a single
//! execution stage with per-opcode cycle latency, driving its result onto the
//! shared result bus.

use vstd::prelude::*;

use crate::decoder::{InstFormat, TokenType};
use crate::execution_path::{spec_arg_forward, ArgState, ExecResult, RStag};
use crate::reservation_station::{count_occupied, count_pending, RenamedInst, ReservationStation, SlotState};
use crate::result_bus::{spec_bus_set, BusV, ResultBus};
use crate::util::{dec_string, spec_dec, str_eq};

verus! {

/// Cycle latency of an arithmetic opcode: one cycle for addition, three for
/// multiplication.
pub open spec fn spec_latency(op: Seq<char>) -> nat {
    if op == "add"@ || op == "addi"@ {
        1
    } else if op == "mul"@ || op == "muli"@ {
        3
    } else {
        0
    }
}

/// The result of an arithmetic opcode on two operands, modulo 2^32: addition
/// and multiplication wrap.
pub open spec fn spec_arith_result(op: Seq<char>, a: u32, b: u32) -> u32 {
    if op == "add"@ || op == "addi"@ {
        ((a + b) % 0x1_0000_0000) as u32
    } else if op == "mul"@ || op == "muli"@ {
        ((a * b) % 0x1_0000_0000) as u32
    } else {
        0
    }
}

/// The concrete value of a ready argument (zero while waiting; readiness is
/// always established before this is used).
pub open spec fn spec_arg_value(a: ArgState) -> u32 {
    match a {
        ArgState::Ready(v) => v,
        ArgState::Waiting(_) => 0,
    }
}

/// An arithmetic instruction after a `(tag, val)` broadcast: each waiting
/// operand that names the tag takes the value.
pub open spec fn spec_arith_forwarded(a: ArithInst, tag: (Seq<char>, nat), val: u32) -> ArithInst {
    ArithInst {
        name: a.name,
        arg0: spec_arg_forward(a.arg0, tag, val),
        arg1: spec_arg_forward(a.arg1, tag, val),
    }
}

/// An arithmetic instruction as held by the reservation station: opcode and
/// its two renamed operands.
#[derive(Debug)]
pub struct ArithInst {
    pub name: String,
    pub arg0: ArgState,
    pub arg1: ArgState,
}

impl RenamedInst for ArithInst {
    open spec fn spec_ready(&self) -> bool {
        self.arg0 is Ready && self.arg1 is Ready
    }

    open spec fn spec_forward_rel(&self, tag: (Seq<char>, nat), val: u32, to: &Self) -> bool {
        *to == spec_arith_forwarded(*self, tag, val)
    }

    open spec fn spec_name(&self) -> Seq<char> {
        self.name@
    }

    open spec fn spec_arguments(&self) -> Seq<ArgState> {
        seq![self.arg0, self.arg1]
    }

    fn name(&self) -> (r: String) {
        self.name.clone()
    }

    fn arguments(&self) -> (r: Vec<ArgState>) {
        let mut v: Vec<ArgState> = Vec::new();
        v.push(self.arg0.clone());
        v.push(self.arg1.clone());
        proof {
            assert(v@ =~= self.spec_arguments());
        }
        v
    }

    fn is_ready(&self) -> (r: bool) {
        let a0 = match self.arg0 {
            ArgState::Ready(_) => true,
            _ => false,
        };
        let a1 = match self.arg1 {
            ArgState::Ready(_) => true,
            _ => false,
        };
        a0 && a1
    }

    fn forwarding(&mut self, tag: &RStag, val: u32) {
        self.arg0.forwarding(tag, val);
        self.arg1.forwarding(tag, val);
    }
}

impl ArithInst {
    /// Pack an opcode and its two renamed operands; refuses any other arity.
    fn new(name: String, renamed_args: &[ArgState]) -> (r: Result<Self, String>)
        ensures
            renamed_args@.len() == 2 ==> (r matches Ok(inst) && inst == (ArithInst {
                name,
                arg0: renamed_args@[0],
                arg1: renamed_args@[1],
            })),
            renamed_args@.len() != 2 ==> r is Err,
    {
        if renamed_args.len() != 2 {
            Err(String::from_str("Expected two arguments"))
        } else {
            Ok(Self { name, arg0: renamed_args[0].clone(), arg1: renamed_args[1].clone() })
        }
    }
}

/// Spec-level contents of the execution stage.
pub ghost struct ExecV {
    pub op: Seq<char>,
    pub cycle: nat,
    pub tag: (Seq<char>, nat),
    pub result: u32,
}

/// The single execution stage: the instruction in flight, its remaining
/// cycles, its destination tag and its precomputed result.
#[derive(Debug)]
struct ExecUnit {
    instruction: String,
    cycle: usize,
    tag: RStag,
    result: u32,
}

impl View for ExecUnit {
    type V = ExecV;

    closed spec fn view(&self) -> ExecV {
        ExecV {
            op: self.instruction@,
            cycle: self.cycle as nat,
            tag: self.tag@,
            result: self.result,
        }
    }
}

impl ExecUnit {
    /// Start executing: latency and result follow the opcode table.
    fn exec(tag: RStag, inst: String, arg0: u32, arg1: u32) -> (r: Self)
        ensures
            r@.op == inst@,
            r@.cycle == spec_latency(inst@),
            r@.tag == tag@,
            r@.result == spec_arith_result(inst@, arg0, arg1),
    {
        let is_add = str_eq(inst.as_str(), "add") || str_eq(inst.as_str(), "addi");
        let is_mul = str_eq(inst.as_str(), "mul") || str_eq(inst.as_str(), "muli");
        proof {
            assert((arg0 as nat) * (arg1 as nat) <= 0xffff_ffff * 0xffff_ffff)
                by (nonlinear_arith)
                requires
                    arg0 <= 0xffff_ffffu32,
                    arg1 <= 0xffff_ffffu32,
            ;
        }
        let (cycle, result): (usize, u32) = if is_add {
            (1, (((arg0 as u64) + (arg1 as u64)) % 0x1_0000_0000) as u32)
        } else if is_mul {
            (3, (((arg0 as u64) * (arg1 as u64)) % 0x1_0000_0000) as u32)
        } else {
            (0, 0)
        };
        Self { instruction: inst, cycle, tag, result }
    }

    /// One tick: count down, and at zero try to drive the result onto the
    /// bus.  Returns whether the stage is done (the bus accepted the result).
    fn next_cycle(&mut self, bus: &mut ResultBus) -> (done: bool)
        ensures
            old(self)@.cycle == 0 ==> (final(bus)@, done) == spec_bus_set(
                old(bus)@,
                old(self)@.tag,
                ExecResult::Arth(old(self)@.result),
            ) && final(self)@ == old(self)@,
            old(self)@.cycle > 0 ==> !done && final(bus)@ == old(bus)@ && final(self)@ == (ExecV {
                cycle: (old(self)@.cycle - 1) as nat,
                ..old(self)@
            }),
    {
        if self.cycle == 0 {
            let tag = self.tag.clone();
            let result = ExecResult::Arth(self.result);
            bus.set(tag, result)
        } else {
            self.cycle = self.cycle - 1;
            false
        }
    }
}

/// Spec-level state of an arithmetic unit.
pub ghost struct ArithUnitV {
    pub name: Seq<char>,
    pub slots: Seq<SlotState<ArithInst>>,
    pub stage: Option<ExecV>,
}

/// Phase one of a cycle: tick the execution stage.  At zero remaining cycles
/// the stage tries the bus; it is cleared only when the bus accepts.
pub open spec fn spec_tick(u: ArithUnitV, bus: BusV) -> (ArithUnitV, BusV) {
    match u.stage {
        None => (u, bus),
        Some(e) => if e.cycle == 0 {
            if bus is None {
                (
                    ArithUnitV { stage: None, ..u },
                    spec_bus_set(bus, e.tag, ExecResult::Arth(e.result)).0,
                )
            } else {
                (u, bus)
            }
        } else {
            (ArithUnitV { stage: Some(ExecV { cycle: (e.cycle - 1) as nat, ..e }), ..u }, bus)
        },
    }
}

/// Whether a slot holds a pending instruction whose operands are both ready.
pub open spec fn arith_slot_ready(s: SlotState<ArithInst>) -> bool {
    s matches SlotState::Pending(p) && p.arg0 is Ready && p.arg1 is Ready
}

/// Whether `i` is the first ready pending slot of `s`.
pub open spec fn is_first_ready(s: Seq<SlotState<ArithInst>>, i: int) -> bool {
    0 <= i < s.len() && arith_slot_ready(s[i]) && (forall|j: int|
        0 <= j < i ==> !arith_slot_ready(#[trigger] s[j]))
}

/// The first ready pending slot of `s`, if any.
pub open spec fn spec_first_ready(s: Seq<SlotState<ArithInst>>) -> Option<int> {
    if exists|i: int| is_first_ready(s, i) {
        Some(choose|i: int| is_first_ready(s, i))
    } else {
        None
    }
}

/// The first-ready index is unique: any two indices that are both first are
/// the same.
pub proof fn lemma_first_ready_unique(s: Seq<SlotState<ArithInst>>, i: int, j: int)
    requires
        is_first_ready(s, i),
        is_first_ready(s, j),
    ensures
        i == j,
{
    if i < j {
        assert(!arith_slot_ready(s[i]));
    }
    if j < i {
        assert(!arith_slot_ready(s[j]));
    }
}

/// Phase two of a cycle: with the execution stage empty, move the first ready
/// pending slot to executing and seed the stage with its snapshot.
pub open spec fn spec_dispatch(u: ArithUnitV) -> ArithUnitV {
    if u.stage is Some {
        u
    } else {
        match spec_first_ready(u.slots) {
            Some(i) => {
                let inst = u.slots[i]->Pending_0;
                ArithUnitV {
                    slots: u.slots.update(i, SlotState::Executing(inst)),
                    stage: Some(
                        ExecV {
                            op: inst.name@,
                            cycle: spec_latency(inst.name@),
                            tag: (u.name, i as nat),
                            result: spec_arith_result(
                                inst.name@,
                                spec_arg_value(inst.arg0),
                                spec_arg_value(inst.arg1),
                            ),
                        },
                    ),
                    ..u
                }
            },
            None => u,
        }
    }
}

/// Writeback fidelity: while the execution stage waits for the bus, its
/// destination tag and precomputed result are never altered, and the cycle in
/// which it is cleared is exactly the cycle its `(tag, result)` pair reaches
/// the bus.  However many cycles a dependent instruction waits, the value it
/// is forwarded is the producer's own result under the producer's own tag.
pub proof fn lemma_stage_delivers_its_result(u: ArithUnitV, bus: BusV)
    requires
        u.stage is Some,
    ensures
        ({
            let e = u.stage->0;
            let (u2, bus2) = spec_tick(u, bus);
            &&& (u2.stage matches Some(e2) ==> e2.tag == e.tag && e2.result == e.result && e2.op
                == e.op)
            &&& (u2.stage is None ==> bus2 == Some((e.tag, ExecResult::Arth(e.result))))
        }),
{
}

/// One whole cycle of an arithmetic unit against the bus.
pub open spec fn spec_arith_step(u: ArithUnitV, bus: BusV) -> (ArithUnitV, BusV) {
    let (u1, bus1) = spec_tick(u, bus);
    (spec_dispatch(u1), bus1)
}

/// The effect of a `(tag, val)` broadcast on the unit's slots: the unit's own
/// tag resolves (empties) its slot, then every pending slot's instruction
/// takes the forwarded value.
pub open spec fn spec_unit_forward(
    slots: Seq<SlotState<ArithInst>>,
    name: Seq<char>,
    tag: (Seq<char>, nat),
    val: u32,
) -> Seq<SlotState<ArithInst>> {
    let resolved = if tag.0 == name && tag.1 < slots.len() {
        slots.update(tag.1 as int, SlotState::Empty)
    } else {
        slots
    };
    Seq::new(
        resolved.len(),
        |i: int|
            match resolved[i] {
                SlotState::Pending(inst) => SlotState::Pending(spec_arith_forwarded(inst, tag, val)),
                s => s,
            },
    )
}

/// Whether the unit can accept an issue: exactly two operands were handed
/// over and a slot is empty.
pub open spec fn arith_accepts(u: ArithUnitV, vals: Seq<ArgState>) -> bool {
    vals.len() == 2 && exists|i: int| 0 <= i < u.slots.len() && (#[trigger] u.slots[i]) is Empty
}

/// The effect of a successful issue: the first empty slot turns pending with
/// the packed instruction, the minted tag names that slot, and nothing else
/// of the unit changes.
pub open spec fn arith_issued_rel(
    u0: ArithUnitV,
    u1: ArithUnitV,
    tag: (Seq<char>, nat),
    op: Seq<char>,
    vals: Seq<ArgState>,
) -> bool {
    exists|i: int|
        {
            &&& 0 <= i < u0.slots.len()
            &&& u0.slots[i] is Empty
            &&& (forall|j: int| 0 <= j < i ==> !((#[trigger] u0.slots[j]) is Empty))
            &&& tag == (u0.name, i as nat)
            &&& u1.name == u0.name
            &&& u1.stage == u0.stage
            &&& u1.slots.len() == u0.slots.len()
            &&& (forall|j: int| 0 <= j < u0.slots.len() && j != i ==> u1.slots[j] == #[trigger] u0.slots[j])
            &&& ((#[trigger] u1.slots[i]) matches SlotState::Pending(p) && p.name@ == op && p.arg0
                == vals[0] && p.arg1 == vals[1])
        }
}

/// An arithmetic execution path: its name, a two-slot reservation station,
/// and the single execution stage.
#[derive(Debug)]
pub struct Unit {
    name: String,
    station: ReservationStation<ArithInst>,
    stage: Option<ExecUnit>,
}

impl View for Unit {
    type V = ArithUnitV;

    closed spec fn view(&self) -> ArithUnitV {
        ArithUnitV {
            name: self.name@,
            slots: self.station@,
            stage: match self.stage {
                Some(e) => Some(e@),
                None => None,
            },
        }
    }
}

impl Unit {
    /// A fresh unit named `arith<index>` with a two-slot station.
    pub fn new(index: usize) -> (r: Self)
        ensures
            r@.name == "arith"@ + spec_dec(index as nat),
            r@.slots.len() == 2,
            forall|i: int| 0 <= i < 2 ==> r@.slots[i] is Empty,
            r@.stage is None,
    {
        let mut name = String::from_str("arith");
        let idx = dec_string(index);
        name.append(idx.as_str());
        Self { name, station: ReservationStation::new(2), stage: None }
    }

    /// The unit's name, which prefixes every tag it mints.
    pub fn name(&self) -> (r: String)
        ensures
            r@ == self@.name,
    {
        self.name.clone()
    }

    /// The class of the functional unit.
    pub fn function(&self) -> (r: String)
        ensures
            r@ == "arith"@,
    {
        String::from_str("arith")
    }

    /// The formats of the instructions this path implements: `add`, `addi`,
    /// `mul` and `muli`, each with a writeback destination and two operands.
    pub fn list_insts(&self) -> (r: Vec<InstFormat>)
        ensures
            r@.len() == 4,
            r@[0]@.name == "add"@ && r@[0]@.syntax == seq![
                TokenType::Writeback,
                TokenType::Register,
                TokenType::Register,
            ],
            r@[1]@.name == "addi"@ && r@[1]@.syntax == seq![
                TokenType::Writeback,
                TokenType::Register,
                TokenType::Immediate,
            ],
            r@[2]@.name == "muli"@ && r@[2]@.syntax == seq![
                TokenType::Writeback,
                TokenType::Register,
                TokenType::Immediate,
            ],
            r@[3]@.name == "mul"@ && r@[3]@.syntax == seq![
                TokenType::Writeback,
                TokenType::Register,
                TokenType::Register,
            ],
    {
        let mut v: Vec<InstFormat> = Vec::new();
        v.push(
            InstFormat::create("add")
                .add_syntax(TokenType::Writeback)
                .add_syntax(TokenType::Register)
                .add_syntax(TokenType::Register)
                .done(),
        );
        v.push(
            InstFormat::create("addi")
                .add_syntax(TokenType::Writeback)
                .add_syntax(TokenType::Register)
                .add_syntax(TokenType::Immediate)
                .done(),
        );
        v.push(
            InstFormat::create("muli")
                .add_syntax(TokenType::Writeback)
                .add_syntax(TokenType::Register)
                .add_syntax(TokenType::Immediate)
                .done(),
        );
        v.push(
            InstFormat::create("mul")
                .add_syntax(TokenType::Writeback)
                .add_syntax(TokenType::Register)
                .add_syntax(TokenType::Register)
                .done(),
        );
        proof {
            assert(v@[0]@.syntax =~= seq![
                TokenType::Writeback,
                TokenType::Register,
                TokenType::Register,
            ]);
            assert(v@[1]@.syntax =~= seq![
                TokenType::Writeback,
                TokenType::Register,
                TokenType::Immediate,
            ]);
            assert(v@[2]@.syntax =~= seq![
                TokenType::Writeback,
                TokenType::Register,
                TokenType::Immediate,
            ]);
            assert(v@[3]@.syntax =~= seq![
                TokenType::Writeback,
                TokenType::Register,
                TokenType::Register,
            ]);
        }
        v
    }

    /// Take a `(tag, val)` broadcast from the result bus: resolve the unit's
    /// own slot when the tag is its own, and forward into every pending slot.
    pub fn forward(&mut self, tag: RStag, val: u32)
        ensures
            final(self)@.name == old(self)@.name,
            final(self)@.stage == old(self)@.stage,
            final(self)@.slots == spec_unit_forward(old(self)@.slots, old(self)@.name, tag@, val),
    {
        let inst_src = tag.station();
        if str_eq(self.name.as_str(), inst_src.as_str()) {
            let idx = tag.slot();
            self.station.sloved(idx);
        }
        self.station.forwarding(&tag, val);
        proof {
            assert(final(self)@.slots =~= spec_unit_forward(
                old(self)@.slots,
                old(self)@.name,
                tag@,
                val,
            ));
        }
    }

    /// Issue one instruction: pack it with its renamed operands and place it
    /// into the first empty slot.  The returned tag names that slot.  Issue
    /// fails (a stall, not an error) when the station is full, and refuses an
    /// argument list that is not two long.
    pub fn try_issue(&mut self, inst: String, renamed_args: &[ArgState]) -> (r: Result<RStag, ()>)
        ensures
            final(self)@.name == old(self)@.name,
            final(self)@.stage == old(self)@.stage,
            r is Err ==> *final(self) == *old(self),
            r is Ok <==> arith_accepts(old(self)@, renamed_args@),
            r matches Ok(tag) ==> arith_issued_rel(
                old(self)@,
                final(self)@,
                tag@,
                inst@,
                renamed_args@,
            ),
    {
        let ghost instv = inst@;
        let packed = match ArithInst::new(inst, renamed_args) {
            Ok(p) => p,
            Err(_) => {
                return Err(());
            },
        };
        match self.station.insert(packed) {
            Some(idx) => {
                let tag = RStag::new(self.name.as_str(), idx);
                proof {
                    let i = idx as int;
                    assert(self@.slots[i] matches SlotState::Pending(p) && p.name@ == instv
                        && p.arg0 == renamed_args@[0] && p.arg1 == renamed_args@[1]);
                    assert(forall|j: int|
                        0 <= j < old(self)@.slots.len() && j != i ==> self@.slots[j] == #[trigger] old(self)@.slots[j]);
                    assert(arith_issued_rel(old(self)@, self@, tag@, instv, renamed_args@));
                }
                Ok(tag)
            },
            None => Err(()),
        }
    }

    /// One cycle: tick the execution stage (driving a finished result onto
    /// the bus when it is free), then, with the stage empty, start executing
    /// the first ready instruction.
    pub fn next_cycle(&mut self, bus: &mut ResultBus) -> (r: Result<(), String>)
        ensures
            r is Ok,
            (final(self)@, final(bus)@) == spec_arith_step(old(self)@, old(bus)@),
    {
        let ghost ustart = self@;
        let ghost bstart = bus@;
        let mut done = false;
        if let Some(unit) = self.stage.as_mut() {
            done = unit.next_cycle(bus);
            if done {
                self.stage = None;
            }
        }
        proof {
            assert((self@, bus@) == spec_tick(ustart, bstart));
        }
        let ghost umid = self@;
        if self.stage.is_none() {
            match self.station.ready() {
                Some(id) => {
                    proof {
                        assert(is_first_ready(umid.slots, id as int));
                        lemma_first_ready_unique(
                            umid.slots,
                            id as int,
                            choose|i: int| is_first_ready(umid.slots, i),
                        );
                    }
                    self.execute(id);
                },
                None => {
                    proof {
                        assert forall|i: int| !is_first_ready(umid.slots, i) by {
                            if 0 <= i < umid.slots.len() {
                                assert(!(umid.slots[i] matches SlotState::Pending(p)
                                    && p.spec_ready()));
                            }
                        }
                    }
                },
            }
        }
        proof {
            assert(self@ == spec_dispatch(umid));
        }
        Ok(())
    }

    /// Move the pending instruction in `slot_id` to executing and seed the
    /// execution stage with a snapshot of its operand values.
    fn execute(&mut self, slot_id: usize)
        requires
            old(self)@.stage is None,
            is_first_ready(old(self)@.slots, slot_id as int),
        ensures
            final(self)@ == spec_dispatch(old(self)@),
    {
        let (name, arg0, arg1) = match self.station.get_slot(slot_id) {
            Some(SlotState::Pending(inst)) => {
                let args = inst.arguments();
                let a0 = match args[0].val() {
                    Some(v) => v,
                    None => 0,
                };
                let a1 = match args[1].val() {
                    Some(v) => v,
                    None => 0,
                };
                (inst.name(), a0, a1)
            },
            _ => {
                proof {
                    assert(false);
                }
                (String::new(), 0, 0)
            },
        };
        let tag = RStag::new(self.name.as_str(), slot_id);
        self.stage = Some(ExecUnit::exec(tag, name, arg0, arg1));
        let _ = self.station.start_execute(slot_id);
    }

    /// The number of pending instructions in the station.
    pub fn pending(&self) -> (r: usize)
        ensures
            r as nat == count_pending(self@.slots),
    {
        self.station.pending()
    }

    /// Whether the unit holds no instruction at all.
    pub fn is_idle(&self) -> (r: bool)
        ensures
            r == (count_occupied(self@.slots) == 0),
    {
        self.station.occupied() == 0
    }

    /// Render the unit's station for a state dump.
    pub fn dump(&self) -> (r: Vec<String>)
        ensures
            r@.len() == self@.slots.len(),
    {
        self.station.dump()
    }
}

} // verus!
