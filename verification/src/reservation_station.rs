//! The generic reservation station: a fixed-size array of slots, each empty,
//! reserved, or holding an in-flight instruction that is pending or executing.

use vstd::prelude::*;

use crate::execution_path::{ArgState, RStag};

verus! {

/// The capability set every station-resident instruction offers: report its
/// name and arguments, report readiness, and accept a forwarded result.
pub trait RenamedInst: Sized {
    /// Whether the instruction is ready to start executing.
    spec fn spec_ready(&self) -> bool;

    /// How the instruction may change under a broadcast of `val` for `tag`:
    /// `to` is a possible result of forwarding into `self`.
    spec fn spec_forward_rel(&self, tag: (Seq<char>, nat), val: u32, to: &Self) -> bool;

    /// The instruction's opcode.
    spec fn spec_name(&self) -> Seq<char>;

    /// The instruction's argument states.
    spec fn spec_arguments(&self) -> Seq<ArgState>;

    fn name(&self) -> (r: String)
        ensures
            r@ == self.spec_name(),
    ;

    fn arguments(&self) -> (r: Vec<ArgState>)
        ensures
            r@ == self.spec_arguments(),
    ;

    /// An instruction is ready when it no longer waits on any other
    /// instruction's result.
    fn is_ready(&self) -> (r: bool)
        ensures
            r == self.spec_ready(),
    ;

    fn forwarding(&mut self, tag: &RStag, val: u32)
        ensures
            old(self).spec_forward_rel(tag@, val, final(self)),
    ;
}

/// State of one reservation-station slot.
///
/// `Reserved` is only entered by `reserve` and only left through
/// `insert_into_reserved_slot`; `Pending` becomes `Executing` through
/// `start_execute`; a slot is freed (`Empty`) only by `sloved`, when its own
/// tag is observed on the result bus.
#[derive(Debug)]
pub enum SlotState<T> {
    Empty,
    Pending(T),
    Executing(T),
    Reserved,
}

/// Number of `Pending` slots in `s`.
pub open spec fn count_pending<T>(s: Seq<SlotState<T>>) -> nat
    decreases s.len(),
{
    if s.len() == 0 {
        0
    } else {
        count_pending(s.drop_last()) + (if s.last() is Pending {
            1nat
        } else {
            0nat
        })
    }
}

/// Number of non-`Empty` slots in `s`.
pub open spec fn count_occupied<T>(s: Seq<SlotState<T>>) -> nat
    decreases s.len(),
{
    if s.len() == 0 {
        0
    } else {
        count_occupied(s.drop_last()) + (if s.last() is Empty {
            0nat
        } else {
            1nat
        })
    }
}

/// Structural law of every station: a pending instruction occupies its slot,
/// and no more slots are occupied than the station has.  So
/// `pending <= occupied <= capacity` holds of every slot array.
pub proof fn lemma_station_counts<T>(s: Seq<SlotState<T>>)
    ensures
        count_pending(s) <= count_occupied(s) <= s.len(),
    decreases s.len(),
{
    if s.len() > 0 {
        lemma_station_counts(s.drop_last());
    }
}

/// A slot array is fully occupied exactly when no slot is empty.
pub proof fn lemma_occupied_all<T>(s: Seq<SlotState<T>>)
    ensures
        (count_occupied(s) == s.len()) <==> (forall|i: int| 0 <= i < s.len() ==> !((#[trigger] s[i]) is Empty)),
    decreases s.len(),
{
    if s.len() > 0 {
        lemma_occupied_all(s.drop_last());
        lemma_station_counts(s.drop_last());
        assert(forall|i: int| 0 <= i < s.len() - 1 ==> s.drop_last()[i] == s[i]);
        if count_occupied(s) == s.len() {
            assert forall|i: int| 0 <= i < s.len() implies !((#[trigger] s[i]) is Empty) by {
                if i < s.len() - 1 {
                    assert(s.drop_last()[i] == s[i]);
                }
            }
        }
    }
}

/// A fixed-capacity array of slots holding issued-but-not-completed
/// instructions.
#[derive(Debug)]
pub struct ReservationStation<T> {
    slots: Vec<SlotState<T>>,
}

impl<T> View for ReservationStation<T> {
    type V = Seq<SlotState<T>>;

    closed spec fn view(&self) -> Seq<SlotState<T>> {
        self.slots@
    }
}

impl<T: RenamedInst> ReservationStation<T> {
    pub fn new(size: usize) -> (r: Self)
        ensures
            r@.len() == size,
            forall|i: int| 0 <= i < size ==> r@[i] is Empty,
    {
        let mut slots: Vec<SlotState<T>> = Vec::new();
        let mut i: usize = 0;
        while i < size
            invariant
                i <= size,
                slots@.len() == i,
                forall|j: int| 0 <= j < i ==> slots@[j] is Empty,
            decreases size - i,
        {
            slots.push(SlotState::Empty);
            i = i + 1;
        }
        Self { slots }
    }

    /// The capacity of the reservation station.
    pub fn capacity(&self) -> (r: usize)
        ensures
            r as nat == self@.len(),
    {
        self.slots.len()
    }

    /// Index of the first empty slot, if any.
    fn find_empty(&self) -> (r: Option<usize>)
        ensures
            (r matches Some(i) ==> 0 <= i < self@.len() && self@[i as int] is Empty && (forall|
                j: int,
            | 0 <= j < i ==> !(self@[j] is Empty))),
            r is None ==> forall|j: int| 0 <= j < self@.len() ==> !(self@[j] is Empty),
    {
        let n = self.slots.len();
        let mut i: usize = 0;
        while i < n
            invariant
                n as nat == self@.len(),
                i <= n,
                forall|j: int| 0 <= j < i ==> !(self@[j] is Empty),
            decreases n - i,
        {
            let is_empty = match &self.slots[i] {
                SlotState::Empty => true,
                _ => false,
            };
            if is_empty {
                return Some(i);
            }
            i = i + 1;
        }
        None
    }

    /// Insert an instruction into the first empty slot as `Pending`; `None`
    /// when the station is full.
    pub fn insert(&mut self, inst: T) -> (r: Option<usize>)
        ensures
            (r matches Some(i) ==> 0 <= i < old(self)@.len() && old(self)@[i as int] is Empty && (
            forall|j: int| 0 <= j < i ==> !(old(self)@[j] is Empty)) && final(self)@ == old(self)@.update(i as int, SlotState::Pending(inst))),
            r is None ==> (forall|j: int| 0 <= j < old(self)@.len() ==> !(old(self)@[j] is Empty))
                && *final(self) == *old(self),
    {
        match self.find_empty() {
            Some(idx) => {
                self.slots[idx] = SlotState::Pending(inst);
                Some(idx)
            },
            None => None,
        }
    }

    /// Mark the first empty slot `Reserved`; its index is later consumed by
    /// `insert_into_reserved_slot`.  `None` when the station is full.
    pub fn reserve(&mut self) -> (r: Option<usize>)
        ensures
            (r matches Some(i) ==> 0 <= i < old(self)@.len() && old(self)@[i as int] is Empty && (
            forall|j: int| 0 <= j < i ==> !(old(self)@[j] is Empty)) && final(self)@ == old(self)@.update(i as int, SlotState::Reserved)),
            r is None ==> (forall|j: int| 0 <= j < old(self)@.len() ==> !(old(self)@[j] is Empty))
                && *final(self) == *old(self),
    {
        match self.find_empty() {
            Some(idx) => {
                self.slots[idx] = SlotState::Reserved;
                Some(idx)
            },
            None => None,
        }
    }

    /// Insert an instruction into a slot previously handed out by `reserve`,
    /// turning it `Pending`.  Fails when the index is out of range or the slot
    /// is not reserved.
    pub fn insert_into_reserved_slot(&mut self, inst: T, idx: usize) -> (r: Result<usize, String>)
        ensures
            idx < old(self)@.len() && old(self)@[idx as int] is Reserved ==> r == Ok::<
                usize,
                String,
            >(idx) && final(self)@ == old(self)@.update(idx as int, SlotState::Pending(inst)),
            !(idx < old(self)@.len() && old(self)@[idx as int] is Reserved) ==> r is Err && final(self)@ == old(self)@,
    {
        if idx >= self.slots.len() {
            return Err(String::from_str("Reservation station: index out of bound"));
        }
        let is_reserved = match &self.slots[idx] {
            SlotState::Reserved => true,
            _ => false,
        };
        if is_reserved {
            self.slots[idx] = SlotState::Pending(inst);
            Ok(idx)
        } else {
            Err(String::from_str("Reservation station: slot is not reserved"))
        }
    }

    /// Find the first pending slot whose instruction reports ready.
    pub fn ready(&self) -> (r: Option<usize>)
        ensures
            (r matches Some(i) ==> 0 <= i < self@.len() && (self@[i as int] matches
                SlotState::Pending(inst) && inst.spec_ready()) && (forall|j: int|
                0 <= j < i ==> !((#[trigger] self@[j]) matches SlotState::Pending(p)
                    && p.spec_ready()))),
            r is None ==> forall|j: int|
                0 <= j < self@.len() ==> !((#[trigger] self@[j]) matches SlotState::Pending(p)
                    && p.spec_ready()),
    {
        let n = self.slots.len();
        let mut i: usize = 0;
        while i < n
            invariant
                n as nat == self@.len(),
                i <= n,
                forall|j: int|
                    0 <= j < i ==> !((#[trigger] self@[j]) matches SlotState::Pending(p)
                        && p.spec_ready()),
            decreases n - i,
        {
            let slot_ready = match &self.slots[i] {
                SlotState::Pending(inst) => inst.is_ready(),
                _ => false,
            };
            if slot_ready {
                return Some(i);
            }
            i = i + 1;
        }
        None
    }

    /// The slot's instruction has been resolved by its own tag on the bus:
    /// free the slot.  An out-of-range index does nothing.
    pub fn sloved(&mut self, idx: usize)
        ensures
            idx < old(self)@.len() ==> final(self)@ == old(self)@.update(
                idx as int,
                SlotState::Empty,
            ),
            idx >= old(self)@.len() ==> final(self)@ == old(self)@,
    {
        if idx < self.slots.len() {
            self.slots[idx] = SlotState::Empty;
        }
    }

    /// Broadcast `(tag, val)` to every pending slot's instruction.  Executing
    /// slots are not forwarded: their argument values were captured when
    /// execution started.
    pub fn forwarding(&mut self, tag: &RStag, val: u32)
        ensures
            final(self)@.len() == old(self)@.len(),
            forall|i: int|
                0 <= i < old(self)@.len() ==> match old(self)@[i] {
                    SlotState::Pending(inst) => (#[trigger] final(self)@[i]) matches
                        SlotState::Pending(to) && inst.spec_forward_rel(tag@, val, &to),
                    s => final(self)@[i] == s,
                },
    {
        let n = self.slots.len();
        let mut i: usize = 0;
        while i < n
            invariant
                n as nat == self@.len(),
                n as nat == old(self)@.len(),
                i <= n,
                forall|j: int|
                    0 <= j < i ==> match old(self)@[j] {
                        SlotState::Pending(inst) => (#[trigger] self@[j]) matches
                            SlotState::Pending(to) && inst.spec_forward_rel(tag@, val, &to),
                        s => self@[j] == s,
                    },
                forall|j: int| i <= j < n ==> self@[j] == old(self)@[j],
            decreases n - i,
        {
            let ghost prev = self@;
            let slot = &mut self.slots[i];
            match slot {
                SlotState::Pending(inst) => {
                    inst.forwarding(tag, val);
                },
                _ => {},
            }
            proof {
                assert(forall|j: int| 0 <= j < n && j != i ==> self@[j] == prev[j]);
            }
            i = i + 1;
        }
    }

    /// The number of pending slots.
    pub fn pending(&self) -> (r: usize)
        ensures
            r as nat == count_pending(self@),
    {
        let n = self.slots.len();
        let mut cnt: usize = 0;
        let mut i: usize = 0;
        proof {
            assert(self@.take(0) =~= Seq::<SlotState<T>>::empty());
        }
        while i < n
            invariant
                n as nat == self@.len(),
                i <= n,
                cnt as nat == count_pending(self@.take(i as int)),
                cnt <= i,
            decreases n - i,
        {
            let is_pending = match &self.slots[i] {
                SlotState::Pending(_) => true,
                _ => false,
            };
            proof {
                assert(self@.take(i as int + 1).drop_last() =~= self@.take(i as int));
                assert(self@.take(i as int + 1).last() == self@[i as int]);
            }
            if is_pending {
                cnt = cnt + 1;
            }
            i = i + 1;
        }
        proof {
            assert(self@.take(n as int) =~= self@);
        }
        cnt
    }

    /// The number of occupied (non-empty) slots.
    pub fn occupied(&self) -> (r: usize)
        ensures
            r as nat == count_occupied(self@),
    {
        let n = self.slots.len();
        let mut cnt: usize = 0;
        let mut i: usize = 0;
        proof {
            assert(self@.take(0) =~= Seq::<SlotState<T>>::empty());
        }
        while i < n
            invariant
                n as nat == self@.len(),
                i <= n,
                cnt as nat == count_occupied(self@.take(i as int)),
                cnt <= i,
            decreases n - i,
        {
            let is_occupied = match &self.slots[i] {
                SlotState::Empty => false,
                _ => true,
            };
            proof {
                assert(self@.take(i as int + 1).drop_last() =~= self@.take(i as int));
                assert(self@.take(i as int + 1).last() == self@[i as int]);
            }
            if is_occupied {
                cnt = cnt + 1;
            }
            i = i + 1;
        }
        proof {
            assert(self@.take(n as int) =~= self@);
        }
        cnt
    }

    /// Whether every slot is occupied.
    pub fn is_full(&self) -> (r: bool)
        ensures
            r == (count_occupied(self@) == self@.len()),
    {
        self.occupied() == self.capacity()
    }

    /// The slot at `idx`, if in range.
    pub fn get_slot(&self, idx: usize) -> (r: Option<&SlotState<T>>)
        ensures
            idx < self@.len() ==> (r matches Some(s) && *s == self@[idx as int]),
            idx >= self@.len() ==> r is None,
    {
        if idx < self.slots.len() {
            Some(&self.slots[idx])
        } else {
            None
        }
    }

    /// Change the state of a pending slot into executing.
    pub fn start_execute(&mut self, id: usize) -> (r: Result<(), String>)
        ensures
            id < old(self)@.len() ==> (old(self)@[id as int] matches SlotState::Pending(inst) ==> r
                is Ok && final(self)@ == old(self)@.update(
                id as int,
                SlotState::Executing(inst),
            )),
            !(id < old(self)@.len() && old(self)@[id as int] is Pending) ==> r is Err && final(self)@ == old(self)@,
    {
        if id >= self.slots.len() {
            return Err(String::from_str("Slot index out of bound"));
        }
        let ghost prev = self@;
        let mut taken: SlotState<T> = SlotState::Empty;
        core::mem::swap(&mut self.slots[id], &mut taken);
        match taken {
            SlotState::Pending(inst) => {
                self.slots[id] = SlotState::Executing(inst);
                proof {
                    assert(self@ =~= prev.update(
                        id as int,
                        SlotState::Executing(prev[id as int]->Pending_0),
                    ));
                }
                Ok(())
            },
            other => {
                self.slots[id] = other;
                proof {
                    assert(self@ =~= prev);
                }
                Err(String::from_str("Slot is not pending"))
            },
        }
    }

    /// Render each slot's state.
    pub fn dump(&self) -> (r: Vec<String>)
        ensures
            r@.len() == self@.len(),
    {
        let n = self.slots.len();
        let mut ret: Vec<String> = Vec::new();
        let mut i: usize = 0;
        while i < n
            invariant
                n as nat == self@.len(),
                ret@.len() == i,
                i <= n,
            decreases n - i,
        {
            let text = match &self.slots[i] {
                SlotState::Empty => String::from_str("Empty"),
                SlotState::Executing(inst) => {
                    let mut s = String::from_str("Exe(");
                    s.append(inst.name().as_str());
                    s.append(")");
                    s
                },
                SlotState::Pending(inst) => {
                    let mut s = String::from_str("Pend(");
                    s.append(inst.name().as_str());
                    s.append(")");
                    s
                },
                SlotState::Reserved => String::from_str("Reserved"),
            };
            ret.push(text);
            i = i + 1;
        }
        ret
    }
}

} // verus!
