//! The virtual machine: a processor core, an instruction RAM holding the
//! program text, and the DRAM behind the memory bus.

use vstd::prelude::*;

use crate::dram::{access_latency, dram_cycle_rel, Dram};
use crate::execution_path::{BusAccessRequst, BusAccessResponse};
use crate::processor::{core_cycle_rel, response_delivered, stepping_witness, Processor};

verus! {

/// The hand-off of one queued memory request to an idle DRAM: the front
/// request leaves the core's queue and starts its access latency; a busy
/// DRAM, or an empty queue, leaves both sides untouched.
pub open spec fn machine_handoff(c1: Processor, d0: Dram, c2: Processor, d1: Dram) -> bool {
    if d0@.request is None && c1.spec_access_queue().len() > 0 {
        &&& c2.wf()
        &&& c2.spec_access_queue() == c1.spec_access_queue().drop_first()
        &&& c2.spec_pc() == c1.spec_pc()
        &&& c2.spec_registers() == c1.spec_registers()
        &&& c2.spec_bus() == c1.spec_bus()
        &&& c2.spec_arith_paths() == c1.spec_arith_paths()
        &&& c2.spec_access_paths() == c1.spec_access_paths()
        &&& d1@.memory == d0@.memory
        &&& d1@.request == Some((access_latency(), c1.spec_access_queue()[0]))
    } else {
        &&& c2.wf()
        &&& c2.spec_access_queue() == c1.spec_access_queue()
        &&& c2.spec_pc() == c1.spec_pc()
        &&& c2.spec_registers() == c1.spec_registers()
        &&& c2.spec_bus() == c1.spec_bus()
        &&& c2.spec_arith_paths() == c1.spec_arith_paths()
        &&& c2.spec_access_paths() == c1.spec_access_paths()
        &&& d1 == d0
    }
}

/// One whole machine cycle on the instruction text: the core steps per its
/// own cycle relation, one queued memory request is handed to an idle DRAM,
/// the DRAM ticks, and an arrived response is delivered back into the core.
pub open spec fn machine_cycle_rel(
    m0core: Processor,
    m0dram: Dram,
    m1core: Processor,
    m1dram: Dram,
    text: Seq<char>,
    ok: bool,
) -> bool {
    exists|c1: Processor, ok1: bool|
        #![trigger core_cycle_rel(m0core, c1, text, ok1)]
        {
            &&& core_cycle_rel(m0core, c1, text, ok1)
            &&& (!ok1 ==> !ok && m1core == c1 && m1dram == m0dram)
            &&& (ok1 ==> exists|c2: Processor, d1: Dram, resp: Option<BusAccessResponse>|
                #![trigger stepping_witness(c2), stepping_witness(d1), stepping_witness(resp)]
                {
                    &&& machine_handoff(c1, m0dram, c2, d1)
                    &&& dram_cycle_rel(d1, m1dram, resp)
                    &&& (match resp {
                        None => ok && m1core == c2,
                        Some(rv) => response_delivered(c2, m1core, rv@, ok),
                    })
                })
        }
}

/// A processor wired to its instruction memory and data memory.
pub struct Machine {
    core: Processor,
    iram: Vec<String>,
    dram: Dram,
}

impl Machine {
    /// Structural validity: the core is well formed.
    pub closed spec fn wf(&self) -> bool {
        self.core.wf()
    }

    /// The program text.
    pub closed spec fn spec_iram(&self) -> Seq<String> {
        self.iram@
    }

    /// The core's program counter.
    pub closed spec fn spec_pc(&self) -> nat {
        self.core.spec_pc()
    }

    /// The core itself.
    pub closed spec fn spec_core(&self) -> Processor {
        self.core
    }

    /// The data memory.
    pub closed spec fn spec_dram(&self) -> Dram {
        self.dram
    }

    /// The data memory's bytes.
    pub closed spec fn spec_dram_memory(&self) -> Seq<u8> {
        self.dram@.memory
    }

    pub fn new(core: Processor, insts: Vec<String>, ram_size: usize) -> (r: Self)
        requires
            core.wf(),
        ensures
            r.wf(),
            r.spec_iram() == insts@,
            r.spec_pc() == core.spec_pc(),
            r.spec_core() == core,
            r.spec_dram()@.memory.len() == ram_size,
            forall|i: int| 0 <= i < ram_size ==> r.spec_dram()@.memory[i] == 0u8,
            r.spec_dram()@.request is None,
    {
        Self { core, iram: insts, dram: Dram::new(ram_size) }
    }

    /// Execute the next machine cycle: feed the instruction at the fetch
    /// address to the core.  Fails when the fetch address runs off the end
    /// of the program, when the committed result carried an access error, or
    /// when the instruction does not decode.
    pub fn next_cycle(&mut self) -> (r: Result<(), String>)
        requires
            old(self).wf(),
        ensures
            final(self).wf(),
            final(self).spec_iram() == old(self).spec_iram(),
            old(self).spec_pc() >= old(self).spec_iram().len() ==> r is Err && *final(self)
                == *old(self),
            old(self).spec_pc() < old(self).spec_iram().len() ==> machine_cycle_rel(
                old(self).spec_core(),
                old(self).spec_dram(),
                final(self).spec_core(),
                final(self).spec_dram(),
                old(self).spec_iram()[old(self).spec_pc() as int]@,
                r is Ok,
            ),
    {
        let line = self.core.fetch_address();
        if line >= self.iram.len() {
            return Err(String::from_str("Instruction address out of bound"));
        }
        let inst = self.iram[line].clone();
        self.do_next_cycle(inst)
    }

    /// One cycle of the whole machine: step the core, hand one queued memory
    /// request to an idle DRAM, and deliver an arrived DRAM response.
    fn do_next_cycle(&mut self, inst: String) -> (r: Result<(), String>)
        requires
            old(self).wf(),
        ensures
            final(self).wf(),
            final(self).spec_iram() == old(self).spec_iram(),
            machine_cycle_rel(
                old(self).spec_core(),
                old(self).spec_dram(),
                final(self).spec_core(),
                final(self).spec_dram(),
                inst@,
                r is Ok,
            ),
    {
        let core_step = self.core.next_cycle(inst.as_str());
        let ghost c1g = self.core;
        let ghost ok1g = core_step is Ok;
        proof {
            assert(core_cycle_rel(old(self).spec_core(), c1g, inst@, ok1g));
        }
        match core_step {
            Ok(_) => {},
            Err(e) => {
                return Err(e);
            },
        }
        let dram_idle = self.dram.is_idle();
        if dram_idle {
            if let Some(request) = self.core.bus_access() {
                match self.dram.access(request) {
                    Ok(_) => {},
                    Err(e) => {
                        proof {
                            assert(false);
                        }
                        return Err(e);
                    },
                }
            }
        }
        let ghost c2g = self.core;
        let ghost d1g = self.dram;
        proof {
            assert(stepping_witness(c2g));
            assert(stepping_witness(d1g));
            assert(machine_handoff(c1g, old(self).spec_dram(), c2g, d1g));
        }
        let resp = self.dram.next_cycle();
        proof {
            assert(stepping_witness(resp));
            assert(dram_cycle_rel(d1g, self.dram, resp));
        }
        match resp {
            Some(response) => {
                let ghost respv = response@;
                match self.core.resolve_access(response) {
                    Ok(_) => {
                        proof {
                            assert(response_delivered(c2g, self.core, respv, true));
                        }
                        Ok(())
                    },
                    Err(e) => {
                        proof {
                            assert(response_delivered(c2g, self.core, respv, false));
                        }
                        return Err(e);
                    },
                }
            },
            None => Ok(()),
        }
    }

    /// Run one flush cycle, feeding a `nop`: used after the program text is
    /// exhausted, until the machine reports idle.
    pub fn next_flush_cycle(&mut self) -> (r: Result<(), String>)
        requires
            old(self).wf(),
        ensures
            final(self).wf(),
            final(self).spec_iram() == old(self).spec_iram(),
            ({
                let idle = (forall|j: int|
                    0 <= j < old(self).spec_core().spec_arith_paths().len()
                        ==> crate::execution_path::spec_path_idle(
                        (#[trigger] old(self).spec_core().spec_arith_paths()[j])@,
                    )) && (forall|j: int|
                    0 <= j < old(self).spec_core().spec_access_paths().len() ==> {
                        let u = (#[trigger] old(self).spec_core().spec_access_paths()[j])@;
                        u.queue.len() == 0 && crate::reservation_station::count_occupied(
                            u.load_slots,
                        ) == 0 && crate::reservation_station::count_occupied(u.store_slots) == 0
                    }) && old(self).spec_core().spec_bus() is None;
                if idle {
                    r is Err && *final(self) == *old(self)
                } else {
                    machine_cycle_rel(
                        old(self).spec_core(),
                        old(self).spec_dram(),
                        final(self).spec_core(),
                        final(self).spec_dram(),
                        "nop"@,
                        r is Ok,
                    )
                }
            }),
    {
        if self.core.is_idle() {
            let msg = String::from_str("This machine is idle");
            return Err(msg);
        }
        self.do_next_cycle(String::from_str("nop"))
    }

    /// Borrow the core, for inspection and rendering.
    pub fn peek_core(&self) -> (r: &Processor)
        ensures
            *r == self.spec_core(),
    {
        &self.core
    }

    /// Split the machine into its core and the raw data memory.
    pub fn splite(self) -> (r: (Processor, Vec<u8>))
        ensures
            r.0 == self.spec_core(),
            r.1@ == self.spec_dram_memory(),
    {
        let Machine { core, iram: _, dram } = self;
        (core, dram.into_raw_data())
    }
}

} // verus!
