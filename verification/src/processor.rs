//! The processor: decoder, register file, result bus, the keyed collections
//! of functional units, and the per-cycle orchestration.
//!
//! The intra-cycle order is the contract: commit (bus to register file and
//! forward to every station), advance every functional unit, then fetch,
//! issue and rename one instruction.  Because commit and advance run before
//! issue, an instruction issued on cycle `k` can never reach an execute stage
//! within cycle `k`.

use vstd::prelude::*;

use crate::decoder::{ArgType, DecodedInst, Decoder, TokenType};
use crate::execution_path::{
    spec_path_idle, spec_path_name, ArgState, BusAccessRequst, BusAccessResponse, BusAccessResult,
    ExecPath, ExecResult, RStag,
};
use crate::memory_access_unit;
use crate::memory_access_unit::{mem_cycle_rel, mem_request_rel, MemUnitV};
use crate::nop_unit;
use crate::queue::Queue;
use crate::register::{register_count, RegisterFile};
use crate::result_bus::ResultBus;
use crate::util::str_eq;

verus! {

/// Whether the decoded instruction was handed to a station or must retry.
enum IssueResult {
    Issued(RStag),
    Stall,
}

/// Serializes outgoing memory requests: a FIFO drained by the outer driver
/// one request per cycle.
#[derive(Debug)]
struct BusController {
    access_queue: Queue<BusAccessRequst>,
}

impl BusController {
    fn new() -> (r: Self)
        ensures
            r.access_queue@ == Seq::<BusAccessRequst>::empty(),
    {
        Self { access_queue: Queue::new(usize::MAX) }
    }

    fn push(&mut self, request: BusAccessRequst)
        ensures
            final(self).access_queue@ == old(self).access_queue@.push(request)
                || final(self).access_queue@ == old(self).access_queue@,
    {
        let _ = self.access_queue.insert(request);
    }
}

/// The register-file image after a commit of `val` under `tag`.
pub open spec fn spec_rf_write(
    rf: Seq<(u32, Option<(Seq<char>, nat)>)>,
    tag: (Seq<char>, nat),
    val: u32,
) -> Seq<(u32, Option<(Seq<char>, nat)>)> {
    Seq::new(
        rf.len(),
        |i: int|
            if rf[i].1 == Some(tag) {
                (val, None)
            } else {
                rf[i]
            },
    )
}

/// Renaming/commit handshake: after renaming register `d` to `tag`, a commit
/// of `val` under that very tag writes `d`'s value and clears its tag, while
/// every entry waiting on a different tag is untouched.  A register entry
/// thus follows exactly the in-flight instruction it was renamed to.
pub proof fn lemma_rename_then_commit(
    rf: Seq<(u32, Option<(Seq<char>, nat)>)>,
    d: int,
    tag: (Seq<char>, nat),
    val: u32,
)
    requires
        0 <= d < rf.len(),
    ensures
        spec_rf_write(rf.update(d, (rf[d].0, Some(tag))), tag, val)[d] == (
            val,
            None::<(Seq<char>, nat)>,
        ),
        forall|i: int|
            0 <= i < rf.len() && i != d && rf[i].1 != Some(tag) ==> spec_rf_write(
                rf.update(d, (rf[d].0, Some(tag))),
                tag,
                val,
            )[i] == rf[i],
{
}

/// Later writer wins: renaming a register twice leaves only the second tag,
/// so a commit for the overwritten first tag no longer touches the entry.
pub proof fn lemma_second_rename_wins(
    rf: Seq<(u32, Option<(Seq<char>, nat)>)>,
    d: int,
    t1: (Seq<char>, nat),
    t2: (Seq<char>, nat),
    val: u32,
)
    requires
        0 <= d < rf.len(),
        t1 != t2,
    ensures
        ({
            let renamed = rf.update(d, (rf[d].0, Some(t1))).update(d, (rf[d].0, Some(t2)));
            renamed[d].1 == Some(t2) && spec_rf_write(renamed, t1, val)[d] == renamed[d]
        }),
{
}

/// The register-file image after the commit phase: the bus value, when
/// present and not an error, is written under its tag.
pub open spec fn spec_commit_rf(
    bus: crate::result_bus::BusV,
    rf: Seq<(u32, Option<(Seq<char>, nat)>)>,
) -> Seq<(u32, Option<(Seq<char>, nat)>)> {
    match bus {
        Some((t, res)) => spec_rf_write(rf, t, crate::execution_path::spec_result_val(res)),
        None => rf,
    }
}

/// How the register file changes at a rename: the writeback destination, if
/// any, takes some fresh tag; everything else is unchanged.
pub open spec fn spec_rename_rel(
    wb: Option<ArgType>,
    rf1: Seq<(u32, Option<(Seq<char>, nat)>)>,
    rf2: Seq<(u32, Option<(Seq<char>, nat)>)>,
) -> bool {
    match wb {
        Some(ArgType::Reg(d)) => exists|t2: (Seq<char>, nat)|
            rf2 == rf1.update(d as int, (rf1[d as int].0, Some(t2))),
        _ => rf2 == rf1,
    }
}

/// The writeback destination that decoding `text` against the registered
/// syntax yields.
pub open spec fn spec_decoded_writeback(
    text: Seq<char>,
    syn: Option<Seq<TokenType>>,
) -> Option<ArgType> {
    (crate::decoder::spec_decode_args(
        crate::decoder::spec_tokens(text).drop_first(),
        syn->0,
    )->0).1
}

/// Number of true entries in a mark vector.
spec fn count_true(s: Seq<bool>) -> nat
    decreases s.len(),
{
    if s.len() == 0 {
        0
    } else {
        count_true(s.drop_last()) + (if s.last() {
            1nat
        } else {
            0nat
        })
    }
}

proof fn lemma_count_true_update(s: Seq<bool>, i: int)
    requires
        0 <= i < s.len(),
        !s[i],
    ensures
        count_true(s.update(i, true)) == count_true(s) + 1,
    decreases s.len(),
{
    if i == s.len() - 1 {
        assert(s.update(i, true).drop_last() =~= s.drop_last());
    } else {
        assert(s.update(i, true).drop_last() =~= s.drop_last().update(i, true));
        lemma_count_true_update(s.drop_last(), i);
    }
}

proof fn lemma_count_true_all(s: Seq<bool>)
    ensures
        count_true(s) <= s.len(),
        count_true(s) == s.len() ==> forall|i: int| 0 <= i < s.len() ==> #[trigger] s[i],
        (forall|i: int| 0 <= i < s.len() ==> !(#[trigger] s[i])) ==> count_true(s) == 0,
    decreases s.len(),
{
    if s.len() > 0 {
        lemma_count_true_all(s.drop_last());
        assert(forall|i: int| 0 <= i < s.len() - 1 ==> s.drop_last()[i] == s[i]);
    }
}

/// The pending-instruction count of a memory path.
pub open spec fn spec_mem_path_pending(u: crate::memory_access_unit::MemUnitV) -> nat {
    crate::reservation_station::count_pending(u.load_slots)
        + crate::reservation_station::count_pending(u.store_slots)
}

/// The pending count of the execution path registered under `name`, looking
/// at the general paths first, as the issue logic does; `None` when no path
/// of that name exists.
pub open spec fn spec_candidate_pending(p: Processor, name: Seq<char>) -> Option<nat> {
    if exists|j: int|
        0 <= j < p.spec_arith_paths().len() && spec_path_name(
            (#[trigger] p.spec_arith_paths()[j])@,
        ) == name {
        Some(
            crate::execution_path::spec_path_pending(
                p.spec_arith_paths()[choose|j: int|
                    0 <= j < p.spec_arith_paths().len() && spec_path_name(
                        p.spec_arith_paths()[j]@,
                    ) == name]@,
            ),
        )
    } else if exists|j: int|
        0 <= j < p.spec_access_paths().len() && (#[trigger] p.spec_access_paths()[j])@.name
            == name {
        Some(
            spec_mem_path_pending(
                p.spec_access_paths()[choose|j: int|
                    0 <= j < p.spec_access_paths().len() && p.spec_access_paths()[j]@.name
                        == name]@,
            ),
        )
    } else {
        None
    }
}

/// Whether the station registered under `name` can accept an issue of the
/// opcode `op` with operand list `vals`.
pub open spec fn spec_candidate_accepts(
    p: Processor,
    name: Seq<char>,
    op: Seq<char>,
    vals: Seq<ArgState>,
) -> bool {
    (exists|j: int|
        0 <= j < p.spec_arith_paths().len() && spec_path_name(
            (#[trigger] p.spec_arith_paths()[j])@,
        ) == name && crate::execution_path::spec_path_accepts(p.spec_arith_paths()[j]@, vals)) || (
    exists|j: int|
        0 <= j < p.spec_access_paths().len() && (#[trigger] p.spec_access_paths()[j])@.name == name
            && crate::memory_access_unit::mem_accepts(p.spec_access_paths()[j]@, op, vals))
}

/// Lexicographic order on (pending count, candidate position): the issue
/// policy prefers fewer pending instructions, then the earlier candidate.
pub open spec fn spec_lex_le(p1: nat, k1: int, p2: nat, k2: int) -> bool {
    p1 < p2 || (p1 == p2 && k1 <= k2)
}

/// Marker used to guide the instantiation of the per-step existentials of
/// the advance relations below.
pub open spec fn stepping_witness<A>(a: A) -> bool {
    true
}

/// Advance of the general paths, one after the other, threading the shared
/// bus: each no-operation path is untouched, each arithmetic unit performs
/// exactly one `spec_arith_step` against the bus as left by its predecessors.
pub open spec fn paths_stepped(
    vs0: Seq<crate::execution_path::ExecPathV>,
    bus0: crate::result_bus::BusV,
    vs1: Seq<crate::execution_path::ExecPathV>,
    bus_out: crate::result_bus::BusV,
) -> bool
    decreases vs0.len(),
{
    if vs0.len() == 0 {
        vs1.len() == 0 && bus_out == bus0
    } else {
        vs1.len() == vs0.len() && (exists|busn: crate::result_bus::BusV|
            #![trigger stepping_witness(busn)]
            {
                &&& paths_stepped(vs0.drop_last(), bus0, vs1.drop_last(), busn)
                &&& (match vs0.last() {
                    crate::execution_path::ExecPathV::Nop => vs1.last() == vs0.last() && bus_out
                        == busn,
                    crate::execution_path::ExecPathV::Arith(u0) => ({
                        let su = crate::arithmetic_unit::spec_arith_step(u0, busn);
                        vs1.last() == crate::execution_path::ExecPathV::Arith(su.0) && bus_out
                            == su.1
                    }),
                })
            })
    }
}

/// Advance of the memory paths, one after the other, threading the shared
/// bus and the outgoing request queue: each unit performs one cycle and then
/// emits at most one request, which joins the back of the queue (unless the
/// queue is saturated).
pub open spec fn access_stepped(
    vs0: Seq<crate::memory_access_unit::MemUnitV>,
    bus0: crate::result_bus::BusV,
    vs1: Seq<crate::memory_access_unit::MemUnitV>,
    bus_out: crate::result_bus::BusV,
    q0: Seq<BusAccessRequst>,
    q_out: Seq<BusAccessRequst>,
) -> bool
    decreases vs0.len(),
{
    if vs0.len() == 0 {
        vs1.len() == 0 && bus_out == bus0 && q_out == q0
    } else {
        vs1.len() == vs0.len() && (exists|busn: crate::result_bus::BusV, qn: Seq<BusAccessRequst>, mid: MemUnitV, r: Option<BusAccessRequst>|
            #![trigger stepping_witness(busn), stepping_witness(qn), stepping_witness(mid), stepping_witness(r)]
            {
                &&& access_stepped(vs0.drop_last(), bus0, vs1.drop_last(), busn, q0, qn)
                &&& mem_cycle_rel(vs0.last(), busn, mid, bus_out)
                &&& mem_request_rel(mid, vs1.last(), r)
                &&& (match r {
                    Some(req) => q_out == qn.push(req) || q_out == qn,
                    None => q_out == qn,
                })
            })
    }
}

/// How the operand list handed to a station relates to the decoded argument
/// list and the register file it was read from: immediates are ready, and a
/// register read yields its pending tag or its concrete value.
pub open spec fn args_renamed_rel(
    args: Seq<ArgType>,
    rf: Seq<(u32, Option<(Seq<char>, nat)>)>,
    vals: Seq<ArgState>,
) -> bool {
    vals.len() == args.len() && (forall|i: int|
        0 <= i < args.len() ==> (match #[trigger] args[i] {
            ArgType::Imm(v) => vals[i] == ArgState::Ready(v),
            ArgType::Reg(d) => 0 <= d < rf.len() && (match rf[d as int].1 {
                Some(t) => vals[i] matches ArgState::Waiting(w) && w@ == t,
                None => vals[i] == ArgState::Ready(rf[d as int].0),
            }),
        }))
}

/// One whole cycle of the core on the instruction text `text`: the exact
/// relation `next_cycle` establishes between its pre- and post-states, with
/// `ok` the step's success.
pub open spec fn core_cycle_rel(p0: Processor, p1: Processor, text: Seq<char>, ok: bool) -> bool {
    &&& (p1.wf())
    &&& (p1.spec_pc() == p0.spec_pc() || p1.spec_pc() == p0.spec_pc() + 1)
    &&& (forall|op: Seq<char>|
                (#[trigger] p1.spec_station_names(op)) == p0.spec_station_names(
                    op,
                ))
    &&& (forall|op: Seq<char>|
                (#[trigger] p1.spec_syntax(op)) == p0.spec_syntax(op))
    &&& (({
                let bus_error = p0.spec_bus() matches Some((t, res)) && res is Error;
                let toks = crate::decoder::spec_tokens(text);
                let decode_ok = toks.len() > 0 && (match (
                    p0.spec_station_names(toks[0]),
                    p0.spec_syntax(toks[0]),
                ) {
                    (Some(_), Some(syn)) => crate::decoder::spec_decode_args(
                        toks.drop_first(),
                        syn,
                    ) is Some,
                    _ => false,
                });
                ok <==> (!bus_error && decode_ok)
            }))
    &&& ((p0.spec_bus() matches Some((t, res)) && res is Error) ==> !ok && p1.spec_registers() == p0.spec_registers() && p1.spec_bus() is None
                && p1.spec_arith_paths() == p0.spec_arith_paths() && p1.spec_access_paths() == p0.spec_access_paths())
    &&& ((!ok && !(p0.spec_bus() matches Some((t, res)) && res is Error)) ==> p1.spec_registers() == spec_commit_rf(p0.spec_bus(), p0.spec_registers()))
    &&& (ok && p1.spec_pc() == p0.spec_pc() && p0.spec_pc()
                < usize::MAX ==> p1.spec_registers() == spec_commit_rf(
                p0.spec_bus(),
                p0.spec_registers(),
            ))
    &&& (ok && p1.spec_pc() == p0.spec_pc() + 1 ==> spec_rename_rel(
                spec_decoded_writeback(
                    text,
                    p0.spec_syntax(crate::decoder::spec_tokens(text)[0]),
                ),
                spec_commit_rf(p0.spec_bus(), p0.spec_registers()),
                p1.spec_registers(),
            ))
    &&& (ok ==> exists|pm0: Processor, pm1: Processor, pm2: Processor|
                #![trigger pm0.spec_arith_paths(), pm1.spec_arith_paths(), pm2.spec_arith_paths()]
                {
                    &&& pm0.spec_arith_paths().len() == p0.spec_arith_paths().len()
                    &&& pm0.spec_access_paths().len() == p0.spec_access_paths().len()
                    &&& (match p0.spec_bus() {
                        Some((t, res)) => (forall|j: int|
                            0 <= j < p0.spec_arith_paths().len()
                                ==> crate::execution_path::path_forwarded(
                                (#[trigger] p0.spec_arith_paths()[j])@,
                                pm0.spec_arith_paths()[j]@,
                                t,
                                crate::execution_path::spec_result_val(res),
                            )) && (forall|j: int|
                            0 <= j < p0.spec_access_paths().len()
                                ==> crate::memory_access_unit::mem_forwarded_rel(
                                (#[trigger] p0.spec_access_paths()[j])@,
                                pm0.spec_access_paths()[j]@,
                                t,
                                crate::execution_path::spec_result_val(res),
                            )),
                        None => pm0.spec_arith_paths() == p0.spec_arith_paths()
                            && pm0.spec_access_paths() == p0.spec_access_paths(),
                    })
                    &&& pm0.spec_access_queue() == p0.spec_access_queue()
                    &&& paths_stepped(
                        pm0.spec_arith_paths().map_values(|p: ExecPath| p@),
                        None,
                        pm1.spec_arith_paths().map_values(|p: ExecPath| p@),
                        pm1.spec_bus(),
                    )
                    &&& pm1.spec_access_paths() == pm0.spec_access_paths()
                    &&& pm1.spec_access_queue() == pm0.spec_access_queue()
                    &&& access_stepped(
                        pm1.spec_access_paths().map_values(|u: memory_access_unit::Unit| u@),
                        pm1.spec_bus(),
                        pm2.spec_access_paths().map_values(|u: memory_access_unit::Unit| u@),
                        pm2.spec_bus(),
                        pm1.spec_access_queue(),
                        pm2.spec_access_queue(),
                    )
                    &&& pm2.spec_arith_paths() == pm1.spec_arith_paths()
                    &&& p1.spec_bus() == pm2.spec_bus()
                    &&& p1.spec_access_queue() == pm2.spec_access_queue()
                    &&& ({
                        let toks = crate::decoder::spec_tokens(text);
                        let sts = p0.spec_station_names(toks[0])->0;
                        let dec = crate::decoder::spec_decode_args(
                            toks.drop_first(),
                            p0.spec_syntax(toks[0])->0,
                        )->0;
                        exists|vals: Seq<ArgState>|
                            #![trigger args_renamed_rel(dec.0, spec_commit_rf(p0.spec_bus(), p0.spec_registers()), vals)]
                            {
                                &&& args_renamed_rel(
                                    dec.0,
                                    spec_commit_rf(
                                        p0.spec_bus(),
                                        p0.spec_registers(),
                                    ),
                                    vals,
                                )
                                &&& (if p1.spec_pc() == p0.spec_pc() + 1 {
                                    exists|k: int|
                                        #![trigger sts[k]]
                                        {
                                            &&& 0 <= k < sts.len()
                                            &&& spec_candidate_accepts(pm2, sts[k], toks[0], vals)
                                            &&& ((exists|j: int, tagv: (Seq<char>, nat)|
                                                #![trigger crate::execution_path::path_issued_rel(pm2.spec_arith_paths()[j]@, p1.spec_arith_paths()[j]@, tagv, toks[0], vals)]
                                                {
                                                    &&& 0 <= j < pm2.spec_arith_paths().len()
                                                    &&& spec_path_name(
                                                        pm2.spec_arith_paths()[j]@,
                                                    ) == sts[k]
                                                    &&& tagv.0 == sts[k]
                                                    &&& crate::execution_path::path_issued_rel(
                                                        pm2.spec_arith_paths()[j]@,
                                                        p1.spec_arith_paths()[j]@,
                                                        tagv,
                                                        toks[0],
                                                        vals,
                                                    )
                                                    &&& (forall|j2: int|
                                                        0 <= j2 < pm2.spec_arith_paths().len()
                                                            && j2 != j
                                                            ==> p1.spec_arith_paths()[j2]
                                                            == #[trigger] pm2.spec_arith_paths()[j2])
                                                    &&& p1.spec_access_paths()
                                                        == pm2.spec_access_paths()
                                                }) || (exists|j: int, tagv: (Seq<char>, nat)|
                                                #![trigger crate::memory_access_unit::mem_issued_rel(pm2.spec_access_paths()[j]@, p1.spec_access_paths()[j]@, tagv, toks[0], vals)]
                                                {
                                                    &&& 0 <= j < pm2.spec_access_paths().len()
                                                    &&& (pm2.spec_access_paths()[j])@.name
                                                        == sts[k]
                                                    &&& tagv.0 == sts[k]
                                                    &&& crate::memory_access_unit::mem_issued_rel(
                                                        pm2.spec_access_paths()[j]@,
                                                        p1.spec_access_paths()[j]@,
                                                        tagv,
                                                        toks[0],
                                                        vals,
                                                    )
                                                    &&& (forall|j2: int|
                                                        0 <= j2 < pm2.spec_access_paths().len()
                                                            && j2 != j
                                                            ==> p1.spec_access_paths()[j2]
                                                            == #[trigger] pm2.spec_access_paths()[j2])
                                                    &&& p1.spec_arith_paths()
                                                        == pm2.spec_arith_paths()
                                                }))
                                        }
                                } else {
                                    p0.spec_pc() < usize::MAX ==> (p1.spec_arith_paths() == pm2.spec_arith_paths()
                                        && p1.spec_access_paths()
                                        == pm2.spec_access_paths() && !(exists|k: int|
                                        0 <= k < sts.len() && spec_candidate_accepts(
                                            pm2,
                                            #[trigger] sts[k],
                                            toks[0],
                                            vals,
                                        )))
                                })
                            }
                    })
                })
}

/// A memory response routed into the core: delivery succeeds exactly when a
/// memory path of the response's name exists, and that unit stages the
/// converted result while everything else is untouched.
pub open spec fn response_delivered(
    p0: Processor,
    p1: Processor,
    respv: crate::execution_path::BusRespV,
    ok: bool,
) -> bool {
    &&& p1.wf()
    &&& p1.spec_pc() == p0.spec_pc()
    &&& p1.spec_registers() == p0.spec_registers()
    &&& p1.spec_bus() == p0.spec_bus()
    &&& p1.spec_arith_paths() == p0.spec_arith_paths()
    &&& p1.spec_access_paths().len() == p0.spec_access_paths().len()
    &&& (ok <==> exists|j: int|
        0 <= j < p0.spec_access_paths().len() && (#[trigger] p0.spec_access_paths()[j])@.name
            == respv.path)
    &&& (!ok ==> p1.spec_access_paths() == p0.spec_access_paths())
    &&& (ok ==> exists|j: int|
        {
            let u0 = (#[trigger] p0.spec_access_paths()[j])@;
            let u1 = p1.spec_access_paths()[j]@;
            &&& 0 <= j < p0.spec_access_paths().len()
            &&& u0.name == respv.path
            &&& (forall|k: int|
                0 <= k < p0.spec_access_paths().len() && k != j ==> p1.spec_access_paths()[k]
                    == #[trigger] p0.spec_access_paths()[k])
            &&& u1.name == u0.name
            &&& u1.evaluating == u0.evaluating
            &&& u1.queue == u0.queue
            &&& u1.load_slots == u0.load_slots
            &&& u1.store_slots == u0.store_slots
            &&& (u1.staged matches Some((sl, res)) && sl as nat == respv.slot && (
            match respv.result {
                Ok(BusAccessResult::Load(v)) => res == ExecResult::MemLoad(v),
                Ok(BusAccessResult::Store) => res == ExecResult::MemStore,
                Err(msg) => res == ExecResult::Error(msg),
            }))
        })
}

/// The processor core.
#[derive(Debug)]
pub struct Processor {
    pc: usize,
    decoder: Decoder,
    arithmetic_paths: Vec<ExecPath>,
    access_paths: Vec<memory_access_unit::Unit>,
    bus_controller: BusController,
    register_file: RegisterFile,
    result_bus: ResultBus,
}

impl Processor {
    /// Structural validity: a well-formed decoder, sixteen registers, and
    /// well-formed memory units.
    pub closed spec fn wf(&self) -> bool {
        &&& self.decoder.wf()
        &&& self.register_file@.len() == register_count()
        &&& (forall|j: int|
            0 <= j < self.access_paths@.len() ==> (#[trigger] self.access_paths@[j]).wf())
        &&& (forall|a: int, b: int|
            0 <= a < b < self.arithmetic_paths@.len() ==> spec_path_name(
                (#[trigger] self.arithmetic_paths@[a])@,
            ) != spec_path_name((#[trigger] self.arithmetic_paths@[b])@))
        &&& (forall|a: int, b: int|
            0 <= a < b < self.access_paths@.len() ==> (#[trigger] self.access_paths@[a])@.name != (
            #[trigger] self.access_paths@[b])@.name)
    }

    /// The current program counter.
    pub closed spec fn spec_pc(&self) -> nat {
        self.pc as nat
    }

    /// The register file's contents.
    pub closed spec fn spec_registers(&self) -> Seq<(u32, Option<(Seq<char>, nat)>)> {
        self.register_file@
    }

    /// The result bus's content.
    pub closed spec fn spec_bus(&self) -> crate::result_bus::BusV {
        self.result_bus@
    }

    /// The stations registered for an opcode.
    pub closed spec fn spec_station_names(&self, op: Seq<char>) -> Option<Seq<Seq<char>>> {
        self.decoder.spec_station_names(op)
    }

    /// The syntax registered for an opcode.
    pub closed spec fn spec_syntax(&self, op: Seq<char>) -> Option<Seq<TokenType>> {
        self.decoder.spec_syntax(op)
    }

    /// Whether two opcodes share one candidate-station list.
    pub closed spec fn spec_shares_list(&self, op1: Seq<char>, op2: Seq<char>) -> bool {
        self.decoder.spec_shares_list(op1, op2)
    }

    /// The number of opcodes sharing `op`'s candidate-station list.
    pub closed spec fn spec_shared_count(&self, op: Seq<char>) -> nat {
        self.decoder.spec_shared_count(op)
    }

    /// The queued outgoing memory requests.
    pub closed spec fn spec_access_queue(&self) -> Seq<BusAccessRequst> {
        self.bus_controller.access_queue@
    }

    /// The general execution paths.
    pub closed spec fn spec_arith_paths(&self) -> Seq<ExecPath> {
        self.arithmetic_paths@
    }

    /// The memory execution paths.
    pub closed spec fn spec_access_paths(&self) -> Seq<memory_access_unit::Unit> {
        self.access_paths@
    }

    /// A fresh processor: zeroed registers, a free bus, and the built-in
    /// `nop` path already registered.
    pub fn new() -> (r: Self)
        ensures
            r.wf(),
            r.spec_pc() == 0,
            forall|i: int|
                0 <= i < register_count() ==> r.spec_registers()[i] == (
                    0u32,
                    None::<(Seq<char>, nat)>,
                ),
            r.spec_bus() is None,
            r.spec_access_queue() == Seq::<BusAccessRequst>::empty(),
            r.spec_station_names("nop"@) == Some(seq!["nop1"@]),
            r.spec_access_paths().len() == 0,
            r.spec_arith_paths().len() == 1,
            r.spec_arith_paths()[0]@ is Nop,
    {
        let mut ret = Self {
            pc: 0,
            decoder: Decoder::new(),
            arithmetic_paths: Vec::new(),
            access_paths: Vec::new(),
            bus_controller: BusController::new(),
            register_file: RegisterFile::new(),
            result_bus: ResultBus::new(),
        };
        let ghost before = ret;
        let nop_path = ExecPath::Nop(nop_unit::Unit::new());
        let ghost nop_path_v = nop_path@;
        let added = ret.add_path(nop_path);
        proof {
            let ops = crate::execution_path::spec_path_ops(nop_path_v);
            assert(forall|i: int|
                0 <= i < ops.len() ==> before.spec_station_names(#[trigger] ops[i]) is None);
            assert(added is Ok);
            assert(exists|i: int| 0 <= i < ops.len() && ops[i] == "nop"@) by {
                assert(ops[0] == "nop"@);
            }
            assert(ret.spec_station_names("nop"@) == Some(seq!["nop1"@]));
        }
        ret
    }

    /// Register a general execution path: refuse a duplicate name, else wire
    /// the path's instructions into the decoder.
    pub fn add_path(&mut self, func: ExecPath) -> (r: Result<(), String>)
        requires
            old(self).wf(),
        ensures
            final(self).wf(),
            final(self).spec_pc() == old(self).spec_pc(),
            final(self).spec_registers() == old(self).spec_registers(),
            final(self).spec_bus() == old(self).spec_bus(),
            final(self).spec_access_queue() == old(self).spec_access_queue(),
            final(self).spec_access_paths() == old(self).spec_access_paths(),
            (exists|j: int|
                0 <= j < old(self).spec_arith_paths().len() && spec_path_name(
                    (#[trigger] old(self).spec_arith_paths()[j])@,
                ) == spec_path_name(func@)) ==> r is Err && final(self).spec_arith_paths() == old(self).spec_arith_paths(),
            r is Ok ==> final(self).spec_arith_paths() == old(self).spec_arith_paths().push(func),
            ({
                let ops = crate::execution_path::spec_path_ops(func@);
                ((forall|i: int|
                    0 <= i < ops.len() ==> old(self).spec_station_names(#[trigger] ops[i]) is None)
                    && (forall|j: int|
                    0 <= j < old(self).spec_arith_paths().len() ==> spec_path_name(
                        (#[trigger] old(self).spec_arith_paths()[j])@,
                    ) != spec_path_name(func@))) ==> r is Ok && (forall|op: Seq<char>|
                    (#[trigger] final(self).spec_station_names(op)) == (if exists|i: int|
                        0 <= i < ops.len() && ops[i] == op {
                        Some(seq![spec_path_name(func@)])
                    } else {
                        old(self).spec_station_names(op)
                    })) && (forall|op1: Seq<char>, op2: Seq<char>|
                    (exists|i: int| 0 <= i < ops.len() && ops[i] == op1) && (exists|j: int|
                        0 <= j < ops.len() && ops[j] == op2) ==> (#[trigger] final(self).spec_shares_list(op1, op2)))
            }),
            ({
                // A later unit of an already-registered class: its opcode set
                // is identical to the registered one, so it is appended to
                // every shared candidate list.
                let ops = crate::execution_path::spec_path_ops(func@);
                ((forall|i: int|
                    0 <= i < ops.len() ==> old(self).spec_shares_list(#[trigger] ops[i], ops[0]))
                    && old(self).spec_shared_count(ops[0]) == ops.len() && (forall|j: int|
                    0 <= j < old(self).spec_arith_paths().len() ==> spec_path_name(
                        (#[trigger] old(self).spec_arith_paths()[j])@,
                    ) != spec_path_name(func@)) && old(self).spec_station_names(ops[0]) is Some)
                    ==> r is Ok && (forall|op: Seq<char>|
                    (#[trigger] final(self).spec_station_names(op)) == (if old(self).spec_shares_list(op, ops[0]) {
                        Some(old(self).spec_station_names(op)->0.push(spec_path_name(func@)))
                    } else {
                        old(self).spec_station_names(op)
                    })) && (forall|op1: Seq<char>, op2: Seq<char>|
                    (#[trigger] final(self).spec_shares_list(op1, op2)) == old(self).spec_shares_list(op1, op2)) && (forall|op: Seq<char>|
                    (#[trigger] final(self).spec_shared_count(op)) == old(self).spec_shared_count(
                        op,
                    ))
            }),
    {
        let insts = func.list_insts();
        let name = func.name();

        // Refuse a second path under an existing name.
        let n = self.arithmetic_paths.len();
        let mut j: usize = 0;
        while j < n
            invariant
                old(self).wf(),
                n as nat == self.arithmetic_paths@.len(),
                j <= n,
                *self == *old(self),
                name@ == spec_path_name(func@),
                forall|k: int|
                    0 <= k < j ==> spec_path_name((#[trigger] self.arithmetic_paths@[k])@)
                        != name@,
            decreases n - j,
        {
            let other = self.arithmetic_paths[j].name();
            if str_eq(other.as_str(), name.as_str()) {
                return Err(String::from_str("Already has an execution path with this name"));
            }
            j = j + 1;
        }
        self.arithmetic_paths.push(func);
        let ghost ops = crate::execution_path::spec_path_ops(func@);
        let ghost insts_v = insts@;
        proof {
            assert(insts_v.map_values(|f: crate::decoder::InstFormat| f@.name) == ops);
            assert(forall|i: int| 0 <= i < insts_v.len() ==> (#[trigger] insts_v[i])@.name == ops[i]);
        }
        match self.decoder.register(insts, name) {
            Ok(_) => Ok(()),
            Err(e) => Err(e),
        }
    }

    /// Register a memory execution path: refuse a duplicate name, else wire
    /// the path's instructions into the decoder.
    pub fn add_mem_path(&mut self, func: memory_access_unit::Unit) -> (r: Result<(), String>)
        requires
            old(self).wf(),
            func.wf(),
        ensures
            final(self).wf(),
            final(self).spec_pc() == old(self).spec_pc(),
            final(self).spec_registers() == old(self).spec_registers(),
            final(self).spec_bus() == old(self).spec_bus(),
            final(self).spec_access_queue() == old(self).spec_access_queue(),
            final(self).spec_arith_paths() == old(self).spec_arith_paths(),
            (exists|j: int|
                0 <= j < old(self).spec_access_paths().len() && (#[trigger] old(self).spec_access_paths()[j])@.name == func@.name) ==> r is Err && final(self).spec_access_paths() == old(self).spec_access_paths(),
            r is Ok ==> final(self).spec_access_paths() == old(self).spec_access_paths().push(
                func,
            ),
            ({
                let ops = crate::memory_access_unit::spec_mem_ops();
                ((forall|i: int|
                    0 <= i < ops.len() ==> old(self).spec_station_names(#[trigger] ops[i]) is None)
                    && (forall|j: int|
                    0 <= j < old(self).spec_access_paths().len() ==> (#[trigger] old(self).spec_access_paths()[j])@.name != func@.name)) ==> r is Ok && (forall|
                    op: Seq<char>,
                |
                    (#[trigger] final(self).spec_station_names(op)) == (if exists|i: int|
                        0 <= i < ops.len() && ops[i] == op {
                        Some(seq![func@.name])
                    } else {
                        old(self).spec_station_names(op)
                    })) && (forall|op1: Seq<char>, op2: Seq<char>|
                    (exists|i: int| 0 <= i < ops.len() && ops[i] == op1) && (exists|j: int|
                        0 <= j < ops.len() && ops[j] == op2) ==> (#[trigger] final(self).spec_shares_list(op1, op2)))
            }),
            ({
                let ops = crate::memory_access_unit::spec_mem_ops();
                ((forall|i: int|
                    0 <= i < ops.len() ==> old(self).spec_shares_list(#[trigger] ops[i], ops[0]))
                    && old(self).spec_shared_count(ops[0]) == ops.len() && (forall|j: int|
                    0 <= j < old(self).spec_access_paths().len() ==> (#[trigger] old(self).spec_access_paths()[j])@.name != func@.name) && old(self).spec_station_names(
                    ops[0],
                ) is Some) ==> r is Ok && (forall|op: Seq<char>|
                    (#[trigger] final(self).spec_station_names(op)) == (if old(self).spec_shares_list(op, ops[0]) {
                        Some(old(self).spec_station_names(op)->0.push(func@.name))
                    } else {
                        old(self).spec_station_names(op)
                    }))
            }),
    {
        let insts = func.list_insts();
        let name = func.name();

        let n = self.access_paths.len();
        let mut j: usize = 0;
        while j < n
            invariant
                old(self).wf(),
                func.wf(),
                n as nat == self.access_paths@.len(),
                j <= n,
                *self == *old(self),
                name@ == func@.name,
                forall|k: int| 0 <= k < j ==> (#[trigger] self.access_paths@[k])@.name != name@,
            decreases n - j,
        {
            let other = self.access_paths[j].name();
            if str_eq(other.as_str(), name.as_str()) {
                return Err(String::from_str("Already has an execution path with this name"));
            }
            j = j + 1;
        }
        self.access_paths.push(func);
        let ghost ops = crate::memory_access_unit::spec_mem_ops();
        let ghost insts_v = insts@;
        proof {
            assert(insts_v.map_values(|f: crate::decoder::InstFormat| f@.name) == ops);
            assert(forall|i: int| 0 <= i < insts_v.len() ==> (#[trigger] insts_v[i])@.name == ops[i]);
        }
        match self.decoder.register(insts, name) {
            Ok(_) => Ok(()),
            Err(e) => Err(e),
        }
    }

    /// The fetching address.
    pub fn fetch_address(&self) -> (r: usize)
        ensures
            r as nat == self.spec_pc(),
    {
        self.pc
    }

    /// Commit: drain the result bus; on a value, forward `(tag, val)` to
    /// every functional unit and write it to the register file.  An error
    /// result aborts the cycle.
    fn commit(&mut self) -> (r: Result<bool, String>)
        requires
            old(self).wf(),
        ensures
            final(self).wf(),
            final(self).spec_pc() == old(self).spec_pc(),
            final(self).spec_bus() is None,
            final(self).spec_arith_paths().len() == old(self).spec_arith_paths().len(),
            final(self).spec_access_paths().len() == old(self).spec_access_paths().len(),
            final(self).spec_access_queue() == old(self).spec_access_queue(),
            final(self).decoder == old(self).decoder,
            forall|j: int|
                0 <= j < old(self).spec_arith_paths().len() ==> spec_path_name(
                    (#[trigger] final(self).spec_arith_paths()[j])@,
                ) == spec_path_name(old(self).spec_arith_paths()[j]@),
            forall|j: int|
                0 <= j < old(self).spec_access_paths().len() ==> (#[trigger] final(self).spec_access_paths()[j])@.name == old(self).spec_access_paths()[j]@.name,
            (match old(self).spec_bus() {
                None => r == Ok::<bool, String>(false) && final(self).spec_registers() == old(self).spec_registers() && final(self).spec_arith_paths() == old(self).spec_arith_paths()
                    && final(self).spec_access_paths() == old(self).spec_access_paths(),
                Some((t, res)) => if res is Error {
                    r is Err && final(self).spec_registers() == old(self).spec_registers()
                        && final(self).spec_arith_paths() == old(self).spec_arith_paths() && final(self).spec_access_paths() == old(self).spec_access_paths()
                } else {
                    r == Ok::<bool, String>(true) && final(self).spec_registers() == spec_rf_write(
                        old(self).spec_registers(),
                        t,
                        crate::execution_path::spec_result_val(res),
                    ) && (forall|j: int|
                        0 <= j < old(self).spec_arith_paths().len()
                            ==> crate::execution_path::path_forwarded(
                            (#[trigger] old(self).spec_arith_paths()[j])@,
                            final(self).spec_arith_paths()[j]@,
                            t,
                            crate::execution_path::spec_result_val(res),
                        )) && (forall|j: int|
                        0 <= j < old(self).spec_access_paths().len()
                            ==> crate::memory_access_unit::mem_forwarded_rel(
                            (#[trigger] old(self).spec_access_paths()[j])@,
                            final(self).spec_access_paths()[j]@,
                            t,
                            crate::execution_path::spec_result_val(res),
                        ))
                },
            }),
    {
        let taken = self.result_bus.take();
        match taken {
            None => Ok(false),
            Some((tag, result)) => {
                let is_error = match &result {
                    ExecResult::Error(_) => true,
                    _ => false,
                };
                if is_error {
                    return Err(String::from_str("Result bus carried an access error"));
                }
                let val = result.val();
                let ghost tagv = tag@;
                let ghost resv = result;
                let n = self.arithmetic_paths.len();
                let mut j: usize = 0;
                while j < n
                    invariant
                        n as nat == self.arithmetic_paths@.len(),
                        j <= n,
                        val == crate::execution_path::spec_result_val(resv),
                        tag@ == tagv,
                        self.pc == old(self).pc,
                        self.decoder == old(self).decoder,
                        self.register_file == old(self).register_file,
                        self.bus_controller == old(self).bus_controller,
                        self.access_paths == old(self).access_paths,
                        old(self).wf(),
                        self.result_bus@ is None,
                        forall|k: int|
                            0 <= k < j ==> crate::execution_path::path_forwarded(
                                (#[trigger] old(self).arithmetic_paths@[k])@,
                                self.arithmetic_paths@[k]@,
                                tagv,
                                val,
                            ),
                        forall|k: int|
                            j <= k < n ==> self.arithmetic_paths@[k] == old(self).arithmetic_paths@[k],
                        forall|k: int|
                            0 <= k < n ==> spec_path_name(
                                (#[trigger] self.arithmetic_paths@[k])@,
                            ) == spec_path_name(old(self).arithmetic_paths@[k]@),
                    decreases n - j,
                {
                    let path = &mut self.arithmetic_paths[j];
                    path.forward(tag.clone(), val);
                    j = j + 1;
                }
                let n2 = self.access_paths.len();
                let mut j: usize = 0;
                while j < n2
                    invariant
                        n2 as nat == self.access_paths@.len(),
                        j <= n2,
                        self.pc == old(self).pc,
                        self.decoder == old(self).decoder,
                        self.register_file == old(self).register_file,
                        self.bus_controller == old(self).bus_controller,
                        self.arithmetic_paths@.len() == old(self).arithmetic_paths@.len(),
                        forall|k: int|
                            0 <= k < self.arithmetic_paths@.len() ==> spec_path_name(
                                (#[trigger] self.arithmetic_paths@[k])@,
                            ) == spec_path_name(old(self).arithmetic_paths@[k]@),
                        forall|k: int|
                            0 <= k < self.arithmetic_paths@.len()
                                ==> crate::execution_path::path_forwarded(
                                (#[trigger] old(self).arithmetic_paths@[k])@,
                                self.arithmetic_paths@[k]@,
                                tagv,
                                val,
                            ),
                        old(self).wf(),
                        self.result_bus@ is None,
                        val == crate::execution_path::spec_result_val(resv),
                        tag@ == tagv,
                        forall|k: int|
                            0 <= k < j ==> crate::memory_access_unit::mem_forwarded_rel(
                                (#[trigger] old(self).access_paths@[k])@,
                                self.access_paths@[k]@,
                                tagv,
                                val,
                            ),
                        forall|k: int|
                            j <= k < n2 ==> self.access_paths@[k] == old(self).access_paths@[k],
                        forall|k: int|
                            0 <= k < n2 ==> (#[trigger] self.access_paths@[k]).wf() && self.access_paths@[k]@.name
                                == old(self).access_paths@[k]@.name,
                    decreases n2 - j,
                {
                    let unit = &mut self.access_paths[j];
                    unit.forward(tag.clone(), val);
                    j = j + 1;
                }
                let ghost rf0 = self.register_file@;
                self.register_file.write(tag, val);
                proof {
                    assert(self.register_file@ =~= spec_rf_write(
                        rf0,
                        (old(self).result_bus@->0).0,
                        val,
                    ));
                    let t0 = (old(self).spec_bus()->0).0;
                    let res0 = (old(self).spec_bus()->0).1;
                    assert(tagv == t0);
                    assert(resv == res0);
                    assert(val == crate::execution_path::spec_result_val(res0));
                    assert forall|j: int|
                        0 <= j < old(self).spec_arith_paths().len()
                            implies crate::execution_path::path_forwarded(
                        (#[trigger] old(self).spec_arith_paths()[j])@,
                        self.spec_arith_paths()[j]@,
                        t0,
                        crate::execution_path::spec_result_val(res0),
                    ) by {
                        assert(crate::execution_path::path_forwarded(
                            old(self).arithmetic_paths@[j]@,
                            self.arithmetic_paths@[j]@,
                            tagv,
                            val,
                        ));
                    }
                    assert forall|j: int|
                        0 <= j < old(self).spec_access_paths().len()
                            implies crate::memory_access_unit::mem_forwarded_rel(
                        (#[trigger] old(self).spec_access_paths()[j])@,
                        self.spec_access_paths()[j]@,
                        t0,
                        crate::execution_path::spec_result_val(res0),
                    ) by {
                        assert(crate::memory_access_unit::mem_forwarded_rel(
                            old(self).access_paths@[j]@,
                            self.access_paths@[j]@,
                            tagv,
                            val,
                        ));
                    }
                }
                Ok(true)
            },
        }
    }

    /// Try to issue the decoded instruction to one of its candidate
    /// stations, least-pending first (position breaks ties).  The result is
    /// a stall exactly when no candidate station can accept the instruction.
    #[verifier::rlimit(100)]
    fn try_issue(&mut self, inst: &DecodedInst, renamed_args: &[ArgState]) -> (r: IssueResult)
        requires
            old(self).wf(),
        ensures
            final(self).wf(),
            final(self).spec_pc() == old(self).spec_pc(),
            final(self).spec_registers() == old(self).spec_registers(),
            final(self).spec_bus() == old(self).spec_bus(),
            final(self).spec_access_queue() == old(self).spec_access_queue(),
            final(self).decoder == old(self).decoder,
            final(self).spec_arith_paths().len() == old(self).spec_arith_paths().len(),
            final(self).spec_access_paths().len() == old(self).spec_access_paths().len(),
            r is Stall ==> final(self).spec_arith_paths() == old(self).spec_arith_paths() && final(self).spec_access_paths() == old(self).spec_access_paths(),
            r is Stall <==> !(exists|k: int|
                0 <= k < inst@.stations.len() && spec_candidate_accepts(
                    *old(self),
                    #[trigger] inst@.stations[k],
                    inst@.name,
                    renamed_args@,
                )),
            r matches IssueResult::Issued(tag) ==> exists|k: int|
                {
                    &&& 0 <= k < inst@.stations.len()
                    &&& (#[trigger] inst@.stations[k]) == tag@.0
                    &&& spec_candidate_accepts(
                        *old(self),
                        inst@.stations[k],
                        inst@.name,
                        renamed_args@,
                    )
                    &&& (forall|k2: int|
                        0 <= k2 < inst@.stations.len() && spec_candidate_accepts(
                            *old(self),
                            #[trigger] inst@.stations[k2],
                            inst@.name,
                            renamed_args@,
                        ) ==> spec_lex_le(
                            spec_candidate_pending(*old(self), inst@.stations[k])->0,
                            k,
                            spec_candidate_pending(*old(self), inst@.stations[k2])->0,
                            k2,
                        ))
                    &&& ((exists|j: int|
                        {
                            &&& 0 <= j < old(self).spec_arith_paths().len()
                            &&& spec_path_name((#[trigger] old(self).spec_arith_paths()[j])@)
                                == tag@.0
                            &&& crate::execution_path::path_issued_rel(
                                old(self).spec_arith_paths()[j]@,
                                final(self).spec_arith_paths()[j]@,
                                tag@,
                                inst@.name,
                                renamed_args@,
                            )
                            &&& (forall|j2: int|
                                0 <= j2 < old(self).spec_arith_paths().len() && j2 != j
                                    ==> final(self).spec_arith_paths()[j2] == #[trigger] old(self).spec_arith_paths()[j2])
                            &&& final(self).spec_access_paths() == old(self).spec_access_paths()
                        }) || (exists|j: int|
                        {
                            &&& 0 <= j < old(self).spec_access_paths().len()
                            &&& (#[trigger] old(self).spec_access_paths()[j])@.name == tag@.0
                            &&& crate::memory_access_unit::mem_issued_rel(
                                old(self).spec_access_paths()[j]@,
                                final(self).spec_access_paths()[j]@,
                                tag@,
                                inst@.name,
                                renamed_args@,
                            )
                            &&& (forall|j2: int|
                                0 <= j2 < old(self).spec_access_paths().len() && j2 != j
                                    ==> final(self).spec_access_paths()[j2] == #[trigger] old(self).spec_access_paths()[j2])
                            &&& final(self).spec_arith_paths() == old(self).spec_arith_paths()
                        }))
                },
    {
        let names = inst.stations();
        let op = inst.name();
        let total = names.len();
        // Pair every candidate with the pending count of its station, when
        // one exists.
        let mut candidates: Vec<(String, Option<usize>)> = Vec::new();
        let mut i: usize = 0;
        while i < total
            invariant
                *self == *old(self),
                old(self).wf(),
                total as nat == inst@.stations.len(),
                names@.map_values(|s: String| s@) == inst@.stations,
                i <= total,
                candidates@.len() == i,
                forall|c: int|
                    0 <= c < i ==> (#[trigger] candidates@[c]).0@ == inst@.stations[c],
                forall|c: int|
                    0 <= c < i ==> (match (#[trigger] candidates@[c]).1 {
                        Some(pc) => spec_candidate_pending(*old(self), inst@.stations[c]) == Some(
                            pc as nat,
                        ),
                        None => spec_candidate_pending(*old(self), inst@.stations[c]) is None,
                    }),
            decreases total - i,
        {
            let name: &String = &names[i];
            let mut pending_count: Option<usize> = None;
            match self.find_arith(name.as_str()) {
                Some(idx) => {
                    let pc = self.arithmetic_paths[idx].pending();
                    proof {
                        let jc = choose|j: int|
                            0 <= j < self.spec_arith_paths().len() && spec_path_name(
                                self.spec_arith_paths()[j]@,
                            ) == name@;
                        assert(jc == idx as int);
                    }
                    pending_count = Some(pc);
                },
                None => {
                    match self.find_access(name.as_str()) {
                        Some(idx) => {
                            proof {
                                assert(self.access_paths@[idx as int].wf());
                                let jc = choose|j: int|
                                    0 <= j < self.spec_access_paths().len()
                                        && self.spec_access_paths()[j]@.name == name@;
                                assert(jc == idx as int);
                            }
                            let pc = self.access_paths[idx].pending();
                            pending_count = Some(pc);
                        },
                        None => {},
                    }
                },
            }
            candidates.push((name.clone(), pending_count));
            i = i + 1;
        }
        // Visit candidates in ascending (pending, position) order: repeatedly
        // pick the first unused candidate with the least pending count.
        let mut used: Vec<bool> = Vec::new();
        let mut k: usize = 0;
        while k < total
            invariant
                used@.len() == k,
                k <= total,
                forall|c: int| 0 <= c < k ==> !(#[trigger] used@[c]),
            decreases total - k,
        {
            used.push(false);
            k = k + 1;
        }
        let mut round: usize = 0;
        proof {
            lemma_count_true_all(used@);
        }
        while round < total
            invariant
                old(self).wf(),
                self.wf(),
                self.pc == old(self).pc,
                self.decoder == old(self).decoder,
                self.register_file == old(self).register_file,
                self.bus_controller == old(self).bus_controller,
                self.result_bus == old(self).result_bus,
                self.arithmetic_paths@ == old(self).arithmetic_paths@,
                self.access_paths@ == old(self).access_paths@,
                used@.len() == total,
                total == candidates@.len(),
                total as nat == inst@.stations.len(),
                op@ == inst@.name,
                forall|c: int|
                    0 <= c < total ==> (#[trigger] candidates@[c]).0@ == inst@.stations[c],
                forall|c: int|
                    0 <= c < total ==> (match (#[trigger] candidates@[c]).1 {
                        Some(pc) => spec_candidate_pending(*old(self), inst@.stations[c]) == Some(
                            pc as nat,
                        ),
                        None => spec_candidate_pending(*old(self), inst@.stations[c]) is None,
                    }),
                forall|c: int|
                    0 <= c < total && #[trigger] used@[c] ==> !spec_candidate_accepts(
                        *old(self),
                        inst@.stations[c],
                        inst@.name,
                        renamed_args@,
                    ),
                forall|c: int, c2: int|
                    0 <= c < total && 0 <= c2 < total && #[trigger] used@[c] && !(
                    #[trigger] used@[c2]) && candidates@[c2].1 is Some ==> spec_lex_le(
                        candidates@[c].1->0 as nat,
                        c,
                        candidates@[c2].1->0 as nat,
                        c2,
                    ),
                forall|c: int|
                    0 <= c < total && #[trigger] used@[c] ==> candidates@[c].1 is Some,
                count_true(used@) == round,
            decreases total - round,
        {
            // Select the first unused candidate with the least pending count.
            let mut best: Option<usize> = None;
            let mut scan: usize = 0;
            while scan < total
                invariant
                    used@.len() == total,
                    total == candidates@.len(),
                    scan <= total,
                    match best {
                        Some(b) => b < total && (b as int) < scan && !used@[b as int]
                            && candidates@[b as int].1 is Some && (forall|c: int|
                            0 <= c < scan && !used@[c] && (#[trigger] candidates@[c]).1 is Some
                                ==> spec_lex_le(
                                candidates@[b as int].1->0 as nat,
                                b as int,
                                candidates@[c].1->0 as nat,
                                c,
                            )),
                        None => forall|c: int|
                            0 <= c < scan ==> !(!used@[c] && (#[trigger] candidates@[c]).1
                                is Some),
                    },
                decreases total - scan,
            {
                if !used[scan] {
                    match candidates[scan].1 {
                        Some(pc) => {
                            let better = match best {
                                Some(b) => match candidates[b].1 {
                                    Some(pb) => pc < pb,
                                    None => true,
                                },
                                None => true,
                            };
                            if better {
                                best = Some(scan);
                            }
                        },
                        None => {},
                    }
                }
                scan = scan + 1;
            }
            let chosen = match best {
                None => {
                    // Every candidate with a station was tried and refused;
                    // the rest name no station at all.
                    proof {
                        assert forall|k2: int|
                            0 <= k2 < inst@.stations.len() implies !spec_candidate_accepts(
                            *old(self),
                            inst@.stations[k2],
                            inst@.name,
                            renamed_args@,
                        ) by {
                            if !used@[k2] {
                                assert(candidates@[k2].1 is None);
                                assert(spec_candidate_pending(*old(self), inst@.stations[k2]) is None);
                            }
                        }
                    }
                    return IssueResult::Stall;
                },
                Some(b) => b,
            };
            let ghost entry_used = used@;
            used[chosen] = true;
            proof {
                lemma_count_true_update(entry_used, chosen as int);
            }
            let station_name = candidates[chosen].0.clone();
            let ghost chosen_i = chosen as int;
            let ghost arith0 = self.arithmetic_paths@;
            let ghost access_pre = self.access_paths@;
            match self.find_arith(station_name.as_str()) {
                Some(idx) => {
                    let path = &mut self.arithmetic_paths[idx];
                    proof {
                        assert(*path == arith0[idx as int]);
                    }
                    match path.try_issue(inst.name(), renamed_args) {
                        Ok(tag) => {
                            proof {
                                assert(spec_path_name(arith0[idx as int]@) == inst@.stations[
                                    chosen_i
                                ]);
                                assert(tag@.0 == spec_path_name(arith0[idx as int]@)) by {
                                    match arith0[idx as int]@ {
                                        crate::execution_path::ExecPathV::Nop => {},
                                        crate::execution_path::ExecPathV::Arith(_) => {},
                                    }
                                }
                                assert(tag@.0 == inst@.stations[chosen_i]);
                                assert(crate::execution_path::spec_path_accepts(
                                    arith0[idx as int]@,
                                    renamed_args@,
                                ));
                                assert(old(self).spec_arith_paths() == arith0);
                                assert(spec_path_name((old(self).spec_arith_paths()[
                                    idx as int
                                ])@) == inst@.stations[chosen_i]
                                    && crate::execution_path::spec_path_accepts(
                                    old(self).spec_arith_paths()[idx as int]@,
                                    renamed_args@,
                                ));
                                assert(spec_candidate_accepts(
                                    *old(self),
                                    inst@.stations[chosen_i],
                                    inst@.name,
                                    renamed_args@,
                                ));
                                assert(candidates@[chosen_i].1 is Some);
                                assert forall|k2: int|
                                    0 <= k2 < inst@.stations.len() && spec_candidate_accepts(
                                        *old(self),
                                        #[trigger] inst@.stations[k2],
                                        inst@.name,
                                        renamed_args@,
                                    ) implies spec_lex_le(
                                    spec_candidate_pending(
                                        *old(self),
                                        inst@.stations[chosen_i],
                                    )->0,
                                    chosen_i,
                                    spec_candidate_pending(*old(self), inst@.stations[k2])->0,
                                    k2,
                                ) by {
                                    assert(spec_candidate_pending(
                                        *old(self),
                                        inst@.stations[k2],
                                    ) is Some);
                                    assert(candidates@[k2].1 is Some);
                                    if entry_used[k2] {
                                        assert(!spec_candidate_accepts(
                                            *old(self),
                                            inst@.stations[k2],
                                            inst@.name,
                                            renamed_args@,
                                        ));
                                    }
                                }
                                assert(final(self).spec_access_paths() == old(self).spec_access_paths());
                            }
                            return IssueResult::Issued(tag);
                        },
                        Err(_) => {},
                    }
                    proof {
                        assert(self.arithmetic_paths@ =~= arith0);
                        assert(!crate::execution_path::spec_path_accepts(
                            arith0[idx as int]@,
                            renamed_args@,
                        ));
                        assert forall|j: int|
                            0 <= j < arith0.len() && spec_path_name((#[trigger] arith0[j])@)
                                == inst@.stations[chosen_i] implies !crate::execution_path::spec_path_accepts(
                            arith0[j]@,
                            renamed_args@,
                        ) by {
                            if j != idx as int {
                                assert(spec_path_name(arith0[j]@) == spec_path_name(
                                    arith0[idx as int]@,
                                ));
                                assert(false);
                            }
                        }
                    }
                },
                None => {},
            }
            let ghost access0 = self.access_paths@;
            match self.find_access(station_name.as_str()) {
                Some(idx) => {
                    proof {
                        assert(self.access_paths@[idx as int].wf());
                    }
                    let unit = &mut self.access_paths[idx];
                    proof {
                        assert(*unit == access0[idx as int]);
                    }
                    match unit.try_issue(inst.name(), renamed_args) {
                        Ok(tag) => {
                            proof {
                                assert(access0[idx as int]@.name == inst@.stations[chosen_i]);
                                assert(tag@.0 == inst@.stations[chosen_i]);
                                assert(crate::memory_access_unit::mem_accepts(
                                    access0[idx as int]@,
                                    inst@.name,
                                    renamed_args@,
                                ));
                                assert(old(self).spec_access_paths() == access0);
                                assert((old(self).spec_access_paths()[idx as int])@.name
                                    == inst@.stations[chosen_i]
                                    && crate::memory_access_unit::mem_accepts(
                                    old(self).spec_access_paths()[idx as int]@,
                                    inst@.name,
                                    renamed_args@,
                                ));
                                assert(spec_candidate_accepts(
                                    *old(self),
                                    inst@.stations[chosen_i],
                                    inst@.name,
                                    renamed_args@,
                                ));
                                assert forall|k2: int|
                                    0 <= k2 < inst@.stations.len() && spec_candidate_accepts(
                                        *old(self),
                                        #[trigger] inst@.stations[k2],
                                        inst@.name,
                                        renamed_args@,
                                    ) implies spec_lex_le(
                                    spec_candidate_pending(
                                        *old(self),
                                        inst@.stations[chosen_i],
                                    )->0,
                                    chosen_i,
                                    spec_candidate_pending(*old(self), inst@.stations[k2])->0,
                                    k2,
                                ) by {
                                    assert(spec_candidate_pending(
                                        *old(self),
                                        inst@.stations[k2],
                                    ) is Some);
                                    assert(candidates@[k2].1 is Some);
                                    if entry_used[k2] {
                                        assert(!spec_candidate_accepts(
                                            *old(self),
                                            inst@.stations[k2],
                                            inst@.name,
                                            renamed_args@,
                                        ));
                                    }
                                }
                                assert(final(self).spec_arith_paths() == old(self).spec_arith_paths());
                            }
                            return IssueResult::Issued(tag);
                        },
                        Err(_) => {},
                    }
                    proof {
                        assert(self.access_paths@ =~= access0);
                        assert(!crate::memory_access_unit::mem_accepts(
                            access0[idx as int]@,
                            inst@.name,
                            renamed_args@,
                        ));
                        assert forall|j: int|
                            0 <= j < access0.len() && (#[trigger] access0[j])@.name == inst@.stations[
                            chosen_i
                        ] implies !crate::memory_access_unit::mem_accepts(
                            access0[j]@,
                            inst@.name,
                            renamed_args@,
                        ) by {
                            if j != idx as int {
                                assert(access0[j]@.name == access0[idx as int]@.name);
                                assert(false);
                            }
                        }
                    }
                },
                None => {},
            }
            proof {
                assert(!spec_candidate_accepts(
                    *old(self),
                    inst@.stations[chosen_i],
                    inst@.name,
                    renamed_args@,
                ));
            }
            round = round + 1;
        }
        proof {
            lemma_count_true_all(used@);
            assert forall|k2: int|
                0 <= k2 < inst@.stations.len() implies !spec_candidate_accepts(
                *old(self),
                inst@.stations[k2],
                inst@.name,
                renamed_args@,
            ) by {
                assert(used@[k2]);
            }
        }
        IssueResult::Stall
    }

    /// Index of the general path with the given name, if any.
    fn find_arith(&self, name: &str) -> (r: Option<usize>)
        ensures
            r matches Some(i) ==> i < self.spec_arith_paths().len() && spec_path_name(
                self.spec_arith_paths()[i as int]@,
            ) == name@,
            r is None ==> forall|j: int|
                0 <= j < self.spec_arith_paths().len() ==> spec_path_name(
                    (#[trigger] self.spec_arith_paths()[j])@,
                ) != name@,
    {
        let n = self.arithmetic_paths.len();
        let mut j: usize = 0;
        while j < n
            invariant
                n as nat == self.arithmetic_paths@.len(),
                j <= n,
                forall|k: int|
                    0 <= k < j ==> spec_path_name((#[trigger] self.arithmetic_paths@[k])@) != name@,
            decreases n - j,
        {
            let other = self.arithmetic_paths[j].name();
            if str_eq(other.as_str(), name) {
                return Some(j);
            }
            j = j + 1;
        }
        None
    }

    /// Index of the memory path with the given name, if any.
    fn find_access(&self, name: &str) -> (r: Option<usize>)
        ensures
            r matches Some(i) ==> i < self.spec_access_paths().len()
                && self.spec_access_paths()[i as int]@.name == name@,
            r is None ==> forall|j: int|
                0 <= j < self.spec_access_paths().len()
                    ==> (#[trigger] self.spec_access_paths()[j])@.name != name@,
    {
        let n = self.access_paths.len();
        let mut j: usize = 0;
        while j < n
            invariant
                n as nat == self.access_paths@.len(),
                j <= n,
                forall|k: int| 0 <= k < j ==> (#[trigger] self.access_paths@[k])@.name != name@,
            decreases n - j,
        {
            let other = self.access_paths[j].name();
            if str_eq(other.as_str(), name) {
                return Some(j);
            }
            j = j + 1;
        }
        None
    }

    /// If the instruction writes back, rename its destination register to
    /// the issued tag; the later rename wins over any older one.
    fn register_renaming(&mut self, tag: RStag, inst: DecodedInst) -> (r: Result<(), String>)
        requires
            old(self).wf(),
            inst@.writeback matches Some(ArgType::Reg(d)) ==> d < register_count(),
        ensures
            final(self).wf(),
            r is Ok <==> !(inst@.writeback matches Some(ArgType::Imm(_))),
            r is Err ==> final(self).spec_registers() == old(self).spec_registers(),
            final(self).spec_pc() == old(self).spec_pc(),
            final(self).spec_bus() == old(self).spec_bus(),
            final(self).spec_arith_paths() == old(self).spec_arith_paths(),
            final(self).spec_access_paths() == old(self).spec_access_paths(),
            final(self).spec_access_queue() == old(self).spec_access_queue(),
            final(self).decoder == old(self).decoder,
            (match inst@.writeback {
                Some(ArgType::Reg(d)) => final(self).spec_registers() == old(self).spec_registers().update(
                    d as int,
                    (old(self).spec_registers()[d as int].0, Some(tag@)),
                ),
                _ => final(self).spec_registers() == old(self).spec_registers(),
            }),
    {
        match inst.writeback() {
            Some(dest) => match dest {
                ArgType::Reg(idx) => {
                    self.register_file.rename(idx, tag);
                    Ok(())
                },
                ArgType::Imm(_) => {
                    // The decoder never puts an immediate in the writeback
                    // position; this is reported rather than trusted.
                    Err(String::from_str("Not a valid writeback destination"))
                },
            },
            None => Ok(()),
        }
    }

    /// Advance every general path one cycle against the shared bus, in
    /// order.
    fn advance_arith(&mut self)
        requires
            old(self).wf(),
        ensures
            final(self).wf(),
            final(self).pc == old(self).pc,
            final(self).decoder == old(self).decoder,
            final(self).register_file == old(self).register_file,
            final(self).access_paths == old(self).access_paths,
            final(self).bus_controller == old(self).bus_controller,
            final(self).arithmetic_paths@.len() == old(self).arithmetic_paths@.len(),
            paths_stepped(
                old(self).arithmetic_paths@.map_values(|p: ExecPath| p@),
                old(self).result_bus@,
                final(self).arithmetic_paths@.map_values(|p: ExecPath| p@),
                final(self).result_bus@,
            ),
    {
        let ghost v0a = old(self).arithmetic_paths@.map_values(|p: ExecPath| p@);
        let n = self.arithmetic_paths.len();
        let mut j: usize = 0;
        proof {
            assert(v0a.take(0) =~= Seq::<crate::execution_path::ExecPathV>::empty());
            assert(self.arithmetic_paths@.map_values(|p: ExecPath| p@).take(0)
                =~= Seq::<crate::execution_path::ExecPathV>::empty());
        }
        while j < n
            invariant
                old(self).wf(),
                self.wf(),
                n as nat == self.arithmetic_paths@.len(),
                n as nat == v0a.len(),
                j <= n,
                self.pc == old(self).pc,
                self.decoder == old(self).decoder,
                self.register_file == old(self).register_file,
                self.access_paths == old(self).access_paths,
                self.bus_controller == old(self).bus_controller,
                v0a == old(self).arithmetic_paths@.map_values(|p: ExecPath| p@),
                paths_stepped(
                    v0a.take(j as int),
                    old(self).result_bus@,
                    self.arithmetic_paths@.map_values(|p: ExecPath| p@).take(j as int),
                    self.result_bus@,
                ),
                forall|k: int|
                    j <= k < n ==> self.arithmetic_paths@[k] == old(self).arithmetic_paths@[k],
            decreases n - j,
        {
            let ghost busb = self.result_bus@;
            let ghost prevviews = self.arithmetic_paths@.map_values(|p: ExecPath| p@);
            let path = &mut self.arithmetic_paths[j];
            let stepped = path.next_cycle(&mut self.result_bus);
            proof {
                assert(stepped is Ok);
            }
            j = j + 1;
            proof {
                let curviews = self.arithmetic_paths@.map_values(|p: ExecPath| p@);
                assert(curviews.take(j as int).drop_last() =~= prevviews.take(j as int - 1));
                assert(v0a.take(j as int).drop_last() =~= v0a.take(j as int - 1));
                assert(v0a.take(j as int).last() == v0a[j as int - 1]);
                assert(curviews.take(j as int).last() == curviews[j as int - 1]);
                assert(v0a[j as int - 1] == old(self).arithmetic_paths@[j as int - 1]@);
                assert(curviews[j as int - 1] == self.arithmetic_paths@[j as int - 1]@);
                assert(paths_stepped(
                    v0a.take(j as int).drop_last(),
                    old(self).result_bus@,
                    curviews.take(j as int).drop_last(),
                    busb,
                ));
                match v0a[j as int - 1] {
                    crate::execution_path::ExecPathV::Nop => {
                        assert(curviews[j as int - 1] == v0a[j as int - 1]);
                        assert(self.result_bus@ == busb);
                    },
                    crate::execution_path::ExecPathV::Arith(u0) => {
                        let su = crate::arithmetic_unit::spec_arith_step(u0, busb);
                        assert(curviews[j as int - 1]
                            == crate::execution_path::ExecPathV::Arith(su.0));
                        assert(self.result_bus@ == su.1);
                    },
                }
                assert(stepping_witness(busb));
                assert(paths_stepped(
                    v0a.take(j as int),
                    old(self).result_bus@,
                    curviews.take(j as int),
                    self.result_bus@,
                ));
            }
        }
        proof {
            assert(v0a.take(n as int) =~= v0a);
            assert(self.arithmetic_paths@.map_values(|p: ExecPath| p@).take(n as int)
                =~= self.arithmetic_paths@.map_values(|p: ExecPath| p@));
        }
    }

    /// Advance every memory path one cycle against the shared bus, in order,
    /// queuing any emitted memory request.
    fn advance_access(&mut self)
        requires
            old(self).wf(),
        ensures
            final(self).wf(),
            final(self).pc == old(self).pc,
            final(self).decoder == old(self).decoder,
            final(self).register_file == old(self).register_file,
            final(self).arithmetic_paths == old(self).arithmetic_paths,
            final(self).access_paths@.len() == old(self).access_paths@.len(),
            access_stepped(
                old(self).access_paths@.map_values(|u: memory_access_unit::Unit| u@),
                old(self).result_bus@,
                final(self).access_paths@.map_values(|u: memory_access_unit::Unit| u@),
                final(self).result_bus@,
                old(self).bus_controller.access_queue@,
                final(self).bus_controller.access_queue@,
            ),
    {
        let ghost v0m = old(self).access_paths@.map_values(|u: memory_access_unit::Unit| u@);
        let n2 = self.access_paths.len();
        let mut j: usize = 0;
        proof {
            assert(v0m.take(0) =~= Seq::<memory_access_unit::MemUnitV>::empty());
            assert(self.access_paths@.map_values(|u: memory_access_unit::Unit| u@).take(0)
                =~= Seq::<memory_access_unit::MemUnitV>::empty());
        }
        while j < n2
            invariant
                old(self).wf(),
                self.wf(),
                n2 as nat == self.access_paths@.len(),
                n2 as nat == v0m.len(),
                j <= n2,
                self.pc == old(self).pc,
                self.decoder == old(self).decoder,
                self.register_file == old(self).register_file,
                self.arithmetic_paths == old(self).arithmetic_paths,
                v0m == old(self).access_paths@.map_values(|u: memory_access_unit::Unit| u@),
                access_stepped(
                    v0m.take(j as int),
                    old(self).result_bus@,
                    self.access_paths@.map_values(|u: memory_access_unit::Unit| u@).take(j as int),
                    self.result_bus@,
                    old(self).bus_controller.access_queue@,
                    self.bus_controller.access_queue@,
                ),
                forall|k: int|
                    j <= k < n2 ==> self.access_paths@[k] == old(self).access_paths@[k],
            decreases n2 - j,
        {
            proof {
                assert(self.access_paths@[j as int].wf());
            }
            let ghost busb = self.result_bus@;
            let ghost qb = self.bus_controller.access_queue@;
            let ghost prevviews = self.access_paths@.map_values(|u: memory_access_unit::Unit| u@);
            let ghost umidv: memory_access_unit::MemUnitV;
            let maybe_request = {
                let unit = &mut self.access_paths[j];
                let stepped = unit.next_cycle(&mut self.result_bus);
                proof {
                    assert(stepped is Ok);
                    umidv = unit@;
                }
                unit.request()
            };
            let ghost busc = self.result_bus@;
            if let Some(rq) = maybe_request {
                self.bus_controller.push(rq);
            }
            j = j + 1;
            proof {
                let curviews = self.access_paths@.map_values(|u: memory_access_unit::Unit| u@);
                assert(curviews.take(j as int).drop_last() =~= prevviews.take(j as int - 1));
                assert(v0m.take(j as int).drop_last() =~= v0m.take(j as int - 1));
                assert(v0m.take(j as int).last() == v0m[j as int - 1]);
                assert(curviews.take(j as int).last() == curviews[j as int - 1]);
                assert(v0m[j as int - 1] == old(self).access_paths@[j as int - 1]@);
                assert(curviews[j as int - 1] == self.access_paths@[j as int - 1]@);
                assert(mem_cycle_rel(v0m[j as int - 1], busb, umidv, busc));
                assert(mem_request_rel(umidv, curviews[j as int - 1], maybe_request));
                assert(self.result_bus@ == busc);
                assert(match maybe_request {
                    Some(req) => self.bus_controller.access_queue@ == qb.push(req)
                        || self.bus_controller.access_queue@ == qb,
                    None => self.bus_controller.access_queue@ == qb,
                });
                assert(stepping_witness(busb));
                assert(stepping_witness(qb));
                assert(stepping_witness(umidv));
                assert(stepping_witness(maybe_request));
                assert(access_stepped(
                    v0m.take(j as int),
                    old(self).result_bus@,
                    curviews.take(j as int),
                    self.result_bus@,
                    old(self).bus_controller.access_queue@,
                    self.bus_controller.access_queue@,
                )) by {
                    assert(access_stepped(
                        v0m.take(j as int).drop_last(),
                        old(self).result_bus@,
                        curviews.take(j as int).drop_last(),
                        busb,
                        old(self).bus_controller.access_queue@,
                        qb,
                    ));
                }
            }
        }
        proof {
            assert(v0m.take(n2 as int) =~= v0m);
            assert(self.access_paths@.map_values(|u: memory_access_unit::Unit| u@).take(n2 as int)
                =~= self.access_paths@.map_values(|u: memory_access_unit::Unit| u@));
        }
    }

    /// Advance one cycle with `row_inst` as the candidate instruction.
    ///
    /// Order within the cycle: commit the bus, advance every unit (queuing
    /// any emitted memory request), then decode, issue and rename.  On a
    /// stall the program counter is unchanged and the same instruction is
    /// re-presented next cycle.  The step fails exactly when the committed
    /// result carried an access error or the instruction does not decode.
    pub fn next_cycle(&mut self, row_inst: &str) -> (r: Result<(), String>)
        requires
            old(self).wf(),
        ensures
            core_cycle_rel(*old(self), *final(self), row_inst@, r is Ok),
    {
        let mut next_pc = self.pc;
        match self.commit() {
            Ok(_) => {},
            Err(e) => {
                return Err(e);
            },
        }
        let ghost rf1v = self.register_file@;
        let ghost pmc = *self;
        self.advance_arith();
        let ghost pma = *self;
        self.advance_access();
        let ghost pmacc = *self;

        let ghost predecode = *self;
        let inst = match self.decoder.decode(row_inst) {
            Ok(i) => i,
            Err(e) => {
                proof {
                    assert(self.register_file@ == rf1v);
                    assert(rf1v == spec_commit_rf(old(self).spec_bus(), old(self).spec_registers()));
                }
                return Err(e);
            },
        };
        proof {
            let toks = crate::decoder::spec_tokens(row_inst@);
            let syn = self.decoder.spec_syntax(toks[0])->0;
            crate::decoder::lemma_decode_args_bounded(
                toks.drop_first(),
                syn,
                0,
                Seq::empty(),
                None,
            );
        }
        let args = inst.arguments();
        let ghost snap = *self;
        let mut renamed_args: Vec<ArgState> = Vec::new();
        let mut i: usize = 0;
        while i < args.len()
            invariant
                i <= args@.len(),
                *self == snap,
                self.wf(),
                args@ == inst@.args,
                self.register_file@ == rf1v,
                renamed_args@.len() == i,
                args_renamed_rel(args@.take(i as int), rf1v, renamed_args@),
                forall|k: int|
                    0 <= k < args@.len() ==> ((#[trigger] args@[k]) matches ArgType::Reg(x) ==> x
                        < register_count()),
                self.register_file@.len() == register_count(),
            decreases args@.len() - i,
        {
            let arg = args[i];
            let val = match arg {
                ArgType::Reg(idx) => self.register_file.read(idx),
                ArgType::Imm(imm) => ArgState::Ready(imm),
            };
            renamed_args.push(val);
            i = i + 1;
            proof {
                assert(args@.take(i as int).drop_last() =~= args@.take(i as int - 1));
                assert(args_renamed_rel(args@.take(i as int), rf1v, renamed_args@)) by {
                    assert(forall|k: int|
                        0 <= k < i - 1 ==> args@.take(i as int)[k] == #[trigger] args@.take(
                            i as int - 1,
                        )[k]);
                    assert(args@.take(i as int)[i - 1] == args@[i - 1]);
                }
            }
        }
        proof {
            assert(args@.take(args@.len() as int) =~= args@);
        }

        let ghost instv = inst@;
        let ghost mut tagv2: (Seq<char>, nat) = (Seq::empty(), 0nat);
        let result = self.try_issue(&inst, renamed_args.as_slice());
        let ghost postissue = *self;
        let ghost issued = result is Issued;
        if let IssueResult::Issued(tag) = result {
            let ghost tagv = tag@;
            proof {
                tagv2 = tag@;
            }
            if next_pc < usize::MAX {
                next_pc = next_pc + 1;
            }
            proof {
                assert(!(instv.writeback matches Some(ArgType::Imm(_))));
            }
            match self.register_renaming(tag, inst) {
                Ok(_) => {},
                Err(e) => {
                    return Err(e);
                },
            }
            proof {
                assert(postissue.spec_registers() == rf1v);
                match instv.writeback {
                    Some(ArgType::Reg(d)) => {
                        assert(exists|t2: (Seq<char>, nat)|
                            self.register_file@ == rf1v.update(
                                d as int,
                                (rf1v[d as int].0, Some(t2)),
                            )) by {
                            assert(self.register_file@ == rf1v.update(
                                d as int,
                                (rf1v[d as int].0, Some(tagv)),
                            ));
                        }
                    },
                    _ => {
                        assert(self.register_file@ == rf1v);
                    },
                }
            }
        }

        self.pc = next_pc;
        proof {
            assert(rf1v == (match old(self).spec_bus() {
                Some((t, res)) => spec_rf_write(
                    old(self).spec_registers(),
                    t,
                    crate::execution_path::spec_result_val(res),
                ),
                None => old(self).spec_registers(),
            }));
            if !issued {
                assert(self.register_file@ == rf1v);
            }
            let toks = crate::decoder::spec_tokens(row_inst@);
            let syn0 = old(self).spec_syntax(toks[0])->0;
            assert(predecode.spec_syntax(toks[0]) == old(self).spec_syntax(toks[0]));
            assert(instv.writeback == (crate::decoder::spec_decode_args(
                toks.drop_first(),
                syn0,
            )->0).1);
            let rf1 = spec_commit_rf(old(self).spec_bus(), old(self).spec_registers());
            assert(rf1 == rf1v);
            if self.spec_pc() == old(self).spec_pc() + 1 {
                assert(issued);
                assert(spec_rename_rel(instv.writeback, rf1, self.spec_registers()));
                assert(spec_decoded_writeback(row_inst@, old(self).spec_syntax(toks[0]))
                    == instv.writeback);
            }
            assert(self.decoder == snap.decoder);
            // Witness the advance chain: post-commit, post-general-advance,
            // and post-memory-advance (equal in every path field to the
            // post-decode snapshot) states.
            let toks2 = crate::decoder::spec_tokens(row_inst@);
            let sts2 = old(self).spec_station_names(toks2[0])->0;
            let dec2 = crate::decoder::spec_decode_args(
                toks2.drop_first(),
                old(self).spec_syntax(toks2[0])->0,
            )->0;
            assert(pmc.result_bus@ is None);
            assert(paths_stepped(
                pmc.spec_arith_paths().map_values(|p: ExecPath| p@),
                None,
                pma.spec_arith_paths().map_values(|p: ExecPath| p@),
                pma.spec_bus(),
            ));
            assert(snap.access_paths == pmacc.access_paths);
            assert(snap.result_bus == pmacc.result_bus);
            assert(snap.bus_controller == pmacc.bus_controller);
            assert(snap.arithmetic_paths == pmacc.arithmetic_paths);
            assert(access_stepped(
                pma.spec_access_paths().map_values(|u: memory_access_unit::Unit| u@),
                pma.spec_bus(),
                snap.spec_access_paths().map_values(|u: memory_access_unit::Unit| u@),
                snap.spec_bus(),
                pma.spec_access_queue(),
                snap.spec_access_queue(),
            ));
            assert(self.spec_bus() == snap.spec_bus());
            assert(self.spec_access_queue() == snap.spec_access_queue());
            assert(instv.args == dec2.0);
            assert(instv.stations == sts2);
            assert(instv.name == toks2[0]);
            assert(args_renamed_rel(dec2.0, rf1v, renamed_args@));
            assert(rf1v == spec_commit_rf(old(self).spec_bus(), old(self).spec_registers()));
            assert(args_renamed_rel(
                dec2.0,
                spec_commit_rf(old(self).spec_bus(), old(self).spec_registers()),
                renamed_args@,
            ));
            if issued {
                assert(self.spec_pc() == old(self).spec_pc() + 1 || old(self).spec_pc()
                    >= usize::MAX);
                assert(self.arithmetic_paths@ == postissue.arithmetic_paths@);
                assert(self.access_paths@ == postissue.access_paths@);
                let k0 = choose|k: int|
                    {
                        &&& 0 <= k < instv.stations.len()
                        &&& (#[trigger] instv.stations[k]) == tagv2.0
                        &&& spec_candidate_accepts(
                            snap,
                            instv.stations[k],
                            instv.name,
                            renamed_args@,
                        )
                        &&& (forall|k2: int|
                            0 <= k2 < instv.stations.len() && spec_candidate_accepts(
                                snap,
                                #[trigger] instv.stations[k2],
                                instv.name,
                                renamed_args@,
                            ) ==> spec_lex_le(
                                spec_candidate_pending(snap, instv.stations[k])->0,
                                k,
                                spec_candidate_pending(snap, instv.stations[k2])->0,
                                k2,
                            ))
                        &&& ((exists|j: int|
                            {
                                &&& 0 <= j < snap.spec_arith_paths().len()
                                &&& spec_path_name((#[trigger] snap.spec_arith_paths()[j])@)
                                    == tagv2.0
                                &&& crate::execution_path::path_issued_rel(
                                    snap.spec_arith_paths()[j]@,
                                    postissue.spec_arith_paths()[j]@,
                                    tagv2,
                                    instv.name,
                                    renamed_args@,
                                )
                                &&& (forall|j2: int|
                                    0 <= j2 < snap.spec_arith_paths().len() && j2 != j
                                        ==> postissue.spec_arith_paths()[j2] == #[trigger] snap.spec_arith_paths()[j2])
                                &&& postissue.spec_access_paths() == snap.spec_access_paths()
                            }) || (exists|j: int|
                            {
                                &&& 0 <= j < snap.spec_access_paths().len()
                                &&& (#[trigger] snap.spec_access_paths()[j])@.name == tagv2.0
                                &&& crate::memory_access_unit::mem_issued_rel(
                                    snap.spec_access_paths()[j]@,
                                    postissue.spec_access_paths()[j]@,
                                    tagv2,
                                    instv.name,
                                    renamed_args@,
                                )
                                &&& (forall|j2: int|
                                    0 <= j2 < snap.spec_access_paths().len() && j2 != j
                                        ==> postissue.spec_access_paths()[j2] == #[trigger] snap.spec_access_paths()[j2])
                                &&& postissue.spec_arith_paths() == snap.spec_arith_paths()
                            }))
                    };
                assert(sts2[k0] == instv.stations[k0]);
                assert(spec_candidate_accepts(snap, sts2[k0], toks2[0], renamed_args@));
                if exists|j: int|
                    {
                        &&& 0 <= j < snap.spec_arith_paths().len()
                        &&& spec_path_name((#[trigger] snap.spec_arith_paths()[j])@) == tagv2.0
                        &&& crate::execution_path::path_issued_rel(
                            snap.spec_arith_paths()[j]@,
                            postissue.spec_arith_paths()[j]@,
                            tagv2,
                            instv.name,
                            renamed_args@,
                        )
                        &&& (forall|j2: int|
                            0 <= j2 < snap.spec_arith_paths().len() && j2 != j
                                ==> postissue.spec_arith_paths()[j2] == #[trigger] snap.spec_arith_paths()[j2])
                        &&& postissue.spec_access_paths() == snap.spec_access_paths()
                    } {
                    let j0 = choose|j: int|
                        {
                            &&& 0 <= j < snap.spec_arith_paths().len()
                            &&& spec_path_name((#[trigger] snap.spec_arith_paths()[j])@)
                                == tagv2.0
                            &&& crate::execution_path::path_issued_rel(
                                snap.spec_arith_paths()[j]@,
                                postissue.spec_arith_paths()[j]@,
                                tagv2,
                                instv.name,
                                renamed_args@,
                            )
                            &&& (forall|j2: int|
                                0 <= j2 < snap.spec_arith_paths().len() && j2 != j
                                    ==> postissue.spec_arith_paths()[j2] == #[trigger] snap.spec_arith_paths()[j2])
                            &&& postissue.spec_access_paths() == snap.spec_access_paths()
                        };
                    assert(crate::execution_path::path_issued_rel(
                        snap.spec_arith_paths()[j0]@,
                        self.spec_arith_paths()[j0]@,
                        tagv2,
                        toks2[0],
                        renamed_args@,
                    ));
                } else {
                    let j0 = choose|j: int|
                        {
                            &&& 0 <= j < snap.spec_access_paths().len()
                            &&& (#[trigger] snap.spec_access_paths()[j])@.name == tagv2.0
                            &&& crate::memory_access_unit::mem_issued_rel(
                                snap.spec_access_paths()[j]@,
                                postissue.spec_access_paths()[j]@,
                                tagv2,
                                instv.name,
                                renamed_args@,
                            )
                            &&& (forall|j2: int|
                                0 <= j2 < snap.spec_access_paths().len() && j2 != j
                                    ==> postissue.spec_access_paths()[j2] == #[trigger] snap.spec_access_paths()[j2])
                            &&& postissue.spec_arith_paths() == snap.spec_arith_paths()
                        };
                    assert(crate::memory_access_unit::mem_issued_rel(
                        snap.spec_access_paths()[j0]@,
                        self.spec_access_paths()[j0]@,
                        tagv2,
                        toks2[0],
                        renamed_args@,
                    ));
                }
            } else {
                assert(self.spec_pc() == old(self).spec_pc());
                assert(self.spec_arith_paths() == snap.spec_arith_paths());
                assert(self.spec_access_paths() == snap.spec_access_paths());
                assert(!(exists|k: int|
                    0 <= k < instv.stations.len() && spec_candidate_accepts(
                        snap,
                        #[trigger] instv.stations[k],
                        instv.name,
                        renamed_args@,
                    )));
            }
            assert forall|op: Seq<char>|
                (#[trigger] self.spec_station_names(op)) == old(self).spec_station_names(op) by {
                assert(predecode.spec_station_names(op) == old(self).spec_station_names(op));
                assert(snap.spec_station_names(op) == predecode.spec_station_names(op));
            }
            assert forall|op: Seq<char>|
                (#[trigger] self.spec_syntax(op)) == old(self).spec_syntax(op) by {
                assert(predecode.spec_syntax(op) == old(self).spec_syntax(op));
                assert(snap.spec_syntax(op) == predecode.spec_syntax(op));
            }
        }
        proof {
            assert(
                {
                    &&& pmc.spec_arith_paths().len() == old(self).spec_arith_paths().len()
                    &&& pmc.spec_access_paths().len() == old(self).spec_access_paths().len()
                    &&& (match old(self).spec_bus() {
                        Some((t, res)) => (forall|j: int|
                            0 <= j < old(self).spec_arith_paths().len()
                                ==> crate::execution_path::path_forwarded(
                                (#[trigger] old(self).spec_arith_paths()[j])@,
                                pmc.spec_arith_paths()[j]@,
                                t,
                                crate::execution_path::spec_result_val(res),
                            )) && (forall|j: int|
                            0 <= j < old(self).spec_access_paths().len()
                                ==> crate::memory_access_unit::mem_forwarded_rel(
                                (#[trigger] old(self).spec_access_paths()[j])@,
                                pmc.spec_access_paths()[j]@,
                                t,
                                crate::execution_path::spec_result_val(res),
                            )),
                        None => pmc.spec_arith_paths() == old(self).spec_arith_paths()
                            && pmc.spec_access_paths() == old(self).spec_access_paths(),
                    })
                    &&& pmc.spec_access_queue() == old(self).spec_access_queue()
                    &&& paths_stepped(
                        pmc.spec_arith_paths().map_values(|p: ExecPath| p@),
                        None,
                        pma.spec_arith_paths().map_values(|p: ExecPath| p@),
                        pma.spec_bus(),
                    )
                    &&& pma.spec_access_paths() == pmc.spec_access_paths()
                    &&& pma.spec_access_queue() == pmc.spec_access_queue()
                    &&& access_stepped(
                        pma.spec_access_paths().map_values(|u: memory_access_unit::Unit| u@),
                        pma.spec_bus(),
                        snap.spec_access_paths().map_values(|u: memory_access_unit::Unit| u@),
                        snap.spec_bus(),
                        pma.spec_access_queue(),
                        snap.spec_access_queue(),
                    )
                    &&& snap.spec_arith_paths() == pma.spec_arith_paths()
                    &&& self.spec_bus() == snap.spec_bus()
                    &&& self.spec_access_queue() == snap.spec_access_queue()
                    &&& ({
                        let toks = crate::decoder::spec_tokens(row_inst@);
                        let sts = old(self).spec_station_names(toks[0])->0;
                        let dec = crate::decoder::spec_decode_args(
                            toks.drop_first(),
                            old(self).spec_syntax(toks[0])->0,
                        )->0;
                        exists|vals: Seq<ArgState>|
                            #![trigger args_renamed_rel(dec.0, spec_commit_rf(old(self).spec_bus(), old(self).spec_registers()), vals)]
                            {
                                &&& args_renamed_rel(
                                    dec.0,
                                    spec_commit_rf(
                                        old(self).spec_bus(),
                                        old(self).spec_registers(),
                                    ),
                                    vals,
                                )
                                &&& (if self.spec_pc() == old(self).spec_pc() + 1 {
                                    exists|k: int|
                                        #![trigger sts[k]]
                                        {
                                            &&& 0 <= k < sts.len()
                                            &&& spec_candidate_accepts(snap, sts[k], toks[0], vals)
                                            &&& ((exists|j: int, tagv: (Seq<char>, nat)|
                                                #![trigger crate::execution_path::path_issued_rel(snap.spec_arith_paths()[j]@, self.spec_arith_paths()[j]@, tagv, toks[0], vals)]
                                                {
                                                    &&& 0 <= j < snap.spec_arith_paths().len()
                                                    &&& spec_path_name(
                                                        snap.spec_arith_paths()[j]@,
                                                    ) == sts[k]
                                                    &&& tagv.0 == sts[k]
                                                    &&& crate::execution_path::path_issued_rel(
                                                        snap.spec_arith_paths()[j]@,
                                                        self.spec_arith_paths()[j]@,
                                                        tagv,
                                                        toks[0],
                                                        vals,
                                                    )
                                                    &&& (forall|j2: int|
                                                        0 <= j2 < snap.spec_arith_paths().len()
                                                            && j2 != j
                                                            ==> self.spec_arith_paths()[j2]
                                                            == #[trigger] snap.spec_arith_paths()[j2])
                                                    &&& self.spec_access_paths()
                                                        == snap.spec_access_paths()
                                                }) || (exists|j: int, tagv: (Seq<char>, nat)|
                                                #![trigger crate::memory_access_unit::mem_issued_rel(snap.spec_access_paths()[j]@, self.spec_access_paths()[j]@, tagv, toks[0], vals)]
                                                {
                                                    &&& 0 <= j < snap.spec_access_paths().len()
                                                    &&& (snap.spec_access_paths()[j])@.name
                                                        == sts[k]
                                                    &&& tagv.0 == sts[k]
                                                    &&& crate::memory_access_unit::mem_issued_rel(
                                                        snap.spec_access_paths()[j]@,
                                                        self.spec_access_paths()[j]@,
                                                        tagv,
                                                        toks[0],
                                                        vals,
                                                    )
                                                    &&& (forall|j2: int|
                                                        0 <= j2 < snap.spec_access_paths().len()
                                                            && j2 != j
                                                            ==> self.spec_access_paths()[j2]
                                                            == #[trigger] snap.spec_access_paths()[j2])
                                                    &&& self.spec_arith_paths()
                                                        == snap.spec_arith_paths()
                                                }))
                                        }
                                } else {
                                    old(self).spec_pc() < usize::MAX ==> (self.spec_arith_paths() == snap.spec_arith_paths()
                                        && self.spec_access_paths()
                                        == snap.spec_access_paths() && !(exists|k: int|
                                        0 <= k < sts.len() && spec_candidate_accepts(
                                            snap,
                                            #[trigger] sts[k],
                                            toks[0],
                                            vals,
                                        )))
                                })
                            }
                    })
                });
        }
        Ok(())
    }

    /// Whether every functional unit is idle and the bus is free.
    pub fn is_idle(&self) -> (r: bool)
        requires
            self.wf(),
        ensures
            r == ((forall|j: int|
                0 <= j < self.spec_arith_paths().len() ==> spec_path_idle(
                    (#[trigger] self.spec_arith_paths()[j])@,
                )) && (forall|j: int|
                0 <= j < self.spec_access_paths().len() ==> {
                    let u = (#[trigger] self.spec_access_paths()[j])@;
                    u.queue.len() == 0 && crate::reservation_station::count_occupied(u.load_slots)
                        == 0 && crate::reservation_station::count_occupied(u.store_slots) == 0
                }) && self.spec_bus() is None),
    {
        let n = self.arithmetic_paths.len();
        let mut j: usize = 0;
        while j < n
            invariant
                n as nat == self.arithmetic_paths@.len(),
                j <= n,
                forall|k: int|
                    0 <= k < j ==> spec_path_idle((#[trigger] self.arithmetic_paths@[k])@),
            decreases n - j,
        {
            if !self.arithmetic_paths[j].is_idle() {
                proof {
                    assert(!spec_path_idle((self.spec_arith_paths()[j as int])@));
                }
                return false;
            }
            j = j + 1;
        }
        let n2 = self.access_paths.len();
        let mut j: usize = 0;
        while j < n2
            invariant
                n2 as nat == self.access_paths@.len(),
                j <= n2,
                forall|k: int|
                    0 <= k < self.arithmetic_paths@.len() ==> spec_path_idle(
                        (#[trigger] self.arithmetic_paths@[k])@,
                    ),
                forall|k: int|
                    0 <= k < j ==> {
                        let u = (#[trigger] self.access_paths@[k])@;
                        u.queue.len() == 0 && crate::reservation_station::count_occupied(
                            u.load_slots,
                        ) == 0 && crate::reservation_station::count_occupied(u.store_slots) == 0
                    },
            decreases n2 - j,
        {
            if !self.access_paths[j].is_idle() {
                proof {
                    let u = (self.spec_access_paths()[j as int])@;
                    assert(!(u.queue.len() == 0 && crate::reservation_station::count_occupied(
                        u.load_slots,
                    ) == 0 && crate::reservation_station::count_occupied(u.store_slots) == 0));
                }
                return false;
            }
            j = j + 1;
        }
        self.result_bus.is_free()
    }

    /// Pop the next outgoing memory request, if any.
    pub fn bus_access(&mut self) -> (r: Option<BusAccessRequst>)
        requires
            old(self).wf(),
        ensures
            final(self).wf(),
            final(self).spec_pc() == old(self).spec_pc(),
            final(self).spec_registers() == old(self).spec_registers(),
            final(self).spec_bus() == old(self).spec_bus(),
            final(self).spec_arith_paths() == old(self).spec_arith_paths(),
            final(self).spec_access_paths() == old(self).spec_access_paths(),
            old(self).spec_access_queue().len() == 0 ==> r is None && final(self).spec_access_queue() == old(self).spec_access_queue(),
            old(self).spec_access_queue().len() > 0 ==> r == Some(old(self).spec_access_queue()[0])
                && final(self).spec_access_queue() == old(self).spec_access_queue().drop_first(),
    {
        self.bus_controller.access_queue.pop()
    }

    /// Route a memory response back to the unit that issued the request.
    pub fn resolve_access(&mut self, response: BusAccessResponse) -> (r: Result<(), String>)
        requires
            old(self).wf(),
        ensures
            final(self).wf(),
            final(self).spec_pc() == old(self).spec_pc(),
            final(self).spec_registers() == old(self).spec_registers(),
            final(self).spec_bus() == old(self).spec_bus(),
            final(self).spec_arith_paths() == old(self).spec_arith_paths(),
            final(self).spec_access_paths().len() == old(self).spec_access_paths().len(),
            (r is Ok <==> exists|j: int|
                0 <= j < old(self).spec_access_paths().len() && (#[trigger] old(self).spec_access_paths()[j])@.name == response@.path),
            response_delivered(*old(self), *final(self), response@, r is Ok),
            r is Err ==> final(self).spec_access_paths() == old(self).spec_access_paths(),
            r is Ok ==> exists|j: int|
                {
                    let u0 = (#[trigger] old(self).spec_access_paths()[j])@;
                    let u1 = final(self).spec_access_paths()[j]@;
                    &&& 0 <= j < old(self).spec_access_paths().len()
                    &&& u0.name == response@.path
                    &&& (forall|k: int|
                        0 <= k < old(self).spec_access_paths().len() && k != j ==> final(self).spec_access_paths()[k] == #[trigger] old(self).spec_access_paths()[k])
                    &&& u1.name == u0.name
                    &&& u1.evaluating == u0.evaluating
                    &&& u1.queue == u0.queue
                    &&& u1.load_slots == u0.load_slots
                    &&& u1.store_slots == u0.store_slots
                    &&& (u1.staged matches Some((s, res)) && s as nat == response@.slot && (
                    match response@.result {
                        Ok(BusAccessResult::Load(v)) => res == ExecResult::MemLoad(v),
                        Ok(BusAccessResult::Store) => res == ExecResult::MemStore,
                        Err(msg) => res == ExecResult::Error(msg),
                    }))
                },
    {
        let ghost respv = response@;
        let path = response.path_name();
        let slot = response.slot();
        match self.find_access(path.as_str()) {
            Some(idx) => {
                proof {
                    assert(self.access_paths@[idx as int].wf());
                }
                let unit = &mut self.access_paths[idx];
                unit.response(slot, response.into_result());
                proof {
                    assert(final(self).spec_access_paths()[idx as int]@.staged matches Some(
                        (s, res),
                    ) && s as nat == respv.slot);
                }
                Ok(())
            },
            None => Err(String::from_str("Access path not found")),
        }
    }

    /// The state of every register, for inspection.
    pub fn peek_registers(&self) -> (r: Vec<ArgState>)
        requires
            self.wf(),
        ensures
            r@.len() == register_count(),
            forall|i: int|
                0 <= i < register_count() ==> (match self.spec_registers()[i].1 {
                    Some(t) => (#[trigger] r@[i]) matches ArgState::Waiting(w) && w@ == t,
                    None => r@[i] == ArgState::Ready(self.spec_registers()[i].0),
                }),
    {
        let size = self.register_file.size();
        let mut out: Vec<ArgState> = Vec::new();
        let mut i: usize = 0;
        while i < size
            invariant
                size as nat == self.register_file@.len(),
                size as nat == register_count(),
                i <= size,
                out@.len() == i,
                forall|k: int|
                    0 <= k < i ==> (match self.register_file@[k].1 {
                        Some(t) => (#[trigger] out@[k]) matches ArgState::Waiting(w) && w@ == t,
                        None => out@[k] == ArgState::Ready(self.register_file@[k].0),
                    }),
            decreases size - i,
        {
            out.push(self.register_file.read(i));
            i = i + 1;
        }
        out
    }
}

} // verus!
