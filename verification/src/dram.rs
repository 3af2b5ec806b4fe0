//! The DRAM peripheral: a byte array behind the memory bus, answering one
//! access at a time after a fixed latency.

use vstd::prelude::*;

use crate::execution_path::{BusAccess, BusAccessRequst, BusAccessResponse, BusAccessResult};

verus! {

/// Cycles between accepting an access and answering it.
pub open spec fn access_latency() -> nat {
    5
}

/// Spec-level state of the DRAM.
pub ghost struct DramV {
    pub memory: Seq<u8>,
    pub request: Option<(nat, BusAccessRequst)>,
}

/// One cycle of the RAM: the exact relation `next_cycle` establishes
/// between its pre- and post-states and the response it emits.
pub open spec fn dram_cycle_rel(d0: Dram, d1: Dram, r: Option<BusAccessResponse>) -> bool {
            (match d0@.request {
                None => r is None && d1 == d0,
                Some((c, req)) => if c > 0 {
                    r is None && d1@.memory == d0@.memory && d1@.request
                        == Some(((c - 1) as nat, req))
                } else {
                    d1@.request is None && (r matches Some(resp) && resp@.path
                        == req@.path && resp@.slot == req@.slot) && (match req@.access {
                        BusAccess::Load(base, len) => d1@.memory == d0@.memory && (
                        if len > 0 && base as int + len as int <= d0@.memory.len() {
                            r->0@.result matches Ok(BusAccessResult::Load(bytes)) && bytes@ == d0@.memory.subrange(base as int, base as int + len as int)
                        } else {
                            r->0@.result is Err
                        }),
                        BusAccess::Store(base, data) => if data@.len() > 0 && base as int
                            + data@.len() <= d0@.memory.len() {
                            r->0@.result matches Ok(BusAccessResult::Store) && d1@.memory
                                == d0@.memory.subrange(0, base as int) + data@ + d0@.memory.subrange(
                                base as int + data@.len() as int,
                                d0@.memory.len() as int,
                            )
                        } else {
                            r->0@.result is Err && d1@.memory == d0@.memory
                        },
                    })
                },
            })
}

/// A single-ported RAM with a fixed access latency.
#[derive(Debug)]
pub struct Dram {
    memory: Vec<u8>,
    /// (remaining cycles, request being served)
    request: Option<(usize, BusAccessRequst)>,
}

impl View for Dram {
    type V = DramV;

    closed spec fn view(&self) -> DramV {
        DramV {
            memory: self.memory@,
            request: match self.request {
                Some((c, r)) => Some((c as nat, r)),
                None => None,
            },
        }
    }
}

impl Dram {
    /// A zero-filled RAM of `size` bytes.
    pub fn new(size: usize) -> (r: Self)
        ensures
            r@.memory.len() == size,
            forall|i: int| 0 <= i < size ==> r@.memory[i] == 0u8,
            r@.request is None,
    {
        let mut memory: Vec<u8> = Vec::new();
        let mut i: usize = 0;
        while i < size
            invariant
                i <= size,
                memory@.len() == i,
                forall|j: int| 0 <= j < i ==> memory@[j] == 0u8,
            decreases size - i,
        {
            memory.push(0);
            i = i + 1;
        }
        Self { memory, request: None }
    }

    /// Whether the RAM can accept an access.
    pub fn is_idle(&self) -> (r: bool)
        ensures
            r == (self@.request is None),
    {
        self.request.is_none()
    }

    /// Accept one access; fails while an earlier one is still being served.
    pub fn access(&mut self, request: BusAccessRequst) -> (r: Result<(), String>)
        ensures
            final(self)@.memory == old(self)@.memory,
            old(self)@.request is Some ==> r is Err && final(self)@.request == old(self)@.request,
            old(self)@.request is None ==> r is Ok && final(self)@.request == Some(
                (access_latency(), request),
            ),
    {
        if self.request.is_some() {
            let msg = String::from_str("Memory is busy");
            return Err(msg);
        }
        self.request = Some((5, request));
        Ok(())
    }

    /// Check whether `address` lies inside the RAM.
    pub fn bound_check(&self, address: usize) -> (r: Result<(), String>)
        ensures
            r is Ok <==> address < self@.memory.len(),
    {
        if self.memory.len() <= address {
            return Err(String::from_str("Address out of bound"));
        }
        Ok(())
    }

    /// One cycle: count the pending access down and, when its latency has
    /// elapsed, perform it and emit the response.  A load yields the
    /// addressed bytes, a store replaces them; an out-of-range or empty
    /// access yields an error response.
    #[verifier::loop_isolation(false)]
    pub fn next_cycle(&mut self) -> (r: Option<BusAccessResponse>)
        ensures
            dram_cycle_rel(*old(self), *final(self), r),
    {
        let taken = self.request.take();
        let (remain_cycle, request) = match taken {
            None => {
                return None;
            },
            Some(x) => x,
        };
        if remain_cycle > 0 {
            self.request = Some((remain_cycle - 1, request));
            return None;
        }
        let acc = request.request();
        proof {
            assert(*acc == request@.access);
        }
        match acc {
            BusAccess::Load(base, len) => {
                proof {
                    assert(request@.access matches BusAccess::Load(b2, l2) && b2 == *base && l2
                        == *len);
                }
                let base = *base as usize;
                let len = *len;
                let mlen = self.memory.len();
                if len == 0 || base > usize::MAX - len || base + len > mlen {
                    return Some(request.into_respose(Err(String::from_str(
                        "DRAM: address out of bound",
                    ))));
                } else {
                    let ghost smem = self.memory@;
                    let mut bytes: Vec<u8> = Vec::new();
                    let mut i: usize = 0;
                    while i < len
                        invariant
                            self.request is None,
                            self.memory@ == smem,
                            base + len <= usize::MAX,
                            base + len <= self.memory@.len(),
                            i <= len,
                            bytes@.len() == i,
                            forall|j: int| 0 <= j < i ==> bytes@[j] == self.memory@[base + j],
                        decreases len - i,
                    {
                        bytes.push(self.memory[base + i]);
                        i = i + 1;
                    }
                    proof {
                        assert(bytes@ =~= old(self)@.memory.subrange(
                            base as int,
                            base as int + len as int,
                        ));
                    }
                    return Some(request.into_respose(Ok(BusAccessResult::Load(bytes))));
                }
            },
            BusAccess::Store(base, data) => {
                proof {
                    assert(request@.access matches BusAccess::Store(b2, d2) && b2 == *base && d2
                        == *data);
                }
                let base = *base as usize;
                let dlen = data.len();
                let mlen = self.memory.len();
                if dlen == 0 || base > usize::MAX - dlen || base + dlen > mlen {
                    return Some(request.into_respose(Err(String::from_str(
                        "DRAM: address out of bound",
                    ))));
                } else {
                    let ghost mem0 = self.memory@;
                    let ghost data_v = data@;
                    let mut i: usize = 0;
                    while i < dlen
                        invariant
                            self.request is None,
                            base + dlen <= usize::MAX,
                            base + dlen <= self.memory@.len(),
                            dlen == data_v.len(),
                            data@ == data_v,
                            i <= dlen,
                            self.memory@.len() == mem0.len(),
                            forall|j: int| 0 <= j < base ==> self.memory@[j] == mem0[j],
                            forall|j: int| 0 <= j < i ==> self.memory@[base + j] == data_v[j],
                            forall|j: int|
                                base + dlen <= j < mem0.len() ==> self.memory@[j] == mem0[j],
                            forall|j: int|
                                base + i <= j < mem0.len() ==> self.memory@[j] == mem0[j],
                        decreases dlen - i,
                    {
                        let b = data[i];
                        self.memory[base + i] = b;
                        i = i + 1;
                    }
                    proof {
                        assert(self.memory@ =~= mem0.subrange(0, base as int) + data_v
                            + mem0.subrange(base as int + dlen as int, mem0.len() as int));
                    }
                    return Some(request.into_respose(Ok(BusAccessResult::Store)));
                }
            },
        }
    }

    /// Consume the RAM and return the raw bytes inside.
    ///
    /// (See `lemma_store_then_load` for the memory-ordering law over the
    /// stored image.)
    pub fn into_raw_data(self) -> (r: Vec<u8>)
        ensures
            r@ == self@.memory,
    {
        self.memory
    }
}

/// Memory-ordering round trip: in the image a store leaves behind, a load of
/// exactly the stored range observes the stored bytes, and every byte outside
/// the range still holds the prior memory's value.  A load ordered after an
/// overlapping store therefore sees that store's data; one ordered before it
/// sees the prior memory.
pub proof fn lemma_store_then_load(mem: Seq<u8>, base: int, data: Seq<u8>)
    requires
        0 <= base,
        base + data.len() <= mem.len(),
    ensures
        ({
            let image = mem.subrange(0, base) + data + mem.subrange(
                base + data.len() as int,
                mem.len() as int,
            );
            &&& image.len() == mem.len()
            &&& image.subrange(base, base + data.len() as int) == data
            &&& (forall|j: int| 0 <= j < base ==> image[j] == mem[j])
            &&& (forall|j: int| base + data.len() <= j < mem.len() ==> image[j] == mem[j])
        }),
{
    let image = mem.subrange(0, base) + data + mem.subrange(
        base + data.len() as int,
        mem.len() as int,
    );
    assert(image.subrange(base, base + data.len() as int) =~= data);
}

} // verus!
