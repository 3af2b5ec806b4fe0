//! The renamable register file: sixteen entries, each a concrete value plus an
//! optional tag naming the in-flight instruction that will overwrite it.

use vstd::prelude::*;

use crate::execution_path::{ArgState, RStag};
use crate::util::dec_string;

verus! {

/// One register: its physical value and, when renamed, the authoritative tag.
#[derive(Debug)]
pub struct Entry {
    val: u32,
    tag: Option<RStag>,
}

impl View for Entry {
    type V = (u32, Option<(Seq<char>, nat)>);

    closed spec fn view(&self) -> (u32, Option<(Seq<char>, nat)>) {
        (
            self.val,
            match self.tag {
                Some(t) => Some(t@),
                None => None,
            },
        )
    }
}

/// The number of general-purpose registers.
pub open spec fn register_count() -> nat {
    16
}

/// Renamable register file.
#[derive(Debug)]
pub struct RegisterFile {
    entry: Vec<Entry>,
}

impl View for RegisterFile {
    type V = Seq<(u32, Option<(Seq<char>, nat)>)>;

    closed spec fn view(&self) -> Seq<(u32, Option<(Seq<char>, nat)>)> {
        self.entry@.map_values(|e: Entry| e@)
    }
}

impl RegisterFile {
    /// A fresh register file: sixteen entries, all zero, none renamed.
    pub fn new() -> (r: Self)
        ensures
            r@.len() == register_count(),
            forall|i: int| 0 <= i < r@.len() ==> r@[i] == (0u32, None::<(Seq<char>, nat)>),
    {
        let mut entry: Vec<Entry> = Vec::new();
        let mut i: usize = 0;
        while i < 16
            invariant
                i <= 16,
                entry@.len() == i,
                forall|j: int| 0 <= j < i ==> entry@[j]@ == (0u32, None::<(Seq<char>, nat)>),
            decreases 16 - i,
        {
            entry.push(Entry { val: 0, tag: None });
            i = i + 1;
        }
        let r = Self { entry };
        proof {
            assert(forall|i: int| 0 <= i < r@.len() ==> r@[i] == (0u32, None::<(Seq<char>, nat)>));
        }
        r
    }

    /// Read register `idx`: the tag, when present, is authoritative and the
    /// reader waits on it; otherwise the concrete value is ready.
    pub fn read(&self, idx: usize) -> (r: ArgState)
        requires
            idx < self@.len(),
        ensures
            match self@[idx as int].1 {
                Some(t) => r matches ArgState::Waiting(w) && w@ == t,
                None => r == ArgState::Ready(self@[idx as int].0),
            },
    {
        let entry = &self.entry[idx];
        if let Some(tag) = entry.tag.as_ref() {
            ArgState::Waiting(tag.clone())
        } else {
            let val = entry.val;
            ArgState::Ready(val)
        }
    }

    /// Commit `val` under `tag`: every entry whose tag equals `tag` takes the
    /// value and drops its tag; every other entry is untouched.
    pub fn write(&mut self, tag: RStag, val: u32)
        ensures
            final(self)@.len() == old(self)@.len(),
            forall|i: int|
                0 <= i < old(self)@.len() ==> final(self)@[i] == (if old(self)@[i].1 == Some(tag@) {
                    (val, None::<(Seq<char>, nat)>)
                } else {
                    old(self)@[i]
                }),
    {
        let n = self.entry.len();
        let mut i: usize = 0;
        while i < n
            invariant
                n == old(self)@.len(),
                self@.len() == n,
                i <= n,
                forall|j: int|
                    0 <= j < i ==> self@[j] == (if old(self)@[j].1 == Some(tag@) {
                        (val, None::<(Seq<char>, nat)>)
                    } else {
                        old(self)@[j]
                    }),
                forall|j: int| i <= j < n ==> self@[j] == old(self)@[j],
            decreases n - i,
        {
            let ghost prev = self@;
            let e = &self.entry[i];
            let matches_tag = match e.tag.as_ref() {
                Some(wait) => *wait == tag,
                None => false,
            };
            if matches_tag {
                self.entry[i] = Entry { val, tag: None };
                proof {
                    assert(self@ =~= prev.update(i as int, (val, None::<(Seq<char>, nat)>)));
                    assert(old(self)@[i as int].1 == Some(tag@));
                }
            } else {
                proof {
                    assert(old(self)@[i as int].1 != Some(tag@));
                }
            }
            i = i + 1;
        }
    }

    /// Rename register `idx` to `tag`, unconditionally discarding any older
    /// tag: the later writer wins.
    pub fn rename(&mut self, idx: usize, tag: RStag)
        requires
            idx < old(self)@.len(),
        ensures
            final(self)@ == old(self)@.update(idx as int, (old(self)@[idx as int].0, Some(tag@))),
    {
        let val = self.entry[idx].val;
        self.entry[idx] = Entry { val, tag: Some(tag) };
        proof {
            assert(self@ =~= old(self)@.update(
                idx as int,
                (old(self)@[idx as int].0, Some(tag@)),
            ));
        }
    }

    /// The register count.
    pub fn size(&self) -> (r: usize)
        ensures
            r as nat == self@.len(),
    {
        self.entry.len()
    }

    /// Render each entry: the pending tag when renamed, else the value.
    pub fn dump(&self) -> (r: Vec<String>)
        ensures
            r@.len() == self@.len(),
    {
        let n = self.entry.len();
        let mut ret: Vec<String> = Vec::new();
        let mut i: usize = 0;
        while i < n
            invariant
                n as nat == self@.len(),
                ret@.len() == i,
                i <= n,
            decreases n - i,
        {
            let e = &self.entry[i];
            let text = match e.tag.as_ref() {
                Some(tag) => {
                    let mut s = tag.station();
                    s.append("(");
                    let slot = dec_string(tag.slot());
                    s.append(slot.as_str());
                    s.append(")");
                    s
                },
                None => dec_string(e.val as usize),
            };
            ret.push(text);
            i = i + 1;
        }
        ret
    }
}

} // verus!
