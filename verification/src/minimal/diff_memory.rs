//! Live guest memory that remembers what an unconstrained block changed, and puts it back.
use std::collections::VecDeque;

use vstd::prelude::*;

use crate::collections::DiffMap;
use crate::core_vm::MemSource;
use crate::errors::ExecutionError;
use crate::events::{MemValue, MemoryRecord};
use crate::hook;
use crate::machine::{Bus, Ram};
use crate::memory::{self, is_addressable, CowModel, PagedMemory, MAX_WORDS};
use crate::sources::place_hint;
use crate::syscalls::{FD_HINT, FD_STDERR, FD_STDOUT};

verus! {

/// What a place held, as a record.
pub open spec fn held_record(held: (u64, u32)) -> MemoryRecord {
    MemoryRecord { value: held.1, timestamp: held.0 }
}

/// A memory with every change put back.
pub open spec fn reverted(
    mem: Map<int, MemoryRecord>,
    diff: Map<u32, Option<(u64, u32)>>,
) -> Map<int, MemoryRecord> {
    Map::new(
        |w: int|
            0 <= w < MAX_WORDS && if diff.contains_key((4 * w) as u32) {
                diff[(4 * w) as u32] is Some
            } else {
                mem.contains_key(w)
            },
        |w: int|
            if diff.contains_key((4 * w) as u32) {
                held_record(diff[(4 * w) as u32]->Some_0)
            } else {
                mem[w]
            },
    )
}

/// Every place of a list of changes is the address of a word.
pub open spec fn diff_ok(diff: Map<u32, Option<(u64, u32)>>) -> bool {
    forall|k: u32| #[trigger] diff.contains_key(k) ==> k % 4 == 0 && memory::addressable(k)
}

/// Live guest memory. An unconstrained block notes what every word held when it was first
/// accessed.
pub struct DiffMemory {
    pub memory: PagedMemory<MemoryRecord>,
    /// The values that untouched words take on their first access.
    pub uninitialized_memory: PagedMemory<u32>,
    /// The changes since the block was entered.
    pub diff: Option<DiffMap>,
    /// The preimages logged so far.
    pub oracle_out: Vec<MemValue>,
    /// The hints that wait to be read.
    pub input_stream: VecDeque<Vec<u8>>,
}

impl DiffMemory {
    /// The memory in mathematical terms.
    pub open spec fn ram(&self) -> Ram {
        Ram {
            mem: CowModel {
                seen: self.memory@,
                saved: match self.diff {
                    Some(diff) => Some(reverted(self.memory@, diff@)),
                    None => None,
                },
            },
            log: self.oracle_out@,
            seeds: self.uninitialized_memory@,
            input: hook::contents(self.input_stream@),
            hooks: Map::empty(),
            eager: true,
        }
    }

    /// Create a memory from its words.
    pub fn new(memory: PagedMemory<MemoryRecord>) -> (r: Self)
        requires
            memory.wf(),
        ensures
            MemSource::wf(&r),
            r.ram() == (Ram {
                mem: CowModel { seen: memory@, saved: None },
                log: Seq::empty(),
                seeds: Map::empty(),
                input: Seq::empty(),
                hooks: Map::empty(),
                eager: true,
            }),
    {
        let r = DiffMemory {
            memory,
            uninitialized_memory: PagedMemory::default(),
            diff: None,
            oracle_out: Vec::new(),
            input_stream: VecDeque::new(),
        };
        proof {
            assert(hook::contents(Seq::<Vec<u8>>::empty()) =~= Seq::<Seq<u8>>::empty());
        }
        r
    }

    /// The record of a word, the seed standing for one that was never touched.
    fn current(&self, addr: u32) -> (r: MemoryRecord)
        requires
            MemSource::wf(self),
            memory::addressable(addr),
        ensures
            r == self.ram().current(addr),
    {
        match self.memory.get(addr) {
            Some(record) => *record,
            None => {
                let value: u32 = match self.uninitialized_memory.get(addr) {
                    Some(v) => *v,
                    None => 0,
                };
                MemoryRecord { value, timestamp: 0 }
            },
        }
    }

    /// Notes what a word holds, logs its preimage, and binds it to a record.
    fn mem_access(&mut self, addr: u32, record: MemoryRecord, preimage: MemoryRecord)
        requires
            MemSource::wf(old(self)),
            memory::addressable(addr),
        ensures
            MemSource::wf(final(self)),
            final(self).ram() == old(self).ram().logged(addr, record, preimage),
    {
        let ghost before = self.memory@;
        let held: Option<(u64, u32)> = match self.memory.get(addr) {
            Some(existing) => Some((existing.timestamp, existing.value)),
            None => None,
        };
        let mut diff: Option<DiffMap> = None;
        std::mem::swap(&mut diff, &mut self.diff);
        self.diff = match diff {
            Some(mut notes) => {
                let ghost old_notes = notes@;
                notes.note_first(addr - addr % 4, held);
                proof {
                    lemma_noted(before, old_notes, addr, held, record);
                }
                Some(notes)
            },
            None => None,
        };
        self.oracle_out.push(MemValue { clk: preimage.timestamp, value: preimage.value });
        self.memory.insert(addr, record);
    }
}

/// Noting what a word held before it changes keeps what the memory goes back to.
proof fn lemma_noted(
    mem: Map<int, MemoryRecord>,
    diff: Map<u32, Option<(u64, u32)>>,
    addr: u32,
    held: Option<(u64, u32)>,
    record: MemoryRecord,
)
    requires
        diff_ok(diff),
        memory::addressable(addr),
        held == (if mem.contains_key(memory::slot(addr)) {
            Some(
                (
                    mem[memory::slot(addr)].timestamp,
                    mem[memory::slot(addr)].value,
                ),
            )
        } else {
            None
        }),
    ensures
        ({
            let place = (addr - addr % 4) as u32;
            let noted = if diff.contains_key(place) {
                diff
            } else {
                diff.insert(place, held)
            };
            &&& diff_ok(noted)
            &&& reverted(mem.insert(memory::slot(addr), record), noted) == reverted(mem, diff)
        }),
{
    let place = (addr - addr % 4) as u32;
    let noted = if diff.contains_key(place) {
        diff
    } else {
        diff.insert(place, held)
    };
    let w = memory::slot(addr);
    assert(4 * w == place);
    assert(reverted(mem.insert(w, record), noted) =~= reverted(mem, diff));
}

impl MemSource for DiffMemory {
    open spec fn bus(&self) -> Bus {
        Bus::Live(self.ram())
    }

    open spec fn wf(&self) -> bool {
        &&& self.memory.wf()
        &&& self.uninitialized_memory.wf()
        &&& self.diff matches Some(diff) ==> diff_ok(diff@)
    }

    fn mr(&mut self, addr: u32, clk: u64) -> (r: u32) {
        let preimage: MemoryRecord = self.current(addr);
        self.mem_access(addr, MemoryRecord { value: preimage.value, timestamp: clk }, preimage);
        preimage.value
    }

    fn mw(&mut self, addr: u32, value: u32, clk: u64) {
        let preimage: MemoryRecord = self.current(addr);
        self.mem_access(addr, MemoryRecord { value, timestamp: clk }, preimage);
    }

    fn word_peek(&self, addr: u32, ahead: usize) -> (r: u32) {
        if is_addressable(addr) {
            self.current(addr).value
        } else {
            0
        }
    }

    fn mr_log_only(&mut self, addr: u32) -> (r: u32) {
        let current: MemoryRecord = self.current(addr);
        self.mem_access(addr, current, current);
        current.value
    }

    fn enter_unconstrained(&mut self) {
        if self.diff.is_none() {
            let notes: DiffMap = DiffMap::new();
            proof {
                assert(reverted(self.memory@, notes@) =~= self.memory@);
            }
            self.diff = Some(notes);
        }
    }

    fn exit_unconstrained(&mut self) {
        let mut diff: Option<DiffMap> = None;
        std::mem::swap(&mut diff, &mut self.diff);
        if let Some(notes) = diff {
            let ghost changed = self.memory@;
            let ghost noted = notes@;
            let changes: Vec<(u32, Option<(u64, u32)>)> = notes.entries();
            let mut i: usize = 0;
            while i < changes.len()
                invariant
                    i <= changes@.len(),
                    self.memory.wf(),
                    self.uninitialized_memory == old(self).uninitialized_memory,
                    self.oracle_out == old(self).oracle_out,
                    self.input_stream == old(self).input_stream,
                    self.diff is None,
                    diff_ok(noted),
                    forall|j: int|
                        0 <= j < changes@.len() ==> noted.contains_key((#[trigger] changes@[j]).0)
                            && noted[changes@[j].0] == changes@[j].1,
                    forall|j: int, k: int|
                        0 <= j < k < changes@.len() ==> (#[trigger] changes@[j]).0 != (
                        #[trigger] changes@[k]).0,
                    forall|j: int|
                        0 <= j < i ==> memory::lookup(
                            self.memory@,
                            memory::slot((#[trigger] changes@[j]).0),
                        ) == memory::lookup(
                            reverted(changed, noted),
                            memory::slot(changes@[j].0),
                        ),
                    forall|w: int|
                        (forall|j: int| 0 <= j < i ==> memory::slot((#[trigger] changes@[j]).0) != w)
                            ==> #[trigger] memory::lookup(self.memory@, w) == memory::lookup(
                            changed,
                            w,
                        ),
                decreases changes@.len() - i,
            {
                let (addr, held) = changes[i];
                let ghost before = self.memory@;
                proof {
                    assert(noted.contains_key(changes@[i as int].0));
                    assert(4 * memory::slot(addr) == addr);
                }
                match held {
                    Some((timestamp, value)) => {
                        self.memory.insert(addr, MemoryRecord { value, timestamp });
                    },
                    None => {
                        self.memory.remove(addr);
                    },
                }
                proof {
                    assert forall|j: int| 0 <= j < i + 1 implies memory::lookup(
                        self.memory@,
                        memory::slot((#[trigger] changes@[j]).0),
                    ) == memory::lookup(
                        reverted(changed, noted),
                        memory::slot(changes@[j].0),
                    ) by {
                        if j < i {
                            assert(noted.contains_key(changes@[j].0));
                            assert(4 * memory::slot(changes@[j].0) == changes@[j].0);
                            assert(memory::slot(changes@[j].0) != memory::slot(addr));
                            assert(memory::lookup(before, memory::slot(changes@[j].0))
                                == memory::lookup(self.memory@, memory::slot(changes@[j].0)));
                        }
                    }
                    assert forall|w: int|
                        (forall|j: int|
                            0 <= j < i + 1 ==> memory::slot((#[trigger] changes@[j]).0)
                                != w) implies #[trigger] memory::lookup(self.memory@, w)
                        == memory::lookup(changed, w) by {
                        assert(memory::slot(changes@[i as int].0) != w);
                        assert(memory::lookup(before, w) == memory::lookup(self.memory@, w));
                    }
                }
                i = i + 1;
            }
            proof {
                let whole = reverted(changed, noted);
                assert forall|w: int| memory::lookup(self.memory@, w) == #[trigger] memory::lookup(
                    whole,
                    w,
                ) by {
                    if 0 <= w < MAX_WORDS && noted.contains_key((4 * w) as u32) {
                        let k = (4 * w) as u32;
                        let j = choose|j: int| 0 <= j < changes@.len() && (#[trigger] changes@[j]).0 == k;
                        assert(memory::slot(changes@[j].0) == w);
                    } else {
                        assert forall|j: int| 0 <= j < i implies memory::slot(
                            (#[trigger] changes@[j]).0,
                        ) != w by {
                            assert(noted.contains_key(changes@[j].0));
                            assert(4 * memory::slot(changes@[j].0) == changes@[j].0);
                        }
                        assert(memory::lookup(self.memory@, w) == memory::lookup(changed, w));
                    }
                }
                assert forall|w: int| self.memory@.contains_key(w) == whole.contains_key(w) by {
                    assert(memory::lookup(self.memory@, w) == memory::lookup(whole, w));
                }
                assert forall|w: int| #[trigger]
                    self.memory@.contains_key(w) implies self.memory@[w] == whole[w] by {
                    assert(memory::lookup(self.memory@, w) == memory::lookup(whole, w));
                }
                assert(self.memory@ =~= whole);
            }
        }
    }

    fn resolve_hint_len(&mut self, clk: u64) -> (r: Result<u32, ExecutionError>) {
        if self.input_stream.len() == 0 {
            return Err(ExecutionError::InvalidSyscallArgs());
        }
        let len: u32 = self.input_stream[0].len() as u32;
        self.oracle_out.push(MemValue { clk, value: len });
        Ok(len)
    }

    fn resolve_hint_read(&mut self, ptr: u32, len: u32) -> (r: Result<(), ExecutionError>) {
        let ghost before = self.ram();
        let r = place_hint(&mut self.input_stream, &mut self.uninitialized_memory, ptr, len);
        proof {
            assert(Bus::Live(before).hint_read(ptr, len) == (self.bus(), r));
        }
        r
    }

    fn write_fd(&mut self, fd: u32, bytes: Vec<u8>) -> (r: Result<(), ExecutionError>) {
        let ghost before = self.ram();
        if fd != FD_STDOUT && fd != FD_STDERR && fd == FD_HINT {
            self.input_stream.push_front(bytes);
            proof {
                assert(hook::contents(self.input_stream@) =~= seq![bytes@] + before.input);
            }
        }
        Ok(())
    }
}

} // verus!
