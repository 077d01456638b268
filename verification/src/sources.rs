//! The two sources of memory values: live guest memory, and the log that it leaves.
use std::collections::VecDeque;
use std::sync::Arc;

use vstd::prelude::*;

use crate::core_vm::MemSource;
use crate::errors::ExecutionError;
use crate::events::{MemValue, MemoryRecord};
use crate::hook::{self, HookRegistry};
use crate::machine::{self, Bus, Ram, ADDRESS_END};
use crate::memory::{self, is_addressable, MaybeCowMemory, PagedMemory};
use crate::syscalls::{FD_HINT, FD_STDERR, FD_STDOUT};

verus! {

/// Live guest memory. Logs the preimage of every access.
pub struct LiveMemory {
    pub page_table: MaybeCowMemory<MemoryRecord>,
    /// The preimages logged so far in the current chunk.
    pub oracle_log: Vec<MemValue>,
    /// The values that untouched words take on their first access.
    pub hint_seed: PagedMemory<u32>,
    /// The hints that wait to be read.
    pub input_stream: VecDeque<Vec<u8>>,
    pub hook_registry: HookRegistry,
}

impl LiveMemory {
    /// The memory in mathematical terms.
    pub open spec fn ram(&self) -> Ram {
        Ram {
            mem: self.page_table.model(),
            log: self.oracle_log@,
            seeds: self.hint_seed@,
            input: hook::contents(self.input_stream@),
            hooks: self.hook_registry.hooks(),
            eager: false,
        }
    }

    /// Create a memory without words.
    pub fn new(input_stream: VecDeque<Vec<u8>>, hook_registry: HookRegistry) -> (r: Self)
        ensures
            MemSource::wf(&r),
            r.ram() == (Ram {
                mem: crate::memory::CowModel { seen: Map::empty(), saved: None },
                log: Seq::empty(),
                seeds: Map::empty(),
                input: hook::contents(input_stream@),
                hooks: hook_registry.hooks(),
                eager: false,
            }),
    {
        LiveMemory {
            page_table: MaybeCowMemory::default(),
            oracle_log: Vec::new(),
            hint_seed: PagedMemory::default(),
            input_stream,
            hook_registry,
        }
    }

    /// The record of a word, the seed standing for one that was never touched.
    fn current(&self, addr: u32) -> (r: MemoryRecord)
        requires
            MemSource::wf(self),
            memory::addressable(addr),
        ensures
            r == self.ram().current(addr),
    {
        match self.page_table.get(addr) {
            Some(record) => *record,
            None => {
                let value: u32 = match self.hint_seed.get(addr) {
                    Some(v) => *v,
                    None => 0,
                };
                MemoryRecord { value, timestamp: 0 }
            },
        }
    }

    /// Binds a word to a record and logs the preimage.
    fn log_access(&mut self, addr: u32, record: MemoryRecord, preimage: MemoryRecord)
        requires
            MemSource::wf(old(self)),
            memory::addressable(addr),
        ensures
            MemSource::wf(final(self)),
            final(self).ram() == old(self).ram().logged(addr, record, preimage),
    {
        self.oracle_log.push(MemValue { clk: preimage.timestamp, value: preimage.value });
        let place: &mut MemoryRecord = self.page_table.entry(addr).or_insert(record);
        *place = record;
    }
}

/// A little-endian word of a hint.
fn hint_word(bytes: &Vec<u8>, i: usize) -> (r: u32)
    requires
        4 * i < bytes@.len(),
    ensures
        r == machine::hint_word(bytes@, i as int),
{
    let n: usize = bytes.len();
    let b1: u32 = bytes[4 * i] as u32;
    let b2: u32 = if n - 4 * i > 1 { bytes[4 * i + 1] as u32 } else { 0 };
    let b3: u32 = if n - 4 * i > 2 { bytes[4 * i + 2] as u32 } else { 0 };
    let b4: u32 = if n - 4 * i > 3 { bytes[4 * i + 3] as u32 } else { 0 };
    b1 + 0x100 * b2 + 0x1_0000 * b3 + 0x100_0000 * b4
}

/// Establishes the value that a word takes on its first access.
fn seed_uninitialized(seeds: &mut PagedMemory<u32>, addr: u32, value: u32) -> (r: Result<
    (),
    ExecutionError,
>)
    requires
        old(seeds).wf(),
        memory::addressable(addr),
    ensures
        final(seeds).wf(),
        old(seeds)@.contains_key(memory::slot(addr)) ==> r == Err::<(), _>(
            ExecutionError::InvalidSyscallArgs(),
        ) && final(seeds)@ == old(seeds)@,
        !old(seeds)@.contains_key(memory::slot(addr)) ==> r == Ok::<(), ExecutionError>(())
            && final(seeds)@ == old(seeds)@.insert(memory::slot(addr), value),
{
    if seeds.get(addr).is_some() {
        return Err(ExecutionError::InvalidSyscallArgs());
    }
    seeds.insert(addr, value);
    Ok(())
}

/// Places the first of the hints that wait.
pub(crate) fn place_hint(
    input: &mut VecDeque<Vec<u8>>,
    seeds: &mut PagedMemory<u32>,
    ptr: u32,
    len: u32,
) -> (r: Result<(), ExecutionError>)
    requires
        old(seeds).wf(),
    ensures
        final(seeds).wf(),
        forall|ram: Ram|
            ram.input == hook::contents(old(input)@) && ram.seeds == old(seeds)@ ==> (
                Bus::Live(
                    Ram { input: hook::contents(final(input)@), seeds: final(seeds)@, ..ram },
                ),
                r,
            ) == #[trigger] Bus::Live(ram).hint_read(ptr, len),
{
    let ghost before = hook::contents(input@);
    let ghost start = seeds@;
    let bytes: Vec<u8> = match input.pop_front() {
        Some(bytes) => bytes,
        None => {
            return Err(ExecutionError::InvalidSyscallArgs());
        },
    };
    proof {
        assert(hook::contents(input@) =~= before.skip(1));
    }
    if bytes.len() as u32 != len || ptr % 4 != 0 {
        return Err(ExecutionError::InvalidSyscallArgs());
    }
    let n: usize = if bytes.len() % 4 == 0 { bytes.len() / 4 } else { bytes.len() / 4 + 1 };
    if n != 0 && (n - 1 >= 0x4000_0000 || (ptr as u64) + 4 * ((n - 1) as u64)
        >= ADDRESS_END as u64) {
        return Err(ExecutionError::MemoryOutOfBoundsAccess(ptr as u64));
    }
    let mut i: usize = 0;
    while i < n
        invariant
            i <= n,
            n == machine::hint_words(bytes@),
            machine::words_fit(ptr, n as nat),
            seeds.wf(),
            machine::seeded(start, ptr, bytes@, i as nat).1,
            seeds@ == machine::seeded(start, ptr, bytes@, i as nat).0,
            start == old(seeds)@,
            hook::contents(input@) == hook::contents(old(input)@).skip(1),
            old(input)@.len() > 0,
            hook::contents(old(input)@)[0] == bytes@,
            bytes@.len() as u32 == len,
            ptr % 4 == 0,
        decreases n - i,
    {
        let word: u32 = hint_word(&bytes, i);
        if let Err(e) = seed_uninitialized(seeds, ptr + 4 * (i as u32), word) {
            proof {
                lemma_seeding_stops(start, ptr, bytes@, (i + 1) as nat, n as nat);
            }
            return Err(e);
        }
        i = i + 1;
    }
    Ok(())
}

impl MemSource for LiveMemory {
    open spec fn bus(&self) -> Bus {
        Bus::Live(self.ram())
    }

    open spec fn wf(&self) -> bool {
        &&& self.page_table.wf()
        &&& self.hint_seed.wf()
    }

    fn mr(&mut self, addr: u32, clk: u64) -> (r: u32) {
        let preimage: MemoryRecord = self.current(addr);
        self.log_access(addr, MemoryRecord { value: preimage.value, timestamp: clk }, preimage);
        preimage.value
    }

    fn mw(&mut self, addr: u32, value: u32, clk: u64) {
        let preimage: MemoryRecord = self.current(addr);
        self.log_access(addr, MemoryRecord { value, timestamp: clk }, preimage);
    }

    fn word_peek(&self, addr: u32, ahead: usize) -> (r: u32) {
        if is_addressable(addr) {
            self.current(addr).value
        } else {
            0
        }
    }

    fn mr_log_only(&mut self, addr: u32) -> (r: u32) {
        let plain: MemoryRecord = match self.page_table.get(addr) {
            Some(record) => *record,
            None => MemoryRecord { value: 0, timestamp: 0 },
        };
        let current: MemoryRecord = self.current(addr);
        self.log_access(addr, current, plain);
        plain.value
    }

    fn enter_unconstrained(&mut self) {
        self.page_table.copy_on_write();
    }

    fn exit_unconstrained(&mut self) {
        self.page_table.discard_cow();
    }

    fn resolve_hint_len(&mut self, clk: u64) -> (r: Result<u32, ExecutionError>) {
        if self.input_stream.len() == 0 {
            return Err(ExecutionError::InvalidSyscallArgs());
        }
        let len: u32 = self.input_stream[0].len() as u32;
        self.oracle_log.push(MemValue { clk, value: len });
        Ok(len)
    }

    fn resolve_hint_read(&mut self, ptr: u32, len: u32) -> (r: Result<(), ExecutionError>) {
        let ghost before = self.ram();
        let r = place_hint(&mut self.input_stream, &mut self.hint_seed, ptr, len);
        proof {
            assert(Bus::Live(before).hint_read(ptr, len) == (self.bus(), r));
        }
        r
    }

    fn write_fd(&mut self, fd: u32, bytes: Vec<u8>) -> (r: Result<(), ExecutionError>) {
        let ghost before = self.ram();
        if fd == FD_STDOUT || fd == FD_STDERR {
            return Ok(());
        }
        if fd == FD_HINT {
            self.input_stream.push_front(bytes);
            proof {
                assert(hook::contents(self.input_stream@) =~= seq![bytes@] + before.input);
            }
            return Ok(());
        }
        match self.hook_registry.get(fd) {
            None => Ok(()),
            Some(h) => {
                let mut answers: Vec<Vec<u8>> = match h.invoke_hook(&bytes) {
                    Ok(answers) => answers,
                    Err(e) => {
                        return Err(e);
                    },
                };
                let ghost all = answers@;
                while answers.len() > 0
                    invariant
                        answers@.len() <= all.len(),
                        answers@ == all.take(answers@.len() as int),
                        hook::contents(self.input_stream@) == hook::contents(
                            all.skip(answers@.len() as int),
                        ) + before.input,
                        MemSource::wf(self),
                        self.ram() == (Ram { input: hook::contents(self.input_stream@), ..before }),
                    decreases answers@.len(),
                {
                    let ghost was = self.input_stream@;
                    let ghost k = answers@.len() - 1;
                    if let Some(last) = answers.pop() {
                        let ghost front = last@;
                        self.input_stream.push_front(last);
                        proof {
                            assert(hook::contents(self.input_stream@) =~= seq![front] + hook::contents(
                                was,
                            ));
                            assert(hook::contents(all.skip(k)) =~= seq![front] + hook::contents(
                                all.skip(k + 1),
                            ));
                            assert(answers@ =~= all.take(k));
                            assert(hook::contents(self.input_stream@) =~= hook::contents(all.skip(k))
                                + before.input);
                        }
                    }
                }
                proof {
                    assert(all.skip(0) =~= all);
                }
                Ok(())
            },
        }
    }
}

/// A seed placed twice stays an error.
proof fn lemma_seeding_stops(seeds: Map<int, u32>, ptr: u32, bytes: Seq<u8>, k: nat, n: nat)
    requires
        k <= n,
        !machine::seeded(seeds, ptr, bytes, k).1,
    ensures
        machine::seeded(seeds, ptr, bytes, n) == machine::seeded(seeds, ptr, bytes, k),
    decreases n - k,
{
    if k < n {
        lemma_seeding_stops(seeds, ptr, bytes, k, (n - 1) as nat);
    }
}

/// A window of the log that a live memory left, read from the front.
#[derive(Clone)]
pub struct MemReads {
    entries: Arc<Vec<MemValue>>,
    pos: usize,
    end: usize,
}

impl MemReads {
    /// The entries still to come.
    pub closed spec fn left(&self) -> Seq<MemValue> {
        self.entries@.subrange(self.pos as int, self.end as int)
    }

    /// The window lies inside the log.
    pub closed spec fn inside(&self) -> bool {
        self.pos <= self.end <= self.entries@.len()
    }

    /// The window of a log from `start` to `end`.
    pub fn bounded(entries: Arc<Vec<MemValue>>, start: usize, end: usize) -> (r: Self)
        requires
            start <= end <= entries@.len(),
        ensures
            MemSource::wf(&r),
            r.left() == entries@.subrange(start as int, end as int),
    {
        MemReads { entries, pos: start, end }
    }

    /// The number of entries still to come.
    pub fn len(&self) -> (r: usize)
        requires
            MemSource::wf(self),
        ensures
            r == self.left().len(),
    {
        self.end - self.pos
    }

    /// The part of the window from `start` to `end`.
    pub fn window(&self, start: usize, end: usize) -> (r: Self)
        requires
            MemSource::wf(self),
            start <= end <= self.left().len(),
        ensures
            MemSource::wf(&r),
            r.left() == self.left().subrange(start as int, end as int),
    {
        let r = MemReads {
            entries: self.entries.clone(),
            pos: self.pos + start,
            end: self.pos + end,
        };
        proof {
            assert(r.left() =~= self.left().subrange(start as int, end as int));
        }
        r
    }

    /// Adds the entries still to come to a list.
    pub fn copy_to(&self, list: &mut Vec<MemValue>)
        requires
            MemSource::wf(self),
        ensures
            final(list)@ == old(list)@ + self.left(),
    {
        let mut i: usize = self.pos;
        while i < self.end
            invariant
                self.pos <= i <= self.end <= self.entries@.len(),
                list@ =~= old(list)@ + self.left().take(i - self.pos),
            decreases self.end - i,
        {
            list.push(self.entries[i]);
            i = i + 1;
        }
        proof {
            assert(self.left().take(self.left().len() as int) =~= self.left());
        }
    }

    /// The entry at a distance, if the window reaches that far.
    pub fn ahead(&self, k: usize) -> (r: Option<MemValue>)
        requires
            MemSource::wf(self),
        ensures
            r == (if k < self.left().len() {
                Some(self.left()[k as int])
            } else {
                None
            }),
    {
        if k < self.end - self.pos {
            Some(self.entries[self.pos + k])
        } else {
            None
        }
    }

    /// Takes the next entry; zero past the end.
    fn next_value(&mut self) -> (r: u32)
        requires
            MemSource::wf(old(self)),
        ensures
            MemSource::wf(final(self)),
            final(self).left() == machine::rest(old(self).left()),
            r == (if old(self).left().len() > 0 {
                old(self).left()[0].value
            } else {
                0
            }),
    {
        match self.ahead(0) {
            Some(entry) => {
                self.pos = self.pos + 1;
                proof {
                    assert(self.left() =~= machine::rest(old(self).left()));
                }
                entry.value
            },
            None => {
                proof {
                    assert(self.left() =~= machine::rest(old(self).left()));
                }
                0
            },
        }
    }
}

impl MemSource for MemReads {
    open spec fn bus(&self) -> Bus {
        Bus::Replay(self.left())
    }

    open spec fn wf(&self) -> bool {
        self.inside()
    }

    fn mr(&mut self, addr: u32, clk: u64) -> (r: u32) {
        self.next_value()
    }

    fn mw(&mut self, addr: u32, value: u32, clk: u64) {
        self.next_value();
    }

    fn word_peek(&self, addr: u32, ahead: usize) -> (r: u32) {
        match self.ahead(ahead) {
            Some(entry) => entry.value,
            None => 0,
        }
    }

    fn mr_log_only(&mut self, addr: u32) -> (r: u32) {
        self.next_value()
    }

    fn enter_unconstrained(&mut self) {
    }

    fn exit_unconstrained(&mut self) {
    }

    fn resolve_hint_len(&mut self, clk: u64) -> (r: Result<u32, ExecutionError>) {
        Ok(self.next_value())
    }

    fn resolve_hint_read(&mut self, ptr: u32, len: u32) -> (r: Result<(), ExecutionError>) {
        Ok(())
    }

    fn write_fd(&mut self, fd: u32, bytes: Vec<u8>) -> (r: Result<(), ExecutionError>) {
        Ok(())
    }
}

} // verus!
