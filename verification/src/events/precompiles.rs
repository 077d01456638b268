//! Events of precompiled operations.
use vstd::prelude::*;

use super::memory::{MemoryLocalEvent, MemoryReadRecord, MemoryWriteRecord};
use super::syscall::SyscallEvent;
use crate::syscalls::SyscallCode;

verus! {

/// An elliptic curve addition.
#[derive(Debug, Clone)]
pub struct EllipticCurveAddEvent {
    /// The shard number.
    pub shard: u32,
    /// The clock cycle.
    pub clk: u64,
    /// The pointer to the first point.
    pub p_ptr: u32,
    /// The first point as a list of words.
    pub p: Vec<u32>,
    /// The pointer to the second point.
    pub q_ptr: u32,
    /// The second point as a list of words.
    pub q: Vec<u32>,
    /// The memory records for the first point.
    pub p_memory_records: Vec<MemoryWriteRecord>,
    /// The memory records for the second point.
    pub q_memory_records: Vec<MemoryReadRecord>,
    /// The local memory access records.
    pub local_mem_access: Vec<MemoryLocalEvent>,
}

/// An elliptic curve doubling.
#[derive(Debug, Clone)]
pub struct EllipticCurveDoubleEvent {
    /// The shard number.
    pub shard: u32,
    /// The clock cycle.
    pub clk: u64,
    /// The pointer to the point.
    pub p_ptr: u32,
    /// The point as a list of words.
    pub p: Vec<u32>,
    /// The memory records for the point.
    pub p_memory_records: Vec<MemoryWriteRecord>,
    /// The local memory access records.
    pub local_mem_access: Vec<MemoryLocalEvent>,
}

/// An elliptic curve point decompression.
#[derive(Debug, Clone)]
pub struct EllipticCurveDecompressEvent {
    /// The shard number.
    pub shard: u32,
    /// The clock cycle.
    pub clk: u64,
    /// The pointer to the point.
    pub ptr: u32,
    /// The sign bit of the point.
    pub sign_bit: bool,
    /// The x coordinate as a list of bytes.
    pub x_bytes: Vec<u8>,
    /// The decompressed y coordinate as a list of bytes.
    pub decompressed_y_bytes: Vec<u8>,
    /// The memory records for the x coordinate.
    pub x_memory_records: Vec<MemoryReadRecord>,
    /// The memory records for the y coordinate.
    pub y_memory_records: Vec<MemoryWriteRecord>,
    /// The local memory access records.
    pub local_mem_access: Vec<MemoryLocalEvent>,
}

/// A sponge over a list of words.
#[derive(Debug, Clone)]
pub struct KeccakSpongeEvent {
    /// The clock cycle.
    pub clk: u64,
    /// The pointer to the input.
    pub input_addr: u32,
    /// The pointer to the output.
    pub output_addr: u32,
    /// The number of input words, a multiple of the block size.
    pub input_len_u32s: u32,
    /// The local memory access records.
    pub local_mem_access: Vec<MemoryLocalEvent>,
}

/// The event of a precompiled operation.
#[derive(Debug, Clone)]
pub enum PrecompileEvent {
    EcAdd(EllipticCurveAddEvent),
    EcDouble(EllipticCurveDoubleEvent),
    EcDecompress(EllipticCurveDecompressEvent),
    KeccakSponge(KeccakSpongeEvent),
    /// An operation recorded by its local memory accesses alone.
    Other(Vec<MemoryLocalEvent>),
}

impl PrecompileEvent {
    /// The local memory accesses of the operation.
    pub open spec fn local(self) -> Seq<MemoryLocalEvent> {
        match self {
            PrecompileEvent::EcAdd(e) => e.local_mem_access@,
            PrecompileEvent::EcDouble(e) => e.local_mem_access@,
            PrecompileEvent::EcDecompress(e) => e.local_mem_access@,
            PrecompileEvent::KeccakSponge(e) => e.local_mem_access@,
            PrecompileEvent::Other(events) => events@,
        }
    }

    /// The local memory accesses of the operation.
    pub fn local_mem_access(&self) -> (r: &Vec<MemoryLocalEvent>)
        ensures
            r@ == self.local(),
    {
        match self {
            PrecompileEvent::EcAdd(e) => &e.local_mem_access,
            PrecompileEvent::EcDouble(e) => &e.local_mem_access,
            PrecompileEvent::EcDecompress(e) => &e.local_mem_access,
            PrecompileEvent::KeccakSponge(e) => &e.local_mem_access,
            PrecompileEvent::Other(events) => events,
        }
    }
}

/// The events of one kind of precompiled operation.
pub type EventList = Vec<(SyscallEvent, PrecompileEvent)>;

/// The events of precompiled operations, grouped by system call. Groups keep the order in which
/// their first event arrived.
#[derive(Debug, Clone)]
pub struct PrecompileEvents {
    pub groups: Vec<(SyscallCode, EventList)>,
}

impl Default for PrecompileEvents {
    /// No events.
    fn default() -> (r: Self)
        ensures
            r.groups@.len() == 0,
    {
        PrecompileEvents { groups: Vec::new() }
    }
}

impl PrecompileEvents {
    /// No system call has two groups.
    pub open spec fn wf(&self) -> bool {
        forall|i: int, j: int|
            0 <= i < j < self.groups@.len() ==> (#[trigger] self.groups@[i]).0 != (
            #[trigger] self.groups@[j]).0
    }

    /// The position of the first group of a system call among the first `n`, if any.
    pub open spec fn position(self, code: SyscallCode, n: int) -> Option<int>
        decreases n,
    {
        if n <= 0 {
            None
        } else {
            match self.position(code, n - 1) {
                Some(i) => Some(i),
                None => if self.groups@[n - 1].0 == code {
                    Some(n - 1)
                } else {
                    None
                },
            }
        }
    }

    /// The events of a system call; empty if it has no group.
    pub open spec fn events(self, code: SyscallCode) -> Seq<(SyscallEvent, PrecompileEvent)> {
        match self.position(code, self.groups@.len() as int) {
            Some(i) => self.groups@[i].1@,
            None => Seq::empty(),
        }
    }

    /// Whether a system call has a group.
    pub open spec fn has(self, code: SyscallCode) -> bool {
        self.position(code, self.groups@.len() as int) is Some
    }

    proof fn lemma_position(self, code: SyscallCode, n: int)
        requires
            0 <= n <= self.groups@.len(),
        ensures
            match self.position(code, n) {
                Some(i) => 0 <= i < n && self.groups@[i].0 == code,
                None => forall|i: int| 0 <= i < n ==> (#[trigger] self.groups@[i]).0 != code,
            },
        decreases n,
    {
        if n > 0 {
            self.lemma_position(code, n - 1);
        }
    }

    /// The only group of a system call is where its position says.
    proof fn lemma_unique(self, code: SyscallCode, i: int)
        requires
            self.wf(),
            0 <= i < self.groups@.len(),
            self.groups@[i].0 == code,
        ensures
            self.position(code, self.groups@.len() as int) == Some(i),
            self.events(code) == self.groups@[i].1@,
    {
        self.lemma_position(code, self.groups@.len() as int);
        let p = self.position(code, self.groups@.len() as int);
        if p is Some && p->Some_0 != i {
            if p->Some_0 < i {
                assert(self.groups@[p->Some_0].0 != self.groups@[i].0);
            } else {
                assert(self.groups@[i].0 != self.groups@[p->Some_0].0);
            }
        }
    }

    /// A position is that of a group of the system call; without one there is no such group.
    pub proof fn lemma_find(self, code: SyscallCode)
        ensures
            match self.position(code, self.groups@.len() as int) {
                Some(i) => 0 <= i < self.groups@.len() && self.groups@[i].0 == code,
                None => forall|i: int|
                    0 <= i < self.groups@.len() ==> (#[trigger] self.groups@[i]).0 != code,
            },
    {
        self.lemma_position(code, self.groups@.len() as int);
    }

    /// A system call without a group has no events.
    pub proof fn lemma_absent(self, code: SyscallCode)
        requires
            forall|i: int| 0 <= i < self.groups@.len() ==> (#[trigger] self.groups@[i]).0 != code,
        ensures
            !self.has(code),
            self.events(code) == Seq::<(SyscallEvent, PrecompileEvent)>::empty(),
    {
        self.lemma_position(code, self.groups@.len() as int);
    }

    /// The position of the group of a system call.
    fn find(&self, code: SyscallCode) -> (r: Option<usize>)
        ensures
            match r {
                Some(i) => i < self.groups@.len() && self.groups@[i as int].0 == code
                    && self.position(code, self.groups@.len() as int) == Some(i as int),
                None => self.position(code, self.groups@.len() as int) is None && forall|i: int|
                    0 <= i < self.groups@.len() ==> (#[trigger] self.groups@[i]).0 != code,
            },
    {
        let mut i: usize = 0;
        proof {
            self.lemma_position(code, self.groups@.len() as int);
        }
        while i < self.groups.len()
            invariant
                i <= self.groups@.len(),
                forall|j: int| 0 <= j < i ==> (#[trigger] self.groups@[j]).0 != code,
            decreases self.groups@.len() - i,
        {
            if self.groups[i].0 == code {
                proof {
                    self.lemma_first(code, i as int, self.groups@.len() as int);
                }
                return Some(i);
            }
            i = i + 1;
        }
        proof {
            self.lemma_position(code, self.groups@.len() as int);
        }
        None
    }

    proof fn lemma_first(self, code: SyscallCode, i: int, n: int)
        requires
            0 <= i < n <= self.groups@.len(),
            self.groups@[i].0 == code,
            forall|j: int| 0 <= j < i ==> (#[trigger] self.groups@[j]).0 != code,
        ensures
            self.position(code, n) == Some(i),
        decreases n,
    {
        if n == i + 1 {
            self.lemma_position(code, i);
        } else {
            self.lemma_first(code, i, n - 1);
        }
    }

    /// The events of a system call, if it has a group.
    pub fn get_events(&self, code: SyscallCode) -> (r: Option<&EventList>)
        ensures
            match r {
                Some(events) => self.has(code) && events@ == self.events(code),
                None => !self.has(code),
            },
    {
        match self.find(code) {
            Some(i) => Some(&self.groups[i].1),
            None => None,
        }
    }

    /// Replaces the group of a system call.
    pub fn insert(&mut self, code: SyscallCode, events: EventList)
        requires
            old(self).wf(),
        ensures
            final(self).wf(),
            final(self).has(code),
            final(self).events(code) == events@,
            forall|c: SyscallCode| c != code ==> #[trigger] final(self).events(c) == old(self).events(c),
            forall|c: SyscallCode| c != code ==> #[trigger] final(self).has(c) == old(self).has(c),
    {
        let ghost was = *self;
        match self.find(code) {
            Some(i) => {
                self.groups.set(i, (code, events));
                proof {
                    self.lemma_unique(code, i as int);
                    assert forall|c: SyscallCode| c != code implies #[trigger] self.events(c)
                        == was.events(c) by {
                        Self::lemma_same_elsewhere(was, *self, i as int, c);
                    }
                    assert forall|c: SyscallCode| c != code implies #[trigger] self.has(c)
                        == was.has(c) by {
                        Self::lemma_same_elsewhere(was, *self, i as int, c);
                    }
                }
            },
            None => {
                self.groups.push((code, events));
                proof {
                    self.lemma_unique(code, was.groups@.len() as int);
                    assert forall|c: SyscallCode| c != code implies #[trigger] self.events(c)
                        == was.events(c) by {
                        Self::lemma_same_after_push(was, *self, c);
                    }
                    assert forall|c: SyscallCode| c != code implies #[trigger] self.has(c)
                        == was.has(c) by {
                        Self::lemma_same_after_push(was, *self, c);
                    }
                }
            },
        }
    }

    proof fn lemma_same_elsewhere(was: Self, now: Self, i: int, c: SyscallCode)
        requires
            0 <= i < was.groups@.len(),
            was.groups@[i].0 != c,
            now.groups@.len() == was.groups@.len(),
            now.groups@[i].0 == was.groups@[i].0,
            forall|j: int|
                0 <= j < was.groups@.len() && j != i ==> #[trigger] now.groups@[j] == was.groups@[j],
        ensures
            now.events(c) == was.events(c),
            now.has(c) == was.has(c),
    {
        Self::lemma_same_positions(was, now, c, was.groups@.len() as int);
        was.lemma_position(c, was.groups@.len() as int);
    }

    proof fn lemma_same_positions(was: Self, now: Self, c: SyscallCode, n: int)
        requires
            0 <= n <= was.groups@.len(),
            n <= now.groups@.len(),
            forall|j: int| 0 <= j < n ==> (#[trigger] now.groups@[j]).0 == was.groups@[j].0,
        ensures
            now.position(c, n) == was.position(c, n),
        decreases n,
    {
        if n > 0 {
            Self::lemma_same_positions(was, now, c, n - 1);
        }
    }

    proof fn lemma_same_after_push(was: Self, now: Self, c: SyscallCode)
        requires
            now.groups@.len() == was.groups@.len() + 1,
            forall|j: int|
                0 <= j < was.groups@.len() ==> #[trigger] now.groups@[j] == was.groups@[j],
            now.groups@[was.groups@.len() as int].0 != c,
        ensures
            now.events(c) == was.events(c),
            now.has(c) == was.has(c),
    {
        Self::lemma_same_positions(was, now, c, was.groups@.len() as int);
        was.lemma_position(c, was.groups@.len() as int);
    }

    /// Adds an event to the group of its system call.
    pub fn add_event(&mut self, code: SyscallCode, syscall_event: SyscallEvent, event: PrecompileEvent)
        requires
            old(self).wf(),
        ensures
            final(self).wf(),
            final(self).events(code) == old(self).events(code).push((syscall_event, event)),
            forall|c: SyscallCode| c != code ==> #[trigger] final(self).events(c) == old(self).events(c),
    {
        let ghost was = *self;
        match self.find(code) {
            Some(i) => {
                self.groups[i].1.push((syscall_event, event));
                proof {
                    self.lemma_unique(code, i as int);
                    assert forall|c: SyscallCode| c != code implies #[trigger] self.events(c)
                        == was.events(c) by {
                        Self::lemma_same_elsewhere(was, *self, i as int, c);
                    }
                }
            },
            None => {
                let mut events: EventList = Vec::new();
                events.push((syscall_event, event));
                self.groups.push((code, events));
                proof {
                    self.lemma_unique(code, was.groups@.len() as int);
                    assert forall|c: SyscallCode| c != code implies #[trigger] self.events(c)
                        == was.events(c) by {
                        Self::lemma_same_after_push(was, *self, c);
                    }
                }
            },
        }
    }

    /// Moves the events of another collection behind the events of this one.
    pub fn append(&mut self, other: &mut PrecompileEvents)
        requires
            old(self).wf(),
            old(other).wf(),
        ensures
            final(self).wf(),
            forall|c: SyscallCode| #[trigger]
                final(self).events(c) == old(self).events(c) + old(other).events(c),
            final(other).groups@.len() == 0,
    {
        let ghost mine = *self;
        let ghost theirs = *other;
        proof {
            assert forall|c: SyscallCode| #[trigger]
                self.events(c) == mine.events(c) + theirs.events_from(
                    c,
                    theirs.groups@.len() as int,
                ) by {
                assert(mine.events(c) + Seq::<(SyscallEvent, PrecompileEvent)>::empty()
                    =~= mine.events(c));
            }
        }
        while other.groups.len() > 0
            invariant
                self.wf(),
                theirs.wf(),
                other.groups@.len() <= theirs.groups@.len(),
                other.groups@ =~= theirs.groups@.take(other.groups@.len() as int),
                forall|c: SyscallCode| #[trigger]
                    self.events(c) == mine.events(c) + theirs.events_from(
                        c,
                        other.groups@.len() as int,
                    ),
            decreases other.groups@.len(),
        {
            let ghost before = *self;
            let ghost n = other.groups@.len() as int;
            if let Some((code, events)) = other.groups.pop() {
                let ghost list = events@;
                let mut list_mut: EventList = events;
                match self.find(code) {
                    Some(i) => {
                        self.groups[i].1.append(&mut list_mut);
                        proof {
                            self.lemma_unique(code, i as int);
                            assert forall|c: SyscallCode| c != code implies #[trigger] self.events(c)
                                == before.events(c) by {
                                Self::lemma_same_elsewhere(before, *self, i as int, c);
                            }
                        }
                    },
                    None => {
                        self.groups.push((code, list_mut));
                        proof {
                            self.lemma_unique(code, before.groups@.len() as int);
                            assert forall|c: SyscallCode| c != code implies #[trigger] self.events(c)
                                == before.events(c) by {
                                Self::lemma_same_after_push(before, *self, c);
                            }
                            before.lemma_absent(code);
                        }
                    },
                }
                proof {
                    assert(theirs.groups@[n - 1] == (code, events));
                    assert forall|c: SyscallCode| #[trigger]
                        self.events(c) == mine.events(c) + theirs.events_from(c, n - 1) by {
                        assert(before.events(c) == mine.events(c) + theirs.events_from(c, n));
                        if c == code {
                            theirs.lemma_only_here(n - 1);
                            assert(self.events(c) =~= before.events(c) + list);
                            assert(mine.events(c) + theirs.events_from(c, n - 1) =~= mine.events(c)
                                + list);
                        }
                    }
                }
            }
        }
        proof {
            assert forall|c: SyscallCode| #[trigger]
                self.events(c) == mine.events(c) + theirs.events(c) by {
                theirs.lemma_all_from(c);
            }
        }
    }

    /// The events of a system call in the groups from `n` on.
    spec fn events_from(self, code: SyscallCode, n: int) -> Seq<(SyscallEvent, PrecompileEvent)>
        decreases self.groups@.len() - n,
    {
        if n >= self.groups@.len() || n < 0 {
            Seq::empty()
        } else if self.groups@[n].0 == code {
            self.groups@[n].1@
        } else {
            self.events_from(code, n + 1)
        }
    }

    proof fn lemma_none_from(self, code: SyscallCode, n: int)
        requires
            0 <= n,
            forall|i: int| n <= i < self.groups@.len() ==> (#[trigger] self.groups@[i]).0 != code,
        ensures
            self.events_from(code, n) == Seq::<(SyscallEvent, PrecompileEvent)>::empty(),
        decreases self.groups@.len() - n,
    {
        if n < self.groups@.len() {
            self.lemma_none_from(code, n + 1);
        }
    }

    proof fn lemma_only_here(self, n: int)
        requires
            self.wf(),
            0 <= n < self.groups@.len(),
        ensures
            self.events_from(self.groups@[n].0, n + 1) == Seq::<
                (SyscallEvent, PrecompileEvent),
            >::empty(),
            self.events_from(self.groups@[n].0, n) == self.groups@[n].1@,
    {
        self.lemma_none_from(self.groups@[n].0, n + 1);
    }

    proof fn lemma_all_from(self, code: SyscallCode)
        requires
            self.wf(),
        ensures
            self.events_from(code, 0) == self.events(code),
    {
        self.lemma_position(code, self.groups@.len() as int);
        match self.position(code, self.groups@.len() as int) {
            Some(i) => {
                self.lemma_reaches(code, 0, i);
            },
            None => {
                self.lemma_none_from(code, 0);
            },
        }
    }

    proof fn lemma_reaches(self, code: SyscallCode, n: int, i: int)
        requires
            self.wf(),
            0 <= n <= i < self.groups@.len(),
            self.groups@[i].0 == code,
        ensures
            self.events_from(code, n) == self.groups@[i].1@,
        decreases i - n,
    {
        if n < i {
            assert(self.groups@[n].0 != self.groups@[i].0);
            self.lemma_reaches(code, n + 1, i);
        }
    }

    /// The number of events in the first `n` groups.
    pub open spec fn count(self, n: int) -> int
        decreases n,
    {
        if n <= 0 {
            0
        } else {
            self.count(n - 1) + self.groups@[n - 1].1@.len()
        }
    }

    /// The local memory accesses of the first `n` events of a list.
    pub open spec fn local_of(events: Seq<(SyscallEvent, PrecompileEvent)>, n: int) -> Seq<MemoryLocalEvent>
        decreases n,
    {
        if n <= 0 {
            Seq::empty()
        } else {
            Self::local_of(events, n - 1) + events[n - 1].1.local()
        }
    }

    /// The local memory accesses of the first `n` groups.
    pub open spec fn local_of_groups(self, n: int) -> Seq<MemoryLocalEvent>
        decreases n,
    {
        if n <= 0 {
            Seq::empty()
        } else {
            self.local_of_groups(n - 1) + Self::local_of(
                self.groups@[n - 1].1@,
                self.groups@[n - 1].1@.len() as int,
            )
        }
    }

    /// The local memory accesses of every event, group by group.
    pub fn get_local_mem_events(&self) -> (r: Vec<MemoryLocalEvent>)
        ensures
            r@ == self.local_of_groups(self.groups@.len() as int),
    {
        let mut all: Vec<MemoryLocalEvent> = Vec::new();
        let mut i: usize = 0;
        while i < self.groups.len()
            invariant
                i <= self.groups@.len(),
                all@ == self.local_of_groups(i as int),
            decreases self.groups@.len() - i,
        {
            let events: &EventList = &self.groups[i].1;
            let ghost start = all@;
            let mut j: usize = 0;
            while j < events.len()
                invariant
                    j <= events@.len(),
                    all@ == start + Self::local_of(events@, j as int),
                decreases events@.len() - j,
            {
                let local: &Vec<MemoryLocalEvent> = events[j].1.local_mem_access();
                let ghost before = all@;
                let mut k: usize = 0;
                while k < local.len()
                    invariant
                        k <= local@.len(),
                        all@ == before + local@.take(k as int),
                    decreases local@.len() - k,
                {
                    all.push(local[k]);
                    proof {
                        assert(local@.take(k + 1) =~= local@.take(k as int).push(local@[k as int]));
                        assert(all@ =~= before + local@.take(k + 1));
                    }
                    k = k + 1;
                }
                proof {
                    assert(local@.take(k as int) =~= local@);
                    assert(all@ =~= start + Self::local_of(events@, j + 1));
                }
                j = j + 1;
            }
            i = i + 1;
        }
        all
    }
}

/// Adding an event counts once, and only for its own system call.
pub proof fn added_events_count_once(
    before: PrecompileEvents,
    after: PrecompileEvents,
    code: SyscallCode,
    entry: (SyscallEvent, PrecompileEvent),
    other: SyscallCode,
)
    requires
        after.events(code) == before.events(code).push(entry),
        forall|c: SyscallCode| c != code ==> #[trigger] after.events(c) == before.events(c),
    ensures
        after.events(code).len() == before.events(code).len() + 1,
        other != code ==> after.events(other).len() == before.events(other).len(),
{
}

} // verus!
