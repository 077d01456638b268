//! Guest memory as cells in address spaces.
use vstd::prelude::*;

use crate::consts::MAX_MEMORY;
use crate::memory::PagedMemory;
use crate::memory::config::{MIPS_MEMORY_SPACE, MIPS_REGISTER_SPACE};
use crate::memory;
use crate::register::NUM_REGISTERS;

verus! {

/// Whether an address space has a cell.
pub open spec fn has_cell(space: u32, cell: u32) -> bool {
    if space == MIPS_REGISTER_SPACE {
        cell < NUM_REGISTERS
    } else {
        space == MIPS_MEMORY_SPACE && cell < MAX_MEMORY / 4
    }
}

/// Whether an address space has a cell.
pub fn is_cell(space: u32, cell: u32) -> (r: bool)
    ensures
        r == has_cell(space, cell),
{
    if space == MIPS_REGISTER_SPACE {
        (cell as usize) < NUM_REGISTERS
    } else {
        space == MIPS_MEMORY_SPACE && (cell as usize) < MAX_MEMORY / 4
    }
}

/// The registers and the words of memory, every cell zero until it is written.
#[derive(Debug, Clone)]
pub struct GuestMemory {
    /// The cells of the register space.
    pub registers: Vec<u32>,
    /// The cells of the memory space that were written.
    pub words: PagedMemory<u32>,
}

impl View for GuestMemory {
    type V = Map<(u32, u32), u32>;

    open spec fn view(&self) -> Map<(u32, u32), u32> {
        Map::new(|k: (u32, u32)| has_cell(k.0, k.1), |k: (u32, u32)| self.cell(k.0, k.1))
    }
}

impl Default for GuestMemory {
    /// Every cell is zero.
    fn default() -> (r: Self)
        ensures
            r.wf(),
            forall|space: u32, cell: u32|
                has_cell(space, cell) ==> #[trigger] r@[(space, cell)] == 0,
    {
        let mut registers: Vec<u32> = Vec::new();
        let mut i: usize = 0;
        while i < NUM_REGISTERS
            invariant
                i <= NUM_REGISTERS,
                registers@.len() == i,
                forall|j: int| 0 <= j < i ==> #[trigger] registers@[j] == 0,
            decreases NUM_REGISTERS - i,
        {
            registers.push(0);
            i = i + 1;
        }
        GuestMemory { registers, words: PagedMemory::new_preallocated() }
    }
}

impl GuestMemory {
    /// There is one cell per register and the pages are well formed.
    pub open spec fn wf(&self) -> bool {
        self.registers@.len() == NUM_REGISTERS && self.words.wf()
    }

    /// The value of a cell.
    pub open spec fn cell(&self, space: u32, cell: u32) -> u32 {
        if space == MIPS_REGISTER_SPACE {
            self.registers@[cell as int]
        } else {
            match memory::lookup(self.words@, cell as int) {
                Some(value) => value,
                None => 0,
            }
        }
    }

    /// Read a cell.
    pub fn read(&self, space: u32, cell: u32) -> (r: u32)
        requires
            self.wf(),
            has_cell(space, cell),
        ensures
            r == self@[(space, cell)],
    {
        if space == MIPS_REGISTER_SPACE {
            self.registers[cell as usize]
        } else {
            match self.words.get(cell * 4) {
                Some(value) => *value,
                None => 0,
            }
        }
    }

    /// Write a cell.
    pub fn write(&mut self, space: u32, cell: u32, value: u32)
        requires
            old(self).wf(),
            has_cell(space, cell),
        ensures
            final(self).wf(),
            final(self)@ == old(self)@.insert((space, cell), value),
    {
        if space == MIPS_REGISTER_SPACE {
            self.registers.set(cell as usize, value);
        } else {
            self.words.insert(cell * 4, value);
        }
        assert(self@ =~= old(self)@.insert((space, cell), value));
    }
}

} // verus!
