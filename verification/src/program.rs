//! Programs: an instruction stream, an entry point and an initial memory image.
use std::collections::BTreeMap;

use vstd::prelude::*;

use crate::consts::MAX_PROGRAM_SIZE;
use crate::instruction::Instruction;

verus! {

/// A program.
#[derive(Clone, Debug)]
pub struct Program {
    /// The instructions, the first one lying at `pc_base`.
    pub instructions: Vec<Instruction>,
    /// The address of the first instruction to execute.
    pub pc_start: u32,
    /// The address of the second instruction to execute.
    pub next_pc: u32,
    /// The address of the first instruction.
    pub pc_base: u32,
    /// Initial contents: addresses below the register count seed registers, the others memory.
    pub image: BTreeMap<u32, u32>,
}

impl Default for Program {
    /// The program without instructions.
    fn default() -> (r: Self)
        ensures
            r.instructions@.len() == 0,
            r.pc_start == 0,
            r.next_pc == 0,
            r.pc_base == 0,
            r.image@ == Map::<u32, u32>::empty(),
    {
        Program {
            instructions: Vec::new(),
            pc_start: 0,
            next_pc: 0,
            pc_base: 0,
            image: BTreeMap::new(),
        }
    }
}

impl Program {
    /// Create a program without an initial image.
    pub fn new(instructions: Vec<Instruction>, pc_start: u32, pc_base: u32) -> (r: Self)
        ensures
            r.instructions == instructions,
            r.pc_start == pc_start,
            r.next_pc == pc_start.wrapping_add(4),
            r.pc_base == pc_base,
            r.image@ == Map::<u32, u32>::empty(),
    {
        Program {
            instructions,
            pc_start,
            next_pc: pc_start.wrapping_add(4),
            pc_base,
            image: BTreeMap::new(),
        }
    }

    /// Fetch the instruction at `pc`.
    pub fn fetch(&self, pc: u32) -> (r: Instruction)
        requires
            self.contains_pc(pc),
        ensures
            r == self.at(pc),
    {
        let index: u32 = pc.wrapping_sub(self.pc_base) / 4;
        self.instructions[index as usize]
    }

    /// The address of the instruction with the given index.
    pub fn pc(&self, index: usize) -> (r: u32)
        requires
            self.wf(),
            index <= self.instructions@.len(),
        ensures
            r == self.pc_base + index * 4,
    {
        self.pc_base + (index as u32) * 4
    }

    /// Whether `pc` lies inside the instruction stream.
    pub fn has_pc(&self, pc: u32) -> (r: bool)
        ensures
            r == self.contains_pc(pc),
    {
        let offset: u32 = pc.wrapping_sub(self.pc_base);
        ((offset / 4) as usize) < self.instructions.len()
    }

    /// Whether the program fits the address space and names existing registers only.
    pub fn is_valid(&self) -> (r: bool)
        ensures
            r == self.wf(),
    {
        broadcast use vstd::std_specs::btree::group_btree_axioms;

        if self.instructions.len() > MAX_PROGRAM_SIZE {
            return false;
        }
        if self.pc_base as u64 + (self.instructions.len() as u64) * 4 > 0xffff_ffff {
            return false;
        }
        let mut i: usize = 0;
        while i < self.instructions.len()
            invariant
                i <= self.instructions@.len(),
                forall|j: int| 0 <= j < i ==> (#[trigger] self.instructions@[j]).wf(),
            decreases self.instructions@.len() - i,
        {
            if !self.instructions[i].is_valid() {
                return false;
            }
            i = i + 1;
        }
        for kv in it: self.image.iter()
            invariant
                forall|a: u32| #[trigger]
                    self.image@.contains_key(a) ==> crate::memory::addressable(a) || exists|j: int|
                        it.index() <= j < it.seq().len() && #[trigger] it.seq()[j] == (
                            &a,
                            &self.image@[a],
                        ),
        {
            proof {
                assert(self.image@.contains_key(*it.seq()[it.index() as int].0));
            }
            if !crate::memory::is_addressable(*kv.0) {
                return false;
            }
        }
        true
    }

    /// The program fits the address space and its instructions name existing registers.
    pub open spec fn wf(self) -> bool {
        &&& self.instructions@.len() <= MAX_PROGRAM_SIZE
        &&& self.pc_base + self.instructions@.len() * 4 <= u32::MAX
        &&& forall|i: int| 0 <= i < self.instructions@.len() ==> (#[trigger] self.instructions@[i]).wf()
        &&& forall|a: u32| #[trigger] self.image@.contains_key(a) ==> crate::memory::addressable(a)
    }

    /// Whether `pc` lies inside the instruction stream.
    pub open spec fn contains_pc(self, pc: u32) -> bool {
        pc.wrapping_sub(self.pc_base) < self.instructions@.len() * 4
    }

    /// The instruction at `pc`.
    pub open spec fn at(self, pc: u32) -> Instruction {
        self.instructions@[(pc.wrapping_sub(self.pc_base) / 4) as int]
    }
}

/// The instructions lie in line from the base address on, four bytes apart, and nowhere else.
pub proof fn instructions_lie_in_line(program: Program, k: int, pc: u32)
    requires
        program.wf(),
    ensures
        0 <= k < program.instructions@.len() ==> {
            let at = (program.pc_base + 4 * k) as u32;
            program.contains_pc(at) && program.at(at) == program.instructions@[k]
        },
        program.contains_pc(pc) <==> program.pc_base <= pc < program.pc_base + 4
            * program.instructions@.len(),
{
}

} // verus!
