//! The layout of the guest address spaces in host memory.
use vstd::prelude::*;

use crate::consts::MAX_MEMORY;
use crate::register::NUM_REGISTERS;

verus! {

/// The address space of the registers.
pub const MIPS_REGISTER_SPACE: u32 = 0;

/// The address space of the memory.
pub const MIPS_MEMORY_SPACE: u32 = 1;

/// The smallest number of cells an access covers.
pub const DEFAULT_NATIVE_BLOCK_SIZE: usize = 1;

/// The size and shape of one address space.
#[derive(Debug, Clone, Copy, PartialEq, Eq, Structural)]
pub struct AddressSpaceHostConfig {
    /// The number of memory cells, a cell being a single addressable unit.
    pub num_cells: usize,
    /// The smallest number of cells an access covers.
    pub min_block_size: usize,
    /// The type of a cell.
    pub layout: MemoryCellType,
}

impl AddressSpaceHostConfig {
    /// Create a configuration.
    pub fn new(num_cells: usize, min_block_size: usize, layout: MemoryCellType) -> (r: Self)
        ensures
            r == (AddressSpaceHostConfig { num_cells, min_block_size, layout }),
    {
        AddressSpaceHostConfig { num_cells, min_block_size, layout }
    }

    /// The total size in bytes of the address space in a linear memory layout.
    pub fn size(&self) -> (r: usize)
        requires
            self.num_cells * self.layout.bytes() <= usize::MAX,
        ensures
            r == self.num_cells * self.layout.bytes(),
    {
        self.num_cells * self.layout.size()
    }
}

/// The type of a memory cell.
#[derive(Debug, Clone, Copy, PartialEq, Eq, Structural)]
pub enum MemoryCellType {
    Null,
    U8,
    U16,
    /// Represented in little-endian format.
    U32,
    /// `size` is the size in bytes of the native field type. This should not exceed 8.
    Native { size: u8 },
}

impl MemoryCellType {
    /// The cell of a native 32-bit field.
    pub fn native32() -> (r: Self)
        ensures
            r == (MemoryCellType::Native { size: 4 }),
    {
        MemoryCellType::Native { size: 4 }
    }

    /// The size of a cell in bytes. The null cell counts as one byte.
    pub open spec fn bytes(self) -> nat {
        match self {
            MemoryCellType::Null => 1,
            MemoryCellType::U8 => 1,
            MemoryCellType::U16 => 2,
            MemoryCellType::U32 => 4,
            MemoryCellType::Native { size } => size as nat,
        }
    }
}

/// A type of memory cell with a size.
pub trait AddressSpaceHostLayout {
    /// The size in bytes that the layout stands for.
    spec fn layout_bytes(&self) -> nat;

    /// Size in bytes of the memory cell type.
    fn size(&self) -> (r: usize)
        ensures
            r == self.layout_bytes(),
    ;
}

impl AddressSpaceHostLayout for MemoryCellType {
    open spec fn layout_bytes(&self) -> nat {
        self.bytes()
    }

    fn size(&self) -> (r: usize) {
        match self {
            MemoryCellType::Null => 1,
            MemoryCellType::U8 => 1,
            MemoryCellType::U16 => 2,
            MemoryCellType::U32 => 4,
            MemoryCellType::Native { size } => *size as usize,
        }
    }
}

/// The configuration of every address space.
#[derive(Debug, Clone)]
pub struct MemoryConfig {
    pub addr_spaces: Vec<AddressSpaceHostConfig>,
}

impl Default for MemoryConfig {
    /// One cell per register, one cell per word of memory.
    fn default() -> (r: Self)
        ensures
            r.addr_spaces@ == seq![
                AddressSpaceHostConfig {
                    num_cells: NUM_REGISTERS,
                    min_block_size: 1,
                    layout: MemoryCellType::U32,
                },
                AddressSpaceHostConfig {
                    num_cells: (MAX_MEMORY / 4) as usize,
                    min_block_size: 1,
                    layout: MemoryCellType::U32,
                },
            ],
    {
        let mut addr_spaces = Self::empty_address_space_configs(2);
        let mut registers = addr_spaces[MIPS_REGISTER_SPACE as usize];
        registers.num_cells = NUM_REGISTERS;
        addr_spaces.set(MIPS_REGISTER_SPACE as usize, registers);
        let mut memory = addr_spaces[MIPS_MEMORY_SPACE as usize];
        memory.num_cells = MAX_MEMORY / 4;
        addr_spaces.set(MIPS_MEMORY_SPACE as usize, memory);
        MemoryConfig { addr_spaces }
    }
}

impl MemoryConfig {
    /// Create a configuration.
    pub fn new(addr_spaces: Vec<AddressSpaceHostConfig>) -> (r: Self)
        ensures
            r.addr_spaces == addr_spaces,
    {
        MemoryConfig { addr_spaces }
    }

    /// Address spaces without cells: words for the registers and the memory, native 32-bit field
    /// cells for the others.
    pub fn empty_address_space_configs(num_addr_spaces: usize) -> (r: Vec<AddressSpaceHostConfig>)
        requires
            num_addr_spaces >= 2,
        ensures
            r@ == Seq::new(
                num_addr_spaces as nat,
                |i: int|
                    AddressSpaceHostConfig {
                        num_cells: 0,
                        min_block_size: DEFAULT_NATIVE_BLOCK_SIZE,
                        layout: if i < 2 {
                            MemoryCellType::U32
                        } else {
                            MemoryCellType::Native { size: 4 }
                        },
                    },
            ),
    {
        let mut addr_spaces: Vec<AddressSpaceHostConfig> = Vec::new();
        let mut i: usize = 0;
        while i < num_addr_spaces
            invariant
                i <= num_addr_spaces,
                addr_spaces@.len() == i,
                forall|j: int|
                    0 <= j < i ==> #[trigger] addr_spaces@[j] == (AddressSpaceHostConfig {
                        num_cells: 0,
                        min_block_size: DEFAULT_NATIVE_BLOCK_SIZE,
                        layout: MemoryCellType::Native { size: 4 },
                    }),
            decreases num_addr_spaces - i,
        {
            addr_spaces.push(
                AddressSpaceHostConfig::new(
                    0,
                    DEFAULT_NATIVE_BLOCK_SIZE,
                    MemoryCellType::native32(),
                ),
            );
            i = i + 1;
        }
        addr_spaces.set(
            MIPS_REGISTER_SPACE as usize,
            AddressSpaceHostConfig::new(0, DEFAULT_NATIVE_BLOCK_SIZE, MemoryCellType::U32),
        );
        addr_spaces.set(
            MIPS_MEMORY_SPACE as usize,
            AddressSpaceHostConfig::new(0, DEFAULT_NATIVE_BLOCK_SIZE, MemoryCellType::U32),
        );
        addr_spaces
    }
}

} // verus!
