//! Estimates of the trace area that a shard costs.
use p3_koala_bear::KoalaBear;
use vstd::prelude::*;

use crate::air::{MipsAirId, NUM_AIRS};
use crate::collections::WordMap;
use crate::events::PrecompileEvents;
use crate::opcode::{Opcode, NUM_OPCODES};
use crate::record::ExecutionRecord;
use crate::register::NUM_REGISTERS;
use crate::syscalls::SyscallCode;

verus! {

/// The number of rows of the byte lookup table.
pub const BYTE_NUM_ROWS: u64 = 0x1_0000;

/// The number of local memory entries in a row.
pub const NUM_LOCAL_MEMORY_ENTRIES_PER_ROW_EXEC: u64 = 4;

/// The smallest power of two that is at least `p` times a power of two and at least `n`.
pub open spec fn power_from(p: nat, n: nat) -> nat
    decreases
            if p < n {
                n - p
            } else {
                0
            },
{
    if p >= n || p == 0 {
        p
    } else {
        power_from(2 * p, n)
    }
}

/// The smallest power of two that is at least `n`.
pub open spec fn next_power(n: nat) -> nat {
    power_from(1, n)
}

proof fn lemma_power_from(p: nat, n: nat)
    requires
        p > 0,
    ensures
        power_from(p, n) >= n,
        power_from(p, n) >= p,
        p < n ==> power_from(p, n) < 2 * n,
    decreases
            if p < n {
                n - p
            } else {
                0
            },
{
    if p < n {
        lemma_power_from(2 * p, n);
    }
}

/// Padding never shrinks a count and less than doubles it.
pub proof fn padding_bounds(n: nat)
    ensures
        next_power(n) >= n,
        next_power(n) >= 1,
        n > 0 ==> next_power(n) < 2 * n,
{
    lemma_power_from(1, n);
}

proof fn lemma_power_monotone(p: nat, m: nat, n: nat)
    requires
        p > 0,
        m <= n,
    ensures
        power_from(p, m) <= power_from(p, n),
    decreases
            if p < n {
                n - p
            } else {
                0
            },
{
    if p < n {
        lemma_power_from(p, n);
        lemma_power_monotone(2 * p, m, n);
        if p >= m {
            lemma_power_from(2 * p, n);
        }
    }
}

/// A greater count is padded to at least as much.
pub proof fn padding_is_monotone(m: nat, n: nat)
    requires
        m <= n,
    ensures
        next_power(m) <= next_power(n),
{
    lemma_power_monotone(1, m, n);
}

/// The smallest power of two that is at least `n`.
pub fn next_power_of_two(n: u64) -> (r: u64)
    requires
        next_power(n as nat) <= u64::MAX,
    ensures
        r == next_power(n as nat),
{
    let mut p: u64 = 1;
    while p < n
        invariant
            p > 0,
            next_power(n as nat) <= u64::MAX,
            next_power(n as nat) == power_from(p as nat, n as nat),
        decreases next_power(n as nat) - p,
    {
        proof {
            lemma_power_from(2 * p as nat, n as nat);
        }
        p = 2 * p;
    }
    p
}

/// The cost of a row of each chip, in cells.
pub struct AirCosts {
    table: WordMap,
}

impl AirCosts {
    /// The cost of a row of a chip, if it is known.
    pub closed spec fn cost_of(&self, id: MipsAirId) -> Option<u64> {
        if self.table@.contains_key(id.ordinal() as u64) {
            Some(self.table@[id.ordinal() as u64])
        } else {
            None
        }
    }

    /// The cost of a row of a chip, zero if it is not known.
    pub open spec fn cost(&self, id: MipsAirId) -> u64 {
        match self.cost_of(id) {
            Some(c) => c,
            None => 0,
        }
    }

    /// The cost of every chip is known.
    pub open spec fn complete(&self) -> bool {
        forall|id: MipsAirId| #[trigger] self.cost_of(id) is Some
    }

    /// Create a table without costs.
    pub fn new() -> (r: Self)
        ensures
            forall|id: MipsAirId| #[trigger] r.cost_of(id) is None,
    {
        AirCosts { table: WordMap::new() }
    }

    /// Create a table in which every chip has the same cost.
    pub fn filled(cost: u64) -> (r: Self)
        ensures
            r.complete(),
            forall|id: MipsAirId| #[trigger] r.cost_of(id) == Some(cost),
    {
        let mut costs = AirCosts::new();
        let mut i: usize = 0;
        while i < NUM_AIRS
            invariant
                i <= NUM_AIRS,
                forall|id: MipsAirId|
                    id.ordinal() < i ==> #[trigger] costs.cost_of(id) == Some(cost),
            decreases NUM_AIRS - i,
        {
            let id: MipsAirId = MipsAirId::from_index(i);
            let ghost before = costs;
            costs.set(id, cost);
            proof {
                assert forall|other: MipsAirId| other.ordinal() < i + 1 implies #[trigger] costs.cost_of(
                    other,
                ) == Some(cost) by {
                    if other != id {
                        if other.ordinal() == i {
                            crate::air::air_positions_are_distinct(other, id);
                        }
                        assert(before.cost_of(other) == Some(cost));
                    }
                }
            }
            i = i + 1;
        }
        proof {
            assert forall|id: MipsAirId| #[trigger] costs.cost_of(id) == Some(cost) by {
                crate::air::air_positions_are_distinct(id, id);
            }
        }
        costs
    }

    /// Sets the cost of a chip.
    pub fn set(&mut self, id: MipsAirId, cost: u64)
        ensures
            final(self).cost_of(id) == Some(cost),
            forall|other: MipsAirId|
                other != id ==> #[trigger] final(self).cost_of(other) == old(self).cost_of(other),
    {
        self.table.insert(id.index() as u64, cost);
        proof {
            assert forall|other: MipsAirId| other != id implies #[trigger] self.cost_of(other) == old(
                self,
            ).cost_of(other) by {
                if other.ordinal() == id.ordinal() {
                    crate::air::air_positions_are_distinct(other, id);
                }
                crate::air::air_positions_are_distinct(other, other);
                crate::air::air_positions_are_distinct(id, id);
            }
        }
    }

    /// The cost of a row of a chip, if it is known.
    pub fn get(&self, id: MipsAirId) -> (r: Option<u64>)
        ensures
            r == self.cost_of(id),
    {
        self.table.get(id.index() as u64)
    }

    /// The cost of a row of a chip, zero if it is not known.
    pub fn cost_or_zero(&self, id: MipsAirId) -> (r: u64)
        ensures
            r == self.cost(id),
    {
        match self.get(id) {
            Some(c) => c,
            None => 0,
        }
    }
}

/// A count for each chip.
pub struct AirCounts {
    pub counts: Vec<u64>,
}

impl AirCounts {
    /// There is a count for each chip.
    pub open spec fn wf(&self) -> bool {
        self.counts@.len() == NUM_AIRS
    }

    /// The count of a chip.
    pub open spec fn at(&self, id: MipsAirId) -> u64 {
        self.counts@[id.ordinal()]
    }

    /// The count of a chip.
    pub fn get(&self, id: MipsAirId) -> (r: u64)
        requires
            self.wf(),
        ensures
            r == self.at(id),
    {
        self.counts[id.index()]
    }

    /// Create zero counts.
    pub fn new() -> (r: Self)
        ensures
            r.wf(),
            forall|id: MipsAirId| #[trigger] r.at(id) == 0,
    {
        let mut counts: Vec<u64> = Vec::new();
        while counts.len() < NUM_AIRS
            invariant
                counts@.len() <= NUM_AIRS,
                forall|i: int| 0 <= i < counts@.len() ==> #[trigger] counts@[i] == 0,
            decreases NUM_AIRS - counts@.len(),
        {
            counts.push(0);
        }
        let r = AirCounts { counts };
        proof {
            assert forall|id: MipsAirId| #[trigger] r.at(id) == 0 by {
                crate::air::air_positions_are_distinct(id, id);
            }
        }
        r
    }

    /// Sets the count of a chip.
    pub fn set(&mut self, id: MipsAirId, count: u64)
        requires
            old(self).wf(),
        ensures
            final(self).wf(),
            final(self).at(id) == count,
            forall|other: MipsAirId|
                other != id ==> #[trigger] final(self).at(other) == old(self).at(other),
    {
        self.counts.set(id.index(), count);
        proof {
            assert forall|other: MipsAirId| other != id implies #[trigger] self.at(other) == old(
                self,
            ).at(other) by {
                if other.ordinal() == id.ordinal() {
                    crate::air::air_positions_are_distinct(other, id);
                }
                crate::air::air_positions_are_distinct(other, other);
            }
        }
    }
}

/// `std::mem::size_of` of a `p3_koala_bear::KoalaBear`: an element is held in four bytes.
#[verifier::external_body]
fn element_size() -> (r: u64)
    ensures
        r == 4,
{
    core::mem::size_of::<KoalaBear>() as u64
}

/// The number of families of precompiled operations.
pub const NUM_FAMILIES: usize = 26;

/// The system call under which the events of a family are filed.
pub open spec fn family(i: usize) -> SyscallCode {
    match i {
        0 => SyscallCode::SHA_EXTEND,
        1 => SyscallCode::SHA_COMPRESS,
        2 => SyscallCode::ED_ADD,
        3 => SyscallCode::ED_DECOMPRESS,
        4 => SyscallCode::KECCAK_SPONGE,
        5 => SyscallCode::SECP256K1_ADD,
        6 => SyscallCode::SECP256K1_DOUBLE,
        7 => SyscallCode::SECP256K1_DECOMPRESS,
        8 => SyscallCode::SECP256R1_ADD,
        9 => SyscallCode::SECP256R1_DOUBLE,
        10 => SyscallCode::SECP256R1_DECOMPRESS,
        11 => SyscallCode::BN254_ADD,
        12 => SyscallCode::BN254_DOUBLE,
        13 => SyscallCode::BLS12381_ADD,
        14 => SyscallCode::BLS12381_DOUBLE,
        15 => SyscallCode::BLS12381_DECOMPRESS,
        16 => SyscallCode::UINT256_MUL,
        17 => SyscallCode::U256XU2048_MUL,
        18 => SyscallCode::POSEIDON2_PERMUTE,
        19 => SyscallCode::BLS12381_FP_ADD,
        20 => SyscallCode::BLS12381_FP2_ADD,
        21 => SyscallCode::BLS12381_FP2_MUL,
        22 => SyscallCode::BN254_FP_ADD,
        23 => SyscallCode::BN254_FP2_ADD,
        24 => SyscallCode::BN254_FP2_MUL,
        _ => SyscallCode::SYS_LINUX,
    }
}

/// The system call under which the events of a family are filed.
fn family_at(i: usize) -> (r: SyscallCode)
    ensures
        r == family(i),
{
    match i {
        0 => SyscallCode::SHA_EXTEND,
        1 => SyscallCode::SHA_COMPRESS,
        2 => SyscallCode::ED_ADD,
        3 => SyscallCode::ED_DECOMPRESS,
        4 => SyscallCode::KECCAK_SPONGE,
        5 => SyscallCode::SECP256K1_ADD,
        6 => SyscallCode::SECP256K1_DOUBLE,
        7 => SyscallCode::SECP256K1_DECOMPRESS,
        8 => SyscallCode::SECP256R1_ADD,
        9 => SyscallCode::SECP256R1_DOUBLE,
        10 => SyscallCode::SECP256R1_DECOMPRESS,
        11 => SyscallCode::BN254_ADD,
        12 => SyscallCode::BN254_DOUBLE,
        13 => SyscallCode::BLS12381_ADD,
        14 => SyscallCode::BLS12381_DOUBLE,
        15 => SyscallCode::BLS12381_DECOMPRESS,
        16 => SyscallCode::UINT256_MUL,
        17 => SyscallCode::U256XU2048_MUL,
        18 => SyscallCode::POSEIDON2_PERMUTE,
        19 => SyscallCode::BLS12381_FP_ADD,
        20 => SyscallCode::BLS12381_FP2_ADD,
        21 => SyscallCode::BLS12381_FP2_MUL,
        22 => SyscallCode::BN254_FP_ADD,
        23 => SyscallCode::BN254_FP2_ADD,
        24 => SyscallCode::BN254_FP2_MUL,
        _ => SyscallCode::SYS_LINUX,
    }
}

/// The chips that the events of a family fill row for row: a controlling and a working one for the
/// two parts of SHA-256, one for every other family.
pub open spec fn precompile_airs(code: SyscallCode) -> Seq<MipsAirId> {
    match code {
        SyscallCode::SHA_EXTEND => seq![MipsAirId::ShaExtendControl, MipsAirId::ShaExtend],
        SyscallCode::SHA_COMPRESS => seq![MipsAirId::ShaCompressControl, MipsAirId::ShaCompress],
        SyscallCode::ED_ADD => seq![MipsAirId::EdAddAssign],
        SyscallCode::ED_DECOMPRESS => seq![MipsAirId::EdDecompress],
        SyscallCode::KECCAK_SPONGE => seq![MipsAirId::KeccakSponge],
        SyscallCode::SECP256K1_ADD => seq![MipsAirId::Secp256k1AddAssign],
        SyscallCode::SECP256K1_DOUBLE => seq![MipsAirId::Secp256k1DoubleAssign],
        SyscallCode::SECP256K1_DECOMPRESS => seq![MipsAirId::Secp256k1Decompress],
        SyscallCode::SECP256R1_ADD => seq![MipsAirId::Secp256r1AddAssign],
        SyscallCode::SECP256R1_DOUBLE => seq![MipsAirId::Secp256r1DoubleAssign],
        SyscallCode::SECP256R1_DECOMPRESS => seq![MipsAirId::Secp256r1Decompress],
        SyscallCode::BN254_ADD => seq![MipsAirId::Bn254AddAssign],
        SyscallCode::BN254_DOUBLE => seq![MipsAirId::Bn254DoubleAssign],
        SyscallCode::BLS12381_ADD => seq![MipsAirId::Bls12381AddAssign],
        SyscallCode::BLS12381_DOUBLE => seq![MipsAirId::Bls12381DoubleAssign],
        SyscallCode::BLS12381_DECOMPRESS => seq![MipsAirId::Bls12381Decompress],
        SyscallCode::UINT256_MUL => seq![MipsAirId::Uint256MulMod],
        SyscallCode::U256XU2048_MUL => seq![MipsAirId::U256XU2048Mul],
        SyscallCode::POSEIDON2_PERMUTE => seq![MipsAirId::Poseidon2Permute],
        SyscallCode::BLS12381_FP_ADD => seq![MipsAirId::Bls12381FpOpAssign],
        SyscallCode::BLS12381_FP2_ADD => seq![MipsAirId::Bls12831Fp2AddSubAssign],
        SyscallCode::BLS12381_FP2_MUL => seq![MipsAirId::Bls12831Fp2MulAssign],
        SyscallCode::BN254_FP_ADD => seq![MipsAirId::Bn254FpOpAssign],
        SyscallCode::BN254_FP2_ADD => seq![MipsAirId::Bn254Fp2AddSubAssign],
        SyscallCode::BN254_FP2_MUL => seq![MipsAirId::Bn254Fp2MulAssign],
        SyscallCode::SYS_LINUX => seq![MipsAirId::SysLinux],
        _ => Seq::empty(),
    }
}

/// The chips that the events of a family fill row for row.
pub fn family_air_ids(code: SyscallCode) -> (r: Vec<MipsAirId>)
    ensures
        r@ == precompile_airs(code),
{
    let mut r: Vec<MipsAirId> = Vec::new();
    match code {
        SyscallCode::SHA_EXTEND => {
            r.push(MipsAirId::ShaExtendControl);
            r.push(MipsAirId::ShaExtend);
        },
        SyscallCode::SHA_COMPRESS => {
            r.push(MipsAirId::ShaCompressControl);
            r.push(MipsAirId::ShaCompress);
        },
        SyscallCode::ED_ADD => {
            r.push(MipsAirId::EdAddAssign);
        },
        SyscallCode::ED_DECOMPRESS => {
            r.push(MipsAirId::EdDecompress);
        },
        SyscallCode::KECCAK_SPONGE => {
            r.push(MipsAirId::KeccakSponge);
        },
        SyscallCode::SECP256K1_ADD => {
            r.push(MipsAirId::Secp256k1AddAssign);
        },
        SyscallCode::SECP256K1_DOUBLE => {
            r.push(MipsAirId::Secp256k1DoubleAssign);
        },
        SyscallCode::SECP256K1_DECOMPRESS => {
            r.push(MipsAirId::Secp256k1Decompress);
        },
        SyscallCode::SECP256R1_ADD => {
            r.push(MipsAirId::Secp256r1AddAssign);
        },
        SyscallCode::SECP256R1_DOUBLE => {
            r.push(MipsAirId::Secp256r1DoubleAssign);
        },
        SyscallCode::SECP256R1_DECOMPRESS => {
            r.push(MipsAirId::Secp256r1Decompress);
        },
        SyscallCode::BN254_ADD => {
            r.push(MipsAirId::Bn254AddAssign);
        },
        SyscallCode::BN254_DOUBLE => {
            r.push(MipsAirId::Bn254DoubleAssign);
        },
        SyscallCode::BLS12381_ADD => {
            r.push(MipsAirId::Bls12381AddAssign);
        },
        SyscallCode::BLS12381_DOUBLE => {
            r.push(MipsAirId::Bls12381DoubleAssign);
        },
        SyscallCode::BLS12381_DECOMPRESS => {
            r.push(MipsAirId::Bls12381Decompress);
        },
        SyscallCode::UINT256_MUL => {
            r.push(MipsAirId::Uint256MulMod);
        },
        SyscallCode::U256XU2048_MUL => {
            r.push(MipsAirId::U256XU2048Mul);
        },
        SyscallCode::POSEIDON2_PERMUTE => {
            r.push(MipsAirId::Poseidon2Permute);
        },
        SyscallCode::BLS12381_FP_ADD => {
            r.push(MipsAirId::Bls12381FpOpAssign);
        },
        SyscallCode::BLS12381_FP2_ADD => {
            r.push(MipsAirId::Bls12831Fp2AddSubAssign);
        },
        SyscallCode::BLS12381_FP2_MUL => {
            r.push(MipsAirId::Bls12831Fp2MulAssign);
        },
        SyscallCode::BN254_FP_ADD => {
            r.push(MipsAirId::Bn254FpOpAssign);
        },
        SyscallCode::BN254_FP2_ADD => {
            r.push(MipsAirId::Bn254Fp2AddSubAssign);
        },
        SyscallCode::BN254_FP2_MUL => {
            r.push(MipsAirId::Bn254Fp2MulAssign);
        },
        SyscallCode::SYS_LINUX => {
            r.push(MipsAirId::SysLinux);
        },
        _ => {},
    }
    proof {
        assert(r@ =~= precompile_airs(code));
    }
    r
}

/// The cells of a number of rows, each of which costs the same.
pub open spec fn area(rows: nat, cost: u64) -> nat {
    rows * (cost as nat)
}

/// The cost of a row in each of several chips.
pub open spec fn summed_cost(costs: &AirCosts, ids: Seq<MipsAirId>, n: int) -> nat
    decreases n,
{
    if n <= 0 {
        0
    } else {
        summed_cost(costs, ids, n - 1) + costs.cost(ids[n - 1]) as nat
    }
}

/// The cells of the events of one family, padded to a power of two.
pub open spec fn family_cells(costs: &AirCosts, events: PrecompileEvents, code: SyscallCode) -> nat {
    let count = events.events(code).len();
    if count == 0 {
        0
    } else {
        next_power(count) * summed_cost(
            costs,
            precompile_airs(code),
            precompile_airs(code).len() as int,
        )
    }
}

/// The cells of the events of the first `n` families.
pub open spec fn families_cells(costs: &AirCosts, events: PrecompileEvents, n: int) -> nat
    decreases n,
{
    if n <= 0 {
        0
    } else {
        families_cells(costs, events, n - 1) + family_cells(costs, events, family((n - 1) as usize))
    }
}

/// The number of events of the first `n` families.
pub open spec fn families_events(events: PrecompileEvents, n: int) -> nat
    decreases n,
{
    if n <= 0 {
        0
    } else {
        families_events(events, n - 1) + events.events(family((n - 1) as usize)).len()
    }
}

/// The cells of all precompiled operations, those of the chip that dispatches them included.
pub open spec fn precompile_cells(costs: &AirCosts, events: PrecompileEvents) -> nat {
    let total = families_events(events, NUM_FAMILIES as int);
    families_cells(costs, events, NUM_FAMILIES as int) + if total == 0 {
        0
    } else {
        area(next_power(total), costs.cost(MipsAirId::SyscallPrecompile))
    }
}

/// Adds the cells of all precompiled operations.
fn add_precompile_cells(cells: u64, events: &PrecompileEvents, costs: &AirCosts) -> (r: u64)
    requires
        cells + precompile_cells(costs, *events) <= u64::MAX,
        next_power(families_events(*events, NUM_FAMILIES as int)) <= u64::MAX,
    ensures
        r == cells + precompile_cells(costs, *events),
{
    let mut sum: u64 = cells;
    let mut total: u64 = 0;
    let mut i: usize = 0;
    while i < NUM_FAMILIES
        invariant
            i <= NUM_FAMILIES,
            cells + precompile_cells(costs, *events) <= u64::MAX,
            next_power(families_events(*events, NUM_FAMILIES as int)) <= u64::MAX,
            sum == cells + families_cells(costs, *events, i as int),
            total == families_events(*events, i as int),
        decreases NUM_FAMILIES - i,
    {
        let code: SyscallCode = family_at(i);
        proof {
            lemma_families_grow(costs, *events, i + 1, NUM_FAMILIES as int);
            padding_bounds(families_events(*events, NUM_FAMILIES as int));
        }
        if let Some(list) = events.get_events(code) {
            if list.len() > 0 {
                proof {
                    padding_is_monotone(
                        list@.len(),
                        families_events(*events, NUM_FAMILIES as int),
                    );
                }
                let padded: u64 = next_power_of_two(list.len() as u64);
                let ids: Vec<MipsAirId> = family_air_ids(code);
                let ghost start = sum;
                let ghost whole = padded * summed_cost(costs, ids@, ids@.len() as int);
                let mut k: usize = 0;
                while k < ids.len()
                    invariant
                        k <= ids@.len(),
                        sum == start + padded * summed_cost(costs, ids@, k as int),
                        whole == padded * summed_cost(costs, ids@, ids@.len() as int),
                        start + whole <= u64::MAX,
                    decreases ids@.len() - k,
                {
                    let cost: u64 = costs.cost_or_zero(ids[k]);
                    proof {
                        lemma_summed_grows(costs, ids@, k + 1, ids@.len() as int);
                        let a = summed_cost(costs, ids@, k as int);
                        let b = summed_cost(costs, ids@, k + 1);
                        let c = summed_cost(costs, ids@, ids@.len() as int);
                        assert(padded * b == padded * a + padded * cost && padded * b <= padded * c
                            && padded * cost >= 0) by (nonlinear_arith)
                            requires
                                b == a + cost,
                                b <= c,
                                padded >= 0,
                                a >= 0,
                                cost >= 0,
                        ;
                    }
                    sum = sum + padded * cost;
                    k = k + 1;
                }
                total = total + list.len() as u64;
            }
        } else {
            proof {
                assert(events.events(code).len() == 0);
            }
        }
        i = i + 1;
    }
    if total > 0 {
        let cost: u64 = costs.cost_or_zero(MipsAirId::SyscallPrecompile);
        let padded: u64 = next_power_of_two(total);
        proof {
            assert(area(padded as nat, cost) == padded * cost);
        }
        sum = sum + padded * cost;
    }
    sum
}

proof fn lemma_families_grow(costs: &AirCosts, events: PrecompileEvents, m: int, n: int)
    requires
        m <= n,
    ensures
        families_cells(costs, events, m) <= families_cells(costs, events, n),
        families_events(events, m) <= families_events(events, n),
    decreases n - m,
{
    if m < n {
        lemma_families_grow(costs, events, m, n - 1);
    }
}

proof fn lemma_summed_grows(costs: &AirCosts, ids: Seq<MipsAirId>, m: int, n: int)
    requires
        m <= n,
    ensures
        summed_cost(costs, ids, m) <= summed_cost(costs, ids, n),
    decreases n - m,
{
    if m < n {
        lemma_summed_grows(costs, ids, m, n - 1);
    }
}

/// Whether the count of a chip is projected.
pub open spec fn projected(id: MipsAirId) -> bool {
    match id {
        MipsAirId::Add => true,
        MipsAirId::Addi => true,
        MipsAirId::AddNoop => true,
        MipsAirId::AluX0 => true,
        MipsAirId::Sub => true,
        MipsAirId::Mul => true,
        MipsAirId::Bitwise => true,
        MipsAirId::ShiftLeft => true,
        MipsAirId::Lui => true,
        MipsAirId::ShiftRight => true,
        MipsAirId::DivRem => true,
        MipsAirId::Lt => true,
        MipsAirId::Slti => true,
        MipsAirId::MemoryLocal => true,
        MipsAirId::Branch => true,
        MipsAirId::Jump => true,
        MipsAirId::Jumpi => true,
        MipsAirId::JumpDirect => true,
        MipsAirId::SyscallInstrs => true,
        MipsAirId::LoadWord => true,
        MipsAirId::LoadX0 => true,
        MipsAirId::StoreWord => true,
        MipsAirId::LoadByte => true,
        MipsAirId::LoadHalf => true,
        MipsAirId::LoadWordUnaligned => true,
        MipsAirId::StoreByte => true,
        MipsAirId::StoreHalf => true,
        MipsAirId::StoreWordUnaligned => true,
        MipsAirId::StoreConditional => true,
        MipsAirId::Sext => true,
        MipsAirId::Ins => true,
        MipsAirId::Ext => true,
        MipsAirId::Maddsub => true,
        MipsAirId::Teq => true,
        MipsAirId::CloClz => true,
        MipsAirId::SyscallCore => true,
        MipsAirId::MovCond => true,
        MipsAirId::Global => true,
        MipsAirId::StateBump => true,
        MipsAirId::MemoryBump => true,
        _ => false,
    }
}

/// Whether the count of a chip is projected.
fn is_projected(id: MipsAirId) -> (r: bool)
    ensures
        r == projected(id),
{
    match id {
        MipsAirId::Add => true,
        MipsAirId::Addi => true,
        MipsAirId::AddNoop => true,
        MipsAirId::AluX0 => true,
        MipsAirId::Sub => true,
        MipsAirId::Mul => true,
        MipsAirId::Bitwise => true,
        MipsAirId::ShiftLeft => true,
        MipsAirId::Lui => true,
        MipsAirId::ShiftRight => true,
        MipsAirId::DivRem => true,
        MipsAirId::Lt => true,
        MipsAirId::Slti => true,
        MipsAirId::MemoryLocal => true,
        MipsAirId::Branch => true,
        MipsAirId::Jump => true,
        MipsAirId::Jumpi => true,
        MipsAirId::JumpDirect => true,
        MipsAirId::SyscallInstrs => true,
        MipsAirId::LoadWord => true,
        MipsAirId::LoadX0 => true,
        MipsAirId::StoreWord => true,
        MipsAirId::LoadByte => true,
        MipsAirId::LoadHalf => true,
        MipsAirId::LoadWordUnaligned => true,
        MipsAirId::StoreByte => true,
        MipsAirId::StoreHalf => true,
        MipsAirId::StoreWordUnaligned => true,
        MipsAirId::StoreConditional => true,
        MipsAirId::Sext => true,
        MipsAirId::Ins => true,
        MipsAirId::Ext => true,
        MipsAirId::Maddsub => true,
        MipsAirId::Teq => true,
        MipsAirId::CloClz => true,
        MipsAirId::SyscallCore => true,
        MipsAirId::MovCond => true,
        MipsAirId::Global => true,
        MipsAirId::StateBump => true,
        MipsAirId::MemoryBump => true,
        _ => false,
    }
}

/// The cells of the first `n` chips, so far as their counts are projected, each padded to a power
/// of two.
pub open spec fn projected_cells(counts: &AirCounts, costs: &AirCosts, n: int) -> nat
    decreases n,
{
    if n <= 0 {
        0
    } else {
        let id = MipsAirId::at((n - 1) as usize);
        projected_cells(counts, costs, n - 1) + if projected(id) {
            area(next_power(counts.at(id) as nat), costs.cost(id))
        } else {
            0
        }
    }
}

/// The cells of a shard: the byte table, the program, the projected chips and the precompiled
/// operations.
pub open spec fn shard_cells(
    counts: &AirCounts,
    costs: &AirCosts,
    program_size: u64,
    events: PrecompileEvents,
) -> nat {
    area(BYTE_NUM_ROWS as nat, costs.cost(MipsAirId::Byte)) + area(
        program_size as nat,
        costs.cost(MipsAirId::Program),
    )
        + projected_cells(counts, costs, NUM_AIRS as int) + precompile_cells(costs, events)
}

/// Every padded count fits.
pub open spec fn paddings_fit(counts: &AirCounts, events: PrecompileEvents) -> bool {
    &&& forall|id: MipsAirId| next_power(#[trigger] counts.at(id) as nat) <= u64::MAX
    &&& next_power(families_events(events, NUM_FAMILIES as int)) <= u64::MAX
}

proof fn lemma_projected_grow(counts: &AirCounts, costs: &AirCosts, m: int, n: int)
    requires
        m <= n,
    ensures
        projected_cells(counts, costs, m) <= projected_cells(counts, costs, n),
    decreases n - m,
{
    if m < n {
        lemma_projected_grow(counts, costs, m, n - 1);
    }
}

/// Estimates the area of a shard in bytes: every padded row of every chip at its cost, two field
/// elements per cell.
pub fn estimate_mips_lde_size(
    num_events_per_air: &AirCounts,
    costs_per_air: &AirCosts,
    program_size: u64,
    precompile_events: &PrecompileEvents,
) -> (r: u64)
    requires
        num_events_per_air.wf(),
        costs_per_air.complete(),
        paddings_fit(num_events_per_air, *precompile_events),
        8 * shard_cells(num_events_per_air, costs_per_air, program_size, *precompile_events)
            <= u64::MAX,
    ensures
        r == 8 * shard_cells(num_events_per_air, costs_per_air, program_size, *precompile_events),
{
    let ghost whole = shard_cells(num_events_per_air, costs_per_air, program_size, *precompile_events);
    let byte: u64 = costs_per_air.cost_or_zero(MipsAirId::Byte);
    let program: u64 = costs_per_air.cost_or_zero(MipsAirId::Program);
    proof {
        assert(area(BYTE_NUM_ROWS as nat, byte) == BYTE_NUM_ROWS * byte);
        assert(area(program_size as nat, program) == program_size * program);
    }
    let mut cells: u64 = BYTE_NUM_ROWS * byte;
    cells = cells + program_size * program;
    let ghost start = cells;
    let mut i: usize = 0;
    while i < NUM_AIRS
        invariant
            i <= NUM_AIRS,
            num_events_per_air.wf(),
            paddings_fit(num_events_per_air, *precompile_events),
            cells == start + projected_cells(num_events_per_air, costs_per_air, i as int),
            whole == start + projected_cells(
                num_events_per_air,
                costs_per_air,
                NUM_AIRS as int,
            ) + precompile_cells(costs_per_air, *precompile_events),
            8 * whole <= u64::MAX,
        decreases NUM_AIRS - i,
    {
        let id: MipsAirId = MipsAirId::from_index(i);
        proof {
            lemma_projected_grow(num_events_per_air, costs_per_air, i + 1, NUM_AIRS as int);
        }
        if is_projected(id) {
            let cost: u64 = costs_per_air.cost_or_zero(id);
            let padded: u64 = next_power_of_two(num_events_per_air.get(id));
            proof {
                assert(area(padded as nat, cost) == padded * cost);
            }
            cells = cells + padded * cost;
        }
        i = i + 1;
    }
    let all: u64 = add_precompile_cells(cells, precompile_events, costs_per_air);
    let bytes: u64 = 2 * element_size();
    all * bytes
}

/// What the counts of chips are derived from: how often each opcode retired, and how many of those
/// instructions belong to a special form.
pub struct EventInputs {
    pub touched_addresses: u64,
    pub syscalls_sent: u64,
    pub addi_events: u64,
    pub add_noop_events: u64,
    pub add_x0_events: u64,
    pub sub_x0_events: u64,
    pub slt_i_events: u64,
    pub sltu_i_events: u64,
    pub slt_x0_events: u64,
    pub sltu_x0_events: u64,
    pub bitwise_x0_events: u64,
    pub shift_right_x0_events: u64,
    pub lui_events: u64,
    pub shift_left_x0_events: u64,
    pub mul_x0_events: u64,
    pub movcond_x0_events: u64,
    pub divrem_x0_events: u64,
    pub cloclz_x0_events: u64,
    pub ins_x0_events: u64,
    pub ext_x0_events: u64,
    pub sext_x0_events: u64,
    pub load_x0_events: u64,
    pub opcode_counts: Seq<u64>,
}

impl EventInputs {
    /// How often an opcode retired.
    pub open spec fn op(self, opcode: Opcode) -> int {
        self.opcode_counts[opcode.ordinal() as int] as int
    }

    /// The number of events of a chip.
    pub open spec fn count(self, id: MipsAirId) -> int {
        match id {
            MipsAirId::Add => self.op(Opcode::ADD) - self.addi_events - self.add_noop_events - self.add_x0_events,
            MipsAirId::Addi => self.addi_events as int,
            MipsAirId::AddNoop => self.add_noop_events as int,
            MipsAirId::Sub => self.op(Opcode::SUB) - self.sub_x0_events,
            MipsAirId::AluX0 => self.add_x0_events + self.sub_x0_events + self.slt_x0_events + self.sltu_x0_events + self.bitwise_x0_events + self.shift_right_x0_events + self.shift_left_x0_events + self.mul_x0_events + self.movcond_x0_events + self.divrem_x0_events + self.cloclz_x0_events + self.ins_x0_events + self.ext_x0_events + self.sext_x0_events,
            MipsAirId::Mul => self.op(Opcode::MUL) + self.op(Opcode::MULT) + self.op(Opcode::MULTU) - self.mul_x0_events,
            MipsAirId::Bitwise => self.op(Opcode::XOR) + self.op(Opcode::OR) + self.op(Opcode::AND) + self.op(Opcode::NOR) - self.bitwise_x0_events,
            MipsAirId::ShiftLeft => self.op(Opcode::SLL) - self.lui_events - self.shift_left_x0_events,
            MipsAirId::Lui => self.lui_events as int,
            MipsAirId::ShiftRight => self.op(Opcode::SRL) + self.op(Opcode::SRA) + self.op(Opcode::ROR) - self.shift_right_x0_events,
            MipsAirId::DivRem => self.op(Opcode::DIV) + self.op(Opcode::DIVU) + self.op(Opcode::MOD) + self.op(Opcode::MODU) - self.divrem_x0_events,
            MipsAirId::Lt => self.op(Opcode::SLT) + self.op(Opcode::SLTU) - self.slt_i_events - self.sltu_i_events - self.slt_x0_events - self.sltu_x0_events,
            MipsAirId::Slti => self.slt_i_events + self.sltu_i_events,
            MipsAirId::Branch => self.op(Opcode::BEQ) + self.op(Opcode::BNE) + self.op(Opcode::BGTZ) + self.op(Opcode::BGEZ) + self.op(Opcode::BLTZ) + self.op(Opcode::BLEZ),
            MipsAirId::Jump => self.op(Opcode::Jump),
            MipsAirId::Jumpi => self.op(Opcode::Jumpi),
            MipsAirId::JumpDirect => self.op(Opcode::JumpDirect),
            MipsAirId::LoadWord => self.op(Opcode::LW) + self.op(Opcode::LL) - self.load_x0_events,
            MipsAirId::LoadX0 => self.load_x0_events as int,
            MipsAirId::StoreWord => self.op(Opcode::SW),
            MipsAirId::LoadByte => self.op(Opcode::LB) + self.op(Opcode::LBU),
            MipsAirId::LoadHalf => self.op(Opcode::LH) + self.op(Opcode::LHU),
            MipsAirId::LoadWordUnaligned => self.op(Opcode::LWL) + self.op(Opcode::LWR),
            MipsAirId::StoreByte => self.op(Opcode::SB),
            MipsAirId::StoreHalf => self.op(Opcode::SH),
            MipsAirId::StoreWordUnaligned => self.op(Opcode::SWL) + self.op(Opcode::SWR),
            MipsAirId::StoreConditional => self.op(Opcode::SC),
            MipsAirId::Sext => self.op(Opcode::SEXT) - self.sext_x0_events,
            MipsAirId::Ins => self.op(Opcode::INS) - self.ins_x0_events,
            MipsAirId::Ext => self.op(Opcode::EXT) - self.ext_x0_events,
            MipsAirId::Maddsub => self.op(Opcode::MADDU) + self.op(Opcode::MSUBU) + self.op(Opcode::MADD) + self.op(Opcode::MSUB),
            MipsAirId::Teq => self.op(Opcode::TEQ),
            MipsAirId::MovCond => self.op(Opcode::WSBH) + self.op(Opcode::MNE) + self.op(Opcode::MEQ) - self.movcond_x0_events,
            MipsAirId::CloClz => self.op(Opcode::CLO) + self.op(Opcode::CLZ) - self.cloclz_x0_events,
            MipsAirId::SyscallCore => self.syscalls_sent as int,
            MipsAirId::SyscallInstrs => self.op(Opcode::SYSCALL),
            MipsAirId::MemoryLocal => (self.touched_addresses + 3) / 4,
            MipsAirId::Global => 2 * self.touched_addresses + self.syscalls_sent,
            _ => 0,
        }
    }

    /// Every count is a count that fits.
    pub open spec fn sensible(self) -> bool {
        &&& self.opcode_counts.len() == NUM_OPCODES
        &&& forall|id: MipsAirId| 0 <= #[trigger] self.count(id) <= u64::MAX
    }
}

/// How often an opcode retired.
fn op_count(opcode_counts: &Vec<u64>, opcode: Opcode) -> (r: i128)
    requires
        opcode_counts@.len() == NUM_OPCODES,
    ensures
        r == opcode_counts@[opcode.ordinal() as int],
        0 <= r <= 0xffff_ffff_ffff_ffff,
{
    opcode_counts[opcode.index() as usize] as i128
}

/// Derives the number of events of each chip from how often each opcode retired. The special forms
/// have chips of their own, so they are taken out of the ordinary chip.
pub fn estimate_mips_event_counts(
    touched_addresses: u64,
    syscalls_sent: u64,
    addi_events: u64,
    add_noop_events: u64,
    add_x0_events: u64,
    sub_x0_events: u64,
    slt_i_events: u64,
    sltu_i_events: u64,
    slt_x0_events: u64,
    sltu_x0_events: u64,
    bitwise_x0_events: u64,
    shift_right_x0_events: u64,
    lui_events: u64,
    shift_left_x0_events: u64,
    mul_x0_events: u64,
    movcond_x0_events: u64,
    divrem_x0_events: u64,
    cloclz_x0_events: u64,
    ins_x0_events: u64,
    ext_x0_events: u64,
    sext_x0_events: u64,
    load_x0_events: u64,
    opcode_counts: &Vec<u64>,
) -> (r: AirCounts)
    requires
        (EventInputs {
            touched_addresses,
            syscalls_sent,
            addi_events,
            add_noop_events,
            add_x0_events,
            sub_x0_events,
            slt_i_events,
            sltu_i_events,
            slt_x0_events,
            sltu_x0_events,
            bitwise_x0_events,
            shift_right_x0_events,
            lui_events,
            shift_left_x0_events,
            mul_x0_events,
            movcond_x0_events,
            divrem_x0_events,
            cloclz_x0_events,
            ins_x0_events,
            ext_x0_events,
            sext_x0_events,
            load_x0_events,
            opcode_counts: opcode_counts@,
        }).sensible(),
    ensures
        r.wf(),
        forall|id: MipsAirId| #[trigger]
            r.at(id) == (EventInputs {
                touched_addresses,
                syscalls_sent,
                addi_events,
                add_noop_events,
                add_x0_events,
                sub_x0_events,
                slt_i_events,
                sltu_i_events,
                slt_x0_events,
                sltu_x0_events,
                bitwise_x0_events,
                shift_right_x0_events,
                lui_events,
                shift_left_x0_events,
                mul_x0_events,
                movcond_x0_events,
                divrem_x0_events,
                cloclz_x0_events,
                ins_x0_events,
                ext_x0_events,
                sext_x0_events,
                load_x0_events,
                opcode_counts: opcode_counts@,
            }).count(id),
{
    let ghost inputs = EventInputs {
        touched_addresses,
        syscalls_sent,
        addi_events,
        add_noop_events,
        add_x0_events,
        sub_x0_events,
        slt_i_events,
        sltu_i_events,
        slt_x0_events,
        sltu_x0_events,
        bitwise_x0_events,
        shift_right_x0_events,
        lui_events,
        shift_left_x0_events,
        mul_x0_events,
        movcond_x0_events,
        divrem_x0_events,
        cloclz_x0_events,
        ins_x0_events,
        ext_x0_events,
        sext_x0_events,
        load_x0_events,
        opcode_counts: opcode_counts@,
    };
    let mut counts: AirCounts = AirCounts::new();
    let mut i: usize = 0;
    while i < NUM_AIRS
        invariant
            i <= NUM_AIRS,
            counts.wf(),
            inputs.sensible(),
            inputs == (EventInputs {
                touched_addresses,
                syscalls_sent,
                addi_events,
                add_noop_events,
                add_x0_events,
                sub_x0_events,
                slt_i_events,
                sltu_i_events,
                slt_x0_events,
                sltu_x0_events,
                bitwise_x0_events,
                shift_right_x0_events,
                lui_events,
                shift_left_x0_events,
                mul_x0_events,
                movcond_x0_events,
                divrem_x0_events,
                cloclz_x0_events,
                ins_x0_events,
                ext_x0_events,
                sext_x0_events,
                load_x0_events,
                opcode_counts: opcode_counts@,
            }),
            forall|id: MipsAirId|
                #![trigger counts.at(id)]
                id.ordinal() < i ==> counts.at(id) == inputs.count(id),
        decreases NUM_AIRS - i,
    {
        let id: MipsAirId = MipsAirId::from_index(i);
        let count: i128 = match id {
            MipsAirId::Add => op_count(opcode_counts, Opcode::ADD) - (addi_events as i128) - (add_noop_events as i128) - (add_x0_events as i128),
            MipsAirId::Addi => (addi_events as i128),
            MipsAirId::AddNoop => (add_noop_events as i128),
            MipsAirId::Sub => op_count(opcode_counts, Opcode::SUB) - (sub_x0_events as i128),
            MipsAirId::AluX0 => (add_x0_events as i128) + (sub_x0_events as i128) + (slt_x0_events as i128) + (sltu_x0_events as i128) + (bitwise_x0_events as i128) + (shift_right_x0_events as i128) + (shift_left_x0_events as i128) + (mul_x0_events as i128) + (movcond_x0_events as i128) + (divrem_x0_events as i128) + (cloclz_x0_events as i128) + (ins_x0_events as i128) + (ext_x0_events as i128) + (sext_x0_events as i128),
            MipsAirId::Mul => op_count(opcode_counts, Opcode::MUL) + op_count(opcode_counts, Opcode::MULT) + op_count(opcode_counts, Opcode::MULTU) - (mul_x0_events as i128),
            MipsAirId::Bitwise => op_count(opcode_counts, Opcode::XOR) + op_count(opcode_counts, Opcode::OR) + op_count(opcode_counts, Opcode::AND) + op_count(opcode_counts, Opcode::NOR) - (bitwise_x0_events as i128),
            MipsAirId::ShiftLeft => op_count(opcode_counts, Opcode::SLL) - (lui_events as i128) - (shift_left_x0_events as i128),
            MipsAirId::Lui => (lui_events as i128),
            MipsAirId::ShiftRight => op_count(opcode_counts, Opcode::SRL) + op_count(opcode_counts, Opcode::SRA) + op_count(opcode_counts, Opcode::ROR) - (shift_right_x0_events as i128),
            MipsAirId::DivRem => op_count(opcode_counts, Opcode::DIV) + op_count(opcode_counts, Opcode::DIVU) + op_count(opcode_counts, Opcode::MOD) + op_count(opcode_counts, Opcode::MODU) - (divrem_x0_events as i128),
            MipsAirId::Lt => op_count(opcode_counts, Opcode::SLT) + op_count(opcode_counts, Opcode::SLTU) - (slt_i_events as i128) - (sltu_i_events as i128) - (slt_x0_events as i128) - (sltu_x0_events as i128),
            MipsAirId::Slti => (slt_i_events as i128) + (sltu_i_events as i128),
            MipsAirId::Branch => op_count(opcode_counts, Opcode::BEQ) + op_count(opcode_counts, Opcode::BNE) + op_count(opcode_counts, Opcode::BGTZ) + op_count(opcode_counts, Opcode::BGEZ) + op_count(opcode_counts, Opcode::BLTZ) + op_count(opcode_counts, Opcode::BLEZ),
            MipsAirId::Jump => op_count(opcode_counts, Opcode::Jump),
            MipsAirId::Jumpi => op_count(opcode_counts, Opcode::Jumpi),
            MipsAirId::JumpDirect => op_count(opcode_counts, Opcode::JumpDirect),
            MipsAirId::LoadWord => op_count(opcode_counts, Opcode::LW) + op_count(opcode_counts, Opcode::LL) - (load_x0_events as i128),
            MipsAirId::LoadX0 => (load_x0_events as i128),
            MipsAirId::StoreWord => op_count(opcode_counts, Opcode::SW),
            MipsAirId::LoadByte => op_count(opcode_counts, Opcode::LB) + op_count(opcode_counts, Opcode::LBU),
            MipsAirId::LoadHalf => op_count(opcode_counts, Opcode::LH) + op_count(opcode_counts, Opcode::LHU),
            MipsAirId::LoadWordUnaligned => op_count(opcode_counts, Opcode::LWL) + op_count(opcode_counts, Opcode::LWR),
            MipsAirId::StoreByte => op_count(opcode_counts, Opcode::SB),
            MipsAirId::StoreHalf => op_count(opcode_counts, Opcode::SH),
            MipsAirId::StoreWordUnaligned => op_count(opcode_counts, Opcode::SWL) + op_count(opcode_counts, Opcode::SWR),
            MipsAirId::StoreConditional => op_count(opcode_counts, Opcode::SC),
            MipsAirId::Sext => op_count(opcode_counts, Opcode::SEXT) - (sext_x0_events as i128),
            MipsAirId::Ins => op_count(opcode_counts, Opcode::INS) - (ins_x0_events as i128),
            MipsAirId::Ext => op_count(opcode_counts, Opcode::EXT) - (ext_x0_events as i128),
            MipsAirId::Maddsub => op_count(opcode_counts, Opcode::MADDU) + op_count(opcode_counts, Opcode::MSUBU) + op_count(opcode_counts, Opcode::MADD) + op_count(opcode_counts, Opcode::MSUB),
            MipsAirId::Teq => op_count(opcode_counts, Opcode::TEQ),
            MipsAirId::MovCond => op_count(opcode_counts, Opcode::WSBH) + op_count(opcode_counts, Opcode::MNE) + op_count(opcode_counts, Opcode::MEQ) - (movcond_x0_events as i128),
            MipsAirId::CloClz => op_count(opcode_counts, Opcode::CLO) + op_count(opcode_counts, Opcode::CLZ) - (cloclz_x0_events as i128),
            MipsAirId::SyscallCore => (syscalls_sent as i128),
            MipsAirId::SyscallInstrs => op_count(opcode_counts, Opcode::SYSCALL),
            MipsAirId::MemoryLocal => ((touched_addresses as i128) + 3) / 4,
            MipsAirId::Global => 2 * (touched_addresses as i128) + (syscalls_sent as i128),
            _ => 0,
        };
        proof {
            assert(0 <= inputs.count(id) <= u64::MAX);
        }
        let ghost before = counts;
        counts.set(id, count as u64);
        proof {
            assert forall|other: MipsAirId|
                #![trigger counts.at(other)]
                other.ordinal() < i + 1 implies counts.at(other) == inputs.count(other) by {
                if other.ordinal() == i {
                    crate::air::air_positions_are_distinct(other, id);
                } else {
                    assert(other != id);
                    assert(counts.at(other) == before.at(other));
                }
            }
        }
        i = i + 1;
    }
    proof {
        assert forall|id: MipsAirId| #[trigger] counts.at(id) == inputs.count(id) by {
            crate::air::air_positions_are_distinct(id, id);
        }
    }
    counts
}

/// How many events at most a chip gains over a number of cycles. A window of the clock is crossed
/// about once every 2^24 ticks, which is overestimated; a shard boundary carries every register
/// over once.
pub open spec fn growth(id: MipsAirId, num_cycles: u64) -> int {
    match id {
        MipsAirId::Add => num_cycles as int,
        MipsAirId::Addi => num_cycles as int,
        MipsAirId::AddNoop => num_cycles as int,
        MipsAirId::AluX0 => num_cycles as int,
        MipsAirId::Sub => num_cycles as int,
        MipsAirId::ShiftLeft => num_cycles as int,
        MipsAirId::Lui => num_cycles as int,
        MipsAirId::ShiftRight => num_cycles as int,
        MipsAirId::Lt => num_cycles as int,
        MipsAirId::Slti => num_cycles as int,
        MipsAirId::SyscallInstrs => num_cycles as int,
        MipsAirId::LoadX0 => num_cycles as int,
        MipsAirId::Sext => num_cycles as int,
        MipsAirId::Ins => num_cycles as int,
        MipsAirId::Ext => num_cycles as int,
        MipsAirId::Teq => num_cycles as int,
        MipsAirId::Mul => 4 * num_cycles,
        MipsAirId::Bitwise => 3 * num_cycles,
        MipsAirId::DivRem => 4 * num_cycles,
        MipsAirId::MemoryLocal => 64 * num_cycles,
        MipsAirId::Branch => 8 * num_cycles,
        MipsAirId::Jump => 2 * num_cycles,
        MipsAirId::Jumpi => 2 * num_cycles,
        MipsAirId::JumpDirect => 2 * num_cycles,
        MipsAirId::LoadWord => 2 * num_cycles,
        MipsAirId::StoreWord => 2 * num_cycles,
        MipsAirId::LoadByte => 2 * num_cycles,
        MipsAirId::LoadHalf => 2 * num_cycles,
        MipsAirId::LoadWordUnaligned => 2 * num_cycles,
        MipsAirId::StoreByte => 2 * num_cycles,
        MipsAirId::StoreHalf => 2 * num_cycles,
        MipsAirId::StoreWordUnaligned => 2 * num_cycles,
        MipsAirId::StoreConditional => 2 * num_cycles,
        MipsAirId::Maddsub => 4 * num_cycles,
        MipsAirId::CloClz => 3 * num_cycles,
        MipsAirId::SyscallCore => 2 * num_cycles,
        MipsAirId::MovCond => 2 * num_cycles,
        MipsAirId::Global => 64 * num_cycles,
        MipsAirId::StateBump => (num_cycles + 0xF_FFFF) / 0x10_0000,
        MipsAirId::MemoryBump => NUM_REGISTERS + (num_cycles + 0xF_FFFF) / 0x10_0000,
        _ => 0,
    }
}

/// Pads the counts for the worst case over a number of cycles.
pub fn pad_mips_event_counts(event_counts: AirCounts, num_cycles: u64) -> (r: AirCounts)
    requires
        event_counts.wf(),
        forall|id: MipsAirId| #[trigger]
            event_counts.at(id) + growth(id, num_cycles) <= u64::MAX,
    ensures
        r.wf(),
        forall|id: MipsAirId| #[trigger]
            r.at(id) == event_counts.at(id) + growth(id, num_cycles),
{
    let ghost given = event_counts;
    let mut counts: AirCounts = event_counts;
    let mut i: usize = 0;
    while i < NUM_AIRS
        invariant
            i <= NUM_AIRS,
            counts.wf(),
            forall|id: MipsAirId| #[trigger] given.at(id) + growth(id, num_cycles) <= u64::MAX,
            forall|id: MipsAirId|
                #![trigger counts.at(id)]
                counts.at(id) == given.at(id) + if id.ordinal() < i {
                    growth(id, num_cycles)
                } else {
                    0
                },
        decreases NUM_AIRS - i,
    {
        let id: MipsAirId = MipsAirId::from_index(i);
        let cycles: u128 = num_cycles as u128;
        let more: u128 = match id {
            MipsAirId::Add => cycles,
            MipsAirId::Addi => cycles,
            MipsAirId::AddNoop => cycles,
            MipsAirId::AluX0 => cycles,
            MipsAirId::Sub => cycles,
            MipsAirId::ShiftLeft => cycles,
            MipsAirId::Lui => cycles,
            MipsAirId::ShiftRight => cycles,
            MipsAirId::Lt => cycles,
            MipsAirId::Slti => cycles,
            MipsAirId::SyscallInstrs => cycles,
            MipsAirId::LoadX0 => cycles,
            MipsAirId::Sext => cycles,
            MipsAirId::Ins => cycles,
            MipsAirId::Ext => cycles,
            MipsAirId::Teq => cycles,
            MipsAirId::Mul => 4 * cycles,
            MipsAirId::Bitwise => 3 * cycles,
            MipsAirId::DivRem => 4 * cycles,
            MipsAirId::MemoryLocal => 64 * cycles,
            MipsAirId::Branch => 8 * cycles,
            MipsAirId::Jump => 2 * cycles,
            MipsAirId::Jumpi => 2 * cycles,
            MipsAirId::JumpDirect => 2 * cycles,
            MipsAirId::LoadWord => 2 * cycles,
            MipsAirId::StoreWord => 2 * cycles,
            MipsAirId::LoadByte => 2 * cycles,
            MipsAirId::LoadHalf => 2 * cycles,
            MipsAirId::LoadWordUnaligned => 2 * cycles,
            MipsAirId::StoreByte => 2 * cycles,
            MipsAirId::StoreHalf => 2 * cycles,
            MipsAirId::StoreWordUnaligned => 2 * cycles,
            MipsAirId::StoreConditional => 2 * cycles,
            MipsAirId::Maddsub => 4 * cycles,
            MipsAirId::CloClz => 3 * cycles,
            MipsAirId::SyscallCore => 2 * cycles,
            MipsAirId::MovCond => 2 * cycles,
            MipsAirId::Global => 64 * cycles,
            MipsAirId::StateBump => (cycles + 0xF_FFFF) / 0x10_0000,
            MipsAirId::MemoryBump => (NUM_REGISTERS as u128) + (cycles + 0xF_FFFF) / 0x10_0000,
            _ => 0,
        };
        proof {
            assert(given.at(id) + growth(id, num_cycles) <= u64::MAX);
            assert(counts.at(id) == given.at(id));
        }
        let ghost before = counts;
        let count: u64 = counts.get(id);
        counts.set(id, count + more as u64);
        proof {
            assert forall|other: MipsAirId|
                #![trigger counts.at(other)]
                counts.at(other) == given.at(other) + if other.ordinal() < i + 1 {
                    growth(other, num_cycles)
                } else {
                    0
                } by {
                if other.ordinal() == i {
                    crate::air::air_positions_are_distinct(other, id);
                } else {
                    assert(other != id);
                    assert(counts.at(other) == before.at(other));
                }
            }
        }
        i = i + 1;
    }
    proof {
        assert forall|id: MipsAirId| #[trigger]
            counts.at(id) == given.at(id) + growth(id, num_cycles) by {
            crate::air::air_positions_are_distinct(id, id);
        }
    }
    counts
}

/// Padding for the worst case never shrinks a count.
pub proof fn padded_counts_never_shrink(id: MipsAirId, num_cycles: u64)
    ensures
        growth(id, num_cycles) >= 0,
{
}

/// A shard without precompiled operations is not charged for any.
pub proof fn precompile_free_shards_are_unaffected(costs: &AirCosts, events: PrecompileEvents)
    requires
        forall|c: SyscallCode| (#[trigger] events.events(c)).len() == 0,
    ensures
        precompile_cells(costs, events) == 0,
{
    lemma_no_families(costs, events, NUM_FAMILIES as int);
}

proof fn lemma_no_families(costs: &AirCosts, events: PrecompileEvents, n: int)
    requires
        forall|c: SyscallCode| (#[trigger] events.events(c)).len() == 0,
    ensures
        families_cells(costs, events, n) == 0,
        families_events(events, n) == 0,
    decreases n,
{
    if n > 0 {
        lemma_no_families(costs, events, n - 1);
        assert(events.events(family((n - 1) as usize)).len() == 0);
    }
}

/// Every family is charged: the cells of each of them are part of the whole.
pub proof fn every_family_is_counted(costs: &AirCosts, events: PrecompileEvents, i: int)
    requires
        0 <= i < NUM_FAMILIES,
    ensures
        family_cells(costs, events, family(i as usize)) <= precompile_cells(costs, events),
{
    lemma_families_grow(costs, events, i + 1, NUM_FAMILIES as int);
}

/// A shard is charged for the events of its only family: the padded number of events, times the
/// cost of a row of its chips and of the chip that dispatches it.
pub proof fn one_family_is_priced_exactly(costs: &AirCosts, events: PrecompileEvents, i: int)
    requires
        0 <= i < NUM_FAMILIES,
        events.events(family(i as usize)).len() > 0,
        forall|c: SyscallCode| c != family(i as usize) ==> (#[trigger] events.events(c)).len() == 0,
    ensures
        precompile_cells(costs, events) == family_cells(costs, events, family(i as usize)) + area(
            next_power(events.events(family(i as usize)).len()),
            costs.cost(MipsAirId::SyscallPrecompile),
        ),
{
    lemma_one_family(costs, events, i, NUM_FAMILIES as int);
}

proof fn lemma_one_family(costs: &AirCosts, events: PrecompileEvents, i: int, n: int)
    requires
        0 <= i < NUM_FAMILIES,
        n <= NUM_FAMILIES,
        forall|c: SyscallCode| c != family(i as usize) ==> (#[trigger] events.events(c)).len() == 0,
    ensures
        families_cells(costs, events, n) == (if i < n {
            family_cells(costs, events, family(i as usize))
        } else {
            0
        }),
        families_events(events, n) == (if i < n {
            events.events(family(i as usize)).len()
        } else {
            0
        }),
    decreases n,
{
    if n > 0 {
        lemma_one_family(costs, events, i, n - 1);
        if n - 1 != i {
            lemma_families_are_distinct(i, n - 1);
            assert(events.events(family((n - 1) as usize)).len() == 0);
        }
    }
}

proof fn lemma_families_are_distinct(i: int, j: int)
    requires
        0 <= i < NUM_FAMILIES,
        0 <= j < NUM_FAMILIES,
        i != j,
    ensures
        family(i as usize) != family(j as usize),
{
}

/// Whether the rows of a chip are counted in a record.
pub open spec fn counted(id: MipsAirId) -> bool {
    match id {
        MipsAirId::Add => true,
        MipsAirId::Addi => true,
        MipsAirId::AddNoop => true,
        MipsAirId::AluX0 => true,
        MipsAirId::Sub => true,
        MipsAirId::Mul => true,
        MipsAirId::Bitwise => true,
        MipsAirId::ShiftLeft => true,
        MipsAirId::Lui => true,
        MipsAirId::ShiftRight => true,
        MipsAirId::DivRem => true,
        MipsAirId::Lt => true,
        MipsAirId::Slti => true,
        MipsAirId::CloClz => true,
        MipsAirId::LoadWord => true,
        MipsAirId::LoadX0 => true,
        MipsAirId::StoreWord => true,
        MipsAirId::LoadByte => true,
        MipsAirId::LoadHalf => true,
        MipsAirId::LoadWordUnaligned => true,
        MipsAirId::StoreByte => true,
        MipsAirId::StoreHalf => true,
        MipsAirId::StoreWordUnaligned => true,
        MipsAirId::StoreConditional => true,
        MipsAirId::Branch => true,
        MipsAirId::Jump => true,
        MipsAirId::Jumpi => true,
        MipsAirId::JumpDirect => true,
        MipsAirId::MovCond => true,
        MipsAirId::Sext => true,
        MipsAirId::Ins => true,
        MipsAirId::Ext => true,
        MipsAirId::Maddsub => true,
        MipsAirId::Teq => true,
        MipsAirId::MemoryGlobalInit => true,
        MipsAirId::MemoryGlobalFinalize => true,
        MipsAirId::MemoryLocal => true,
        MipsAirId::SyscallInstrs => true,
        MipsAirId::SyscallCore => true,
        MipsAirId::Global => true,
        MipsAirId::StateBump => true,
        MipsAirId::MemoryBump => true,
        _ => false,
    }
}

/// The number of rows that a record holds for a chip.
pub open spec fn rows(record: &ExecutionRecord, id: MipsAirId) -> nat {
    match id {
        MipsAirId::Add => record.add_events@.len(),
        MipsAirId::Addi => record.addi_events@.len(),
        MipsAirId::AddNoop => record.add_noop_events@.len(),
        MipsAirId::AluX0 => record.alu_x0_events@.len(),
        MipsAirId::Sub => record.sub_events@.len(),
        MipsAirId::Mul => record.mul_events@.len(),
        MipsAirId::Bitwise => record.bitwise_events@.len(),
        MipsAirId::ShiftLeft => record.shift_left_events@.len(),
        MipsAirId::Lui => record.lui_events@.len(),
        MipsAirId::ShiftRight => record.shift_right_events@.len(),
        MipsAirId::DivRem => record.divrem_events@.len(),
        MipsAirId::Lt => record.lt_events@.len(),
        MipsAirId::Slti => record.slti_events@.len(),
        MipsAirId::CloClz => record.cloclz_events@.len(),
        MipsAirId::LoadWord => record.load_word_events@.len(),
        MipsAirId::LoadX0 => record.load_x0_events@.len(),
        MipsAirId::StoreWord => record.store_word_events@.len(),
        MipsAirId::LoadByte => record.load_byte_events@.len(),
        MipsAirId::LoadHalf => record.load_half_events@.len(),
        MipsAirId::LoadWordUnaligned => record.load_word_unaligned_events@.len(),
        MipsAirId::StoreByte => record.store_byte_events@.len(),
        MipsAirId::StoreHalf => record.store_half_events@.len(),
        MipsAirId::StoreWordUnaligned => record.store_word_unaligned_events@.len(),
        MipsAirId::StoreConditional => record.store_conditional_events@.len(),
        MipsAirId::Branch => record.branch_events@.len(),
        MipsAirId::Jump => record.jump_events@.len(),
        MipsAirId::Jumpi => record.jumpi_events@.len(),
        MipsAirId::JumpDirect => record.jumpdirect_events@.len(),
        MipsAirId::MovCond => record.movcond_events@.len(),
        MipsAirId::Sext => record.sext_events@.len(),
        MipsAirId::Ins => record.ins_events@.len(),
        MipsAirId::Ext => record.ext_events@.len(),
        MipsAirId::Maddsub => record.maddsub_events@.len(),
        MipsAirId::Teq => record.teq_events@.len(),
        MipsAirId::MemoryGlobalInit => record.global_memory_initialize_events@.len(),
        MipsAirId::MemoryGlobalFinalize => record.global_memory_finalize_events@.len(),
        MipsAirId::MemoryLocal => record.cpu_local_memory_access@.len(),
        MipsAirId::SyscallInstrs => record.syscall_events@.len(),
        MipsAirId::SyscallCore => record.syscall_events@.len(),
        MipsAirId::Global => record.global_lookup_events@.len(),
        MipsAirId::StateBump => record.bump_clk_high_events@.len(),
        MipsAirId::MemoryBump => record.bump_memory_events@.len(),
        _ => 0,
    }
}

/// The number of rows that a record holds for a chip, if they are counted.
fn counted_rows(record: &ExecutionRecord, id: MipsAirId) -> (r: Option<u64>)
    ensures
        r == (if counted(id) {
            Some(rows(record, id) as u64)
        } else {
            None
        }),
        rows(record, id) <= u64::MAX,
{
    let n: usize = match id {
        MipsAirId::Add => record.add_events.len(),
        MipsAirId::Addi => record.addi_events.len(),
        MipsAirId::AddNoop => record.add_noop_events.len(),
        MipsAirId::AluX0 => record.alu_x0_events.len(),
        MipsAirId::Sub => record.sub_events.len(),
        MipsAirId::Mul => record.mul_events.len(),
        MipsAirId::Bitwise => record.bitwise_events.len(),
        MipsAirId::ShiftLeft => record.shift_left_events.len(),
        MipsAirId::Lui => record.lui_events.len(),
        MipsAirId::ShiftRight => record.shift_right_events.len(),
        MipsAirId::DivRem => record.divrem_events.len(),
        MipsAirId::Lt => record.lt_events.len(),
        MipsAirId::Slti => record.slti_events.len(),
        MipsAirId::CloClz => record.cloclz_events.len(),
        MipsAirId::LoadWord => record.load_word_events.len(),
        MipsAirId::LoadX0 => record.load_x0_events.len(),
        MipsAirId::StoreWord => record.store_word_events.len(),
        MipsAirId::LoadByte => record.load_byte_events.len(),
        MipsAirId::LoadHalf => record.load_half_events.len(),
        MipsAirId::LoadWordUnaligned => record.load_word_unaligned_events.len(),
        MipsAirId::StoreByte => record.store_byte_events.len(),
        MipsAirId::StoreHalf => record.store_half_events.len(),
        MipsAirId::StoreWordUnaligned => record.store_word_unaligned_events.len(),
        MipsAirId::StoreConditional => record.store_conditional_events.len(),
        MipsAirId::Branch => record.branch_events.len(),
        MipsAirId::Jump => record.jump_events.len(),
        MipsAirId::Jumpi => record.jumpi_events.len(),
        MipsAirId::JumpDirect => record.jumpdirect_events.len(),
        MipsAirId::MovCond => record.movcond_events.len(),
        MipsAirId::Sext => record.sext_events.len(),
        MipsAirId::Ins => record.ins_events.len(),
        MipsAirId::Ext => record.ext_events.len(),
        MipsAirId::Maddsub => record.maddsub_events.len(),
        MipsAirId::Teq => record.teq_events.len(),
        MipsAirId::MemoryGlobalInit => record.global_memory_initialize_events.len(),
        MipsAirId::MemoryGlobalFinalize => record.global_memory_finalize_events.len(),
        MipsAirId::MemoryLocal => record.cpu_local_memory_access.len(),
        MipsAirId::SyscallInstrs => record.syscall_events.len(),
        MipsAirId::SyscallCore => record.syscall_events.len(),
        MipsAirId::Global => record.global_lookup_events.len(),
        MipsAirId::StateBump => record.bump_clk_high_events.len(),
        MipsAirId::MemoryBump => record.bump_memory_events.len(),
        _ => {
            return None;
        },
    };
    Some(n as u64)
}

/// The cells of the first `n` chips, so far as their rows are counted in a record, each padded.
pub open spec fn counted_cells(record: &ExecutionRecord, costs: &AirCosts, n: int) -> nat
    decreases n,
{
    if n <= 0 {
        0
    } else {
        let id = MipsAirId::at((n - 1) as usize);
        counted_cells(record, costs, n - 1) + if counted(id) {
            area(next_power(rows(record, id)), costs.cost(id))
        } else {
            0
        }
    }
}

/// The greatest cost among the first `n` chips that are not core chips.
pub open spec fn dearest(costs: &AirCosts, n: int) -> u64
    decreases n,
{
    if n <= 0 {
        0
    } else {
        let id = MipsAirId::at((n - 1) as usize);
        let before = dearest(costs, n - 1);
        if !id.is_core() && costs.cost(id) > before {
            costs.cost(id)
        } else {
            before
        }
    }
}

/// No chip for precompiled operations costs more than the dearest one.
pub proof fn dearest_is_an_upper_bound(costs: &AirCosts, id: MipsAirId)
    requires
        !id.is_core(),
    ensures
        costs.cost(id) <= dearest(costs, NUM_AIRS as int),
{
    crate::air::air_positions_are_distinct(id, id);
    lemma_dearest(costs, id, NUM_AIRS as int);
}

proof fn lemma_dearest(costs: &AirCosts, id: MipsAirId, n: int)
    requires
        !id.is_core(),
        id.ordinal() < n <= NUM_AIRS,
    ensures
        costs.cost(id) <= dearest(costs, n),
    decreases n,
{
    crate::air::air_positions_are_distinct(id, id);
    if id.ordinal() < n - 1 {
        lemma_dearest(costs, id, n - 1);
    }
}

/// The cells of a finished record. Precompiled operations are charged at the greatest cost of any
/// chip for them.
pub open spec fn record_cells(record: &ExecutionRecord, costs: &AirCosts) -> nat {
    let events = record.precompile_events.count(record.precompile_events.groups@.len() as int) as nat;
    area(BYTE_NUM_ROWS as nat, costs.cost(MipsAirId::Byte)) + area(
        next_power(record.program.instructions@.len()),
        costs.cost(MipsAirId::Program),
    ) + counted_cells(record, costs, NUM_AIRS as int) + if events
        == 0 {
        0
    } else {
        area(next_power(events), dearest(costs, NUM_AIRS as int))
    }
}

/// Every padded number of rows of a record fits.
pub open spec fn record_paddings_fit(record: &ExecutionRecord) -> bool {
    &&& forall|id: MipsAirId| next_power(#[trigger] rows(record, id)) <= u64::MAX
    &&& next_power(record.program.instructions@.len()) <= u64::MAX
    &&& next_power(
        record.precompile_events.count(record.precompile_events.groups@.len() as int) as nat,
    ) <= u64::MAX
}

proof fn lemma_counted_grow(record: &ExecutionRecord, costs: &AirCosts, m: int, n: int)
    requires
        m <= n,
    ensures
        counted_cells(record, costs, m) <= counted_cells(record, costs, n),
    decreases n - m,
{
    if m < n {
        lemma_counted_grow(record, costs, m, n - 1);
    }
}

proof fn lemma_count_grows(events: PrecompileEvents, m: int, n: int)
    requires
        0 <= m <= n <= events.groups@.len(),
    ensures
        0 <= events.count(m) <= events.count(n),
    decreases n,
{
    if n > 0 {
        if m < n {
            lemma_count_grows(events, m, n - 1);
        } else {
            lemma_count_grows(events, m - 1, n - 1);
        }
    }
}

/// The number of precompiled operations.
fn count_precompiles(events: &PrecompileEvents) -> (r: u64)
    requires
        events.count(events.groups@.len() as int) <= u64::MAX,
    ensures
        r == events.count(events.groups@.len() as int),
{
    let mut total: u64 = 0;
    let mut i: usize = 0;
    while i < events.groups.len()
        invariant
            i <= events.groups@.len(),
            total == events.count(i as int),
            events.count(events.groups@.len() as int) <= u64::MAX,
        decreases events.groups@.len() - i,
    {
        proof {
            lemma_count_grows(*events, i + 1, events.groups@.len() as int);
        }
        total = total + events.groups[i].1.len() as u64;
        i = i + 1;
    }
    total
}

/// The greatest cost of any chip for precompiled operations.
fn max_precompile_cost(costs: &AirCosts) -> (r: u64)
    ensures
        r == dearest(costs, NUM_AIRS as int),
{
    let mut best: u64 = 0;
    let mut i: usize = 0;
    while i < NUM_AIRS
        invariant
            i <= NUM_AIRS,
            best == dearest(costs, i as int),
        decreases NUM_AIRS - i,
    {
        let id: MipsAirId = MipsAirId::from_index(i);
        let cost: u64 = costs.cost_or_zero(id);
        if !id.is_core_air() && cost > best {
            best = cost;
        }
        i = i + 1;
    }
    best
}

/// Estimates the memory in bytes that proving a finished record takes: every padded row at its
/// cost, two field elements per cell, tenfold for what is held at the same time.
pub fn estimate_record_trace_bytes(record: &ExecutionRecord, costs_per_air: &AirCosts) -> (r: u64)
    requires
        costs_per_air.complete(),
        record_paddings_fit(record),
        80 * record_cells(record, costs_per_air) <= u64::MAX,
    ensures
        r == 80 * record_cells(record, costs_per_air),
{
    let ghost whole = record_cells(record, costs_per_air);
    let byte: u64 = costs_per_air.cost_or_zero(MipsAirId::Byte);
    let program: u64 = costs_per_air.cost_or_zero(MipsAirId::Program);
    let program_rows: u64 = next_power_of_two(record.program.instructions.len() as u64);
    let ghost count = record.precompile_events.count(record.precompile_events.groups@.len() as int);
    proof {
        lemma_count_grows(
            record.precompile_events,
            0,
            record.precompile_events.groups@.len() as int,
        );
        padding_bounds(count as nat);
        assert(area(BYTE_NUM_ROWS as nat, byte) == BYTE_NUM_ROWS * byte);
        assert(area(program_rows as nat, program) == program_rows * program);
    }
    let mut cells: u64 = BYTE_NUM_ROWS * byte;
    cells = cells + program_rows * program;
    let ghost start = cells;
    let mut i: usize = 0;
    while i < NUM_AIRS
        invariant
            i <= NUM_AIRS,
            record_paddings_fit(record),
            cells == start + counted_cells(record, costs_per_air, i as int),
            start + counted_cells(record, costs_per_air, NUM_AIRS as int) <= whole,
            80 * whole <= u64::MAX,
        decreases NUM_AIRS - i,
    {
        let id: MipsAirId = MipsAirId::from_index(i);
        proof {
            lemma_counted_grow(record, costs_per_air, i + 1, NUM_AIRS as int);
        }
        if let Some(n) = counted_rows(record, id) {
            let cost: u64 = costs_per_air.cost_or_zero(id);
            proof {
                assert(next_power(rows(record, id)) <= u64::MAX);
            }
            let padded: u64 = next_power_of_two(n);
            proof {
                assert(area(padded as nat, cost) == padded * cost);
            }
            cells = cells + padded * cost;
        }
        i = i + 1;
    }
    let events: u64 = count_precompiles(&record.precompile_events);
    if events > 0 {
        let cost: u64 = max_precompile_cost(costs_per_air);
        let padded: u64 = next_power_of_two(events);
        proof {
            assert(area(padded as nat, cost) == padded * cost);
        }
        cells = cells + padded * cost;
    }
    let bytes: u64 = 2 * element_size();
    10 * cells * bytes
}

} // verus!
