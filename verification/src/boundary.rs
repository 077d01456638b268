//! The lookups that anchor a shard's internal chains at its public values.
use vstd::prelude::*;

use crate::consts::{DEFAULT_PC_INC, FIELD_PRIME};
use crate::record::PublicValues;

verus! {

/// A kind of lookup.
#[derive(Debug, Clone, Copy, PartialEq, Eq, Structural)]
pub enum LookupKind {
    /// The chain of processor states.
    State,
    /// The chain of initialized addresses.
    MemoryGlobalInitControl,
    /// The chain of finalized addresses.
    MemoryGlobalFinalizeControl,
    /// The chain of accumulated digests.
    GlobalAccumulation,
}

/// A lookup at the boundary of a shard: a tuple of field elements, sent or received a number of
/// times.
pub struct BoundaryLookup {
    pub send: bool,
    pub kind: LookupKind,
    pub values: Vec<u32>,
    pub multiplicity: u32,
}

/// A lookup at the boundary of a shard in mathematical terms.
#[verifier::ext_equal]
pub struct Anchor {
    pub send: bool,
    pub kind: LookupKind,
    pub values: Seq<u32>,
    pub multiplicity: u32,
}

impl BoundaryLookup {
    /// The lookup in mathematical terms.
    pub open spec fn model(&self) -> Anchor {
        Anchor {
            send: self.send,
            kind: self.kind,
            values: self.values@,
            multiplicity: self.multiplicity,
        }
    }
}

/// The sum of two field elements.
pub open spec fn field_sum(a: u32, b: u32) -> u32 {
    ((a + b) % (FIELD_PRIME as int)) as u32
}

/// The bytes of a word, the least significant first.
pub open spec fn limbs(word: u32) -> Seq<u32> {
    seq![
        word % 0x100,
        word / 0x100 % 0x100,
        word / 0x1_0000 % 0x100,
        word / 0x100_0000,
    ]
}

/// A processor state: the clock, the program counter, and the one behind it.
pub open spec fn state_values(clk_high: u32, clk_low: u32, pc: u32) -> Seq<u32> {
    seq![clk_high, clk_low, pc, field_sum(pc, DEFAULT_PC_INC)]
}

/// A link of an address chain.
pub open spec fn addr_values(index: u32, addr: u32) -> Seq<u32> {
    seq![index] + limbs(addr) + seq![1u32]
}

/// A link of the digest chain.
pub open spec fn digest_values(index: u32, x: Seq<u32>, y: Seq<u32>) -> Seq<u32> {
    seq![index] + x + y
}

/// The lookups that anchor a shard: for each chain its start is sent and its end is received. The
/// state chain takes part only in shards that retired an instruction.
pub open spec fn anchors(p: PublicValues, zero_x: Seq<u32>, zero_y: Seq<u32>) -> Seq<Anchor> {
    seq![
        Anchor {
            send: true,
            kind: LookupKind::State,
            values: state_values(p.initial_clk_high, p.initial_clk_low, p.start_pc),
            multiplicity: p.is_execution_shard,
        },
        Anchor {
            send: false,
            kind: LookupKind::State,
            values: state_values(p.last_clk_high, p.last_clk_low, p.next_pc),
            multiplicity: p.is_execution_shard,
        },
        Anchor {
            send: true,
            kind: LookupKind::MemoryGlobalInitControl,
            values: addr_values(0, p.previous_init_addr),
            multiplicity: 1,
        },
        Anchor {
            send: false,
            kind: LookupKind::MemoryGlobalInitControl,
            values: addr_values(p.global_init_count, p.last_init_addr),
            multiplicity: 1,
        },
        Anchor {
            send: true,
            kind: LookupKind::MemoryGlobalFinalizeControl,
            values: addr_values(0, p.previous_finalize_addr),
            multiplicity: 1,
        },
        Anchor {
            send: false,
            kind: LookupKind::MemoryGlobalFinalizeControl,
            values: addr_values(p.global_finalize_count, p.last_finalize_addr),
            multiplicity: 1,
        },
        Anchor {
            send: true,
            kind: LookupKind::GlobalAccumulation,
            values: digest_values(0, zero_x, zero_y),
            multiplicity: 1,
        },
        Anchor {
            send: false,
            kind: LookupKind::GlobalAccumulation,
            values: digest_values(
                p.global_count,
                p.global_cumulative_sum_x@,
                p.global_cumulative_sum_y@,
            ),
            multiplicity: 1,
        },
    ]
}

/// A processor state as a tuple.
fn state_tuple(clk_high: u32, clk_low: u32, pc: u32) -> (r: Vec<u32>)
    ensures
        r@ == state_values(clk_high, clk_low, pc),
{
    let mut values: Vec<u32> = Vec::new();
    values.push(clk_high);
    values.push(clk_low);
    values.push(pc);
    values.push((((pc as u64) + (DEFAULT_PC_INC as u64)) % FIELD_PRIME) as u32);
    proof {
        assert(values@ =~= state_values(clk_high, clk_low, pc));
    }
    values
}

/// A link of an address chain as a tuple.
fn addr_tuple(index: u32, addr: u32) -> (r: Vec<u32>)
    ensures
        r@ == addr_values(index, addr),
{
    let mut values: Vec<u32> = Vec::new();
    values.push(index);
    values.push(addr % 0x100);
    values.push(addr / 0x100 % 0x100);
    values.push(addr / 0x1_0000 % 0x100);
    values.push(addr / 0x100_0000);
    values.push(1);
    proof {
        assert(values@ =~= addr_values(index, addr));
    }
    values
}

/// A link of the digest chain as a tuple.
fn digest_tuple(index: u32, x: &[u32; 7], y: &[u32; 7]) -> (r: Vec<u32>)
    ensures
        r@ == digest_values(index, x@, y@),
{
    let mut values: Vec<u32> = Vec::new();
    values.push(index);
    let mut i: usize = 0;
    while i < 7
        invariant
            i <= 7,
            values@ =~= seq![index] + x@.take(i as int),
        decreases 7 - i,
    {
        values.push(x[i]);
        i = i + 1;
    }
    let mut j: usize = 0;
    while j < 7
        invariant
            j <= 7,
            values@ =~= seq![index] + x@ + y@.take(j as int),
        decreases 7 - j,
    {
        values.push(y[j]);
        j = j + 1;
    }
    proof {
        assert(values@ =~= digest_values(index, x@, y@));
    }
    values
}

/// The lookups that anchor a shard at its public values. The digest chain starts at the given
/// digest of nothing.
pub fn eval_public_values(p: &PublicValues, zero_x: &[u32; 7], zero_y: &[u32; 7]) -> (r: Vec<BoundaryLookup>)
    ensures
        r@.map_values(|b: BoundaryLookup| b.model()) == anchors(*p, zero_x@, zero_y@),
{
    let mut r: Vec<BoundaryLookup> = Vec::new();
    r.push(
        BoundaryLookup {
            send: true,
            kind: LookupKind::State,
            values: state_tuple(p.initial_clk_high, p.initial_clk_low, p.start_pc),
            multiplicity: p.is_execution_shard,
        },
    );
    r.push(
        BoundaryLookup {
            send: false,
            kind: LookupKind::State,
            values: state_tuple(p.last_clk_high, p.last_clk_low, p.next_pc),
            multiplicity: p.is_execution_shard,
        },
    );
    r.push(
        BoundaryLookup {
            send: true,
            kind: LookupKind::MemoryGlobalInitControl,
            values: addr_tuple(0, p.previous_init_addr),
            multiplicity: 1,
        },
    );
    r.push(
        BoundaryLookup {
            send: false,
            kind: LookupKind::MemoryGlobalInitControl,
            values: addr_tuple(p.global_init_count, p.last_init_addr),
            multiplicity: 1,
        },
    );
    r.push(
        BoundaryLookup {
            send: true,
            kind: LookupKind::MemoryGlobalFinalizeControl,
            values: addr_tuple(0, p.previous_finalize_addr),
            multiplicity: 1,
        },
    );
    r.push(
        BoundaryLookup {
            send: false,
            kind: LookupKind::MemoryGlobalFinalizeControl,
            values: addr_tuple(p.global_finalize_count, p.last_finalize_addr),
            multiplicity: 1,
        },
    );
    r.push(
        BoundaryLookup {
            send: true,
            kind: LookupKind::GlobalAccumulation,
            values: digest_tuple(0, zero_x, zero_y),
            multiplicity: 1,
        },
    );
    r.push(
        BoundaryLookup {
            send: false,
            kind: LookupKind::GlobalAccumulation,
            values: digest_tuple(
                p.global_count,
                &p.global_cumulative_sum_x,
                &p.global_cumulative_sum_y,
            ),
            multiplicity: 1,
        },
    );
    proof {
        assert(r@.map_values(|b: BoundaryLookup| b.model()) =~= anchors(*p, zero_x@, zero_y@));
    }
    r
}

/// The kinds of lookups that anchor a shard.
pub fn interactions_in_public_values() -> (r: Vec<LookupKind>)
    ensures
        r@ == seq![
            LookupKind::State,
            LookupKind::MemoryGlobalInitControl,
            LookupKind::MemoryGlobalFinalizeControl,
            LookupKind::GlobalAccumulation,
        ],
{
    let mut r: Vec<LookupKind> = Vec::new();
    r.push(LookupKind::State);
    r.push(LookupKind::MemoryGlobalInitControl);
    r.push(LookupKind::MemoryGlobalFinalizeControl);
    r.push(LookupKind::GlobalAccumulation);
    proof {
        assert(r@ =~= seq![
            LookupKind::State,
            LookupKind::MemoryGlobalInitControl,
            LookupKind::MemoryGlobalFinalizeControl,
            LookupKind::GlobalAccumulation,
        ]);
    }
    r
}

/// Every kind is listed: the anchors use no other, and use each of them.
pub proof fn anchors_use_the_listed_kinds(p: PublicValues, zero_x: Seq<u32>, zero_y: Seq<u32>, i: int)
    requires
        0 <= i < 8,
    ensures
        anchors(p, zero_x, zero_y).len() == 8,
        anchors(p, zero_x, zero_y)[i].kind == (if i < 2 {
            LookupKind::State
        } else if i < 4 {
            LookupKind::MemoryGlobalInitControl
        } else if i < 6 {
            LookupKind::MemoryGlobalFinalizeControl
        } else {
            LookupKind::GlobalAccumulation
        }),
        anchors(p, zero_x, zero_y)[i].send == (i % 2 == 0),
{
}

/// A shard that starts where the one before it ended sends exactly the state that the one before
/// it received.
pub proof fn consecutive_states_meet(
    p: PublicValues,
    q: PublicValues,
    zero_x: Seq<u32>,
    zero_y: Seq<u32>,
)
    requires
        q.initial_clk_high == p.last_clk_high,
        q.initial_clk_low == p.last_clk_low,
        q.start_pc == p.next_pc,
    ensures
        anchors(q, zero_x, zero_y)[0].values == anchors(p, zero_x, zero_y)[1].values,
{
}

/// A shard that retired no instruction takes no part in the state chain.
pub proof fn idle_shards_send_no_state(p: PublicValues, zero_x: Seq<u32>, zero_y: Seq<u32>)
    requires
        p.is_execution_shard == 0,
    ensures
        anchors(p, zero_x, zero_y)[0].multiplicity == 0,
        anchors(p, zero_x, zero_y)[1].multiplicity == 0,
{
}

/// The bytes of a word make it up, so different words have different bytes.
pub proof fn limbs_make_up_the_word(word: u32)
    ensures
        limbs(word).len() == 4,
        limbs(word)[0] + 0x100 * limbs(word)[1] + 0x1_0000 * limbs(word)[2] + 0x100_0000 * limbs(
            word,
        )[3] == word,
        forall|i: int| 0 <= i < 4 ==> #[trigger] limbs(word)[i] < 0x100,
{
}

/// A shard whose address chains start where those of the one before it ended sends the addresses
/// that the one before it received; beside the address, a link carries its place in the chain, which
/// is zero where a chain starts and the number of its links where it ends.
pub proof fn consecutive_addresses_meet(
    p: PublicValues,
    q: PublicValues,
    zero_x: Seq<u32>,
    zero_y: Seq<u32>,
)
    requires
        q.previous_init_addr == p.last_init_addr,
        q.previous_finalize_addr == p.last_finalize_addr,
    ensures
        anchors(q, zero_x, zero_y)[2].values.skip(1) == anchors(p, zero_x, zero_y)[3].values.skip(1),
        anchors(q, zero_x, zero_y)[4].values.skip(1) == anchors(p, zero_x, zero_y)[5].values.skip(1),
        anchors(p, zero_x, zero_y)[2].values[0] == 0,
        anchors(p, zero_x, zero_y)[3].values[0] == p.global_init_count,
        anchors(p, zero_x, zero_y)[4].values[0] == 0,
        anchors(p, zero_x, zero_y)[5].values[0] == p.global_finalize_count,
        anchors(p, zero_x, zero_y)[3].values.subrange(1, 5) == limbs(p.last_init_addr),
        anchors(p, zero_x, zero_y)[5].values.subrange(1, 5) == limbs(p.last_finalize_addr),
        forall|i: int| 2 <= i < 8 ==> (#[trigger] anchors(p, zero_x, zero_y)[i]).multiplicity == 1,
{
    let a = anchors(p, zero_x, zero_y);
    let b = anchors(q, zero_x, zero_y);
    assert(b[2].values.skip(1) =~= a[3].values.skip(1));
    assert(b[4].values.skip(1) =~= a[5].values.skip(1));
    assert(a[3].values.subrange(1, 5) =~= limbs(p.last_init_addr));
    assert(a[5].values.subrange(1, 5) =~= limbs(p.last_finalize_addr));
}

/// In a shard in which nothing happens every lookup that is sent is received again: the state does
/// not move, no address is passed and nothing is accumulated.
pub proof fn an_empty_shard_balances(p: PublicValues, zero_x: Seq<u32>, zero_y: Seq<u32>, i: int)
    requires
        p.last_clk_high == p.initial_clk_high,
        p.last_clk_low == p.initial_clk_low,
        p.next_pc == p.start_pc,
        p.last_init_addr == p.previous_init_addr,
        p.last_finalize_addr == p.previous_finalize_addr,
        p.global_init_count == 0,
        p.global_finalize_count == 0,
        p.global_count == 0,
        p.global_cumulative_sum_x@ == zero_x,
        p.global_cumulative_sum_y@ == zero_y,
        0 <= i < 4,
    ensures
        ({
            let sent = anchors(p, zero_x, zero_y)[2 * i];
            let received = anchors(p, zero_x, zero_y)[2 * i + 1];
            sent.send && !received.send && sent.kind == received.kind && sent.values
                == received.values && sent.multiplicity == received.multiplicity
        }),
{
}

/// A state names the clock, the program counter and the address behind it in the field, and the
/// digest that is received is the accumulated one with its number of terms.
pub proof fn anchors_name_the_public_values(p: PublicValues, zero_x: Seq<u32>, zero_y: Seq<u32>)
    requires
        zero_x.len() == 7,
        zero_y.len() == 7,
        p.start_pc < FIELD_PRIME - 4,
    ensures
        anchors(p, zero_x, zero_y)[0].values == seq![
            p.initial_clk_high,
            p.initial_clk_low,
            p.start_pc,
            (p.start_pc + 4) as u32,
        ],
        anchors(p, zero_x, zero_y)[7].values[0] == p.global_count,
        anchors(p, zero_x, zero_y)[7].values.subrange(1, 8) == p.global_cumulative_sum_x@,
        anchors(p, zero_x, zero_y)[7].values.subrange(8, 15) == p.global_cumulative_sum_y@,
        anchors(p, zero_x, zero_y)[6].values.subrange(1, 8) == zero_x,
        anchors(p, zero_x, zero_y)[6].values.subrange(8, 15) == zero_y,
{
    let a = anchors(p, zero_x, zero_y);
    assert(a[7].values.subrange(1, 8) =~= p.global_cumulative_sum_x@);
    assert(a[7].values.subrange(8, 15) =~= p.global_cumulative_sum_y@);
    assert(a[6].values.subrange(1, 8) =~= zero_x);
    assert(a[6].values.subrange(8, 15) =~= zero_y);
    assert(a[0].values =~= seq![
        p.initial_clk_high,
        p.initial_clk_low,
        p.start_pc,
        (p.start_pc + 4) as u32,
    ]);
}

/// The state chain counts as often as the public values say that the shard retired instructions; its
/// links name the address behind the program counter, reduced to the field. A link of an address
/// chain carries a place, four bytes and a mark.
pub proof fn states_count_in_execution_shards(
    p: PublicValues,
    zero_x: Seq<u32>,
    zero_y: Seq<u32>,
)
    ensures
        ({
            let a = anchors(p, zero_x, zero_y);
            &&& a[0].multiplicity == p.is_execution_shard
            &&& a[1].multiplicity == p.is_execution_shard
            &&& a[1].values[0] == p.last_clk_high
            &&& a[1].values[1] == p.last_clk_low
            &&& a[1].values[2] == p.next_pc
            &&& forall|i: int|
                0 <= i < 2 ==> (#[trigger] a[i]).values.len() == 4 && a[i].values[3] < FIELD_PRIME
                    && (a[i].values[2] + 4 - a[i].values[3]) % (FIELD_PRIME as int) == 0
            &&& forall|i: int|
                2 <= i < 6 ==> (#[trigger] a[i]).values.len() == 6 && a[i].values[5] == 1
        }),
{
    lemma_behind(p.start_pc);
    lemma_behind(p.next_pc);
}

proof fn lemma_behind(pc: u32)
    ensures
        field_sum(pc, DEFAULT_PC_INC) < FIELD_PRIME,
        (pc + 4 - field_sum(pc, DEFAULT_PC_INC)) % (FIELD_PRIME as int) == 0,
{
}

} // verus!
