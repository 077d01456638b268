//! The Keccak-f permutation on 1600 bits and the sponge over it.
use vstd::prelude::*;

verus! {

/// The number of lanes of the state.
pub const KECCAK_STATE_SIZE_U64S: usize = 25;

/// The number of lanes absorbed per block.
pub const KECCAK_GENERAL_BLOCK_SIZE_U64S: usize = 17;

/// The number of words absorbed per block.
pub const GENERAL_BLOCK_SIZE_U32S: usize = 34;

/// The number of lanes squeezed.
pub const KECCAK_GENERAL_OUTPUT_U64S: usize = 8;

/// The round constants.
pub const ROUND_CONSTANTS: [u64; 24] = [
    0x0000000000000001, 0x0000000000008082, 0x800000000000808a, 0x8000000080008000,
    0x000000000000808b, 0x0000000080000001, 0x8000000080008081, 0x8000000000008009,
    0x000000000000008a, 0x0000000000000088, 0x0000000080008009, 0x000000008000000a,
    0x000000008000808b, 0x800000000000008b, 0x8000000000008089, 0x8000000000008003,
    0x8000000000008002, 0x8000000000000080, 0x000000000000800a, 0x800000008000000a,
    0x8000000080008081, 0x8000000000008080, 0x0000000080000001, 0x8000000080008008,
];

/// For each lane of the permuted state, the lane it comes from.
pub const PI_SOURCE: [usize; 25] = [
    0, 6, 12, 18, 24, 3, 9, 10, 16, 22, 1, 7, 13, 19, 20, 4, 5, 11, 17, 23, 2, 8, 14, 15, 21,
];

/// For each lane of the permuted state, the rotation it undergoes.
pub const RHO_OFFSET: [u32; 25] = [
    0, 44, 43, 21, 14, 28, 20, 3, 45, 61, 1, 6, 25, 8, 18, 27, 36, 10, 15, 56, 62, 55, 39, 41, 2,
];

/// Rotation to the left.
pub open spec fn rotl(x: u64, n: u32) -> u64 {
    if n == 0 {
        x
    } else {
        (x << n) | (x >> ((64 - n) as u32))
    }
}

/// Rotation to the left.
fn rotate_left(x: u64, n: u32) -> (r: u64)
    requires
        n < 64,
    ensures
        r == rotl(x, n),
{
    if n == 0 {
        x
    } else {
        (x << n) | (x >> (64 - n))
    }
}

/// The parity of a column.
pub open spec fn column(a: Seq<u64>, x: int) -> u64 {
    a[x] ^ a[x + 5] ^ a[x + 10] ^ a[x + 15] ^ a[x + 20]
}

/// Adds to each lane the parities of the two neighbouring columns.
pub open spec fn theta(a: Seq<u64>) -> Seq<u64> {
    Seq::new(
        25,
        |i: int| a[i] ^ (column(a, (i + 4) % 5) ^ rotl(column(a, (i + 1) % 5), 1)),
    )
}

/// Rotates and permutes the lanes.
pub open spec fn rho_pi(a: Seq<u64>) -> Seq<u64> {
    Seq::new(25, |i: int| rotl(a[PI_SOURCE@[i] as int], RHO_OFFSET@[i]))
}

/// Combines each lane with the two that follow it in its row.
pub open spec fn chi(a: Seq<u64>) -> Seq<u64> {
    Seq::new(
        25,
        |i: int| a[i] ^ ((!a[i / 5 * 5 + (i + 1) % 5]) & a[i / 5 * 5 + (i + 2) % 5]),
    )
}

/// One round.
pub open spec fn round(a: Seq<u64>, k: int) -> Seq<u64> {
    let b = chi(rho_pi(theta(a)));
    b.update(0, b[0] ^ ROUND_CONSTANTS@[k])
}

/// The state after `n` rounds.
pub open spec fn rounds(a: Seq<u64>, n: int) -> Seq<u64>
    decreases n,
{
    if n <= 0 {
        a
    } else {
        round(rounds(a, n - 1), n - 1)
    }
}

/// The permutation.
pub open spec fn permuted(a: Seq<u64>) -> Seq<u64> {
    rounds(a, 24)
}

/// One round.
fn round_step(a: &Vec<u64>, k: usize) -> (r: Vec<u64>)
    requires
        a@.len() == 25,
        k < 24,
    ensures
        r@ == round(a@, k as int),
        r@.len() == 25,
{
    let mut t: Vec<u64> = Vec::new();
    let mut i: usize = 0;
    while i < 25
        invariant
            i <= 25,
            a@.len() == 25,
            t@ == theta(a@).take(i as int),
        decreases 25 - i,
    {
        let l: usize = (i + 4) % 5;
        let u: usize = (i + 1) % 5;
        let left: u64 = a[l] ^ a[l + 5] ^ a[l + 10] ^ a[l + 15] ^ a[l + 20];
        let right: u64 = a[u] ^ a[u + 5] ^ a[u + 10] ^ a[u + 15] ^ a[u + 20];
        t.push(a[i] ^ (left ^ rotate_left(right, 1)));
        proof {
            assert(theta(a@).take(i + 1) =~= theta(a@).take(i as int).push(theta(a@)[i as int]));
        }
        i = i + 1;
    }
    proof {
        assert(theta(a@).take(25) =~= theta(a@));
    }
    let mut b: Vec<u64> = Vec::new();
    let mut i: usize = 0;
    while i < 25
        invariant
            i <= 25,
            t@ == theta(a@),
            b@ == rho_pi(t@).take(i as int),
        decreases 25 - i,
    {
        proof {
            lemma_tables(i as int);
        }
        b.push(rotate_left(t[PI_SOURCE[i]], RHO_OFFSET[i]));
        proof {
            assert(rho_pi(t@).take(i + 1) =~= rho_pi(t@).take(i as int).push(rho_pi(t@)[i as int]));
        }
        i = i + 1;
    }
    proof {
        assert(rho_pi(t@).take(25) =~= rho_pi(t@));
    }
    let mut c: Vec<u64> = Vec::new();
    let mut i: usize = 0;
    while i < 25
        invariant
            i <= 25,
            b@ == rho_pi(theta(a@)),
            c@ == chi(b@).take(i as int),
        decreases 25 - i,
    {
        let row: usize = i / 5 * 5;
        c.push(b[i] ^ ((!b[row + (i + 1) % 5]) & b[row + (i + 2) % 5]));
        proof {
            assert(chi(b@).take(i + 1) =~= chi(b@).take(i as int).push(chi(b@)[i as int]));
        }
        i = i + 1;
    }
    proof {
        assert(chi(b@).take(25) =~= chi(b@));
    }
    let first: u64 = c[0] ^ ROUND_CONSTANTS[k];
    c.set(0, first);
    c
}

proof fn lemma_tables(i: int)
    requires
        0 <= i < 25,
    ensures
        PI_SOURCE@[i] < 25,
        RHO_OFFSET@[i] < 64,
{
}

/// Permutes the state.
pub fn keccakf(state: &mut Vec<u64>)
    requires
        old(state)@.len() == KECCAK_STATE_SIZE_U64S,
    ensures
        final(state)@ == permuted(old(state)@),
        final(state)@.len() == KECCAK_STATE_SIZE_U64S,
{
    let ghost start = state@;
    let mut k: usize = 0;
    while k < 24
        invariant
            k <= 24,
            state@.len() == 25,
            state@ == rounds(start, k as int),
        decreases 24 - k,
    {
        let next = round_step(state, k);
        *state = next;
        k = k + 1;
    }
}

/// The state with a block added to its first lanes.
pub open spec fn xored(state: Seq<u64>, block: Seq<u64>) -> Seq<u64> {
    Seq::new(
        state.len(),
        |i: int|
            if i < block.len() {
                state[i] ^ block[i]
            } else {
                state[i]
            },
    )
}

/// Adds a block to the first lanes of the state.
pub fn keccak_xor_block(state: &mut Vec<u64>, block: &Vec<u64>)
    requires
        block@.len() <= old(state)@.len(),
    ensures
        final(state)@ == xored(old(state)@, block@),
{
    let ghost start = state@;
    let mut i: usize = 0;
    while i < block.len()
        invariant
            i <= block@.len() <= start.len(),
            state@.len() == start.len(),
            forall|j: int|
                0 <= j < start.len() ==> #[trigger] state@[j] == if j < i {
                    start[j] ^ block@[j]
                } else {
                    start[j]
                },
        decreases block@.len() - i,
    {
        let lane: u64 = state[i] ^ block[i];
        state.set(i, lane);
        i = i + 1;
    }
    proof {
        assert(state@ =~= xored(start, block@));
    }
}

/// A lane of a list of words, low word first.
pub open spec fn lane(words: Seq<u32>, i: int) -> u64 {
    (words[2 * i] + words[2 * i + 1] * 0x1_0000_0000) as u64
}

/// A block of lanes of a list of words.
pub open spec fn block(words: Seq<u32>, k: int) -> Seq<u64> {
    Seq::new(
        KECCAK_GENERAL_BLOCK_SIZE_U64S as nat,
        |j: int| lane(words, k * KECCAK_GENERAL_BLOCK_SIZE_U64S + j),
    )
}

/// The state after absorbing the first `k` blocks of a list of words.
pub open spec fn absorbed(words: Seq<u32>, k: int) -> Seq<u64>
    decreases k,
{
    if k <= 0 {
        Seq::new(KECCAK_STATE_SIZE_U64S as nat, |i: int| 0u64)
    } else {
        permuted(xored(absorbed(words, k - 1), block(words, k - 1)))
    }
}

/// The state after absorbing every whole block of a list of words.
pub open spec fn sponge(words: Seq<u32>) -> Seq<u64> {
    absorbed(words, words.len() as int / GENERAL_BLOCK_SIZE_U32S as int)
}

/// The squeezed output as words, low word of each lane first.
pub open spec fn squeezed(state: Seq<u64>) -> Seq<u32> {
    Seq::new(
        (2 * KECCAK_GENERAL_OUTPUT_U64S) as nat,
        |i: int|
            if i % 2 == 0 {
                (state[i / 2] % 0x1_0000_0000) as u32
            } else {
                (state[i / 2] / 0x1_0000_0000) as u32
            },
    )
}

proof fn lemma_rounds_len(a: Seq<u64>, n: int)
    requires
        a.len() == 25,
    ensures
        rounds(a, n).len() == 25,
    decreases n,
{
    if n > 0 {
        lemma_rounds_len(a, n - 1);
    }
}

/// The state has its full width after any number of blocks.
pub proof fn absorbed_width(words: Seq<u32>, k: int)
    ensures
        absorbed(words, k).len() == KECCAK_STATE_SIZE_U64S,
    decreases k,
{
    if k > 0 {
        absorbed_width(words, k - 1);
        lemma_rounds_len(xored(absorbed(words, k - 1), block(words, k - 1)), 24);
    }
}

/// The first blocks of a list do not depend on the words behind them.
proof fn lemma_absorbed_prefix(words: Seq<u32>, more: Seq<u32>, k: int)
    requires
        k * 34 <= words.len(),
    ensures
        absorbed(words + more, k) == absorbed(words, k),
    decreases k,
{
    if k > 0 {
        lemma_absorbed_prefix(words, more, k - 1);
        assert(block(words + more, k - 1) =~= block(words, k - 1));
    }
}

/// The sponge of no words is the state of zeros.
pub proof fn the_empty_message_leaves_zeros()
    ensures
        sponge(Seq::empty()).len() == 25,
        forall|i: int| 0 <= i < 25 ==> #[trigger] sponge(Seq::empty())[i] == 0,
{
}

/// Absorbing is done block by block: behind a message of whole blocks, one more block of words is
/// added to the first lanes of the state that the message left, two words to a lane and the low
/// word first, and the sum is permuted.
pub proof fn appending_a_block_absorbs_it(words: Seq<u32>, last: Seq<u32>)
    requires
        words.len() % 34 == 0,
        last.len() == 34,
    ensures
        sponge(words + last) == permuted(
            Seq::new(
                25,
                |i: int|
                    if i < 17 {
                        sponge(words)[i] ^ ((last[2 * i] + last[2 * i + 1] * 0x1_0000_0000) as u64)
                    } else {
                        sponge(words)[i]
                    },
            ),
        ),
{
    let k = words.len() as int / 34;
    assert((words + last).len() as int / 34 == k + 1);
    lemma_absorbed_prefix(words, last, k);
    absorbed_width(words, k);
    let lanes = block(words + last, k);
    assert forall|i: int| 0 <= i < 17 implies #[trigger] lanes[i] == ((last[2 * i] + last[2 * i + 1]
        * 0x1_0000_0000) as u64) by {
        assert(2 * (k * 17 + i) == words.len() + 2 * i);
        assert((words + last)[words.len() + 2 * i] == last[2 * i]);
        assert((words + last)[words.len() + 2 * i + 1] == last[2 * i + 1]);
    }
    assert(xored(sponge(words), lanes) =~= Seq::new(
        25,
        |i: int|
            if i < 17 {
                sponge(words)[i] ^ ((last[2 * i] + last[2 * i + 1] * 0x1_0000_0000) as u64)
            } else {
                sponge(words)[i]
            },
    ));
}

/// Words behind the last whole block are not absorbed.
pub proof fn a_partial_block_is_not_absorbed(words: Seq<u32>, rest: Seq<u32>)
    requires
        words.len() % 34 == 0,
        rest.len() < 34,
    ensures
        sponge(words + rest) == sponge(words),
{
    let k = words.len() as int / 34;
    assert((words + rest).len() as int / 34 == k);
    lemma_absorbed_prefix(words, rest, k);
}

/// Absorbs every whole block of a list of words, giving the final state.
pub fn keccak_sponge(words: &Vec<u32>) -> (r: Vec<u64>)
    ensures
        r@ == sponge(words@),
        r@.len() == KECCAK_STATE_SIZE_U64S,
{
    let mut state: Vec<u64> = Vec::new();
    let mut i: usize = 0;
    while i < KECCAK_STATE_SIZE_U64S
        invariant
            i <= KECCAK_STATE_SIZE_U64S,
            state@.len() == i,
            forall|j: int| 0 <= j < i ==> (#[trigger] state@[j]) == 0,
        decreases KECCAK_STATE_SIZE_U64S - i,
    {
        state.push(0);
        i = i + 1;
    }
    proof {
        assert(state@ =~= absorbed(words@, 0));
    }
    let total: usize = words.len();
    let blocks: usize = total / GENERAL_BLOCK_SIZE_U32S;
    let mut k: usize = 0;
    while k < blocks
        invariant
            k <= blocks,
            total == words@.len(),
            blocks == total / 34,
            state@.len() == 25,
            state@ == absorbed(words@, k as int),
        decreases blocks - k,
    {
        let mut lanes: Vec<u64> = Vec::new();
        let mut j: usize = 0;
        while j < KECCAK_GENERAL_BLOCK_SIZE_U64S
            invariant
                j <= KECCAK_GENERAL_BLOCK_SIZE_U64S,
                k < blocks,
                total == words@.len(),
                blocks == total / 34,
                lanes@ == block(words@, k as int).take(j as int),
            decreases KECCAK_GENERAL_BLOCK_SIZE_U64S - j,
        {
            proof {
                assert(k * 34 + 34 <= total);
            }
            let at: usize = k * 34 + 2 * j;
            lanes.push((words[at] as u64) + (words[at + 1] as u64) * 0x1_0000_0000);
            proof {
                assert(block(words@, k as int).take(j + 1) =~= block(words@, k as int).take(
                    j as int,
                ).push(block(words@, k as int)[j as int]));
            }
            j = j + 1;
        }
        proof {
            assert(block(words@, k as int).take(17) =~= block(words@, k as int));
        }
        keccak_xor_block(&mut state, &lanes);
        keccakf(&mut state);
        k = k + 1;
    }
    state
}

/// Squeezes the output words out of a state.
pub fn squeeze(state: &Vec<u64>) -> (r: Vec<u32>)
    requires
        state@.len() == KECCAK_STATE_SIZE_U64S,
    ensures
        r@ == squeezed(state@),
        r@.len() == 16,
{
    let mut out: Vec<u32> = Vec::new();
    let mut i: usize = 0;
    while i < KECCAK_GENERAL_OUTPUT_U64S
        invariant
            i <= KECCAK_GENERAL_OUTPUT_U64S,
            state@.len() == KECCAK_STATE_SIZE_U64S,
            out@ =~= squeezed(state@).take(2 * i),
        decreases KECCAK_GENERAL_OUTPUT_U64S - i,
    {
        let lane: u64 = state[i];
        out.push((lane % 0x1_0000_0000) as u32);
        out.push((lane / 0x1_0000_0000) as u32);
        proof {
            assert((2 * i) / 2 == i && (2 * i + 1) / 2 == i);
        }
        i = i + 1;
    }
    out
}

} // verus!
