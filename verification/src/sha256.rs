//! The SHA-256 message schedule and compression.
use vstd::prelude::*;

verus! {

/// The round constants.
pub const ROUND_CONSTANTS: [u32; 64] = [
    0x428a2f98, 0x71374491, 0xb5c0fbcf, 0xe9b5dba5, 0x3956c25b, 0x59f111f1, 0x923f82a4, 0xab1c5ed5,
    0xd807aa98, 0x12835b01, 0x243185be, 0x550c7dc3, 0x72be5d74, 0x80deb1fe, 0x9bdc06a7, 0xc19bf174,
    0xe49b69c1, 0xefbe4786, 0x0fc19dc6, 0x240ca1cc, 0x2de92c6f, 0x4a7484aa, 0x5cb0a9dc, 0x76f988da,
    0x983e5152, 0xa831c66d, 0xb00327c8, 0xbf597fc7, 0xc6e00bf3, 0xd5a79147, 0x06ca6351, 0x14292967,
    0x27b70a85, 0x2e1b2138, 0x4d2c6dfc, 0x53380d13, 0x650a7354, 0x766a0abb, 0x81c2c92e, 0x92722c85,
    0xa2bfe8a1, 0xa81a664b, 0xc24b8b70, 0xc76c51a3, 0xd192e819, 0xd6990624, 0xf40e3585, 0x106aa070,
    0x19a4c116, 0x1e376c08, 0x2748774c, 0x34b0bcb5, 0x391c0cb3, 0x4ed8aa4a, 0x5b9cca4f, 0x682e6ff3,
    0x748f82ee, 0x78a5636f, 0x84c87814, 0x8cc70208, 0x90befffa, 0xa4506ceb, 0xbef9a3f7, 0xc67178f2,
];

/// Rotation to the right, for shifts between 1 and 31.
pub open spec fn rotr(x: u32, n: u32) -> u32 {
    (x >> n) | (x << ((32 - n) as u32))
}

/// Rotation to the right.
fn rotate_right(x: u32, n: u32) -> (r: u32)
    requires
        0 < n < 32,
    ensures
        r == rotr(x, n),
{
    (x >> n) | (x << (32 - n))
}

/// The next word of the message schedule.
pub open spec fn schedule_word(w15: u32, w2: u32, w16: u32, w7: u32) -> u32 {
    let s0 = rotr(w15, 7) ^ rotr(w15, 18) ^ (w15 >> 3u32);
    let s1 = rotr(w2, 17) ^ rotr(w2, 19) ^ (w2 >> 10u32);
    ((s0 + s1 + w16 + w7) % 0x1_0000_0000) as u32
}

/// The next word of the message schedule, from the words 15, 2, 16 and 7 places before it.
pub fn sha256_extend_word(w_i_minus_15: u32, w_i_minus_2: u32, w_i_minus_16: u32, w_i_minus_7: u32) -> (r: u32)
    ensures
        r == schedule_word(w_i_minus_15, w_i_minus_2, w_i_minus_16, w_i_minus_7),
{
    let s0: u32 = rotate_right(w_i_minus_15, 7) ^ rotate_right(w_i_minus_15, 18) ^ (w_i_minus_15 >> 3u32);
    let s1: u32 = rotate_right(w_i_minus_2, 17) ^ rotate_right(w_i_minus_2, 19) ^ (w_i_minus_2 >> 10u32);
    s0.wrapping_add(s1).wrapping_add(w_i_minus_16).wrapping_add(w_i_minus_7)
}

/// The eight working variables.
pub struct Working {
    pub a: u32,
    pub b: u32,
    pub c: u32,
    pub d: u32,
    pub e: u32,
    pub f: u32,
    pub g: u32,
    pub h: u32,
}

/// One round.
pub open spec fn round(v: Working, w: u32, k: u32) -> Working {
    let s1 = rotr(v.e, 6) ^ rotr(v.e, 11) ^ rotr(v.e, 25);
    let ch = (v.e & v.f) ^ ((!v.e) & v.g);
    let temp1 = v.h + s1 + ch + k + w;
    let s0 = rotr(v.a, 2) ^ rotr(v.a, 13) ^ rotr(v.a, 22);
    let maj = (v.a & v.b) ^ (v.a & v.c) ^ (v.b & v.c);
    let temp2 = s0 + maj;
    Working {
        a: ((temp1 + temp2) % 0x1_0000_0000) as u32,
        b: v.a,
        c: v.b,
        d: v.c,
        e: ((v.d + temp1) % 0x1_0000_0000) as u32,
        f: v.e,
        g: v.f,
        h: v.g,
    }
}

/// The working variables after `n` rounds.
pub open spec fn rounds(h: Seq<u32>, w: Seq<u32>, n: int) -> Working
    decreases n,
{
    if n <= 0 {
        Working {
            a: h[0],
            b: h[1],
            c: h[2],
            d: h[3],
            e: h[4],
            f: h[5],
            g: h[6],
            h: h[7],
        }
    } else {
        round(rounds(h, w, n - 1), w[n - 1], ROUND_CONSTANTS@[n - 1])
    }
}

/// The hash state after compressing one schedule.
pub open spec fn compressed(h: Seq<u32>, w: Seq<u32>) -> Seq<u32> {
    let v = rounds(h, w, 64);
    seq![
        h[0].wrapping_add(v.a),
        h[1].wrapping_add(v.b),
        h[2].wrapping_add(v.c),
        h[3].wrapping_add(v.d),
        h[4].wrapping_add(v.e),
        h[5].wrapping_add(v.f),
        h[6].wrapping_add(v.g),
        h[7].wrapping_add(v.h),
    ]
}

/// One round.
fn round_step(v: &Working, w: u32, k: u32) -> (r: Working)
    ensures
        r == round(*v, w, k),
{
    let s1: u32 = rotate_right(v.e, 6) ^ rotate_right(v.e, 11) ^ rotate_right(v.e, 25);
    let ch: u32 = (v.e & v.f) ^ ((!v.e) & v.g);
    let temp1: u64 = v.h as u64 + s1 as u64 + ch as u64 + k as u64 + w as u64;
    let s0: u32 = rotate_right(v.a, 2) ^ rotate_right(v.a, 13) ^ rotate_right(v.a, 22);
    let maj: u32 = (v.a & v.b) ^ (v.a & v.c) ^ (v.b & v.c);
    let temp2: u64 = s0 as u64 + maj as u64;
    Working {
        a: ((temp1 + temp2) % 0x1_0000_0000) as u32,
        b: v.a,
        c: v.b,
        d: v.c,
        e: ((v.d as u64 + temp1) % 0x1_0000_0000) as u32,
        f: v.e,
        g: v.f,
        h: v.g,
    }
}

/// Compresses one schedule of 64 words into the hash state.
pub fn sha256_compress(h: &Vec<u32>, w: &Vec<u32>) -> (r: Vec<u32>)
    requires
        h@.len() == 8,
        w@.len() == 64,
    ensures
        r@ == compressed(h@, w@),
{
    let mut v = Working {
        a: h[0],
        b: h[1],
        c: h[2],
        d: h[3],
        e: h[4],
        f: h[5],
        g: h[6],
        h: h[7],
    };
    let mut i: usize = 0;
    while i < 64
        invariant
            i <= 64,
            w@.len() == 64,
            h@.len() == 8,
            v == rounds(h@, w@, i as int),
        decreases 64 - i,
    {
        v = round_step(&v, w[i], ROUND_CONSTANTS[i]);
        i = i + 1;
    }
    let mut out: Vec<u32> = Vec::new();
    out.push(h[0].wrapping_add(v.a));
    out.push(h[1].wrapping_add(v.b));
    out.push(h[2].wrapping_add(v.c));
    out.push(h[3].wrapping_add(v.d));
    out.push(h[4].wrapping_add(v.e));
    out.push(h[5].wrapping_add(v.f));
    out.push(h[6].wrapping_add(v.g));
    out.push(h[7].wrapping_add(v.h));
    out
}

} // verus!
