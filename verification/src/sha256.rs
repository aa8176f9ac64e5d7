//! The SHA-256 compression function and the midstate of a block-aligned prefix.

use vstd::prelude::*;

verus! {

/// Bytes in one SHA-256 block.
pub const SHA256_BLOCK_SIZE: usize = 64;

/// The initial hash value of SHA-256.
pub const INITIAL_STATE: [u32; 8] = [
    0x6a09e667, 0xbb67ae85, 0x3c6ef372, 0xa54ff53a,
    0x510e527f, 0x9b05688c, 0x1f83d9ab, 0x5be0cd19,
];

/// The round constants of SHA-256.
pub const ROUND_CONSTANTS: [u32; 64] = [
    0x428a2f98, 0x71374491, 0xb5c0fbcf, 0xe9b5dba5,
    0x3956c25b, 0x59f111f1, 0x923f82a4, 0xab1c5ed5,
    0xd807aa98, 0x12835b01, 0x243185be, 0x550c7dc3,
    0x72be5d74, 0x80deb1fe, 0x9bdc06a7, 0xc19bf174,
    0xe49b69c1, 0xefbe4786, 0x0fc19dc6, 0x240ca1cc,
    0x2de92c6f, 0x4a7484aa, 0x5cb0a9dc, 0x76f988da,
    0x983e5152, 0xa831c66d, 0xb00327c8, 0xbf597fc7,
    0xc6e00bf3, 0xd5a79147, 0x06ca6351, 0x14292967,
    0x27b70a85, 0x2e1b2138, 0x4d2c6dfc, 0x53380d13,
    0x650a7354, 0x766a0abb, 0x81c2c92e, 0x92722c85,
    0xa2bfe8a1, 0xa81a664b, 0xc24b8b70, 0xc76c51a3,
    0xd192e819, 0xd6990624, 0xf40e3585, 0x106aa070,
    0x19a4c116, 0x1e376c08, 0x2748774c, 0x34b0bcb5,
    0x391c0cb3, 0x4ed8aa4a, 0x5b9cca4f, 0x682e6ff3,
    0x748f82ee, 0x78a5636f, 0x84c87814, 0x8cc70208,
    0x90befffa, 0xa4506ceb, 0xbef9a3f7, 0xc67178f2,
];

/// Addition modulo 2^32.
pub open spec fn wadd(x: u32, y: u32) -> u32 {
    vstd::wrapping::u32_specs::wrapping_add(x, y)
}

/// `x` rotated right by `n` bits, for `0 < n < 32`.
pub open spec fn rotr(x: u32, n: u32) -> u32 {
    (x >> n) | (x << ((32 - n) as u32))
}

pub open spec fn small_sigma0(x: u32) -> u32 {
    rotr(x, 7) ^ rotr(x, 18) ^ (x >> 3u32)
}

pub open spec fn small_sigma1(x: u32) -> u32 {
    rotr(x, 17) ^ rotr(x, 19) ^ (x >> 10u32)
}

pub open spec fn big_sigma0(x: u32) -> u32 {
    rotr(x, 2) ^ rotr(x, 13) ^ rotr(x, 22)
}

pub open spec fn big_sigma1(x: u32) -> u32 {
    rotr(x, 6) ^ rotr(x, 11) ^ rotr(x, 25)
}

/// Bit by bit: `f` where `e` is set, `g` where it is not.
pub open spec fn choice(e: u32, f: u32, g: u32) -> u32 {
    (e & f) ^ ((!e) & g)
}

/// Bit by bit: the value that at least two of the three hold.
pub open spec fn majority(a: u32, b: u32, c: u32) -> u32 {
    (a & b) ^ (a & c) ^ (b & c)
}

/// Word `t` of the message schedule that `block` expands to, for `0 <= t < 64`.
pub open spec fn schedule(block: Seq<u32>, t: int) -> u32
    decreases t,
{
    if t < 16 {
        block[t]
    } else {
        wadd(
            wadd(
                wadd(schedule(block, t - 16), small_sigma0(schedule(block, t - 15))),
                schedule(block, t - 7),
            ),
            small_sigma1(schedule(block, t - 2)),
        )
    }
}

/// One compression round on the eight working variables `v`, with round
/// constant `k` and schedule word `w`.
pub open spec fn round(v: Seq<u32>, k: u32, w: u32) -> Seq<u32> {
    let t1 = wadd(wadd(wadd(wadd(v[7], big_sigma1(v[4])), choice(v[4], v[5], v[6])), k), w);
    let t2 = wadd(big_sigma0(v[0]), majority(v[0], v[1], v[2]));
    seq![wadd(t1, t2), v[0], v[1], v[2], wadd(v[3], t1), v[4], v[5], v[6]]
}

/// The working variables after the first `n` rounds, started from `state`.
pub open spec fn rounds(state: Seq<u32>, block: Seq<u32>, n: nat) -> Seq<u32>
    decreases n,
{
    if n == 0 {
        state
    } else {
        round(
            rounds(state, block, (n - 1) as nat),
            ROUND_CONSTANTS@[n - 1],
            schedule(block, n - 1),
        )
    }
}

/// The SHA-256 compression function: the state that follows `state` once the
/// sixteen words of `block` are absorbed.
pub open spec fn compress(state: Seq<u32>, block: Seq<u32>) -> Seq<u32> {
    Seq::new(8, |i: int| wadd(state[i], rounds(state, block, 64)[i]))
}

fn rotate_right(x: u32, n: u32) -> (r: u32)
    requires
        0 < n < 32,
    ensures
        r == rotr(x, n),
{
    (x >> n) | (x << (32 - n))
}

/// Absorbs one block into `state`.
pub fn sha256_compress(state: &mut [u32; 8], block: &[u32; 16])
    ensures
        final(state)@ == compress(old(state)@, block@),
{
    let mut w: [u32; 64] = [0u32; 64];
    let mut i: usize = 0;
    while i < 16
        invariant
            i <= 16,
            forall|j: int| 0 <= j < i ==> w@[j] == schedule(block@, j),
        decreases 16 - i,
    {
        w[i] = block[i];
        i += 1;
    }
    while i < 64
        invariant
            16 <= i <= 64,
            forall|j: int| 0 <= j < i ==> w@[j] == schedule(block@, j),
        decreases 64 - i,
    {
        let x: u32 = w[i - 15];
        let y: u32 = w[i - 2];
        let s0: u32 = rotate_right(x, 7) ^ rotate_right(x, 18) ^ (x >> 3);
        let s1: u32 = rotate_right(y, 17) ^ rotate_right(y, 19) ^ (y >> 10);
        w[i] = w[i - 16].wrapping_add(s0).wrapping_add(w[i - 7]).wrapping_add(s1);
        i += 1;
    }

    let mut a: u32 = state[0];
    let mut b: u32 = state[1];
    let mut c: u32 = state[2];
    let mut d: u32 = state[3];
    let mut e: u32 = state[4];
    let mut f: u32 = state[5];
    let mut g: u32 = state[6];
    let mut h: u32 = state[7];
    assert(seq![a, b, c, d, e, f, g, h] =~= state@);

    let mut t: usize = 0;
    while t < 64
        invariant
            t <= 64,
            *state == *old(state),
            forall|j: int| 0 <= j < 64 ==> w@[j] == schedule(block@, j),
            seq![a, b, c, d, e, f, g, h] == rounds(state@, block@, t as nat),
        decreases 64 - t,
    {
        let s1: u32 = rotate_right(e, 6) ^ rotate_right(e, 11) ^ rotate_right(e, 25);
        let ch: u32 = (e & f) ^ ((!e) & g);
        let temp1: u32 = h.wrapping_add(s1).wrapping_add(ch).wrapping_add(
            ROUND_CONSTANTS[t],
        ).wrapping_add(w[t]);
        let s0: u32 = rotate_right(a, 2) ^ rotate_right(a, 13) ^ rotate_right(a, 22);
        let maj: u32 = (a & b) ^ (a & c) ^ (b & c);
        let temp2: u32 = s0.wrapping_add(maj);
        proof {
            let v = seq![a, b, c, d, e, f, g, h];
            assert(round(v, ROUND_CONSTANTS@[t as int], w@[t as int]) =~= seq![
                wadd(temp1, temp2),
                a,
                b,
                c,
                wadd(d, temp1),
                e,
                f,
                g,
            ]);
        }
        h = g;
        g = f;
        f = e;
        e = d.wrapping_add(temp1);
        d = c;
        c = b;
        b = a;
        a = temp1.wrapping_add(temp2);
        t += 1;
    }

    let ghost before = state@;
    let ghost last = seq![a, b, c, d, e, f, g, h];
    state[0] = state[0].wrapping_add(a);
    state[1] = state[1].wrapping_add(b);
    state[2] = state[2].wrapping_add(c);
    state[3] = state[3].wrapping_add(d);
    state[4] = state[4].wrapping_add(e);
    state[5] = state[5].wrapping_add(f);
    state[6] = state[6].wrapping_add(g);
    state[7] = state[7].wrapping_add(h);
    assert(state@ =~= compress(before, block@)) by {
        assert forall|i: int| 0 <= i < 8 implies state@[i] == wadd(before[i], last[i]) by {}
    }
}

/// The 32-bit word that four bytes spell, most significant byte first.
pub open spec fn be_word(b0: u8, b1: u8, b2: u8, b3: u8) -> u32 {
    ((b0 as u32) << 24u32) | ((b1 as u32) << 16u32) | ((b2 as u32) << 8u32) | (b3 as u32)
}

/// The sixteen words of a 64-byte chunk.
pub open spec fn block_words(chunk: Seq<u8>) -> Seq<u32> {
    Seq::new(
        16,
        |i: int| be_word(chunk[4 * i], chunk[4 * i + 1], chunk[4 * i + 2], chunk[4 * i + 3]),
    )
}

/// Block number `k` of `data`: its bytes from `64 * k` up to `64 * (k + 1)`.
pub open spec fn block_at(data: Seq<u8>, k: int) -> Seq<u8> {
    data.subrange(64 * k, 64 * k + 64)
}

/// The state that follows `state` once the first `n` blocks of `data` are absorbed, in order.
pub open spec fn absorb(state: Seq<u32>, data: Seq<u8>, n: nat) -> Seq<u32>
    decreases n,
{
    if n == 0 {
        state
    } else {
        compress(absorb(state, data, (n - 1) as nat), block_words(block_at(data, n - 1)))
    }
}

/// The midstate of `data`: the initial state with every whole block of `data` absorbed.
pub open spec fn midstate(data: Seq<u8>) -> Seq<u32> {
    absorb(INITIAL_STATE@, data, data.len() / 64)
}

/// Reads a 64-byte chunk as sixteen big-endian words.
pub fn prepare_block(chunk: &[u8]) -> (block: [u32; 16])
    requires
        chunk@.len() == 64,
    ensures
        block@ == block_words(chunk@),
{
    let mut block: [u32; 16] = [0u32; 16];
    let mut i: usize = 0;
    while i < 16
        invariant
            i <= 16,
            chunk@.len() == 64,
            forall|j: int|
                0 <= j < i ==> block@[j] == be_word(
                    chunk@[4 * j],
                    chunk@[4 * j + 1],
                    chunk@[4 * j + 2],
                    chunk@[4 * j + 3],
                ),
        decreases 16 - i,
    {
        let b0: u8 = chunk[4 * i];
        let b1: u8 = chunk[4 * i + 1];
        let b2: u8 = chunk[4 * i + 2];
        let b3: u8 = chunk[4 * i + 3];
        block[i] = ((b0 as u32) << 24) | ((b1 as u32) << 16) | ((b2 as u32) << 8) | (b3 as u32);
        i += 1;
    }
    assert(block@ =~= block_words(chunk@));
    block
}

/// The midstate of `data`, whose length is a whole number of blocks.
pub fn compute_sha256_partial_state(data: &[u8]) -> (state: Vec<u32>)
    requires
        data@.len() % 64 == 0,
    ensures
        state@ == midstate(data@),
{
    let mut state: [u32; 8] = INITIAL_STATE;
    let blocks: usize = data.len() / SHA256_BLOCK_SIZE;
    let mut k: usize = 0;
    while k < blocks
        invariant
            k <= blocks,
            blocks == data@.len() / 64,
            data@.len() % 64 == 0,
            data@.len() <= usize::MAX,
            state@ == absorb(INITIAL_STATE@, data@, k as nat),
        decreases blocks - k,
    {
        assert(64 * (k + 1) <= data@.len()) by (nonlinear_arith)
            requires
                k < blocks,
                blocks == data@.len() / 64,
        ;
        let chunk = vstd::slice::slice_subrange(data, 64 * k, 64 * k + 64);
        assert(chunk@ == block_at(data@, k as int));
        let block = prepare_block(chunk);
        sha256_compress(&mut state, &block);
        k += 1;
    }
    let mut out: Vec<u32> = Vec::new();
    let mut i: usize = 0;
    while i < 8
        invariant
            i <= 8,
            out@ == state@.subrange(0, i as int),
        decreases 8 - i,
    {
        out.push(state[i]);
        assert(state@.subrange(0, i as int).push(state@[i as int]) =~= state@.subrange(
            0,
            i + 1,
        ));
        i += 1;
    }
    assert(out@ =~= state@);
    out
}

} // verus!
