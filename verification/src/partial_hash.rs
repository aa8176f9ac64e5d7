//! Hashing a prefix of the header ahead of the circuit: the midstate after
//! the prefix, and the rest of the header that the circuit hashes itself.

use crate::error::EmailError;
use crate::locator::{find_from_header_position, from_header_position, lemma_position_is_first};
use crate::planner::{calculate_split_point, lemma_split_aligned_before_position, split_point};
use crate::planner::block_floor;
use crate::sha256::{absorb, block_at, compute_sha256_partial_state, midstate, INITIAL_STATE};
use vstd::prelude::*;

verus! {

/// What a `PartialHashResult` stands for.
pub struct PartialHash {
    /// The SHA-256 state after the prefix: eight words.
    pub state: Seq<u32>,
    /// The bytes after the prefix.
    pub remaining: Seq<u8>,
    /// The length of the whole header, in bytes.
    pub total_length: nat,
    /// The length of the prefix, in bytes.
    pub prehashed_length: nat,
}

impl PartialHash {
    /// The prefix is a whole number of blocks, and prefix and rest make up the header.
    pub open spec fn is_consistent(self) -> bool {
        &&& self.state.len() == 8
        &&& self.prehashed_length % 64 == 0
        &&& self.total_length == self.prehashed_length + self.remaining.len()
    }
}

/// A header split into a hashed prefix and the rest.
#[derive(Clone, Debug)]
pub struct PartialHashResult {
    state: Vec<u32>,
    remaining: Vec<u8>,
    total_length: u64,
    prehashed_length: u64,
}

impl View for PartialHashResult {
    type V = PartialHash;

    closed spec fn view(&self) -> PartialHash {
        PartialHash {
            state: self.state@,
            remaining: self.remaining@,
            total_length: self.total_length as nat,
            prehashed_length: self.prehashed_length as nat,
        }
    }
}

impl PartialHashResult {
    /// The SHA-256 state after the prefix.
    pub fn state(&self) -> (r: Vec<u32>)
        ensures
            r@ == self@.state,
    {
        let r = self.state.clone();
        assert(r@ =~= self.state@);
        r
    }

    /// The bytes that are left for the circuit.
    pub fn remaining(&self) -> (r: Vec<u8>)
        ensures
            r@ == self@.remaining,
    {
        let r = self.remaining.clone();
        assert(r@ =~= self.remaining@);
        r
    }

    /// The length of the whole header.
    pub fn total_length(&self) -> (r: u64)
        ensures
            r == self@.total_length,
    {
        self.total_length
    }

    /// The length of the hashed prefix.
    pub fn prehashed_length(&self) -> (r: u64)
        ensures
            r == self@.prehashed_length,
    {
        self.prehashed_length
    }
}

/// The split of `header` for a circuit that takes at most `capacity` bytes.
///
/// A header within the capacity is left whole, with the initial state.
/// A longer one is split before its `From:` header, at the block boundary
/// that `split_point` gives.
pub open spec fn partial_hash(header: Seq<u8>, capacity: nat) -> Result<PartialHash, EmailError> {
    if header.len() <= capacity {
        Ok(
            PartialHash {
                state: INITIAL_STATE@,
                remaining: header,
                total_length: header.len(),
                prehashed_length: 0,
            },
        )
    } else {
        match from_header_position(header) {
            None => Err(EmailError::FromHeaderNotFound),
            Some(position) => match split_point(
                (header.len() - capacity) as nat,
                position as nat,
            ) {
                None => Err(EmailError::Unsplittable),
                Some(split) => Ok(
                    PartialHash {
                        state: midstate(header.subrange(0, split as int)),
                        remaining: header.subrange(split as int, header.len() as int),
                        total_length: header.len(),
                        prehashed_length: split,
                    },
                ),
            },
        }
    }
}

/// Splits `header_bytes` for a circuit that takes at most `max_remaining_len`
/// bytes, and hashes the prefix.
pub fn compute_partial_hash_for_email(header_bytes: &[u8], max_remaining_len: usize) -> (result:
    Result<PartialHashResult, EmailError>)
    ensures
        match result {
            Ok(hash) => partial_hash(header_bytes@, max_remaining_len as nat) == Ok::<
                PartialHash,
                EmailError,
            >(hash@),
            Err(e) => partial_hash(header_bytes@, max_remaining_len as nat) == Err::<
                PartialHash,
                EmailError,
            >(e),
        },
        result matches Ok(hash) ==> hash@.is_consistent(),
{
    proof {
        if partial_hash(header_bytes@, max_remaining_len as nat).is_ok() {
            lemma_split_is_sound(header_bytes@, max_remaining_len as nat);
        }
    }
    let header_len: usize = header_bytes.len();
    if header_len <= max_remaining_len {
        let mut state: Vec<u32> = Vec::new();
        let mut i: usize = 0;
        while i < 8
            invariant
                i <= 8,
                state@ == INITIAL_STATE@.subrange(0, i as int),
            decreases 8 - i,
        {
            state.push(INITIAL_STATE[i]);
            assert(INITIAL_STATE@.subrange(0, i as int).push(INITIAL_STATE@[i as int])
                =~= INITIAL_STATE@.subrange(0, i + 1));
            i += 1;
        }
        assert(state@ =~= INITIAL_STATE@);
        return Ok(
            PartialHashResult {
                state,
                remaining: vstd::slice::slice_to_vec(header_bytes),
                total_length: header_len as u64,
                prehashed_length: 0,
            },
        );
    }
    let from_pos: usize = match find_from_header_position(header_bytes) {
        Some(p) => p,
        None => {
            return Err(EmailError::FromHeaderNotFound);
        },
    };
    let min_split: usize = header_len - max_remaining_len;
    let split_point: usize = match calculate_split_point(min_split, from_pos) {
        Some(s) => s,
        None => {
            return Err(EmailError::Unsplittable);
        },
    };
    proof {
        lemma_position_is_first(header_bytes@, 0);
        lemma_split_aligned_before_position(min_split as nat, from_pos as nat);
    }
    let prefix = vstd::slice::slice_subrange(header_bytes, 0, split_point);
    let state = compute_sha256_partial_state(prefix);
    let rest = vstd::slice::slice_subrange(header_bytes, split_point, header_len);
    Ok(
        PartialHashResult {
            state,
            remaining: vstd::slice::slice_to_vec(rest),
            total_length: header_len as u64,
            prehashed_length: split_point as u64,
        },
    )
}

/// The number of zero bytes in the padding of a message of `len` bytes.
pub open spec fn zero_fill(len: nat) -> nat {
    ((119 - (len % 64)) % 64) as nat
}

/// The length of a message of `len` bytes, in bits and modulo 2^64, as eight
/// bytes with the most significant first.
pub open spec fn length_suffix(len: nat) -> Seq<u8> {
    let bits = ((len * 8) % 0x1_0000_0000_0000_0000) as u64;
    seq![
        ((bits >> 56u64) & 0xff) as u8,
        ((bits >> 48u64) & 0xff) as u8,
        ((bits >> 40u64) & 0xff) as u8,
        ((bits >> 32u64) & 0xff) as u8,
        ((bits >> 24u64) & 0xff) as u8,
        ((bits >> 16u64) & 0xff) as u8,
        ((bits >> 8u64) & 0xff) as u8,
        (bits & 0xff) as u8,
    ]
}

/// What SHA-256 appends to a message of `len` bytes: the byte `0x80`, zero
/// bytes up to eight short of a block boundary, and the length.
pub open spec fn padding(len: nat) -> Seq<u8> {
    seq![0x80u8] + Seq::new(zero_fill(len), |i: int| 0u8) + length_suffix(len)
}

/// The SHA-256 digest of `message`, as eight words.
pub open spec fn sha256(message: Seq<u8>) -> Seq<u32> {
    midstate(message + padding(message.len()))
}

/// The digest that comes of resuming at `hash`: its rest, padded for the
/// length of the whole header, absorbed into its state.
pub open spec fn resume(hash: PartialHash) -> Seq<u32> {
    let tail = hash.remaining + padding(hash.total_length);
    absorb(hash.state, tail, tail.len() / 64)
}

/// A header within the capacity is not split: nothing is hashed ahead, the
/// state is the initial one and the whole header is left.
pub proof fn lemma_short_header_is_left_whole(header: Seq<u8>, capacity: nat)
    requires
        header.len() <= capacity,
    ensures
        partial_hash(header, capacity) == Ok::<PartialHash, EmailError>(
            PartialHash {
                state: INITIAL_STATE@,
                remaining: header,
                total_length: header.len(),
                prehashed_length: 0,
            },
        ),
{
}

/// Every split is consistent, ends before the `From:` header, and leaves the
/// header's bytes in place. Where the `From:` header lies beyond the part
/// that the capacity forces ahead, what is left also fits the capacity.
pub proof fn lemma_split_is_sound(header: Seq<u8>, capacity: nat)
    requires
        partial_hash(header, capacity).is_ok(),
    ensures
        ({
            let hash = partial_hash(header, capacity).unwrap();
            &&& hash.is_consistent()
            &&& hash.total_length == header.len()
            &&& hash.remaining == header.subrange(
                hash.prehashed_length as int,
                header.len() as int,
            )
            &&& hash.state == midstate(header.subrange(0, hash.prehashed_length as int))
            &&& header.len() > capacity ==> (from_header_position(header) matches Some(p)
                && hash.prehashed_length < p && (header.len() - capacity < p
                ==> hash.remaining.len() <= capacity))
        }),
{
    if header.len() <= capacity {
        assert(header.subrange(0, header.len() as int) =~= header);
        assert(midstate(header.subrange(0, 0)) == INITIAL_STATE@);
        assert(INITIAL_STATE@.len() == 8);
    } else {
        let p = from_header_position(header).unwrap();
        lemma_position_is_first(header, 0);
        let min_split = (header.len() - capacity) as nat;
        lemma_split_aligned_before_position(min_split, p as nat);
        let split = split_point(min_split, p as nat).unwrap();
        lemma_midstate_length(header.subrange(0, split as int));
        if min_split < p {
            crate::planner::lemma_split_above_min(min_split, p as nat);
        }
    }
}

/// Resuming from the split gives the digest of the whole header: standard
/// padding and finalization, continued from the midstate over the rest,
/// equal SHA-256 of the header word for word.
pub proof fn lemma_resume_gives_full_digest(header: Seq<u8>, capacity: nat)
    requires
        partial_hash(header, capacity).is_ok(),
    ensures
        resume(partial_hash(header, capacity).unwrap()) == sha256(header),
{
    let hash = partial_hash(header, capacity).unwrap();
    lemma_split_is_sound(header, capacity);
    let split = hash.prehashed_length as int;
    let prefix = header.subrange(0, split);
    let pad = padding(header.len());
    let tail = hash.remaining + pad;
    lemma_padding_fills_block(header.len());
    assert(header + pad =~= prefix + tail);
    let m = (split / 64) as nat;
    let n = (tail.len() / 64) as nat;
    assert(prefix.len() == 64 * m);
    assert(tail.len() == 64 * n);
    assert((prefix + tail).len() / 64 == m + n);
    lemma_absorb_in_two_parts(INITIAL_STATE@, prefix, tail, m, n);
}

/// A header longer than the capacity, whose `From:` header begins within the
/// part that the capacity forces ahead, and at or before the last block
/// boundary of that part, cannot be split.
pub proof fn lemma_early_header_is_unsplittable(header: Seq<u8>, capacity: nat, position: int)
    requires
        header.len() > capacity,
        from_header_position(header) == Some(position),
        position <= header.len() - capacity,
        position <= block_floor((header.len() - capacity) as nat),
    ensures
        partial_hash(header, capacity) == Err::<PartialHash, EmailError>(EmailError::Unsplittable),
{
    lemma_position_is_first(header, 0);
}

/// A header longer than the capacity that holds no `From:` header is refused.
pub proof fn lemma_missing_header_is_refused(header: Seq<u8>, capacity: nat)
    requires
        header.len() > capacity,
        from_header_position(header).is_none(),
    ensures
        partial_hash(header, capacity) == Err::<PartialHash, EmailError>(EmailError::FromHeaderNotFound),
{
}

/// A padded message is a whole number of blocks.
pub proof fn lemma_padding_fills_block(len: nat)
    ensures
        padding(len).len() == 9 + zero_fill(len),
        (len + padding(len).len()) % 64 == 0,
{
}

/// A state of eight words stays one, however many blocks are absorbed.
pub proof fn lemma_absorb_length(state: Seq<u32>, data: Seq<u8>, n: nat)
    requires
        state.len() == 8,
    ensures
        absorb(state, data, n).len() == 8,
    decreases n,
{
    if n > 0 {
        lemma_absorb_length(state, data, (n - 1) as nat);
    }
}

/// A midstate has eight words.
pub proof fn lemma_midstate_length(data: Seq<u8>)
    ensures
        midstate(data).len() == 8,
{
    assert(INITIAL_STATE@.len() == 8);
    lemma_absorb_length(INITIAL_STATE@, data, data.len() / 64);
}

/// Absorbing the first blocks of `data` reads no byte beyond them.
pub proof fn lemma_absorb_reads_prefix(state: Seq<u32>, a: Seq<u8>, b: Seq<u8>, n: nat)
    requires
        64 * n <= a.len(),
        64 * n <= b.len(),
        a.subrange(0, 64 * n as int) == b.subrange(0, 64 * n as int),
    ensures
        absorb(state, a, n) == absorb(state, b, n),
    decreases n,
{
    if n > 0 {
        let end = 64 * n as int;
        let k = n - 1;
        assert(a.subrange(0, 64 * k) =~= a.subrange(0, end).subrange(0, 64 * k));
        assert(b.subrange(0, 64 * k) =~= b.subrange(0, end).subrange(0, 64 * k));
        lemma_absorb_reads_prefix(state, a, b, k as nat);
        assert(block_at(a, k) =~= a.subrange(0, end).subrange(64 * k, 64 * k + 64));
        assert(block_at(b, k) =~= b.subrange(0, end).subrange(64 * k, 64 * k + 64));
    }
}

/// Absorbing `m + n` blocks of `a + b`, where `a` is `m` blocks long, is
/// absorbing `a` and then `n` blocks of `b`.
pub proof fn lemma_absorb_in_two_parts(state: Seq<u32>, a: Seq<u8>, b: Seq<u8>, m: nat, n: nat)
    requires
        a.len() == 64 * m,
        64 * n <= b.len(),
    ensures
        absorb(state, a + b, m + n) == absorb(absorb(state, a, m), b, n),
    decreases n,
{
    if n == 0 {
        assert((a + b).subrange(0, 64 * m as int) =~= a.subrange(0, 64 * m as int));
        lemma_absorb_reads_prefix(state, a + b, a, m);
    } else {
        let k = n - 1;
        lemma_absorb_in_two_parts(state, a, b, m, k as nat);
        assert(block_at(a + b, m + k) =~= block_at(b, k));
        assert((m + n - 1) as nat == m + k);
    }
}

} // verus!
