//! Where to end the prefix that is hashed ahead of the circuit.
//!
//! The split must fall on a block boundary, before the position that the
//! circuit has to see, and late enough that what is left fits the circuit.

use vstd::prelude::*;

verus! {

/// Whether `m` is a block boundary: a multiple of 64.
pub open spec fn is_boundary(m: nat) -> bool {
    m % 64 == 0
}

/// The greatest multiple of 64 that is not above `n`.
pub open spec fn block_floor(n: nat) -> nat {
    ((n / 64) * 64) as nat
}

/// The split for a header of which at least `min_split` bytes have to be
/// hashed ahead and whose byte `from_pos` has to stay visible, if there is one.
///
/// Where `from_pos` lies above `min_split`, the split is the last block
/// boundary before `from_pos`, unless that falls short of `min_split`.
/// Where `from_pos` lies at or below `min_split`, no boundary can serve both
/// ends; the split is then the last boundary at or below `min_split`, as long
/// as it lies before `from_pos`. In that case the split is below `min_split`,
/// and what is left over is longer than the capacity that `min_split` was
/// computed from: the capacity is deliberately not checked again there.
pub open spec fn split_point(min_split: nat, from_pos: nat) -> Option<nat> {
    if from_pos <= min_split {
        if block_floor(min_split) >= from_pos {
            None
        } else {
            Some(block_floor(min_split))
        }
    } else {
        if block_floor((from_pos - 1) as nat) < min_split {
            None
        } else {
            Some(block_floor((from_pos - 1) as nat))
        }
    }
}

/// Computes the split; `None` where there is none. A split of zero is a
/// split like any other and never stands for a failure.
pub fn calculate_split_point(min_split: usize, from_pos: usize) -> (split: Option<usize>)
    ensures
        match split {
            Some(s) => split_point(min_split as nat, from_pos as nat) == Some(s as nat),
            None => split_point(min_split as nat, from_pos as nat).is_none(),
        },
{
    if from_pos <= min_split {
        let split: usize = (min_split / 64) * 64;
        if split >= from_pos {
            None
        } else {
            Some(split)
        }
    } else {
        let max_split: usize = from_pos - 1;
        let split: usize = (max_split / 64) * 64;
        if split < min_split {
            None
        } else {
            Some(split)
        }
    }
}

/// A split, where there is one, falls on a block boundary and before the
/// position that has to stay visible.
pub proof fn lemma_split_aligned_before_position(min_split: nat, from_pos: nat)
    requires
        split_point(min_split, from_pos).is_some(),
    ensures
        split_point(min_split, from_pos).unwrap() % 64 == 0,
        split_point(min_split, from_pos).unwrap() < from_pos,
{
    lemma_block_floor(min_split);
    if from_pos > 0 {
        lemma_block_floor((from_pos - 1) as nat);
    }
}

/// Where the position to keep lies above `min_split`, the split is the
/// greatest block boundary before that position, and it exists exactly when
/// some block boundary lies in the range from `min_split` up to the position.
pub proof fn lemma_split_above_min(min_split: nat, from_pos: nat)
    requires
        min_split < from_pos,
    ensures
        split_point(min_split, from_pos) matches Some(s) ==> min_split <= s < from_pos
            && is_boundary(s) && forall|m: nat| #[trigger] is_boundary(m) && m < from_pos ==> m <= s,
        split_point(min_split, from_pos).is_none() ==> forall|m: nat| #[trigger]
            is_boundary(m) ==> !(min_split <= m < from_pos),
{
    let top = (from_pos - 1) as nat;
    lemma_block_floor(top);
    assert forall|m: nat| #[trigger] is_boundary(m) && m < from_pos implies m <= block_floor(
        top,
    ) by {
        lemma_block_floor_greatest(top, m);
    }
}

/// Where the position to keep lies at or below `min_split`, no block boundary
/// is both at or above `min_split` and before the position.
pub proof fn lemma_no_split_at_or_below_min(min_split: nat, from_pos: nat)
    requires
        from_pos <= min_split,
    ensures
        forall|m: nat| #[trigger] is_boundary(m) ==> !(min_split <= m < from_pos),
        split_point(min_split, from_pos) matches Some(s) ==> s < min_split,
{
    lemma_block_floor(min_split);
}

/// `block_floor(n)` is a multiple of 64 within 63 of `n`.
pub proof fn lemma_block_floor(n: nat)
    ensures
        block_floor(n) % 64 == 0,
        block_floor(n) <= n < block_floor(n) + 64,
{
    assert(((n / 64) * 64) % 64 == 0 && (n / 64) * 64 <= n < (n / 64) * 64 + 64)
        by (nonlinear_arith);
}

/// No multiple of 64 lies above `block_floor(n)` and at or below `n`.
pub proof fn lemma_block_floor_greatest(n: nat, m: nat)
    requires
        m % 64 == 0,
        m <= n,
    ensures
        m <= block_floor(n),
{
    assert(m <= (n / 64) * 64) by (nonlinear_arith)
        requires
            m % 64 == 0,
            m <= n,
    ;
}

} // verus!
