//! Packing of a `(parent, child)` bounty-id pair into one `u64` key.
//!
//! The iterating stages resume after the last visited key, so every stage
//! needs a totally ordered key space.  Stages keyed by a single id use the
//! id itself (widened to `u64`); stages keyed by a pair use the parent id
//! in the high half and the child id in the low half, which makes the
//! numeric order on `u64` coincide with the lexicographic order on pairs.

use vstd::prelude::*;

verus! {

use vstd::arithmetic::div_mod::{lemma_fundamental_div_mod, lemma_fundamental_div_mod_converse};

/// Number of distinct values of a `u32` id: one more than the largest id.
pub const ID_SPACE: u64 = 0x1_0000_0000;

/// The `u64` key standing for the pair `(parent_id, child_id)`.
pub open spec fn pack_key(parent_id: u32, child_id: u32) -> u64 {
    ((parent_id as int) * (ID_SPACE as int) + (child_id as int)) as u64
}

/// The parent id held in the high half of a packed key.
pub open spec fn unpack_parent(k: u64) -> u32 {
    ((k as int) / (ID_SPACE as int)) as u32
}

/// The child id held in the low half of a packed key.
pub open spec fn unpack_child(k: u64) -> u32 {
    ((k as int) % (ID_SPACE as int)) as u32
}

/// Packing fits in a `u64` and is undone exactly by unpacking.
pub proof fn lemma_pack_unpack(parent_id: u32, child_id: u32)
    ensures
        pack_key(parent_id, child_id) as int
            == (parent_id as int) * (ID_SPACE as int) + (child_id as int),
        unpack_parent(pack_key(parent_id, child_id)) == parent_id,
        unpack_child(pack_key(parent_id, child_id)) == child_id,
{
    let p = parent_id as int;
    let c = child_id as int;
    let d = ID_SPACE as int;
    assert(p * d <= 0xFFFF_FFFF * d) by (nonlinear_arith)
        requires p <= 0xFFFF_FFFF, d > 0;
    assert(p * d >= 0) by (nonlinear_arith)
        requires p >= 0, d > 0;
    lemma_fundamental_div_mod_converse(p * d + c, d, p, c);
}

/// Every `u64` key is the packing of its own two halves.
pub proof fn lemma_unpack_pack(k: u64)
    ensures
        pack_key(unpack_parent(k), unpack_child(k)) == k,
        (k as int) / (ID_SPACE as int) < ID_SPACE as int,
        0 <= (k as int) % (ID_SPACE as int) < ID_SPACE as int,
{
    let d = ID_SPACE as int;
    lemma_fundamental_div_mod(k as int, d);
    let q = (k as int) / d;
    let r = (k as int) % d;
    assert(q < d) by (nonlinear_arith)
        requires k as int == q * d + r, 0 <= r, k <= 0xFFFF_FFFF_FFFF_FFFF, d == 0x1_0000_0000;
    assert(q >= 0) by (nonlinear_arith)
        requires k as int == q * d + r, r < d, k >= 0, d > 0;
}

/// Computes the key standing for `(parent_id, child_id)`.
pub fn pack_ids(parent_id: u32, child_id: u32) -> (k: u64)
    ensures
        k == pack_key(parent_id, child_id),
{
    proof {
        lemma_pack_unpack(parent_id, child_id);
    }
    (parent_id as u64) * ID_SPACE + (child_id as u64)
}

/// Recovers the `(parent_id, child_id)` pair a key stands for.
pub fn unpack_ids(k: u64) -> (ids: (u32, u32))
    ensures
        ids.0 == unpack_parent(k),
        ids.1 == unpack_child(k),
        pack_key(ids.0, ids.1) == k,
{
    proof {
        lemma_unpack_pack(k);
    }
    ((k / ID_SPACE) as u32, (k % ID_SPACE) as u32)
}

} // verus!
