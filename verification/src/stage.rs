//! The migration cursor: a stage tag plus the last visited key.
//!
//! The stage sequence is fixed and strictly ordered.  A cursor never
//! regresses: each unit of work either consumes a record with a larger key
//! in the same stage or moves to the next stage of the sequence.

use vstd::prelude::*;

verus! {

use crate::keys::{pack_key, unpack_child, unpack_parent};

/// Index of a bounty, unique within its stage's key space.
pub type BountyIndex = u32;

/// Stages that the `ChildBountiesMigrator` goes through in linear order.
///
/// Each iterating variant carries the last visited key, or `None` at the
/// start of the stage; `Finished` is the terminal stage and accepts no
/// further work.
#[derive(Clone, Copy, Debug, PartialEq, Eq)]
pub enum ChildBountiesStage {
    ChildBountyCount,
    ParentChildBounties { parent_id: Option<BountyIndex> },
    ChildBounties { ids: Option<(BountyIndex, BountyIndex)> },
    ChildBountyDescriptionsV1 { ids: Option<(BountyIndex, BountyIndex)> },
    V0ToV1ChildBountyIds { child_id: Option<BountyIndex> },
    ChildrenCuratorFees { child_id: Option<BountyIndex> },
    Finished,
}

impl Default for ChildBountiesStage {
    /// A migration that has never run starts at the child-bounty counter.
    fn default() -> (s: Self)
        ensures
            s == ChildBountiesStage::ChildBountyCount,
    {
        ChildBountiesStage::ChildBountyCount
    }
}

/// Position of a stage in the fixed sequence.
pub open spec fn stage_rank(c: ChildBountiesStage) -> int {
    match c {
        ChildBountiesStage::ChildBountyCount => 0,
        ChildBountiesStage::ParentChildBounties { .. } => 1,
        ChildBountiesStage::ChildBounties { .. } => 2,
        ChildBountiesStage::ChildBountyDescriptionsV1 { .. } => 3,
        ChildBountiesStage::V0ToV1ChildBountyIds { .. } => 4,
        ChildBountiesStage::ChildrenCuratorFees { .. } => 5,
        ChildBountiesStage::Finished => 6,
    }
}

/// The last visited key a cursor carries, as a `u64` store key.
pub open spec fn stage_after(c: ChildBountiesStage) -> Option<u64> {
    match c {
        ChildBountiesStage::ChildBountyCount => None,
        ChildBountiesStage::ParentChildBounties { parent_id } => match parent_id {
            Some(p) => Some(p as u64),
            None => None,
        },
        ChildBountiesStage::ChildBounties { ids } => match ids {
            Some((p, ch)) => Some(pack_key(p, ch)),
            None => None,
        },
        ChildBountiesStage::ChildBountyDescriptionsV1 { ids } => match ids {
            Some((p, ch)) => Some(pack_key(p, ch)),
            None => None,
        },
        ChildBountiesStage::V0ToV1ChildBountyIds { child_id } => match child_id {
            Some(ch) => Some(ch as u64),
            None => None,
        },
        ChildBountiesStage::ChildrenCuratorFees { child_id } => match child_id {
            Some(ch) => Some(ch as u64),
            None => None,
        },
        ChildBountiesStage::Finished => None,
    }
}

/// The cursor of the iterating stage of rank `r` whose last visited key is `k`.
pub open spec fn cursor_at(r: int, k: u64) -> ChildBountiesStage {
    if r == 1 {
        ChildBountiesStage::ParentChildBounties { parent_id: Some(k as u32) }
    } else if r == 2 {
        ChildBountiesStage::ChildBounties { ids: Some((unpack_parent(k), unpack_child(k))) }
    } else if r == 3 {
        ChildBountiesStage::ChildBountyDescriptionsV1 {
            ids: Some((unpack_parent(k), unpack_child(k))),
        }
    } else if r == 4 {
        ChildBountiesStage::V0ToV1ChildBountyIds { child_id: Some(k as u32) }
    } else if r == 5 {
        ChildBountiesStage::ChildrenCuratorFees { child_id: Some(k as u32) }
    } else {
        ChildBountiesStage::Finished
    }
}

/// The cursor at the start of the stage of rank `r`, before any key.
pub open spec fn stage_start(r: int) -> ChildBountiesStage {
    if r == 0 {
        ChildBountiesStage::ChildBountyCount
    } else if r == 1 {
        ChildBountiesStage::ParentChildBounties { parent_id: None }
    } else if r == 2 {
        ChildBountiesStage::ChildBounties { ids: None }
    } else if r == 3 {
        ChildBountiesStage::ChildBountyDescriptionsV1 { ids: None }
    } else if r == 4 {
        ChildBountiesStage::V0ToV1ChildBountyIds { child_id: None }
    } else if r == 5 {
        ChildBountiesStage::ChildrenCuratorFees { child_id: None }
    } else {
        ChildBountiesStage::Finished
    }
}

/// The cursor an invocation works from: the persisted one, or the first
/// stage when none was persisted yet.
pub open spec fn start_cursor(last: Option<ChildBountiesStage>) -> ChildBountiesStage {
    match last {
        Some(k) => k,
        None => ChildBountiesStage::ChildBountyCount,
    }
}

/// A cursor's key position within its stage: before all keys, or at one.
pub open spec fn after_position(a: Option<u64>) -> int {
    match a {
        None => -1,
        Some(k) => k as int,
    }
}

/// The stage-then-key total order on cursors.
pub open spec fn cursor_le(c1: ChildBountiesStage, c2: ChildBountiesStage) -> bool {
    ||| stage_rank(c1) < stage_rank(c2)
    ||| (stage_rank(c1) == stage_rank(c2)
        && after_position(stage_after(c1)) <= after_position(stage_after(c2)))
}

} // verus!
