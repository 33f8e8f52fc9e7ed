//! The outgoing messages and the record payloads they carry.
//!
//! Every consumed record becomes exactly one message; the singleton
//! counter stage contributes one message of its own.  A message's position
//! in the whole migration is the pair of its stage's rank and its key,
//! which is what the ordering guarantees are stated over.

use vstd::prelude::*;

verus! {

use crate::keys::pack_key;
use crate::stage::BountyIndex;

/// Amount of currency, as the treasury accounts it.
pub type Balance = u128;

/// Identifier of an account, reduced to its numeric form.
pub type AccountId = u64;

/// Height of a block, used for payout unlock times.
pub type BlockNumber = u32;

/// The lifecycle state a child bounty is in when it is migrated.
#[derive(Clone, Debug, PartialEq, Eq)]
pub enum ChildBountyStatus {
    Added,
    CuratorProposed { curator: AccountId },
    Active { curator: AccountId },
    PendingPayout { curator: AccountId, beneficiary: AccountId, unlock_at: BlockNumber },
}

/// A child bounty record, the payload of the main iterating stage.
#[derive(Clone, Debug, PartialEq, Eq)]
pub struct ChildBounty {
    /// The parent of this child bounty.
    pub parent_bounty: BountyIndex,
    /// The (total) amount that should be paid if this child bounty is rewarded.
    pub value: Balance,
    /// The child bounty curator fee.
    pub fee: Balance,
    /// The deposit of the child bounty curator.
    pub curator_deposit: Balance,
    /// The status of this child bounty.
    pub status: ChildBountyStatus,
}

/// Child bounties data message, one per unit of migration work that
/// produced output.
#[derive(Clone, Debug, PartialEq, Eq)]
pub enum RcChildBountiesMessage {
    ChildBountyCount(BountyIndex),
    ParentChildBounties(BountyIndex, u32),
    ParentTotalChildBounties(BountyIndex, u32),
    ChildBounty { parent_id: BountyIndex, child_id: BountyIndex, child_bounty: ChildBounty },
    ChildBountyDescriptionsV1 { parent_id: BountyIndex, child_id: BountyIndex, description: Vec<u8> },
    V0ToV1ChildBountyIds { v0_child_id: BountyIndex, parent_id: BountyIndex, v1_child_id: BountyIndex },
    ChildrenCuratorFees { child_id: BountyIndex, amount: Balance },
}

/// Rank of the stage a message belongs to.
pub open spec fn message_rank(m: RcChildBountiesMessage) -> int {
    match m {
        RcChildBountiesMessage::ChildBountyCount(..) => 0,
        RcChildBountiesMessage::ParentChildBounties(..) => 1,
        RcChildBountiesMessage::ParentTotalChildBounties(..) => 1,
        RcChildBountiesMessage::ChildBounty { .. } => 2,
        RcChildBountiesMessage::ChildBountyDescriptionsV1 { .. } => 3,
        RcChildBountiesMessage::V0ToV1ChildBountyIds { .. } => 4,
        RcChildBountiesMessage::ChildrenCuratorFees { .. } => 5,
    }
}

/// Key of the record a message was produced from, within its stage.
pub open spec fn message_key(m: RcChildBountiesMessage) -> int {
    match m {
        RcChildBountiesMessage::ChildBountyCount(..) => 0,
        RcChildBountiesMessage::ParentChildBounties(id, _) => id as int,
        RcChildBountiesMessage::ParentTotalChildBounties(id, _) => id as int,
        RcChildBountiesMessage::ChildBounty { parent_id, child_id, .. } => pack_key(
            parent_id,
            child_id,
        ) as int,
        RcChildBountiesMessage::ChildBountyDescriptionsV1 { parent_id, child_id, .. } => pack_key(
            parent_id,
            child_id,
        ) as int,
        RcChildBountiesMessage::V0ToV1ChildBountyIds { v0_child_id, .. } => v0_child_id as int,
        RcChildBountiesMessage::ChildrenCuratorFees { child_id, .. } => child_id as int,
    }
}

/// Strict stage-then-key order on messages.
pub open spec fn message_lt(m1: RcChildBountiesMessage, m2: RcChildBountiesMessage) -> bool {
    ||| message_rank(m1) < message_rank(m2)
    ||| (message_rank(m1) == message_rank(m2) && message_key(m1) < message_key(m2))
}

} // verus!
