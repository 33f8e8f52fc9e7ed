//! The mathematical model of the migration.
//!
//! `StoreModel` is the abstract source store: the counter of the singleton
//! stage plus, for each iterating stage, the key-ordered entries still to
//! be consumed, each already paired with the message its consumption
//! emits.  `step_spec` is one unit of work, `drive` is one budgeted
//! invocation, and `run_all` is the whole remaining migration; every
//! guarantee of the library is stated over these three functions.

use vstd::prelude::*;

verus! {

use crate::keys::ID_SPACE;
use crate::messages::{message_key, message_rank, RcChildBountiesMessage};
use crate::ordered_map::{entries_sorted, find_next, lemma_find_next_props};
use crate::stage::{cursor_at, stage_after, stage_rank, stage_start, ChildBountiesStage};

/// Hard ceiling on the number of messages buffered by one invocation,
/// independent of budget accounting.
pub const MAX_MESSAGES: usize = 10000;

/// The abstract source store.
#[verifier::ext_equal]
pub ghost struct StoreModel {
    /// Value of the child-bounty counter, consumed by the singleton stage.
    pub count: u32,
    /// Entries of the `ParentChildBounties` stage.
    pub parents: Seq<(u64, RcChildBountiesMessage)>,
    /// Entries of the `ChildBounties` stage.
    pub bounties: Seq<(u64, RcChildBountiesMessage)>,
    /// Entries of the `ChildBountyDescriptionsV1` stage.
    pub descriptions: Seq<(u64, RcChildBountiesMessage)>,
    /// Entries of the `V0ToV1ChildBountyIds` stage.
    pub id_mappings: Seq<(u64, RcChildBountiesMessage)>,
    /// Entries of the `ChildrenCuratorFees` stage.
    pub fees: Seq<(u64, RcChildBountiesMessage)>,
}

/// The entries of the iterating stage of rank `r`.
pub open spec fn entries_of(s: StoreModel, r: int) -> Seq<(u64, RcChildBountiesMessage)> {
    if r == 1 {
        s.parents
    } else if r == 2 {
        s.bounties
    } else if r == 3 {
        s.descriptions
    } else if r == 4 {
        s.id_mappings
    } else if r == 5 {
        s.fees
    } else {
        Seq::empty()
    }
}

/// The store with the entries of rank `r` replaced by `es`.
pub open spec fn set_entries(
    s: StoreModel,
    r: int,
    es: Seq<(u64, RcChildBountiesMessage)>,
) -> StoreModel {
    if r == 1 {
        StoreModel { parents: es, ..s }
    } else if r == 2 {
        StoreModel { bounties: es, ..s }
    } else if r == 3 {
        StoreModel { descriptions: es, ..s }
    } else if r == 4 {
        StoreModel { id_mappings: es, ..s }
    } else if r == 5 {
        StoreModel { fees: es, ..s }
    } else {
        s
    }
}

/// A single-id stage holds keys that fit a `u32`; a pair stage may use the
/// whole packed key space.
pub open spec fn rank_key_ok(r: int, k: u64) -> bool {
    (r == 1 || r == 4 || r == 5) ==> k < ID_SPACE
}

/// The entries of rank `r` are sorted, hold keys of the stage's key
/// space, and each carries the message of its own stage and key.
pub open spec fn stage_entries_wf(es: Seq<(u64, RcChildBountiesMessage)>, r: int) -> bool {
    &&& entries_sorted(es)
    &&& forall|j: int|
        0 <= j < es.len() ==> {
            &&& message_rank((#[trigger] es[j]).1) == r
            &&& message_key(es[j].1) == es[j].0 as int
            &&& rank_key_ok(r, es[j].0)
        }
}

/// Well-formedness of the abstract store.
pub open spec fn store_wf(s: StoreModel) -> bool {
    forall|r: int| 1 <= r <= 5 ==> stage_entries_wf(#[trigger] entries_of(s, r), r)
}

/// Outcome of one unit of work.
pub ghost struct StepOut {
    /// The advanced cursor.
    pub cursor: ChildBountiesStage,
    /// The store after the unit, with at most one entry consumed.
    pub store: StoreModel,
    /// The message the unit emitted, if it emitted one.
    pub msg: Option<RcChildBountiesMessage>,
}

/// One unit of an iterating stage: consume the first entry after the
/// cursor's key and stay, or move on to the next stage.
pub open spec fn iter_step(s: StoreModel, r: int, a: Option<u64>) -> StepOut {
    let es = entries_of(s, r);
    let i = find_next(es, a);
    if i < es.len() {
        StepOut {
            cursor: cursor_at(r, es[i].0),
            store: set_entries(s, r, es.remove(i)),
            msg: Some(es[i].1),
        }
    } else {
        StepOut { cursor: stage_start(r + 1), store: s, msg: None }
    }
}

/// One unit of work from cursor `c`: the contract of stage advancement.
pub open spec fn step_spec(c: ChildBountiesStage, s: StoreModel) -> StepOut {
    match c {
        ChildBountiesStage::ChildBountyCount => StepOut {
            cursor: ChildBountiesStage::ParentChildBounties { parent_id: None },
            store: StoreModel { count: 0, ..s },
            msg: Some(RcChildBountiesMessage::ChildBountyCount(s.count)),
        },
        ChildBountiesStage::ParentChildBounties { .. } => iter_step(s, 1, stage_after(c)),
        ChildBountiesStage::ChildBounties { .. } => iter_step(s, 2, stage_after(c)),
        ChildBountiesStage::ChildBountyDescriptionsV1 { .. } => iter_step(s, 3, stage_after(c)),
        ChildBountiesStage::V0ToV1ChildBountyIds { .. } => iter_step(s, 4, stage_after(c)),
        ChildBountiesStage::ChildrenCuratorFees { .. } => iter_step(s, 5, stage_after(c)),
        ChildBountiesStage::Finished => StepOut { cursor: c, store: s, msg: None },
    }
}

/// A possibly emitted message, as a sequence of none or one.
pub open spec fn opt_to_seq(m: Option<RcChildBountiesMessage>) -> Seq<RcChildBountiesMessage> {
    match m {
        Some(x) => seq![x],
        None => Seq::empty(),
    }
}

/// Outcome of one budgeted invocation.
pub ghost struct DriveOut {
    /// The cursor to persist for the next invocation.
    pub cursor: ChildBountiesStage,
    /// The store after the invocation.
    pub store: StoreModel,
    /// The messages emitted, in consumption order.
    pub msgs: Seq<RcChildBountiesMessage>,
    /// The units of work charged.
    pub units: nat,
}

/// One invocation: repeat units of work until the terminal stage, the
/// buffer ceiling or budget exhaustion stops it.
pub open spec fn drive(
    c: ChildBountiesStage,
    s: StoreModel,
    budget: nat,
    buffered: nat,
) -> DriveOut
    decreases budget,
{
    if c is Finished || buffered >= MAX_MESSAGES as nat || budget == 0 {
        DriveOut { cursor: c, store: s, msgs: Seq::empty(), units: 0 }
    } else {
        let st = step_spec(c, s);
        let emitted: nat = if st.msg is Some {
            1
        } else {
            0
        };
        let rest = drive(st.cursor, st.store, (budget - 1) as nat, buffered + emitted);
        DriveOut {
            cursor: rest.cursor,
            store: rest.store,
            msgs: opt_to_seq(st.msg) + rest.msgs,
            units: 1 + rest.units,
        }
    }
}

/// The whole remaining migration from cursor `c`: what an unbounded
/// budget would emit.
pub open spec fn run_all(c: ChildBountiesStage, s: StoreModel) -> Seq<RcChildBountiesMessage>
    decreases 6 - stage_rank(c), entries_of(s, stage_rank(c)).len(),
    via run_all_decreases
{
    if c is Finished {
        Seq::empty()
    } else {
        let st = step_spec(c, s);
        opt_to_seq(st.msg) + run_all(st.cursor, st.store)
    }
}

/// Each unit of work either consumes an entry of its stage or moves to a
/// later stage, so the whole remaining migration is finite.
#[via_fn]
proof fn run_all_decreases(c: ChildBountiesStage, s: StoreModel) {
    if !(c is Finished) {
        let r = stage_rank(c);
        if 1 <= r <= 5 {
            let es = entries_of(s, r);
            let a = stage_after(c);
            lemma_find_next_props(es, a);
            let i = find_next(es, a);
            if i < es.len() {
                assert(stage_rank(cursor_at(r, es[i].0)) == r);
                assert(entries_of(set_entries(s, r, es.remove(i)), r) == es.remove(i));
            }
        }
    }
}

/// One message per record, in stage-then-key order: the counter's
/// message, then each iterating stage's messages in key order.
pub open spec fn full_message_seq(s: StoreModel) -> Seq<RcChildBountiesMessage> {
    seq![RcChildBountiesMessage::ChildBountyCount(s.count)] + stage_messages(s, 1)
        + stage_messages(s, 2) + stage_messages(s, 3) + stage_messages(s, 4) + stage_messages(s, 5)
}

/// The messages a run of entries will emit, in entry order.
pub open spec fn entry_messages(es: Seq<(u64, RcChildBountiesMessage)>) -> Seq<
    RcChildBountiesMessage,
> {
    es.map_values(|e: (u64, RcChildBountiesMessage)| e.1)
}

/// The messages the entries of rank `r` will emit, in key order.
pub open spec fn stage_messages(s: StoreModel, r: int) -> Seq<RcChildBountiesMessage> {
    entry_messages(entries_of(s, r))
}

} // verus!
