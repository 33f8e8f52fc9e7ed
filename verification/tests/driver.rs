//! End-to-end tests of the migration driver: resumption across budgeted
//! invocations, stage transitions, ordering, and error behaviour.

use rc_migrator::budget::BudgetMeter;
use rc_migrator::channel::MessageChannel;
use rc_migrator::messages::{ChildBounty, ChildBountyStatus, RcChildBountiesMessage};
use rc_migrator::migrator::{ChildBountiesMigrator, Error};
use rc_migrator::stage::ChildBountiesStage;
use rc_migrator::store::RecordStore;

fn flat_messages(channel: &MessageChannel) -> Vec<RcChildBountiesMessage> {
    let mut out = Vec::new();
    for j in 0..channel.chunk_count() {
        for m in channel.chunk_at(j) {
            out.push(m.clone());
        }
    }
    out
}

#[test]
fn five_keys_budget_two_per_invocation() {
    let mut store = RecordStore::new();
    for k in 1u32..=5u32 {
        store.insert_parent_child_bounties(k, 10 + k);
    }
    let mut channel = MessageChannel::new(100);

    let start = ChildBountiesStage::ParentChildBounties { parent_id: None };

    let mut meter = BudgetMeter::new(2);
    let r1 = ChildBountiesMigrator::migrate_many(Some(start.clone()), &mut meter, &mut store, &mut channel);
    assert_eq!(
        r1,
        Ok(Some(ChildBountiesStage::ParentChildBounties { parent_id: Some(2) }))
    );
    assert_eq!(meter.remaining(), 0);

    let mut meter = BudgetMeter::new(2);
    let r2 = ChildBountiesMigrator::migrate_many(
        Some(ChildBountiesStage::ParentChildBounties { parent_id: Some(2) }),
        &mut meter,
        &mut store,
        &mut channel,
    );
    assert_eq!(
        r2,
        Ok(Some(ChildBountiesStage::ParentChildBounties { parent_id: Some(4) }))
    );

    let mut meter = BudgetMeter::new(2);
    let r3 = ChildBountiesMigrator::migrate_many(
        Some(ChildBountiesStage::ParentChildBounties { parent_id: Some(4) }),
        &mut meter,
        &mut store,
        &mut channel,
    );
    assert_eq!(r3, Ok(Some(ChildBountiesStage::ChildBounties { ids: None })));

    let mut meter = BudgetMeter::new(5);
    let r4 = ChildBountiesMigrator::migrate_many(
        Some(ChildBountiesStage::ChildBounties { ids: None }),
        &mut meter,
        &mut store,
        &mut channel,
    );
    assert_eq!(r4, Ok(None));
    assert_eq!(meter.remaining(), 1);

    let expected: Vec<RcChildBountiesMessage> = (1u32..=5u32)
        .map(|k| RcChildBountiesMessage::ParentChildBounties(k, 10 + k))
        .collect();
    assert_eq!(flat_messages(&channel), expected);
}

#[test]
fn empty_stages_cross_in_one_invocation() {
    let mut store = RecordStore::new();
    store.set_child_bounty_count(7);
    let mut channel = MessageChannel::new(16);
    let mut meter = BudgetMeter::new(10);
    let r = ChildBountiesMigrator::migrate_many(None, &mut meter, &mut store, &mut channel);
    assert_eq!(r, Ok(None));
    // one unit for the counter, one per empty stage crossed
    assert_eq!(meter.remaining(), 4);
    assert_eq!(
        flat_messages(&channel),
        vec![RcChildBountiesMessage::ChildBountyCount(7)]
    );
}

#[test]
fn zero_budget_on_first_call_is_out_of_budget() {
    let mut store = RecordStore::new();
    store.set_child_bounty_count(3);
    store.insert_parent_child_bounties(1, 1);
    let mut channel = MessageChannel::new(16);
    let mut meter = BudgetMeter::new(0);
    let r = ChildBountiesMigrator::migrate_many(None, &mut meter, &mut store, &mut channel);
    assert_eq!(r, Err(Error::OutOfBudget));
    assert_eq!(channel.chunk_count(), 0);
    assert_eq!(meter.remaining(), 0);
}

#[test]
fn terminal_cursor_is_a_no_op() {
    let mut store = RecordStore::new();
    store.insert_children_curator_fees(9, 500u128);
    let mut channel = MessageChannel::new(16);
    let mut meter = BudgetMeter::new(4);
    let r = ChildBountiesMigrator::migrate_many(
        Some(ChildBountiesStage::Finished),
        &mut meter,
        &mut store,
        &mut channel,
    );
    assert_eq!(r, Ok(None));
    assert_eq!(meter.remaining(), 4);
    assert_eq!(channel.chunk_count(), 0);
}

fn sample_bounty(parent: u32, value: u128) -> ChildBounty {
    ChildBounty {
        parent_bounty: parent,
        value,
        fee: value / 10,
        curator_deposit: value / 20,
        status: ChildBountyStatus::Active { curator: 77 },
    }
}

#[test]
fn full_pipeline_emits_every_stage_in_order() {
    let mut store = RecordStore::new();
    store.set_child_bounty_count(2);
    store.insert_parent_child_bounties(2, 1);
    store.insert_parent_child_bounties(1, 3);
    store.insert_child_bounty(2, 1, sample_bounty(2, 4000));
    store.insert_child_bounty(1, 5, sample_bounty(1, 1000));
    store.insert_child_bounty_description(1, 5, b"first".to_vec());
    store.insert_v0_to_v1_child_bounty_id(5, 1, 5);
    store.insert_children_curator_fees(5, 10u128);

    let mut channel = MessageChannel::new(100);
    let mut meter = BudgetMeter::new(64);
    let r = ChildBountiesMigrator::migrate_many(None, &mut meter, &mut store, &mut channel);
    assert_eq!(r, Ok(None));

    let expected = vec![
        RcChildBountiesMessage::ChildBountyCount(2),
        RcChildBountiesMessage::ParentChildBounties(1, 3),
        RcChildBountiesMessage::ParentChildBounties(2, 1),
        RcChildBountiesMessage::ChildBounty {
            parent_id: 1,
            child_id: 5,
            child_bounty: sample_bounty(1, 1000),
        },
        RcChildBountiesMessage::ChildBounty {
            parent_id: 2,
            child_id: 1,
            child_bounty: sample_bounty(2, 4000),
        },
        RcChildBountiesMessage::ChildBountyDescriptionsV1 {
            parent_id: 1,
            child_id: 5,
            description: b"first".to_vec(),
        },
        RcChildBountiesMessage::V0ToV1ChildBountyIds {
            v0_child_id: 5,
            parent_id: 1,
            v1_child_id: 5,
        },
        RcChildBountiesMessage::ChildrenCuratorFees { child_id: 5, amount: 10u128 },
    ];
    assert_eq!(flat_messages(&channel), expected);
    // 8 emitting units + 5 stage transitions
    assert_eq!(meter.remaining(), 64 - 13);
}

#[test]
fn pair_keys_iterate_in_parent_then_child_order() {
    let mut store = RecordStore::new();
    store.insert_child_bounty(2, 1, sample_bounty(2, 1));
    store.insert_child_bounty(1, 7, sample_bounty(1, 2));
    store.insert_child_bounty(1, 3, sample_bounty(1, 3));

    let mut channel = MessageChannel::new(100);
    let mut meter = BudgetMeter::new(64);
    let r = ChildBountiesMigrator::migrate_many(
        Some(ChildBountiesStage::ChildBounties { ids: None }),
        &mut meter,
        &mut store,
        &mut channel,
    );
    assert_eq!(r, Ok(None));
    let ids: Vec<(u32, u32)> = flat_messages(&channel)
        .into_iter()
        .map(|m| match m {
            RcChildBountiesMessage::ChildBounty { parent_id, child_id, .. } => {
                (parent_id, child_id)
            }
            other => panic!("unexpected message {:?}", other),
        })
        .collect();
    assert_eq!(ids, vec![(1, 3), (1, 7), (2, 1)]);
}

#[test]
fn stale_cursor_does_not_replay_removed_records() {
    let mut store = RecordStore::new();
    for k in 1u32..=3u32 {
        store.insert_parent_child_bounties(k, k);
    }
    let start = ChildBountiesStage::ParentChildBounties { parent_id: None };
    let mut channel = MessageChannel::new(100);

    let mut meter = BudgetMeter::new(2);
    let r1 = ChildBountiesMigrator::migrate_many(Some(start.clone()), &mut meter, &mut store, &mut channel);
    assert_eq!(
        r1,
        Ok(Some(ChildBountiesStage::ParentChildBounties { parent_id: Some(2) }))
    );

    // the new cursor was never persisted: re-supply the stale one
    let mut meter = BudgetMeter::new(10);
    let r2 = ChildBountiesMigrator::migrate_many(Some(start), &mut meter, &mut store, &mut channel);
    assert_eq!(r2, Ok(None));

    let expected = vec![
        RcChildBountiesMessage::ParentChildBounties(1, 1),
        RcChildBountiesMessage::ParentChildBounties(2, 2),
        RcChildBountiesMessage::ParentChildBounties(3, 3),
    ];
    assert_eq!(flat_messages(&channel), expected);
}

#[test]
fn budget_exhausted_without_output_mid_sequence_is_out_of_budget() {
    let mut store = RecordStore::new();
    store.insert_children_curator_fees(1, 5u128);
    let mut channel = MessageChannel::new(16);
    // two units only cross two empty stages: nothing produced yet
    let mut meter = BudgetMeter::new(2);
    let r = ChildBountiesMigrator::migrate_many(
        Some(ChildBountiesStage::ChildBounties { ids: None }),
        &mut meter,
        &mut store,
        &mut channel,
    );
    assert_eq!(r, Err(Error::OutOfBudget));
    assert_eq!(channel.chunk_count(), 0);
    // the fee record is still there for a better-budgeted invocation
    let mut meter = BudgetMeter::new(4);
    let r2 = ChildBountiesMigrator::migrate_many(
        Some(ChildBountiesStage::ChildrenCuratorFees { child_id: None }),
        &mut meter,
        &mut store,
        &mut channel,
    );
    assert_eq!(r2, Ok(None));
    assert_eq!(
        flat_messages(&channel),
        vec![RcChildBountiesMessage::ChildrenCuratorFees { child_id: 1, amount: 5u128 }]
    );
}
