//! Tests of the collaborators: budget meter, chunking channel, ordered
//! record collection and cursor defaults.

use rc_migrator::budget::BudgetMeter;
use rc_migrator::channel::MessageChannel;
use rc_migrator::messages::RcChildBountiesMessage;
use rc_migrator::ordered_map::OrderedMap;
use rc_migrator::stage::ChildBountiesStage;

#[test]
fn meter_charges_only_what_it_has() {
    let mut meter = BudgetMeter::new(5);
    assert_eq!(meter.limit(), 5);
    assert_eq!(meter.remaining(), 5);
    assert!(meter.try_consume(3));
    assert_eq!(meter.remaining(), 2);
    assert!(!meter.try_consume(3));
    assert_eq!(meter.remaining(), 2);
    assert!(meter.try_consume(2));
    assert_eq!(meter.remaining(), 0);
    assert!(!meter.try_consume(1));
}

#[test]
fn channel_chunks_preserve_count_bound_and_order() {
    let mut channel = MessageChannel::new(2);
    let batch: Vec<RcChildBountiesMessage> =
        (1u32..=5u32).map(RcChildBountiesMessage::ChildBountyCount).collect();
    channel.send_batch(batch);
    assert_eq!(channel.chunk_count(), 3);
    assert_eq!(channel.chunk_at(0).len(), 2);
    assert_eq!(channel.chunk_at(1).len(), 2);
    assert_eq!(channel.chunk_at(2).len(), 1);
    let mut seen = Vec::new();
    for j in 0..channel.chunk_count() {
        for m in channel.chunk_at(j) {
            seen.push(m.clone());
        }
    }
    let expected: Vec<RcChildBountiesMessage> =
        (1u32..=5u32).map(RcChildBountiesMessage::ChildBountyCount).collect();
    assert_eq!(seen, expected);
}

#[test]
fn channel_empty_batch_sends_nothing() {
    let mut channel = MessageChannel::new(4);
    channel.send_batch(Vec::new());
    assert_eq!(channel.chunk_count(), 0);
}

#[test]
fn ordered_map_takes_in_key_order_and_replaces_on_insert() {
    let mut m: OrderedMap<&str> = OrderedMap::new();
    m.insert(30, "c");
    m.insert(10, "a");
    m.insert(20, "b");
    assert_eq!(m.len(), 3);
    m.insert(20, "b2");
    assert_eq!(m.len(), 3);

    assert_eq!(m.take_next_after(None), Some((10, "a")));
    assert_eq!(m.take_next_after(Some(10)), Some((20, "b2")));
    assert_eq!(m.take_next_after(Some(25)), Some((30, "c")));
    assert_eq!(m.take_next_after(Some(30)), None);
    assert_eq!(m.len(), 0);
}

#[test]
fn take_next_after_skips_keys_at_or_below_position() {
    let mut m: OrderedMap<u32> = OrderedMap::new();
    m.insert(5, 50);
    m.insert(8, 80);
    assert_eq!(m.take_next_after(Some(5)), Some((8, 80)));
    assert_eq!(m.take_next_after(Some(5)), None);
    assert_eq!(m.len(), 1);
}

#[test]
fn default_stage_is_the_counter() {
    assert_eq!(ChildBountiesStage::default(), ChildBountiesStage::ChildBountyCount);
}
