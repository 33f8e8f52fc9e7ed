//! The migration driver: one budgeted invocation of the migration.
//!
//! `migrate_many` resumes at the persisted cursor, pulls one unit of work
//! at a time while the budget and the buffer ceiling allow, flushes the
//! emitted messages to the channel in consumption order, and returns the
//! cursor to persist — or the terminal marker once every stage is done.
//! Its contract ties the whole invocation to the model function `drive`.

use vstd::prelude::*;

verus! {

use crate::budget::BudgetMeter;
use crate::channel::{chunk_split, MessageChannel};
use crate::keys::{pack_ids, unpack_ids};
use crate::messages::RcChildBountiesMessage;
use crate::model::{drive, opt_to_seq, step_spec, DriveOut, MAX_MESSAGES};
use crate::ordered_map::find_next;
use crate::stage::{start_cursor, ChildBountiesStage};
use crate::store::{
    lemma_bounties_model, lemma_descriptions_model, lemma_fees_model, lemma_id_mappings_model,
    lemma_parents_model, RecordStore,
};

/// Budget charged for one unit of work, before the unit is performed.
pub const UNIT_COST: u64 = 1;

/// Why an invocation failed.
#[derive(Clone, Copy, Debug, PartialEq, Eq)]
pub enum Error {
    /// The budget did not cover even one unit of work while nothing had
    /// been produced: the caller must supply more budget next time.
    OutOfBudget,
}

/// Whether a cursor is the terminal stage.
pub fn is_finished(c: &ChildBountiesStage) -> (b: bool)
    ensures
        b == (*c is Finished),
{
    match c {
        ChildBountiesStage::Finished => true,
        _ => false,
    }
}

/// The migration driver.
pub struct ChildBountiesMigrator {}

impl ChildBountiesMigrator {
    /// One invocation: works from the persisted cursor (or the first
    /// stage), charging one budget unit per unit of work, and behaves
    /// exactly as the model invocation `drive` says — same store
    /// consumption, same messages in the same order, same new cursor, and
    /// `Err(OutOfBudget)` exactly when no message could be produced
    /// although work remained.
    pub fn migrate_many(
        last_key: Option<ChildBountiesStage>,
        weight_counter: &mut BudgetMeter,
        store: &mut RecordStore,
        channel: &mut MessageChannel,
    ) -> (r: Result<Option<ChildBountiesStage>, Error>)
        requires
            old(store).inv(),
            old(channel).wf(),
        ensures
            ({
                let d = drive(
                    start_cursor(last_key),
                    old(store)@,
                    old(weight_counter).spec_remaining() as nat,
                    0,
                );
                &&& final(store).inv()
                &&& final(store)@ == d.store
                &&& final(weight_counter).spec_limit() == old(weight_counter).spec_limit()
                &&& final(weight_counter).spec_remaining() == old(
                    weight_counter,
                ).spec_remaining() - d.units
                &&& d.units <= old(weight_counter).spec_remaining()
                &&& final(channel).wf()
                &&& final(channel).spec_max_chunk_len() == old(channel).spec_max_chunk_len()
                &&& final(channel)@ == old(channel)@ + chunk_split(
                    d.msgs,
                    old(channel).spec_max_chunk_len() as nat,
                )
                &&& (r is Err <==> (d.msgs.len() == 0 && !(d.cursor is Finished)))
                &&& (match r {
                    Ok(Some(k)) => k == d.cursor && !(d.cursor is Finished),
                    Ok(None) => d.cursor is Finished,
                    Err(e) => e == Error::OutOfBudget,
                })
            }),
    {
        let ghost c0 = start_cursor(last_key);
        let ghost s0 = store@;
        let ghost b0 = weight_counter.spec_remaining() as nat;
        let ghost full = drive(c0, s0, b0, 0);

        let mut cur: ChildBountiesStage = match last_key {
            Some(k) => k,
            None => ChildBountiesStage::ChildBountyCount,
        };
        let mut messages: Vec<RcChildBountiesMessage> = Vec::new();
        proof {
            assert(messages@ =~= Seq::<RcChildBountiesMessage>::empty());
            assert(messages@ + full.msgs =~= full.msgs);
        }

        loop
            invariant
                store.inv(),
                old(channel).wf(),
                *channel == *old(channel),
                weight_counter.spec_limit() == old(weight_counter).spec_limit(),
                weight_counter.spec_remaining() <= b0,
                c0 == start_cursor(last_key),
                s0 == old(store)@,
                b0 == old(weight_counter).spec_remaining() as nat,
                full == drive(c0, s0, b0, 0),
                ({
                    let dc = drive(
                        cur,
                        store@,
                        weight_counter.spec_remaining() as nat,
                        messages@.len(),
                    );
                    &&& full.cursor == dc.cursor
                    &&& full.store == dc.store
                    &&& full.msgs == messages@ + dc.msgs
                    &&& full.units == b0 - weight_counter.spec_remaining() + dc.units
                }),
            ensures
                store.inv(),
                *channel == *old(channel),
                weight_counter.spec_limit() == old(weight_counter).spec_limit(),
                weight_counter.spec_remaining() <= b0,
                full.cursor == cur,
                full.store == store@,
                full.msgs == messages@,
                full.units == b0 - weight_counter.spec_remaining(),
            decreases weight_counter.spec_remaining(),
        {
            let ghost pre_store = store@;
            let ghost pre_rem = weight_counter.spec_remaining() as nat;
            let ghost pre_msgs = messages@;
            let ghost dc_pre = drive(cur, pre_store, pre_rem, pre_msgs.len());

            if is_finished(&cur) {
                proof {
                    assert(dc_pre.msgs == Seq::<RcChildBountiesMessage>::empty());
                    assert(pre_msgs + dc_pre.msgs =~= pre_msgs);
                }
                break;
            }
            if messages.len() >= MAX_MESSAGES {
                proof {
                    assert(dc_pre.msgs == Seq::<RcChildBountiesMessage>::empty());
                    assert(pre_msgs + dc_pre.msgs =~= pre_msgs);
                }
                break;
            }
            if !weight_counter.try_consume(UNIT_COST) {
                proof {
                    assert(pre_rem == 0);
                    assert(dc_pre.msgs == Seq::<RcChildBountiesMessage>::empty());
                    assert(pre_msgs + dc_pre.msgs =~= pre_msgs);
                }
                break;
            }
            let ghost stp = step_spec(cur, pre_store);
            let next = match cur {
                ChildBountiesStage::ChildBountyCount => {
                    let count = store.child_bounty_count;
                    store.child_bounty_count = 0;
                    messages.push(RcChildBountiesMessage::ChildBountyCount(count));
                    proof {
                        assert(store@ =~= stp.store);
                        assert(stp.cursor == (ChildBountiesStage::ParentChildBounties {
                            parent_id: None,
                        }));
                        assert(messages@ =~= pre_msgs + opt_to_seq(stp.msg));
                    }
                    ChildBountiesStage::ParentChildBounties { parent_id: None }
                },
                ChildBountiesStage::ParentChildBounties { parent_id } => {
                    let after: Option<u64> = match parent_id {
                        Some(p) => Some(p as u64),
                        None => None,
                    };
                    let ghost m = store.parent_child_bounties@;
                    let taken = store.parent_child_bounties.take_next_after(after);
                    proof {
                        lemma_parents_model(m, after, find_next(m, after));
                    }
                    match taken {
                        Some((k, children)) => {
                            messages.push(
                                RcChildBountiesMessage::ParentChildBounties(k as u32, children),
                            );
                            proof {
                                assert(store@ =~= stp.store);
                                assert(stp.cursor == (ChildBountiesStage::ParentChildBounties {
                                    parent_id: Some(k as u32),
                                }));
                                assert(messages@ =~= pre_msgs + opt_to_seq(stp.msg));
                            }
                            ChildBountiesStage::ParentChildBounties { parent_id: Some(k as u32) }
                        },
                        None => {
                            proof {
                                assert(store@ =~= stp.store);
                                assert(stp.cursor == (ChildBountiesStage::ChildBounties {
                                    ids: None,
                                }));
                                assert(messages@ =~= pre_msgs + opt_to_seq(stp.msg));
                            }
                            ChildBountiesStage::ChildBounties { ids: None }
                        },
                    }
                },
                ChildBountiesStage::ChildBounties { ids } => {
                    let after: Option<u64> = match ids {
                        Some((p, ch)) => Some(pack_ids(p, ch)),
                        None => None,
                    };
                    let ghost m = store.child_bounties@;
                    let taken = store.child_bounties.take_next_after(after);
                    proof {
                        lemma_bounties_model(m, after, find_next(m, after));
                    }
                    match taken {
                        Some((k, child_bounty)) => {
                            let found_ids = unpack_ids(k);
                            messages.push(
                                RcChildBountiesMessage::ChildBounty {
                                    parent_id: found_ids.0,
                                    child_id: found_ids.1,
                                    child_bounty,
                                },
                            );
                            proof {
                                assert(store@ =~= stp.store);
                                assert(stp.cursor == (ChildBountiesStage::ChildBounties {
                                    ids: Some((found_ids.0, found_ids.1)),
                                }));
                                assert(messages@ =~= pre_msgs + opt_to_seq(stp.msg));
                            }
                            ChildBountiesStage::ChildBounties {
                                ids: Some((found_ids.0, found_ids.1)),
                            }
                        },
                        None => {
                            proof {
                                assert(store@ =~= stp.store);
                                assert(stp.cursor == (ChildBountiesStage::ChildBountyDescriptionsV1 {
                                    ids: None,
                                }));
                                assert(messages@ =~= pre_msgs + opt_to_seq(stp.msg));
                            }
                            ChildBountiesStage::ChildBountyDescriptionsV1 { ids: None }
                        },
                    }
                },
                ChildBountiesStage::ChildBountyDescriptionsV1 { ids } => {
                    let after: Option<u64> = match ids {
                        Some((p, ch)) => Some(pack_ids(p, ch)),
                        None => None,
                    };
                    let ghost m = store.child_bounty_descriptions@;
                    let taken = store.child_bounty_descriptions.take_next_after(after);
                    proof {
                        lemma_descriptions_model(m, after, find_next(m, after));
                    }
                    match taken {
                        Some((k, description)) => {
                            let found_ids = unpack_ids(k);
                            messages.push(
                                RcChildBountiesMessage::ChildBountyDescriptionsV1 {
                                    parent_id: found_ids.0,
                                    child_id: found_ids.1,
                                    description,
                                },
                            );
                            proof {
                                assert(store@ =~= stp.store);
                                assert(stp.cursor == (ChildBountiesStage::ChildBountyDescriptionsV1 {
                                    ids: Some((found_ids.0, found_ids.1)),
                                }));
                                assert(messages@ =~= pre_msgs + opt_to_seq(stp.msg));
                            }
                            ChildBountiesStage::ChildBountyDescriptionsV1 {
                                ids: Some((found_ids.0, found_ids.1)),
                            }
                        },
                        None => {
                            proof {
                                assert(store@ =~= stp.store);
                                assert(stp.cursor == (ChildBountiesStage::V0ToV1ChildBountyIds {
                                    child_id: None,
                                }));
                                assert(messages@ =~= pre_msgs + opt_to_seq(stp.msg));
                            }
                            ChildBountiesStage::V0ToV1ChildBountyIds { child_id: None }
                        },
                    }
                },
                ChildBountiesStage::V0ToV1ChildBountyIds { child_id } => {
                    let after: Option<u64> = match child_id {
                        Some(ch) => Some(ch as u64),
                        None => None,
                    };
                    let ghost m = store.v0_to_v1_child_bounty_ids@;
                    let taken = store.v0_to_v1_child_bounty_ids.take_next_after(after);
                    proof {
                        lemma_id_mappings_model(m, after, find_next(m, after));
                    }
                    match taken {
                        Some((k, mapping)) => {
                            messages.push(
                                RcChildBountiesMessage::V0ToV1ChildBountyIds {
                                    v0_child_id: k as u32,
                                    parent_id: mapping.0,
                                    v1_child_id: mapping.1,
                                },
                            );
                            proof {
                                assert(store@ =~= stp.store);
                                assert(stp.cursor == (ChildBountiesStage::V0ToV1ChildBountyIds {
                                    child_id: Some(k as u32),
                                }));
                                assert(messages@ =~= pre_msgs + opt_to_seq(stp.msg));
                            }
                            ChildBountiesStage::V0ToV1ChildBountyIds { child_id: Some(k as u32) }
                        },
                        None => {
                            proof {
                                assert(store@ =~= stp.store);
                                assert(stp.cursor == (ChildBountiesStage::ChildrenCuratorFees {
                                    child_id: None,
                                }));
                                assert(messages@ =~= pre_msgs + opt_to_seq(stp.msg));
                            }
                            ChildBountiesStage::ChildrenCuratorFees { child_id: None }
                        },
                    }
                },
                ChildBountiesStage::ChildrenCuratorFees { child_id } => {
                    let after: Option<u64> = match child_id {
                        Some(ch) => Some(ch as u64),
                        None => None,
                    };
                    let ghost m = store.children_curator_fees@;
                    let taken = store.children_curator_fees.take_next_after(after);
                    proof {
                        lemma_fees_model(m, after, find_next(m, after));
                    }
                    match taken {
                        Some((k, amount)) => {
                            messages.push(
                                RcChildBountiesMessage::ChildrenCuratorFees {
                                    child_id: k as u32,
                                    amount,
                                },
                            );
                            proof {
                                assert(store@ =~= stp.store);
                                assert(stp.cursor == (ChildBountiesStage::ChildrenCuratorFees {
                                    child_id: Some(k as u32),
                                }));
                                assert(messages@ =~= pre_msgs + opt_to_seq(stp.msg));
                            }
                            ChildBountiesStage::ChildrenCuratorFees { child_id: Some(k as u32) }
                        },
                        None => {
                            proof {
                                assert(store@ =~= stp.store);
                                assert(stp.cursor == ChildBountiesStage::Finished);
                                assert(messages@ =~= pre_msgs + opt_to_seq(stp.msg));
                            }
                            ChildBountiesStage::Finished
                        },
                    }
                },
                ChildBountiesStage::Finished => {
                    proof {
                        assert(false);
                    }
                    ChildBountiesStage::Finished
                },
            };
            cur = next;
            proof {
                assert(cur == stp.cursor);
                assert(store@ == stp.store);
                assert(messages@ == pre_msgs + opt_to_seq(stp.msg));
                let emitted: nat = if stp.msg is Some {
                    1
                } else {
                    0
                };
                assert(messages@.len() == pre_msgs.len() + emitted);
                assert(weight_counter.spec_remaining() as nat == (pre_rem - 1) as nat);
                let dc_new = drive(
                    cur,
                    store@,
                    weight_counter.spec_remaining() as nat,
                    messages@.len(),
                );
                assert(dc_pre == DriveOut {
                    cursor: dc_new.cursor,
                    store: dc_new.store,
                    msgs: opt_to_seq(stp.msg) + dc_new.msgs,
                    units: 1 + dc_new.units,
                });
                assert(full.msgs == messages@ + dc_new.msgs) by {
                    assert(full.msgs == pre_msgs + (opt_to_seq(stp.msg) + dc_new.msgs));
                    assert(pre_msgs + (opt_to_seq(stp.msg) + dc_new.msgs) =~= (pre_msgs
                        + opt_to_seq(stp.msg)) + dc_new.msgs);
                }
            }
        }
        let finished = is_finished(&cur);
        if messages.len() == 0 {
            proof {
                assert(full.msgs =~= Seq::<RcChildBountiesMessage>::empty());
                assert(chunk_split(full.msgs, old(channel).spec_max_chunk_len() as nat)
                    == Seq::<Seq<RcChildBountiesMessage>>::empty());
                assert(channel@ + chunk_split(full.msgs, old(channel).spec_max_chunk_len() as nat)
                    =~= channel@);
            }
            if finished {
                Ok(None)
            } else {
                Err(Error::OutOfBudget)
            }
        } else {
            channel.send_batch(messages);
            if finished {
                Ok(None)
            } else {
                Ok(Some(cur))
            }
        }
    }
}

} // verus!
