//! The guarantees of the migration, stated and proved over the model.
//!
//! The central facts: one invocation emits a prefix of the whole
//! remaining migration; across any partitioning of the budget into
//! invocations the messages concatenate to exactly one message per record
//! in stage-then-key order; the cursor never regresses; and a stale
//! cursor re-supplied over an already consumed store changes nothing.

use vstd::prelude::*;

verus! {

use crate::keys::lemma_unpack_pack;
use crate::model::{
    drive, entries_of, entry_messages, full_message_seq, opt_to_seq, run_all, set_entries,
    stage_entries_wf, stage_messages, step_spec, store_wf, StoreModel, MAX_MESSAGES,
};
use crate::ordered_map::{above, find_next, lemma_find_next_props, lemma_find_next_same, lemma_find_next_unique};
use crate::stage::{
    after_position, cursor_at, cursor_le, stage_after, stage_rank, stage_start,
};
use crate::messages::{message_key, message_lt, message_rank, RcChildBountiesMessage};
use crate::stage::ChildBountiesStage;

/// Outcome of a whole sequence of invocations, one budget each.
pub ghost struct MigrationRun {
    /// The cursor after the last invocation.
    pub cursor: ChildBountiesStage,
    /// The store after the last invocation.
    pub store: StoreModel,
    /// All messages emitted, in emission order.
    pub msgs: Seq<RcChildBountiesMessage>,
}

/// The migration run as a sequence of invocations, each persisting its
/// cursor for the next and emitting into a common stream.
pub open spec fn run_invocations(
    c: ChildBountiesStage,
    s: StoreModel,
    budgets: Seq<nat>,
) -> MigrationRun
    decreases budgets.len(),
{
    if budgets.len() == 0 {
        MigrationRun { cursor: c, store: s, msgs: Seq::empty() }
    } else {
        let d = drive(c, s, budgets[0], 0);
        let rest = run_invocations(d.cursor, d.store, budgets.drop_first());
        MigrationRun { cursor: rest.cursor, store: rest.store, msgs: d.msgs + rest.msgs }
    }
}

/// One budgeted invocation emits a prefix of the whole remaining
/// migration, and leaves exactly the rest to be emitted from its new
/// cursor and store.
pub proof fn lemma_drive_prefix(c: ChildBountiesStage, s: StoreModel, budget: nat, buffered: nat)
    ensures
        run_all(c, s) == drive(c, s, budget, buffered).msgs + run_all(
            drive(c, s, budget, buffered).cursor,
            drive(c, s, budget, buffered).store,
        ),
    decreases budget,
{
    let d = drive(c, s, budget, buffered);
    if c is Finished || buffered >= MAX_MESSAGES as nat || budget == 0 {
        assert(d.msgs + run_all(d.cursor, d.store) =~= run_all(c, s));
    } else {
        let st = step_spec(c, s);
        let emitted: nat = if st.msg is Some {
            1
        } else {
            0
        };
        let rest = drive(st.cursor, st.store, (budget - 1) as nat, buffered + emitted);
        lemma_drive_prefix(st.cursor, st.store, (budget - 1) as nat, buffered + emitted);
        assert(run_all(c, s) == opt_to_seq(st.msg) + run_all(st.cursor, st.store));
        assert(opt_to_seq(st.msg) + (rest.msgs + run_all(d.cursor, d.store)) =~= (opt_to_seq(
            st.msg,
        ) + rest.msgs) + run_all(d.cursor, d.store));
    }
}

/// A whole sequence of invocations emits a prefix of the remaining
/// migration, and leaves exactly the rest from where it stopped.
pub proof fn lemma_invocations_prefix(c: ChildBountiesStage, s: StoreModel, budgets: Seq<nat>)
    ensures
        run_all(c, s) == run_invocations(c, s, budgets).msgs + run_all(
            run_invocations(c, s, budgets).cursor,
            run_invocations(c, s, budgets).store,
        ),
    decreases budgets.len(),
{
    let run = run_invocations(c, s, budgets);
    if budgets.len() == 0 {
        assert(run.msgs + run_all(c, s) =~= run_all(c, s));
    } else {
        let d = drive(c, s, budgets[0], 0);
        let rest = run_invocations(d.cursor, d.store, budgets.drop_first());
        lemma_drive_prefix(c, s, budgets[0], 0);
        lemma_invocations_prefix(d.cursor, d.store, budgets.drop_first());
        assert(d.msgs + (rest.msgs + run_all(rest.cursor, rest.store)) =~= (d.msgs + rest.msgs)
            + run_all(rest.cursor, rest.store));
    }
}

/// Once the invocations have reached the terminal stage, their messages
/// are exactly the whole remaining migration from where they started.
pub proof fn lemma_invocations_complete(c: ChildBountiesStage, s: StoreModel, budgets: Seq<nat>)
    requires
        run_invocations(c, s, budgets).cursor is Finished,
    ensures
        run_invocations(c, s, budgets).msgs == run_all(c, s),
{
    let run = run_invocations(c, s, budgets);
    lemma_invocations_prefix(c, s, budgets);
    assert(run_all(run.cursor, run.store) == Seq::<RcChildBountiesMessage>::empty());
    assert(run.msgs + Seq::<RcChildBountiesMessage>::empty() =~= run.msgs);
}

/// Removing one entry keeps a stage's entries well formed.
proof fn lemma_remove_entry_wf(es: Seq<(u64, RcChildBountiesMessage)>, r: int, f: int)
    requires
        stage_entries_wf(es, r),
        0 <= f < es.len(),
    ensures
        stage_entries_wf(es.remove(f), r),
{
    es.remove_ensures(f);
}

/// One unit of work keeps the store well formed.
pub proof fn lemma_step_preserves_wf(c: ChildBountiesStage, s: StoreModel)
    requires
        store_wf(s),
    ensures
        store_wf(step_spec(c, s).store),
{
    let st = step_spec(c, s);
    let r = stage_rank(c);
    if c is ChildBountyCount || c is Finished {
        assert(forall|q: int| 1 <= q <= 5 ==> entries_of(st.store, q) == entries_of(s, q));
    } else {
        let a = stage_after(c);
        let es = entries_of(s, r);
        lemma_find_next_props(es, a);
        let f = find_next(es, a);
        if f < es.len() {
            lemma_remove_entry_wf(es, r, f);
            assert(st.store == set_entries(s, r, es.remove(f)));
            assert(forall|q: int|
                1 <= q <= 5 && q != r ==> entries_of(st.store, q) == entries_of(s, q));
            assert(entries_of(st.store, r) == es.remove(f));
        } else {
            assert(st.store == s);
        }
    }
}

/// An invocation keeps the store well formed.
pub proof fn lemma_drive_preserves_wf(
    c: ChildBountiesStage,
    s: StoreModel,
    budget: nat,
    buffered: nat,
)
    requires
        store_wf(s),
    ensures
        store_wf(drive(c, s, budget, buffered).store),
    decreases budget,
{
    if !(c is Finished) && buffered < MAX_MESSAGES as nat && budget > 0 {
        let st = step_spec(c, s);
        let emitted: nat = if st.msg is Some {
            1
        } else {
            0
        };
        lemma_step_preserves_wf(c, s);
        lemma_drive_preserves_wf(st.cursor, st.store, (budget - 1) as nat, buffered + emitted);
    }
}

/// Working an iterating stage to exhaustion emits the messages of every
/// entry after the cursor, in key order, and then continues at the start
/// of the next stage with those entries gone.
proof fn lemma_run_iter_stage(c: ChildBountiesStage, s: StoreModel, r: int)
    requires
        store_wf(s),
        1 <= r <= 5,
        stage_rank(c) == r,
    ensures
        ({
            let es = entries_of(s, r);
            let f = find_next(es, stage_after(c));
            run_all(c, s) == entry_messages(es.subrange(f, es.len() as int)) + run_all(
                stage_start(r + 1),
                set_entries(s, r, es.subrange(0, f)),
            )
        }),
    decreases entries_of(s, r).len() - find_next(entries_of(s, r), stage_after(c)),
{
    let es = entries_of(s, r);
    let a = stage_after(c);
    lemma_find_next_props(es, a);
    let f = find_next(es, a);
    let st = step_spec(c, s);
    if f < es.len() {
        let k = es[f].0;
        if r == 2 || r == 3 {
            lemma_unpack_pack(k);
        }
        let c2 = cursor_at(r, k);
        assert(stage_rank(c2) == r);
        assert(stage_after(c2) == Some(k));
        let s2 = set_entries(s, r, es.remove(f));
        let es2 = entries_of(s2, r);
        assert(es2 == es.remove(f));
        es.remove_ensures(f);
        lemma_remove_entry_wf(es, r, f);
        assert(forall|q: int| 1 <= q <= 5 && q != r ==> entries_of(s2, q) == entries_of(s, q));
        assert(store_wf(s2));
        assert(st.cursor == c2 && st.store == s2 && st.msg == Some(es[f].1));
        lemma_find_next_unique(es2, Some(k), f);
        lemma_run_iter_stage(c2, s2, r);
        let tail_run = run_all(stage_start(r + 1), set_entries(s2, r, es2.subrange(0, f)));
        assert(es2.subrange(0, f) =~= es.subrange(0, f));
        assert(set_entries(s2, r, es2.subrange(0, f)) == set_entries(s, r, es.subrange(0, f)))
            by {
            assert(set_entries(s2, r, es2.subrange(0, f)) =~= set_entries(
                s,
                r,
                es.subrange(0, f),
            ));
        }
        assert(es2.subrange(f, es2.len() as int) =~= es.subrange(f + 1, es.len() as int));
        assert(run_all(c, s) == seq![es[f].1] + run_all(c2, s2));
        assert(seq![es[f].1] + (entry_messages(es.subrange(f + 1, es.len() as int)) + tail_run)
            =~= (seq![es[f].1] + entry_messages(es.subrange(f + 1, es.len() as int))) + tail_run);
        assert(seq![es[f].1] + entry_messages(es.subrange(f + 1, es.len() as int))
            =~= entry_messages(es.subrange(f, es.len() as int)));
    } else {
        assert(st.cursor == stage_start(r + 1) && st.store == s && st.msg is None);
        assert(run_all(c, s) == opt_to_seq(st.msg) + run_all(stage_start(r + 1), s));
        assert(opt_to_seq(st.msg) + run_all(stage_start(r + 1), s) =~= run_all(
            stage_start(r + 1),
            s,
        ));
        assert(es.subrange(0, f) =~= es);
        assert(set_entries(s, r, es.subrange(0, f)) == s) by {
            assert(set_entries(s, r, es) =~= s);
        }
        assert(entry_messages(es.subrange(f, es.len() as int)) =~= Seq::<
            RcChildBountiesMessage,
        >::empty());
        assert(entry_messages(es.subrange(f, es.len() as int)) + run_all(stage_start(r + 1), s)
            =~= run_all(stage_start(r + 1), s));
    }
}

/// From the start of an iterating stage the whole stage is emitted: every
/// entry, in key order, and the run continues with the stage emptied.
proof fn lemma_run_whole_stage(s: StoreModel, r: int)
    requires
        store_wf(s),
        1 <= r <= 5,
    ensures
        run_all(stage_start(r), s) == stage_messages(s, r) + run_all(
            stage_start(r + 1),
            set_entries(s, r, Seq::empty()),
        ),
{
    let c = stage_start(r);
    assert(stage_rank(c) == r && stage_after(c) is None);
    let es = entries_of(s, r);
    assert(find_next(es, stage_after(c)) == 0);
    lemma_run_iter_stage(c, s, r);
    assert(es.subrange(0, 0) =~= Seq::<(u64, RcChildBountiesMessage)>::empty());
    assert(es.subrange(0, es.len() as int) =~= es);
}

/// The whole migration from a fresh cursor emits exactly one message per
/// record: the counter's message first, then each stage's records in key
/// order.
pub proof fn lemma_run_emits_all(s: StoreModel)
    requires
        store_wf(s),
    ensures
        run_all(ChildBountiesStage::ChildBountyCount, s) == full_message_seq(s),
{
    let s1 = StoreModel { count: 0, ..s };
    assert(forall|q: int| 1 <= q <= 5 ==> entries_of(s1, q) == entries_of(s, q));
    assert(run_all(ChildBountiesStage::ChildBountyCount, s) == seq![
        RcChildBountiesMessage::ChildBountyCount(s.count),
    ] + run_all(stage_start(1), s1));
    lemma_run_whole_stage(s1, 1);
    let s2 = set_entries(s1, 1, Seq::empty());
    assert(store_wf(s2)) by {
        assert(forall|q: int| 2 <= q <= 5 ==> entries_of(s2, q) == entries_of(s1, q));
        assert(stage_entries_wf(entries_of(s2, 1), 1));
    }
    lemma_run_whole_stage(s2, 2);
    let s3 = set_entries(s2, 2, Seq::empty());
    assert(store_wf(s3)) by {
        assert(forall|q: int| 1 <= q <= 5 && q != 2 ==> entries_of(s3, q) == entries_of(s2, q));
        assert(stage_entries_wf(entries_of(s3, 2), 2));
    }
    lemma_run_whole_stage(s3, 3);
    let s4 = set_entries(s3, 3, Seq::empty());
    assert(store_wf(s4)) by {
        assert(forall|q: int| 1 <= q <= 5 && q != 3 ==> entries_of(s4, q) == entries_of(s3, q));
        assert(stage_entries_wf(entries_of(s4, 3), 3));
    }
    lemma_run_whole_stage(s4, 4);
    let s5 = set_entries(s4, 4, Seq::empty());
    assert(store_wf(s5)) by {
        assert(forall|q: int| 1 <= q <= 5 && q != 4 ==> entries_of(s5, q) == entries_of(s4, q));
        assert(stage_entries_wf(entries_of(s5, 4), 4));
    }
    lemma_run_whole_stage(s5, 5);
    let s6 = set_entries(s5, 5, Seq::empty());
    assert(run_all(stage_start(6), s6) == Seq::<RcChildBountiesMessage>::empty());
    let m0 = seq![RcChildBountiesMessage::ChildBountyCount(s.count)];
    let m1 = stage_messages(s, 1);
    let m2 = stage_messages(s, 2);
    let m3 = stage_messages(s, 3);
    let m4 = stage_messages(s, 4);
    let m5 = stage_messages(s, 5);
    assert(stage_messages(s1, 1) == m1);
    assert(stage_messages(s2, 2) == m2);
    assert(stage_messages(s3, 3) == m3);
    assert(stage_messages(s4, 4) == m4);
    assert(stage_messages(s5, 5) == m5);
    assert(run_all(ChildBountiesStage::ChildBountyCount, s) == m0 + (m1 + (m2 + (m3 + (m4 + (m5
        + Seq::<RcChildBountiesMessage>::empty()))))));
    assert(m0 + (m1 + (m2 + (m3 + (m4 + (m5 + Seq::<RcChildBountiesMessage>::empty()))))) =~= ((((
    m0 + m1) + m2) + m3) + m4) + m5);
}

/// Exactly-once consumption: however the budget is partitioned into a
/// sequence of per-invocation budgets, once the last invocation reports
/// the terminal stage the messages emitted across all invocations are
/// exactly one message per record of the initial store (preceded by the
/// counter's message), in order, with no repeats and no omissions.
pub proof fn lemma_exactly_once(s: StoreModel, budgets: Seq<nat>)
    requires
        store_wf(s),
        run_invocations(ChildBountiesStage::ChildBountyCount, s, budgets).cursor is Finished,
    ensures
        run_invocations(ChildBountiesStage::ChildBountyCount, s, budgets).msgs
            == full_message_seq(s),
{
    lemma_invocations_complete(ChildBountiesStage::ChildBountyCount, s, budgets);
    lemma_run_emits_all(s);
}

/// Every message of `ms` lies strictly after cursor `c` in the
/// stage-then-key order.
pub open spec fn all_after_cursor(c: ChildBountiesStage, ms: Seq<RcChildBountiesMessage>) -> bool {
    forall|i: int|
        0 <= i < ms.len() ==> {
            ||| stage_rank(c) < message_rank(#[trigger] ms[i])
            ||| (stage_rank(c) == message_rank(ms[i]) && after_position(stage_after(c))
                < message_key(ms[i]))
        }
}

/// Messages in strictly increasing stage-then-key order.
pub open spec fn msgs_sorted(ms: Seq<RcChildBountiesMessage>) -> bool {
    forall|i: int, j: int| 0 <= i < j < ms.len() ==> message_lt(ms[i], ms[j])
}

/// The whole remaining migration is emitted in strictly increasing
/// stage-then-key order, entirely after the cursor it starts from.
pub proof fn lemma_run_all_sorted(c: ChildBountiesStage, s: StoreModel)
    requires
        store_wf(s),
    ensures
        msgs_sorted(run_all(c, s)),
        all_after_cursor(c, run_all(c, s)),
    decreases 6 - stage_rank(c), entries_of(s, stage_rank(c)).len(),
{
    let ms = run_all(c, s);
    if c is Finished {
    } else {
        let st = step_spec(c, s);
        lemma_step_preserves_wf(c, s);
        if c is ChildBountyCount {
            let rest = run_all(st.cursor, st.store);
            lemma_run_all_sorted(st.cursor, st.store);
            assert(ms == seq![RcChildBountiesMessage::ChildBountyCount(s.count)] + rest);
            assert forall|i: int, j: int| 0 <= i < j < ms.len() implies message_lt(
                ms[i],
                ms[j],
            ) by {
                if i == 0 {
                    assert(ms[j] == rest[j - 1]);
                } else {
                    assert(ms[i] == rest[i - 1] && ms[j] == rest[j - 1]);
                }
            }
            assert forall|i: int| 0 <= i < ms.len() implies {
                ||| stage_rank(c) < message_rank(#[trigger] ms[i])
                ||| (stage_rank(c) == message_rank(ms[i]) && after_position(stage_after(c))
                    < message_key(ms[i]))
            } by {
                if i > 0 {
                    assert(ms[i] == rest[i - 1]);
                }
            }
        } else {
            let r = stage_rank(c);
            let a = stage_after(c);
            let es = entries_of(s, r);
            lemma_find_next_props(es, a);
            let f = find_next(es, a);
            if f < es.len() {
                let k = es[f].0;
                if r == 2 || r == 3 {
                    lemma_unpack_pack(k);
                }
                let c2 = cursor_at(r, k);
                assert(stage_rank(c2) == r);
                assert(after_position(stage_after(c2)) == k as int);
                assert(st.cursor == c2);
                assert(entries_of(st.store, r) == es.remove(f));
                lemma_run_all_sorted(c2, st.store);
                let rest = run_all(c2, st.store);
                assert(ms == seq![es[f].1] + rest);
                assert(message_rank(es[f].1) == r && message_key(es[f].1) == k as int);
                assert(after_position(a) < k as int);
                assert forall|i: int, j: int| 0 <= i < j < ms.len() implies message_lt(
                    ms[i],
                    ms[j],
                ) by {
                    if i == 0 {
                        assert(ms[j] == rest[j - 1]);
                    } else {
                        assert(ms[i] == rest[i - 1] && ms[j] == rest[j - 1]);
                    }
                }
                assert forall|i: int| 0 <= i < ms.len() implies {
                    ||| stage_rank(c) < message_rank(#[trigger] ms[i])
                    ||| (stage_rank(c) == message_rank(ms[i]) && after_position(stage_after(c))
                        < message_key(ms[i]))
                } by {
                    if i > 0 {
                        assert(ms[i] == rest[i - 1]);
                    }
                }
            } else {
                let c2 = stage_start(r + 1);
                assert(st.cursor == c2 && st.store == s && st.msg is None);
                assert(stage_rank(c2) == r + 1);
                lemma_run_all_sorted(c2, s);
                let rest = run_all(c2, s);
                assert(opt_to_seq(st.msg) + rest =~= rest);
                assert(ms == rest);
                assert forall|i: int| 0 <= i < ms.len() implies {
                    ||| stage_rank(c) < message_rank(#[trigger] ms[i])
                    ||| (stage_rank(c) == message_rank(ms[i]) && after_position(stage_after(c))
                        < message_key(ms[i]))
                } by {
                    assert(ms[i] == rest[i]);
                }
            }
        }
    }
}

/// Order preservation: however the budget is partitioned into
/// invocations, the messages emitted across all of them appear in
/// strictly increasing key order within each stage, and stages appear in
/// their fixed sequence order.
pub proof fn lemma_order_preservation(c: ChildBountiesStage, s: StoreModel, budgets: Seq<nat>)
    requires
        store_wf(s),
    ensures
        msgs_sorted(run_invocations(c, s, budgets).msgs),
{
    let run = run_invocations(c, s, budgets);
    lemma_invocations_prefix(c, s, budgets);
    lemma_run_all_sorted(c, s);
    let whole = run_all(c, s);
    assert forall|i: int, j: int| 0 <= i < j < run.msgs.len() implies message_lt(
        run.msgs[i],
        run.msgs[j],
    ) by {
        assert(run.msgs[i] == whole[i] && run.msgs[j] == whole[j]);
    }
}

/// Monotonic cursor progress: the cursor an invocation returns never
/// lies before the one it started from in the stage-then-key order.
pub proof fn lemma_cursor_monotone(c: ChildBountiesStage, s: StoreModel, budget: nat, buffered: nat)
    requires
        store_wf(s),
    ensures
        cursor_le(c, drive(c, s, budget, buffered).cursor),
    decreases budget,
{
    if !(c is Finished) && buffered < MAX_MESSAGES as nat && budget > 0 {
        let st = step_spec(c, s);
        let emitted: nat = if st.msg is Some {
            1
        } else {
            0
        };
        lemma_step_preserves_wf(c, s);
        assert(cursor_le(c, st.cursor)) by {
            let r = stage_rank(c);
            if 1 <= r <= 5 {
                let es = entries_of(s, r);
                let a = stage_after(c);
                lemma_find_next_props(es, a);
                let f = find_next(es, a);
                if f < es.len() {
                    if r == 2 || r == 3 {
                        lemma_unpack_pack(es[f].0);
                    }
                    assert(stage_rank(cursor_at(r, es[f].0)) == r);
                    assert(after_position(stage_after(cursor_at(r, es[f].0))) == es[f].0 as int);
                    assert(after_position(a) < es[f].0 as int);
                }
            }
        }
        lemma_cursor_monotone(st.cursor, st.store, (budget - 1) as nat, buffered + emitted);
    }
}

/// Monotonic cursor progress across invocations: the persisted cursor
/// after any number of invocations lies at or after the one the run
/// started from, so the sequence of persisted cursors never revisits a
/// prior stage or key.
pub proof fn lemma_invocations_cursor_monotone(
    c: ChildBountiesStage,
    s: StoreModel,
    budgets: Seq<nat>,
)
    requires
        store_wf(s),
    ensures
        cursor_le(c, run_invocations(c, s, budgets).cursor),
        store_wf(run_invocations(c, s, budgets).store),
    decreases budgets.len(),
{
    if budgets.len() > 0 {
        let d = drive(c, s, budgets[0], 0);
        lemma_cursor_monotone(c, s, budgets[0], 0);
        lemma_drive_preserves_wf(c, s, budgets[0], 0);
        lemma_invocations_cursor_monotone(d.cursor, d.store, budgets.drop_first());
    }
}

/// Budget-respecting termination: an invocation never charges more units
/// than its budget, and whenever at least one unit of budget is supplied
/// and work remains it completes at least one unit of work.
pub proof fn lemma_budget_bounds(c: ChildBountiesStage, s: StoreModel, budget: nat, buffered: nat)
    ensures
        drive(c, s, budget, buffered).units <= budget,
        (budget >= 1 && buffered < MAX_MESSAGES as nat && !(c is Finished)) ==> drive(
            c,
            s,
            budget,
            buffered,
        ).units >= 1,
    decreases budget,
{
    if !(c is Finished) && buffered < MAX_MESSAGES as nat && budget > 0 {
        let st = step_spec(c, s);
        let emitted: nat = if st.msg is Some {
            1
        } else {
            0
        };
        lemma_budget_bounds(st.cursor, st.store, (budget - 1) as nat, buffered + emitted);
    }
}

/// The place of a stage-`r` record with key `k` lies strictly after
/// cursor `c` in the stage-then-key order.
pub open spec fn position_above(c: ChildBountiesStage, r: int, k: u64) -> bool {
    ||| stage_rank(c) < r
    ||| (stage_rank(c) == r && after_position(stage_after(c)) < k as int)
}

/// An invocation consumes every record between its old and its new
/// cursor: each record still in the store came from the initial store,
/// and each that lies after the old cursor also lies after the new one.
pub proof fn lemma_drive_clears_gap(c: ChildBountiesStage, s: StoreModel, budget: nat, buffered: nat)
    requires
        store_wf(s),
    ensures
        ({
            let d = drive(c, s, budget, buffered);
            forall|r: int, j: int|
                1 <= r <= 5 && 0 <= j < entries_of(d.store, r).len() ==> {
                    let e = #[trigger] entries_of(d.store, r)[j];
                    &&& exists|t: int| 0 <= t < entries_of(s, r).len() && entries_of(s, r)[t] == e
                    &&& (position_above(c, r, e.0) ==> position_above(d.cursor, r, e.0))
                }
        }),
    decreases budget,
{
    let d = drive(c, s, budget, buffered);
    if c is Finished || buffered >= MAX_MESSAGES as nat || budget == 0 {
        assert forall|r: int, j: int|
            1 <= r <= 5 && 0 <= j < entries_of(d.store, r).len() implies {
            let e = #[trigger] entries_of(d.store, r)[j];
            &&& exists|t: int| 0 <= t < entries_of(s, r).len() && entries_of(s, r)[t] == e
            &&& (position_above(c, r, e.0) ==> position_above(d.cursor, r, e.0))
        } by {
            let e = entries_of(d.store, r)[j];
            assert(entries_of(s, r)[j] == e);
        }
    } else {
        let st = step_spec(c, s);
        let emitted: nat = if st.msg is Some {
            1
        } else {
            0
        };
        lemma_step_preserves_wf(c, s);
        lemma_drive_clears_gap(st.cursor, st.store, (budget - 1) as nat, buffered + emitted);
        let rr = stage_rank(c);
        assert forall|r: int, j: int|
            1 <= r <= 5 && 0 <= j < entries_of(st.store, r).len() implies {
            let e = #[trigger] entries_of(st.store, r)[j];
            &&& exists|t: int| 0 <= t < entries_of(s, r).len() && entries_of(s, r)[t] == e
            &&& (position_above(c, r, e.0) ==> position_above(st.cursor, r, e.0))
        } by {
            let e = entries_of(st.store, r)[j];
            if c is ChildBountyCount {
                assert(entries_of(s, r)[j] == e);
                assert(stage_rank(st.cursor) == 1 && after_position(stage_after(st.cursor))
                    == -1);
            } else {
                let a = stage_after(c);
                let es = entries_of(s, rr);
                lemma_find_next_props(es, a);
                let f = find_next(es, a);
                if f < es.len() {
                    let k0 = es[f].0;
                    if rr == 2 || rr == 3 {
                        lemma_unpack_pack(k0);
                    }
                    assert(stage_rank(st.cursor) == rr);
                    assert(after_position(stage_after(st.cursor)) == k0 as int);
                    if r == rr {
                        assert(entries_of(st.store, r) == es.remove(f));
                        es.remove_ensures(f);
                        if j < f {
                            assert(e == es[j]);
                            assert(!above(a, es[j].0));
                        } else {
                            assert(e == es[j + 1]);
                            assert(es[f].0 < es[j + 1].0);
                        }
                    } else {
                        assert(entries_of(st.store, r) == entries_of(s, r));
                        assert(entries_of(s, r)[j] == e);
                    }
                } else {
                    assert(st.store == s);
                    assert(entries_of(s, r)[j] == e);
                    assert(stage_rank(st.cursor) == rr + 1 && after_position(
                        stage_after(st.cursor),
                    ) == -1);
                    if r == rr && position_above(c, r, e.0) {
                        assert(above(a, es[j].0));
                        assert(false);
                    }
                }
            }
        }
        assert forall|r: int, j: int|
            1 <= r <= 5 && 0 <= j < entries_of(d.store, r).len() implies {
            let e = #[trigger] entries_of(d.store, r)[j];
            &&& exists|t: int| 0 <= t < entries_of(s, r).len() && entries_of(s, r)[t] == e
            &&& (position_above(c, r, e.0) ==> position_above(d.cursor, r, e.0))
        } by {
            let e = entries_of(d.store, r)[j];
            let t1 = choose|t: int|
                0 <= t < entries_of(st.store, r).len() && entries_of(st.store, r)[t] == e;
            let t2 = choose|t: int|
                0 <= t < entries_of(s, r).len() && entries_of(s, r)[t] == e;
            assert(0 <= t2 < entries_of(s, r).len() && entries_of(s, r)[t2] == e);
        }
    }
}

/// From a cursor with no surviving record between it and a later one,
/// the remaining migration is the same: the run only skips over ground
/// the later cursor has already left behind.  This holds for every
/// cursor past the singleton counter stage.
pub proof fn lemma_fast_forward(c1: ChildBountiesStage, c2: ChildBountiesStage, s: StoreModel)
    requires
        store_wf(s),
        1 <= stage_rank(c1),
        cursor_le(c1, c2),
        forall|r: int, j: int|
            1 <= r <= 5 && 0 <= j < entries_of(s, r).len() ==> (position_above(
                c1,
                r,
                (#[trigger] entries_of(s, r)[j]).0,
            ) ==> position_above(c2, r, entries_of(s, r)[j].0)),
    ensures
        run_all(c1, s) == run_all(c2, s),
    decreases 6 - stage_rank(c1),
{
    let r1 = stage_rank(c1);
    let r2 = stage_rank(c2);
    if c1 is Finished {
        assert(c2 is Finished);
    } else if r1 == r2 {
        let a1 = stage_after(c1);
        let a2 = stage_after(c2);
        let es = entries_of(s, r1);
        lemma_find_next_props(es, a1);
        lemma_find_next_props(es, a2);
        assert forall|j: int| 0 <= j < es.len() implies above(a1, (#[trigger] es[j]).0) == above(
            a2,
            es[j].0,
        ) by {
            if above(a1, es[j].0) && !above(a2, es[j].0) {
                assert(position_above(c1, r1, es[j].0));
                assert(!position_above(c2, r1, es[j].0));
            }
            if above(a2, es[j].0) {
                assert(after_position(a1) <= after_position(a2));
            }
        }
        lemma_find_next_same(es, a1, a2);
        let f = find_next(es, a1);
        let st1 = step_spec(c1, s);
        let st2 = step_spec(c2, s);
        if f < es.len() {
            assert(st1.cursor == cursor_at(r1, es[f].0) && st2.cursor == cursor_at(r1, es[f].0));
            assert(st1.store == st2.store && st1.msg == st2.msg);
            assert(run_all(c1, s) == opt_to_seq(st1.msg) + run_all(st1.cursor, st1.store));
            assert(run_all(c2, s) == opt_to_seq(st2.msg) + run_all(st2.cursor, st2.store));
        } else {
            assert(st1.cursor == stage_start(r1 + 1) && st2.cursor == stage_start(r1 + 1));
            assert(run_all(c1, s) == opt_to_seq(st1.msg) + run_all(st1.cursor, s));
            assert(run_all(c2, s) == opt_to_seq(st2.msg) + run_all(st2.cursor, s));
        }
    } else {
        let a1 = stage_after(c1);
        let es = entries_of(s, r1);
        lemma_find_next_props(es, a1);
        assert forall|j: int| 0 <= j < es.len() implies !above(a1, (#[trigger] es[j]).0) by {
            if above(a1, es[j].0) {
                assert(position_above(c1, r1, es[j].0));
                assert(!position_above(c2, r1, es[j].0));
            }
        }
        lemma_find_next_unique(es, a1, es.len() as int);
        let st1 = step_spec(c1, s);
        assert(st1.cursor == stage_start(r1 + 1) && st1.store == s && st1.msg is None);
        assert(run_all(c1, s) == opt_to_seq(st1.msg) + run_all(st1.cursor, s));
        assert(opt_to_seq(st1.msg) + run_all(st1.cursor, s) =~= run_all(st1.cursor, s));
        assert(stage_rank(stage_start(r1 + 1)) == r1 + 1);
        assert(after_position(stage_after(stage_start(r1 + 1))) == -1);
        lemma_fast_forward(stage_start(r1 + 1), c2, s);
    }
}

/// Idempotent resumption: once an invocation has run, re-supplying the
/// cursor it started from (as after a crash before the new cursor was
/// persisted) emits exactly what re-supplying the new cursor would —
/// records the invocation already removed are never assumed to exist and
/// never re-emitted.  The cursor must lie past the singleton counter
/// stage, whose counter a re-run would read again as zero.
pub proof fn lemma_idempotent_resumption(c: ChildBountiesStage, s: StoreModel, budget: nat)
    requires
        store_wf(s),
        1 <= stage_rank(c),
    ensures
        run_all(c, drive(c, s, budget, 0).store) == run_all(
            drive(c, s, budget, 0).cursor,
            drive(c, s, budget, 0).store,
        ),
{
    let d = drive(c, s, budget, 0);
    lemma_drive_preserves_wf(c, s, budget, 0);
    lemma_cursor_monotone(c, s, budget, 0);
    lemma_drive_clears_gap(c, s, budget, 0);
    lemma_fast_forward(c, d.cursor, d.store);
}

} // verus!
