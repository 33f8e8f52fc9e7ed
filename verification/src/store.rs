//! The source store: one counter and five ordered record collections,
//! one per iterating stage.
//!
//! The store abstracts to a `StoreModel` in which every entry is already
//! paired with the message its consumption will emit; the driver is
//! specified entirely against that model.

use vstd::prelude::*;

verus! {

use crate::keys::{lemma_unpack_pack, pack_ids, pack_key, unpack_child, unpack_parent, ID_SPACE};
use crate::messages::{message_key, message_rank, Balance, ChildBounty, RcChildBountiesMessage};
use crate::model::{entries_of, rank_key_ok, stage_entries_wf, store_wf, StoreModel};
use crate::ordered_map::{
    find_next, insert_entry, lemma_find_next_props, lemma_find_next_unique,
    lemma_insert_entry_key_bound, OrderedMap,
};
use crate::stage::BountyIndex;

/// The model entry a `ParentChildBounties` record abstracts to.
pub open spec fn parent_entry(e: (u64, u32)) -> (u64, RcChildBountiesMessage) {
    (e.0, RcChildBountiesMessage::ParentChildBounties(e.0 as u32, e.1))
}

/// The model entry a `ChildBounties` record abstracts to.
pub open spec fn bounty_entry(e: (u64, ChildBounty)) -> (u64, RcChildBountiesMessage) {
    (
        e.0,
        RcChildBountiesMessage::ChildBounty {
            parent_id: unpack_parent(e.0),
            child_id: unpack_child(e.0),
            child_bounty: e.1,
        },
    )
}

/// The model entry a `ChildBountyDescriptionsV1` record abstracts to.
pub open spec fn description_entry(e: (u64, Vec<u8>)) -> (u64, RcChildBountiesMessage) {
    (
        e.0,
        RcChildBountiesMessage::ChildBountyDescriptionsV1 {
            parent_id: unpack_parent(e.0),
            child_id: unpack_child(e.0),
            description: e.1,
        },
    )
}

/// The model entry a `V0ToV1ChildBountyIds` record abstracts to.
pub open spec fn id_mapping_entry(e: (u64, (u32, u32))) -> (u64, RcChildBountiesMessage) {
    (
        e.0,
        RcChildBountiesMessage::V0ToV1ChildBountyIds {
            v0_child_id: e.0 as u32,
            parent_id: e.1.0,
            v1_child_id: e.1.1,
        },
    )
}

/// The model entry a `ChildrenCuratorFees` record abstracts to.
pub open spec fn fee_entry(e: (u64, Balance)) -> (u64, RcChildBountiesMessage) {
    (e.0, RcChildBountiesMessage::ChildrenCuratorFees { child_id: e.0 as u32, amount: e.1 })
}

/// The source store an invocation works on.
pub struct RecordStore {
    /// Value of the child-bounty counter.
    pub child_bounty_count: u32,
    /// Children count per parent bounty, keyed by parent id.
    pub parent_child_bounties: OrderedMap<u32>,
    /// Child bounty records, keyed by packed `(parent, child)` id.
    pub child_bounties: OrderedMap<ChildBounty>,
    /// Child bounty descriptions, keyed by packed `(parent, child)` id.
    pub child_bounty_descriptions: OrderedMap<Vec<u8>>,
    /// `(parent, new child)` id pair per old child id.
    pub v0_to_v1_child_bounty_ids: OrderedMap<(u32, u32)>,
    /// Curator fee per child id.
    pub children_curator_fees: OrderedMap<Balance>,
}

/// The model entries of the `ParentChildBounties` collection.
pub open spec fn parents_model(m: Seq<(u64, u32)>) -> Seq<(u64, RcChildBountiesMessage)> {
    m.map_values(|e: (u64, u32)| parent_entry(e))
}

/// The model entries of the `ChildBounties` collection.
pub open spec fn bounties_model(m: Seq<(u64, ChildBounty)>) -> Seq<(u64, RcChildBountiesMessage)> {
    m.map_values(|e: (u64, ChildBounty)| bounty_entry(e))
}

/// The model entries of the `ChildBountyDescriptionsV1` collection.
pub open spec fn descriptions_model(m: Seq<(u64, Vec<u8>)>) -> Seq<(u64, RcChildBountiesMessage)> {
    m.map_values(|e: (u64, Vec<u8>)| description_entry(e))
}

/// The model entries of the `V0ToV1ChildBountyIds` collection.
pub open spec fn id_mappings_model(
    m: Seq<(u64, (u32, u32))>,
) -> Seq<(u64, RcChildBountiesMessage)> {
    m.map_values(|e: (u64, (u32, u32))| id_mapping_entry(e))
}

/// The model entries of the `ChildrenCuratorFees` collection.
pub open spec fn fees_model(m: Seq<(u64, Balance)>) -> Seq<(u64, RcChildBountiesMessage)> {
    m.map_values(|e: (u64, Balance)| fee_entry(e))
}

impl View for RecordStore {
    type V = StoreModel;

    /// The abstract store: each record paired with its message.
    open spec fn view(&self) -> StoreModel {
        StoreModel {
            count: self.child_bounty_count,
            parents: parents_model(self.parent_child_bounties@),
            bounties: bounties_model(self.child_bounties@),
            descriptions: descriptions_model(self.child_bounty_descriptions@),
            id_mappings: id_mappings_model(self.v0_to_v1_child_bounty_ids@),
            fees: fees_model(self.children_curator_fees@),
        }
    }
}

impl RecordStore {
    /// Collections are sorted, and single-id stages hold keys that fit a
    /// `u32`.
    pub open spec fn inv(&self) -> bool {
        &&& self.parent_child_bounties.wf()
        &&& self.child_bounties.wf()
        &&& self.child_bounty_descriptions.wf()
        &&& self.v0_to_v1_child_bounty_ids.wf()
        &&& self.children_curator_fees.wf()
        &&& forall|j: int|
            0 <= j < self.parent_child_bounties@.len() ==> (#[trigger] self.parent_child_bounties@[
                j
            ]).0 < ID_SPACE
        &&& forall|j: int|
            0 <= j < self.v0_to_v1_child_bounty_ids@.len() ==> (
            #[trigger] self.v0_to_v1_child_bounty_ids@[j]).0 < ID_SPACE
        &&& forall|j: int|
            0 <= j < self.children_curator_fees@.len() ==> (#[trigger] self.children_curator_fees@[
                j
            ]).0 < ID_SPACE
    }

    /// A store with no records and a zero counter.
    pub fn new() -> (st: Self)
        ensures
            st.inv(),
            st@ == (StoreModel {
                count: 0,
                parents: Seq::empty(),
                bounties: Seq::empty(),
                descriptions: Seq::empty(),
                id_mappings: Seq::empty(),
                fees: Seq::empty(),
            }),
    {
        let st = RecordStore {
            child_bounty_count: 0,
            parent_child_bounties: OrderedMap::new(),
            child_bounties: OrderedMap::new(),
            child_bounty_descriptions: OrderedMap::new(),
            v0_to_v1_child_bounty_ids: OrderedMap::new(),
            children_curator_fees: OrderedMap::new(),
        };
        proof {
            assert(st@ =~= StoreModel {
                count: 0,
                parents: Seq::empty(),
                bounties: Seq::empty(),
                descriptions: Seq::empty(),
                id_mappings: Seq::empty(),
                fees: Seq::empty(),
            });
        }
        st
    }

    /// Sets the child-bounty counter the singleton stage will consume.
    pub fn set_child_bounty_count(&mut self, count: u32)
        ensures
            *final(self) == (RecordStore { child_bounty_count: count, ..*old(self) }),
    {
        self.child_bounty_count = count;
    }

    /// Records how many children a parent bounty has.
    pub fn insert_parent_child_bounties(&mut self, parent_id: BountyIndex, children: u32)
        requires
            old(self).inv(),
        ensures
            final(self).inv(),
            final(self).parent_child_bounties@ == insert_entry(
                old(self).parent_child_bounties@,
                parent_id as u64,
                children,
            ),
            *final(self) == (RecordStore {
                parent_child_bounties: final(self).parent_child_bounties,
                ..*old(self)
            }),
    {
        proof {
            lemma_insert_entry_key_bound(
                self.parent_child_bounties@,
                parent_id as u64,
                children,
                ID_SPACE,
            );
        }
        self.parent_child_bounties.insert(parent_id as u64, children);
    }

    /// Adds a child bounty record under its `(parent, child)` id pair.
    pub fn insert_child_bounty(
        &mut self,
        parent_id: BountyIndex,
        child_id: BountyIndex,
        child_bounty: ChildBounty,
    )
        requires
            old(self).inv(),
        ensures
            final(self).inv(),
            final(self).child_bounties@ == insert_entry(
                old(self).child_bounties@,
                pack_key(parent_id, child_id),
                child_bounty,
            ),
            *final(self) == (RecordStore {
                child_bounties: final(self).child_bounties,
                ..*old(self)
            }),
    {
        let k = pack_ids(parent_id, child_id);
        self.child_bounties.insert(k, child_bounty);
    }

    /// Adds a child bounty description under its `(parent, child)` id pair.
    pub fn insert_child_bounty_description(
        &mut self,
        parent_id: BountyIndex,
        child_id: BountyIndex,
        description: Vec<u8>,
    )
        requires
            old(self).inv(),
        ensures
            final(self).inv(),
            final(self).child_bounty_descriptions@ == insert_entry(
                old(self).child_bounty_descriptions@,
                pack_key(parent_id, child_id),
                description,
            ),
            *final(self) == (RecordStore {
                child_bounty_descriptions: final(self).child_bounty_descriptions,
                ..*old(self)
            }),
    {
        let k = pack_ids(parent_id, child_id);
        self.child_bounty_descriptions.insert(k, description);
    }

    /// Records the `(parent, new child)` id pair an old child id maps to.
    pub fn insert_v0_to_v1_child_bounty_id(
        &mut self,
        v0_child_id: BountyIndex,
        parent_id: BountyIndex,
        v1_child_id: BountyIndex,
    )
        requires
            old(self).inv(),
        ensures
            final(self).inv(),
            final(self).v0_to_v1_child_bounty_ids@ == insert_entry(
                old(self).v0_to_v1_child_bounty_ids@,
                v0_child_id as u64,
                (parent_id, v1_child_id),
            ),
            *final(self) == (RecordStore {
                v0_to_v1_child_bounty_ids: final(self).v0_to_v1_child_bounty_ids,
                ..*old(self)
            }),
    {
        proof {
            lemma_insert_entry_key_bound(
                self.v0_to_v1_child_bounty_ids@,
                v0_child_id as u64,
                (parent_id, v1_child_id),
                ID_SPACE,
            );
        }
        self.v0_to_v1_child_bounty_ids.insert(v0_child_id as u64, (parent_id, v1_child_id));
    }

    /// Records the curator fee held for a child bounty.
    pub fn insert_children_curator_fees(&mut self, child_id: BountyIndex, amount: Balance)
        requires
            old(self).inv(),
        ensures
            final(self).inv(),
            final(self).children_curator_fees@ == insert_entry(
                old(self).children_curator_fees@,
                child_id as u64,
                amount,
            ),
            *final(self) == (RecordStore {
                children_curator_fees: final(self).children_curator_fees,
                ..*old(self)
            }),
    {
        proof {
            lemma_insert_entry_key_bound(
                self.children_curator_fees@,
                child_id as u64,
                amount,
                ID_SPACE,
            );
        }
        self.children_curator_fees.insert(child_id as u64, amount);
    }
}

/// A store that satisfies its invariant abstracts to a well-formed model.
pub proof fn lemma_store_wf(st: RecordStore)
    requires
        st.inv(),
    ensures
        store_wf(st@),
{
    let s = st@;
    assert forall|r: int| 1 <= r <= 5 implies stage_entries_wf(
        #[trigger] entries_of(s, r),
        r,
    ) by {
        let es = entries_of(s, r);
        assert forall|i: int, j: int| 0 <= i < j < es.len() implies es[i].0 < es[j].0 by {
            lemma_entry_keys(st, r, i);
            lemma_entry_keys(st, r, j);
        }
        assert forall|j: int| 0 <= j < es.len() implies {
            &&& message_rank((#[trigger] es[j]).1) == r
            &&& message_key(es[j].1) == es[j].0 as int
            &&& rank_key_ok(r, es[j].0)
        } by {
            lemma_entry_keys(st, r, j);
        }
    }
}

/// One model entry keeps its record's key and carries the message of its
/// own stage and key.
proof fn lemma_entry_keys(st: RecordStore, r: int, j: int)
    requires
        st.inv(),
        1 <= r <= 5,
        0 <= j < entries_of(st@, r).len(),
    ensures
        ({
            let es = entries_of(st@, r);
            &&& (r == 1 ==> es[j] == parent_entry(st.parent_child_bounties@[j])
                && es[j].0 == st.parent_child_bounties@[j].0)
            &&& (r == 2 ==> es[j] == bounty_entry(st.child_bounties@[j])
                && es[j].0 == st.child_bounties@[j].0)
            &&& (r == 3 ==> es[j] == description_entry(st.child_bounty_descriptions@[j])
                && es[j].0 == st.child_bounty_descriptions@[j].0)
            &&& (r == 4 ==> es[j] == id_mapping_entry(st.v0_to_v1_child_bounty_ids@[j])
                && es[j].0 == st.v0_to_v1_child_bounty_ids@[j].0)
            &&& (r == 5 ==> es[j] == fee_entry(st.children_curator_fees@[j])
                && es[j].0 == st.children_curator_fees@[j].0)
            &&& message_rank(es[j].1) == r
            &&& message_key(es[j].1) == es[j].0 as int
            &&& rank_key_ok(r, es[j].0)
        }),
{
    let es = entries_of(st@, r);
    if r == 2 {
        lemma_unpack_pack(st.child_bounties@[j].0);
    }
    if r == 3 {
        lemma_unpack_pack(st.child_bounty_descriptions@[j].0);
    }
}

/// Abstraction keeps keys, pairs each entry with its message, and
/// commutes with taking the next entry out.
pub proof fn lemma_parents_model(m: Seq<(u64, u32)>, a: Option<u64>, i: int)
    ensures
        parents_model(m).len() == m.len(),
        0 <= find_next(m, a) <= m.len(),
        find_next(m, a) == find_next(parents_model(m), a),
        forall|j: int|
            0 <= j < m.len() ==> (#[trigger] parents_model(m)[j]) == parent_entry(m[j]),
        find_next(parents_model(m), a) == find_next(m, a),
        0 <= i < m.len() ==> parents_model(m.remove(i)) == parents_model(m).remove(i),
{
    lemma_find_next_props(m, a);
    lemma_find_next_unique(parents_model(m), a, find_next(m, a));
    if 0 <= i < m.len() {
        assert(parents_model(m.remove(i)) =~= parents_model(m).remove(i));
    }
}

/// Abstraction keeps keys, pairs each entry with its message, and
/// commutes with taking the next entry out.
pub proof fn lemma_bounties_model(m: Seq<(u64, ChildBounty)>, a: Option<u64>, i: int)
    ensures
        bounties_model(m).len() == m.len(),
        0 <= find_next(m, a) <= m.len(),
        find_next(m, a) == find_next(bounties_model(m), a),
        forall|j: int|
            0 <= j < m.len() ==> (#[trigger] bounties_model(m)[j]) == bounty_entry(m[j]),
        find_next(bounties_model(m), a) == find_next(m, a),
        0 <= i < m.len() ==> bounties_model(m.remove(i)) == bounties_model(m).remove(i),
{
    lemma_find_next_props(m, a);
    lemma_find_next_unique(bounties_model(m), a, find_next(m, a));
    if 0 <= i < m.len() {
        assert(bounties_model(m.remove(i)) =~= bounties_model(m).remove(i));
    }
}

/// Abstraction keeps keys, pairs each entry with its message, and
/// commutes with taking the next entry out.
pub proof fn lemma_descriptions_model(m: Seq<(u64, Vec<u8>)>, a: Option<u64>, i: int)
    ensures
        descriptions_model(m).len() == m.len(),
        0 <= find_next(m, a) <= m.len(),
        find_next(m, a) == find_next(descriptions_model(m), a),
        forall|j: int|
            0 <= j < m.len() ==> (#[trigger] descriptions_model(m)[j]) == description_entry(m[j]),
        find_next(descriptions_model(m), a) == find_next(m, a),
        0 <= i < m.len() ==> descriptions_model(m.remove(i)) == descriptions_model(m).remove(i),
{
    lemma_find_next_props(m, a);
    lemma_find_next_unique(descriptions_model(m), a, find_next(m, a));
    if 0 <= i < m.len() {
        assert(descriptions_model(m.remove(i)) =~= descriptions_model(m).remove(i));
    }
}

/// Abstraction keeps keys, pairs each entry with its message, and
/// commutes with taking the next entry out.
pub proof fn lemma_id_mappings_model(m: Seq<(u64, (u32, u32))>, a: Option<u64>, i: int)
    ensures
        id_mappings_model(m).len() == m.len(),
        0 <= find_next(m, a) <= m.len(),
        find_next(m, a) == find_next(id_mappings_model(m), a),
        forall|j: int|
            0 <= j < m.len() ==> (#[trigger] id_mappings_model(m)[j]) == id_mapping_entry(m[j]),
        find_next(id_mappings_model(m), a) == find_next(m, a),
        0 <= i < m.len() ==> id_mappings_model(m.remove(i)) == id_mappings_model(m).remove(i),
{
    lemma_find_next_props(m, a);
    lemma_find_next_unique(id_mappings_model(m), a, find_next(m, a));
    if 0 <= i < m.len() {
        assert(id_mappings_model(m.remove(i)) =~= id_mappings_model(m).remove(i));
    }
}

/// Abstraction keeps keys, pairs each entry with its message, and
/// commutes with taking the next entry out.
pub proof fn lemma_fees_model(m: Seq<(u64, Balance)>, a: Option<u64>, i: int)
    ensures
        fees_model(m).len() == m.len(),
        0 <= find_next(m, a) <= m.len(),
        find_next(m, a) == find_next(fees_model(m), a),
        forall|j: int| 0 <= j < m.len() ==> (#[trigger] fees_model(m)[j]) == fee_entry(m[j]),
        find_next(fees_model(m), a) == find_next(m, a),
        0 <= i < m.len() ==> fees_model(m.remove(i)) == fees_model(m).remove(i),
{
    lemma_find_next_props(m, a);
    lemma_find_next_unique(fees_model(m), a, find_next(m, a));
    if 0 <= i < m.len() {
        assert(fees_model(m.remove(i)) =~= fees_model(m).remove(i));
    }
}

} // verus!
