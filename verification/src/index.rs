//! The spatial index: provider snapshots keyed by id, with an R-tree over
//! their bounding boxes for point queries.

use vstd::prelude::*;
use std::collections::HashMap;
use crate::geo::Envelope;
use crate::geo::GeoPoint;
use crate::rtree::item_bounded;
use crate::rtree::item_holds;
use crate::rtree::tree_bulk_load;
use crate::rtree::tree_insert;
use crate::rtree::tree_items;
use crate::rtree::tree_locate;
use crate::rtree::tree_remove;
use crate::rtree::ProviderTree;
use crate::seqs::exactly_once;

verus! {

/// Millimetres per metre.
pub const MILLIMETRES_PER_METRE: u64 = 1000;

/// A provider as one index tier sees it: a snapshot of the name and the
/// position, the bounding box of the service area in that tier, and the
/// tier's effective driving distance in metres.
#[derive(Debug)]
pub struct InServiceProvider {
    pub id: u32,
    pub name: String,
    pub pos: GeoPoint,
    pub envelope: Envelope,
    pub max_driving_distance: u128,
}

/// What an index entry says, with the name as plain text and the distance
/// as a natural number.
pub struct IndexedProvider {
    pub id: u32,
    pub name: Seq<char>,
    pub pos: GeoPoint,
    pub envelope: Envelope,
    pub max_driving_distance: nat,
}

impl View for InServiceProvider {
    type V = IndexedProvider;

    open spec fn view(&self) -> IndexedProvider {
        IndexedProvider {
            id: self.id,
            name: self.name@,
            pos: self.pos,
            envelope: self.envelope,
            max_driving_distance: self.max_driving_distance as nat,
        }
    }
}

impl InServiceProvider {
    /// The entry with its box ordered and cut to the coordinate limit.
    pub open spec fn bounded(self) -> InServiceProvider {
        InServiceProvider {
            id: self.id,
            name: self.name,
            pos: self.pos,
            envelope: Envelope::spanning_spec(self.envelope.min, self.envelope.max),
            max_driving_distance: self.max_driving_distance,
        }
    }

    /// The entry as the R-tree stores it: the corners of its box and its id.
    pub open spec fn item(self) -> (i64, i64, i64, i64, u32) {
        (
            self.envelope.min.lon,
            self.envelope.min.lat,
            self.envelope.max.lon,
            self.envelope.max.lat,
            self.id,
        )
    }

    /// A distance in millimetres is within the effective driving distance.
    pub open spec fn reaches(self, distance: u64) -> bool {
        distance as int <= MILLIMETRES_PER_METRE as int * self.max_driving_distance as int
    }

    /// Tells whether a distance in millimetres is within the effective
    /// driving distance.
    pub fn within_reach(&self, distance: u64) -> (b: bool)
        ensures
            b == self.reaches(distance),
    {
        let metres: u128 = (distance / MILLIMETRES_PER_METRE) as u128;
        let rest: u64 = distance % MILLIMETRES_PER_METRE;
        if rest == 0 {
            metres <= self.max_driving_distance
        } else {
            metres < self.max_driving_distance
        }
    }

    fn tree_item(&self) -> (it: (i64, i64, i64, i64, u32))
        ensures
            it == self.item(),
    {
        (
            self.envelope.min.lon,
            self.envelope.min.lat,
            self.envelope.max.lon,
            self.envelope.max.lat,
            self.id,
        )
    }
}

impl Clone for InServiceProvider {
    /// A copy equal to the entry in every field.
    fn clone(&self) -> (copy: InServiceProvider)
        ensures
            copy == *self,
    {
        InServiceProvider {
            id: self.id,
            name: self.name.clone(),
            pos: self.pos,
            envelope: self.envelope,
            max_driving_distance: self.max_driving_distance,
        }
    }
}

/// The id of an index entry.
pub open spec fn entry_id() -> spec_fn(InServiceProvider) -> u32 {
    |e: InServiceProvider| e.id
}

/// The ids of index entries, in their order.
pub open spec fn entry_ids(entries: Seq<InServiceProvider>) -> Seq<u32> {
    entries.map_values(entry_id())
}

/// The ids under which an index files an entry whose box holds the point.
pub open spec fn ids_holding(index: Map<u32, InServiceProvider>, p: GeoPoint) -> Set<u32> {
    Set::new(|id: u32| index.contains_key(id) && index[id].envelope.contains(p))
}

/// `found` answers a point query: it lists the entries of the index whose
/// box holds the point, each once.
pub open spec fn answers(
    index: Map<u32, InServiceProvider>,
    p: GeoPoint,
    found: Seq<InServiceProvider>,
) -> bool {
    &&& exactly_once(entry_ids(found), ids_holding(index, p))
    &&& forall|j: int| 0 <= j < found.len() ==> index[(#[trigger] found[j]).id] == found[j]
}

/// The map obtained by entering the entries one after another under their
/// ids, each with its box bounded: of two entries with one id the later
/// stays.
pub open spec fn keyed(entries: Seq<InServiceProvider>) -> Map<u32, InServiceProvider>
    decreases entries.len(),
{
    if entries.len() == 0 {
        Map::empty()
    } else {
        let rest = keyed(entries.drop_first());
        if rest.contains_key(entries[0].id) {
            rest
        } else {
            rest.insert(entries[0].id, entries[0].bounded())
        }
    }
}

/// An entry whose box is already bounded is stored as it is.
pub proof fn lemma_bounded_fixed(entry: InServiceProvider)
    requires
        entry.envelope.is_bounded(),
    ensures
        entry.bounded() == entry,
{
}

/// Where no two entries share an id, `keyed` files every entry, bounded,
/// under its id; and in any case it files nothing under an id that no entry
/// carries.
pub proof fn lemma_keyed_distinct(entries: Seq<InServiceProvider>)
    requires
        forall|i: int, j: int|
            0 <= i < entries.len() && 0 <= j < entries.len() && i != j ==> (#[trigger] entries[i]).id
                != (#[trigger] entries[j]).id,
    ensures
        forall|i: int|
            0 <= i < entries.len() ==> keyed(entries).contains_key((#[trigger] entries[i]).id)
                && keyed(entries)[entries[i].id] == entries[i].bounded(),
        forall|id: u32| #[trigger]
            keyed(entries).contains_key(id) ==> exists|i: int|
                0 <= i < entries.len() && (#[trigger] entries[i]).id == id,
    decreases entries.len(),
{
    if entries.len() > 0 {
        let rest = entries.drop_first();
        assert forall|i: int, j: int|
            0 <= i < rest.len() && 0 <= j < rest.len() && i != j implies (#[trigger] rest[i]).id != (
        #[trigger] rest[j]).id by {
            assert(rest[i] == entries[i + 1]);
            assert(rest[j] == entries[j + 1]);
        }
        lemma_keyed_distinct(rest);
        assert forall|i: int| 0 <= i < entries.len() implies keyed(entries).contains_key(
            (#[trigger] entries[i]).id,
        ) && keyed(entries)[entries[i].id] == entries[i].bounded() by {
            if i > 0 {
                assert(rest[i - 1] == entries[i]);
            } else {
                if keyed(rest).contains_key(entries[0].id) {
                    let k = choose|k: int| 0 <= k < rest.len() && (#[trigger] rest[k]).id == entries[0].id;
                    assert(rest[k] == entries[k + 1]);
                }
            }
        }
        assert forall|id: u32| #[trigger] keyed(entries).contains_key(id) implies exists|i: int|
            0 <= i < entries.len() && (#[trigger] entries[i]).id == id by {
            if keyed(rest).contains_key(id) {
                let k = choose|k: int| 0 <= k < rest.len() && (#[trigger] rest[k]).id == id;
                assert(entries[k + 1].id == id);
            } else {
                assert(entries[0].id == id);
            }
        }
    }
}

/// How often the R-tree of an index with the given entries holds an item:
/// once if the item is that of the entry filed under its id, else never.
pub open spec fn times_filed(entries: Map<u32, InServiceProvider>, item: (i64, i64, i64, i64, u32))
    -> nat {
    if entries.contains_key(item.4) && entries[item.4].item() == item {
        1
    } else {
        0
    }
}

/// One tier of the index.
pub struct SpatialIndex {
    tree: ProviderTree,
    entries: HashMap<u32, InServiceProvider>,
}

impl View for SpatialIndex {
    type V = Map<u32, InServiceProvider>;

    /// The entries by provider id.
    closed spec fn view(&self) -> Map<u32, InServiceProvider> {
        self.entries@
    }
}

impl SpatialIndex {
    /// Every entry is filed under its own id with a bounded box, and the
    /// R-tree holds exactly one item per entry.
    pub closed spec fn wf(&self) -> bool {
        &&& forall|id: u32| #[trigger]
            self.entries@.contains_key(id) ==> self.entries@[id].id == id
                && self.entries@[id].envelope.is_bounded()
        &&& forall|it: (i64, i64, i64, i64, u32)| #[trigger]
            tree_items(self.tree).count(it) == times_filed(self.entries@, it)
    }

    /// Builds an index from a full list of entries in one pass over the
    /// R-tree. Of two entries with one id the later stays.
    pub fn bulk_build(entries: Vec<InServiceProvider>) -> (index: SpatialIndex)
        ensures
            index.wf(),
            index@ == keyed(entries@),
    {
        broadcast use vstd::std_specs::hash::group_hash_axioms;
        broadcast use vstd::multiset::group_multiset_axioms;

        let ghost all = entries@;
        let mut rest = entries;
        let mut map: HashMap<u32, InServiceProvider> = HashMap::new();
        let mut items: Vec<(i64, i64, i64, i64, u32)> = Vec::new();
        assert(all.subrange(all.len() as int, all.len() as int) =~= Seq::empty());
        while rest.len() > 0
            invariant
                rest@ == all.subrange(0, rest@.len() as int),
                rest@.len() <= all.len(),
                map@ == keyed(all.subrange(rest@.len() as int, all.len() as int)),
                forall|id: u32| #[trigger]
                    map@.contains_key(id) ==> map@[id].id == id && map@[id].envelope.is_bounded(),
                forall|k: int|
                    0 <= k < items@.len() ==> map@.contains_key((#[trigger] items@[k]).4)
                        && map@[items@[k].4].item() == items@[k],
                forall|id: u32| #[trigger]
                    map@.contains_key(id) ==> items@.contains(map@[id].item()),
                items@.no_duplicates(),
            decreases rest@.len(),
        {
            let ghost before = rest@;
            let ghost old_items = items@;
            let ghost old_map = map@;
            let entry = rest.pop().unwrap();
            let ghost given = entry;
            proof {
                let tail = all.subrange(before.len() - 1, all.len() as int);
                assert(tail[0] == entry);
                assert(tail.drop_first() =~= all.subrange(before.len() as int, all.len() as int));
                assert(rest@ =~= all.subrange(0, rest@.len() as int));
            }
            if !map.contains_key(&entry.id) {
                let stored = InServiceProvider {
                    id: entry.id,
                    name: entry.name,
                    pos: entry.pos,
                    envelope: Envelope::spanning(entry.envelope.min, entry.envelope.max),
                    max_driving_distance: entry.max_driving_distance,
                };
                assert(stored == given.bounded());
                let item = stored.tree_item();
                items.push(item);
                map.insert(stored.id, stored);
                proof {
                    assert forall|k: int| 0 <= k < items@.len() implies map@.contains_key(
                        (#[trigger] items@[k]).4,
                    ) && map@[items@[k].4].item() == items@[k] by {
                        if k < old_items.len() {
                            assert(items@[k] == old_items[k]);
                        }
                    }
                    assert forall|id: u32| #[trigger] map@.contains_key(id) implies items@.contains(
                        map@[id].item(),
                    ) by {
                        if id == given.id {
                            assert(items@[old_items.len() as int] == item);
                        } else {
                            assert(old_map.contains_key(id));
                            let k = choose|k: int|
                                0 <= k < old_items.len() && old_items[k] == old_map[id].item();
                            assert(items@[k] == old_items[k]);
                        }
                    }
                    assert forall|i: int, j: int|
                        0 <= i < items@.len() && 0 <= j < items@.len() && i != j implies items@[i]
                        != items@[j] by {
                        if i < old_items.len() {
                            assert(items@[i] == old_items[i]);
                        }
                        if j < old_items.len() {
                            assert(items@[j] == old_items[j]);
                        }
                    }
                }
            }
        }
        proof {
            assert(all.subrange(0, all.len() as int) =~= all);
            assert forall|k: int| 0 <= k < items@.len() implies item_bounded(
                #[trigger] items@[k],
            ) by {
                assert(map@.contains_key(items@[k].4));
            }
            items@.lemma_multiset_has_no_duplicates();
            assert forall|it: (i64, i64, i64, i64, u32)|
                #[trigger] items@.to_multiset().count(it) == times_filed(map@, it) by {
                broadcast use vstd::seq_lib::group_to_multiset_ensures;

                if map@.contains_key(it.4) && map@[it.4].item() == it {
                    assert(items@.contains(it));
                } else {
                    if items@.contains(it) {
                        let k = choose|k: int| 0 <= k < items@.len() && items@[k] == it;
                        assert(map@.contains_key(items@[k].4));
                    }
                }
            }
        }
        let tree = tree_bulk_load(items);
        SpatialIndex { tree, entries: map }
    }

    /// Adds one entry, with its box bounded. An entry already filed under
    /// the same id is replaced.
    pub fn insert(&mut self, entry: InServiceProvider)
        requires
            old(self).wf(),
        ensures
            final(self).wf(),
            final(self)@ == old(self)@.insert(entry.id, entry.bounded()),
    {
        broadcast use vstd::std_specs::hash::group_hash_axioms;
        broadcast use vstd::multiset::group_multiset_axioms;

        let ghost given = entry;
        let stored = InServiceProvider {
            id: entry.id,
            name: entry.name,
            pos: entry.pos,
            envelope: Envelope::spanning(entry.envelope.min, entry.envelope.max),
            max_driving_distance: entry.max_driving_distance,
        };
        assert(stored == given.bounded());
        let item = stored.tree_item();
        let ghost tree0 = tree_items(self.tree);
        let previous: Option<(i64, i64, i64, i64, u32)> = match self.entries.get(&stored.id) {
            Some(e) => Some(e.tree_item()),
            None => None,
        };
        match previous {
            Some(old_item) => {
                assert(tree0.count(old_item) == 1);
                let _ = tree_remove(&mut self.tree, old_item);
            },
            None => {},
        }
        let ghost tree1 = tree_items(self.tree);
        proof {
            assert forall|it: (i64, i64, i64, i64, u32)| tree1.count(it) > 0 implies item_bounded(
                it,
            ) by {
                assert(tree0.count(it) > 0);
                assert(self.entries@.contains_key(it.4));
            }
        }
        tree_insert(&mut self.tree, item);
        self.entries.insert(stored.id, stored);
        proof {
            assert forall|it: (i64, i64, i64, i64, u32)|
                #[trigger] tree_items(self.tree).count(it) == times_filed(self.entries@, it) by {
                assert(tree0.count(it) == times_filed(old(self).entries@, it));
            }
        }
    }

    /// The entry filed under an id, if there is one.
    pub fn get(&self, id: u32) -> (entry: Option<&InServiceProvider>)
        ensures
            match entry {
                Some(e) => self@.contains_key(id) && *e == self@[id],
                None => !self@.contains_key(id),
            },
    {
        broadcast use vstd::std_specs::hash::group_hash_axioms;

        self.entries.get(&id)
    }

    /// The number of entries.
    pub fn len(&self) -> (n: usize)
        ensures
            n == self@.len(),
    {
        broadcast use vstd::std_specs::hash::group_hash_axioms;

        self.entries.len()
    }

    /// All entries whose box holds the point, each once, in no stated order.
    pub fn query_point(&self, p: &GeoPoint) -> (found: Vec<InServiceProvider>)
        requires
            self.wf(),
        ensures
            answers(self@, *p, found@),
    {
        broadcast use vstd::std_specs::hash::group_hash_axioms;
        broadcast use vstd::multiset::group_multiset_axioms;

        let items = tree_locate(&self.tree, p.lon, p.lat);
        let ghost holds = |it: (i64, i64, i64, i64, u32)| item_holds(it, p.lon, p.lat);
        proof {
            broadcast use vstd::seq_lib::group_to_multiset_ensures;

            assert forall|it: (i64, i64, i64, i64, u32)|
                items@.to_multiset().contains(it) implies items@.to_multiset().count(it) == 1 by {
                assert(items@.to_multiset().count(it) == tree_items(self.tree).filter(holds).count(
                    it,
                ));
            }
            items@.lemma_multiset_has_no_duplicates_conv();
            assert forall|k: int| 0 <= k < items@.len() implies self.entries@.contains_key(
                (#[trigger] items@[k]).4,
            ) && self.entries@[items@[k].4].item() == items@[k] && item_holds(
                items@[k],
                p.lon,
                p.lat,
            ) by {
                let it = items@[k];
                assert(items@.contains(it));
                assert(items@.to_multiset().count(it) > 0);
                assert(tree_items(self.tree).filter(holds).count(it) > 0);
                assert(holds(it));
                assert(tree_items(self.tree).count(it) > 0);
            }
        }
        let mut found: Vec<InServiceProvider> = Vec::new();
        let mut k: usize = 0;
        while k < items.len()
            invariant
                k <= items@.len(),
                found@.len() == k,
                forall|j: int|
                    0 <= j < k ==> self.entries@.contains_key(items@[j].4) && (#[trigger] found@[j])
                        == self.entries@[items@[j].4],
                forall|j: int|
                    0 <= j < items@.len() ==> self.entries@.contains_key((#[trigger] items@[j]).4)
                        && self.entries@[items@[j].4].item() == items@[j],
            decreases items@.len() - k,
        {
            let id: u32 = items[k].4;
            let ghost before = found@;
            match self.entries.get(&id) {
                Some(e) => {
                    found.push(e.clone());
                },
                None => {
                    // Never taken: every item of the tree belongs to a filed entry.
                    assert(false);
                },
            }
            proof {
                assert forall|j: int| 0 <= j < k + 1 implies self.entries@.contains_key(
                    items@[j].4,
                ) && (#[trigger] found@[j]) == self.entries@[items@[j].4] by {
                    if j < k {
                        assert(found@[j] == before[j]);
                    }
                }
            }
            k = k + 1;
        }
        proof {
            broadcast use vstd::seq_lib::group_to_multiset_ensures;

            assert forall|j: int| 0 <= j < found@.len() implies self@.contains_key(
                (#[trigger] found@[j]).id,
            ) && self@[found@[j].id] == found@[j] && found@[j].envelope.contains(*p) by {
                assert(self.entries@.contains_key(items@[j].4));
                assert(self.entries@[items@[j].4].id == items@[j].4);
            }
            assert forall|id: u32|
                self@.contains_key(id) && (#[trigger] self@[id]).envelope.contains(
                    *p,
                ) implies exists|j: int|
                0 <= j < found@.len() && (#[trigger] found@[j]).id == id by {
                let it = self.entries@[id].item();
                assert(self.entries@[id].id == id);
                assert(tree_items(self.tree).count(it) == 1);
                assert(holds(it));
                assert(tree_items(self.tree).filter(holds).count(it) == 1);
                assert(items@.to_multiset().count(it) > 0);
                assert(items@.contains(it));
                let j = choose|j: int| 0 <= j < items@.len() && items@[j] == it;
                assert(found@[j].id == id);
            }
            assert forall|i: int, j: int|
                0 <= i < found@.len() && 0 <= j < found@.len() && i != j implies (
            #[trigger] found@[i]).id != (#[trigger] found@[j]).id by {
                assert(self.entries@.contains_key(items@[i].4));
                assert(self.entries@.contains_key(items@[j].4));
                if found@[i].id == found@[j].id {
                    assert(items@[i].4 == items@[j].4);
                    assert(items@[i] == items@[j]);
                }
            }
        }
        proof {
            let ids = entry_ids(found@);
            let wanted = ids_holding(self@, *p);
            assert forall|j: int| 0 <= j < ids.len() implies wanted.contains(#[trigger] ids[j]) by {
                assert(ids[j] == found@[j].id);
            }
            assert forall|id: u32| #[trigger] wanted.contains(id) implies ids.contains(id) by {
                assert(self@[id].envelope.contains(*p));
                let j = choose|j: int| 0 <= j < found@.len() && (#[trigger] found@[j]).id == id;
                assert(ids[j] == id);
            }
            assert forall|i: int, j: int|
                0 <= i < ids.len() && 0 <= j < ids.len() && i != j implies ids[i] != ids[j] by {
                assert(ids[i] == found@[i].id);
                assert(ids[j] == found@[j].id);
            }
        }
        found
    }
}

} // verus!
