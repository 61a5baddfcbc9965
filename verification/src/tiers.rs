//! The three index tiers. Every provider stands in each tier once, with the
//! tier's buffer added to its own driving distance, never to another tier's
//! already buffered value.

use vstd::prelude::*;
use vstd::std_specs::iter::IteratorSpec;
use std::collections::HashMap;
use crate::data::Coverage;
use crate::data::PostcodeGroup;
use crate::data::ServiceProvider;
use crate::geo::lemma_covers_contains;
use crate::geo::Envelope;
use crate::geo::GeoPoint;
use crate::index::answers;
use crate::index::lemma_bounded_fixed;
use crate::index::lemma_keyed_distinct;
use crate::index::keyed;
use crate::index::InServiceProvider;
use crate::index::IndexedProvider;
use crate::index::SpatialIndex;

verus! {

/// The box under which a provider with the given coverage stands in a tier.
///
/// Each given box is ordered and cut to the coordinate limit; then tier B's
/// box is widened to hold tier A's, and tier C's to hold tier B's.
pub open spec fn tier_envelope(coverage: Coverage, group: PostcodeGroup) -> Envelope {
    let a = Envelope::spanning_spec(coverage.group_a.min, coverage.group_a.max);
    let b = a.merged_spec(Envelope::spanning_spec(coverage.group_b.min, coverage.group_b.max));
    let c = b.merged_spec(Envelope::spanning_spec(coverage.group_c.min, coverage.group_c.max));
    match group {
        PostcodeGroup::GroupA => a,
        PostcodeGroup::GroupB => b,
        PostcodeGroup::GroupC => c,
    }
}

/// The effective driving distance in a tier, in metres: the provider's own
/// driving distance plus the tier's buffer.
pub open spec fn effective_distance_spec(max_driving_distance: u64, group: PostcodeGroup) -> nat {
    max_driving_distance as nat + group.buffer_spec()
}

/// The entry under which a provider stands in a tier: its name and position
/// as they are, the tier's box, and the tier's effective driving distance.
pub open spec fn tier_entry(id: u32, provider: ServiceProvider, group: PostcodeGroup)
    -> IndexedProvider {
    IndexedProvider {
        id,
        name: provider.display_name(),
        pos: provider.position(),
        envelope: tier_envelope(provider.coverage, group),
        max_driving_distance: effective_distance_spec(provider.max_driving_distance, group),
    }
}

/// Computes the effective driving distance in a tier, in metres.
pub fn effective_distance(max_driving_distance: u64, group: PostcodeGroup) -> (metres: u128)
    ensures
        metres == effective_distance_spec(max_driving_distance, group),
{
    let base: u128 = max_driving_distance as u128;
    let buffer: u128 = group.buffer() as u128;
    base + buffer
}

/// One tier holds, for exactly the ids of `providers`, each provider's entry
/// for that tier.
pub open spec fn tier_mirrors(
    index: Map<u32, InServiceProvider>,
    providers: Map<u32, ServiceProvider>,
    group: PostcodeGroup,
) -> bool {
    &&& forall|id: u32| #[trigger] index.contains_key(id) <==> providers.contains_key(id)
    &&& forall|id: u32| #[trigger]
        providers.contains_key(id) ==> index[id]@ == tier_entry(id, providers[id], group)
}

/// Computes the box under which a provider with the given coverage stands
/// in a tier.
pub fn envelope_for_tier(coverage: &Coverage, group: PostcodeGroup) -> (e: Envelope)
    ensures
        e == tier_envelope(*coverage, group),
        e.is_bounded(),
{
    let a = Envelope::spanning(coverage.group_a.min, coverage.group_a.max);
    match group {
        PostcodeGroup::GroupA => a,
        PostcodeGroup::GroupB => {
            a.merged(&Envelope::spanning(coverage.group_b.min, coverage.group_b.max))
        },
        PostcodeGroup::GroupC => {
            let b = a.merged(&Envelope::spanning(coverage.group_b.min, coverage.group_b.max));
            b.merged(&Envelope::spanning(coverage.group_c.min, coverage.group_c.max))
        },
    }
}

/// Makes the entry under which a provider stands in a tier.
pub fn entry_for_tier(id: u32, provider: &ServiceProvider, group: PostcodeGroup) -> (e:
    InServiceProvider)
    ensures
        e@ == tier_entry(id, *provider, group),
        e.envelope.is_bounded(),
{
    InServiceProvider {
        id,
        name: provider.name(),
        pos: provider.point(),
        envelope: envelope_for_tier(&provider.coverage, group),
        max_driving_distance: effective_distance(provider.max_driving_distance, group),
    }
}

/// A tier's box holds the box of every tier with a smaller buffer.
pub proof fn lemma_tier_envelopes_nested(coverage: Coverage)
    ensures
        tier_envelope(coverage, PostcodeGroup::GroupB).covers(
            tier_envelope(coverage, PostcodeGroup::GroupA),
        ),
        tier_envelope(coverage, PostcodeGroup::GroupC).covers(
            tier_envelope(coverage, PostcodeGroup::GroupB),
        ),
        tier_envelope(coverage, PostcodeGroup::GroupC).covers(
            tier_envelope(coverage, PostcodeGroup::GroupA),
        ),
{
}

/// The three tiers over one set of providers.
pub struct TieredIndex {
    a_tree: SpatialIndex,
    b_tree: SpatialIndex,
    c_tree: SpatialIndex,
}

impl TieredIndex {
    /// The tier that answers queries for a distance band.
    pub closed spec fn tier(&self, group: PostcodeGroup) -> SpatialIndex {
        match group {
            PostcodeGroup::GroupA => self.a_tree,
            PostcodeGroup::GroupB => self.b_tree,
            PostcodeGroup::GroupC => self.c_tree,
        }
    }

    /// Each tier is a well-formed index.
    pub closed spec fn wf(&self) -> bool {
        &&& self.a_tree.wf()
        &&& self.b_tree.wf()
        &&& self.c_tree.wf()
    }

    /// Every tier holds, for exactly the ids of `providers`, each provider's
    /// entry for that tier.
    pub open spec fn mirrors(&self, providers: Map<u32, ServiceProvider>) -> bool {
        &&& tier_mirrors(self.tier(PostcodeGroup::GroupA)@, providers, PostcodeGroup::GroupA)
        &&& tier_mirrors(self.tier(PostcodeGroup::GroupB)@, providers, PostcodeGroup::GroupB)
        &&& tier_mirrors(self.tier(PostcodeGroup::GroupC)@, providers, PostcodeGroup::GroupC)
    }

    /// Builds the three tiers from a full set of providers, each filed under
    /// its key in the map.
    pub fn build(providers: &HashMap<u32, ServiceProvider>) -> (tiers: TieredIndex)
        ensures
            tiers.wf(),
            tiers.mirrors(providers@),
    {
        broadcast use vstd::std_specs::hash::group_hash_axioms;

        let mut for_a: Vec<InServiceProvider> = Vec::new();
        let mut for_b: Vec<InServiceProvider> = Vec::new();
        let mut for_c: Vec<InServiceProvider> = Vec::new();
        for pair in it: providers.iter()
            invariant
                it.seq() == providers.iter().remaining(),
                it.seq().no_duplicates(),
                for_a@.len() == it.index(),
                for_b@.len() == it.index(),
                for_c@.len() == it.index(),
                forall|j: int|
                    0 <= j < it.index() ==> (#[trigger] for_a@[j])@ == tier_entry(
                        *it.seq()[j].0,
                        *it.seq()[j].1,
                        PostcodeGroup::GroupA,
                    ) && for_a@[j].envelope.is_bounded(),
                forall|j: int|
                    0 <= j < it.index() ==> (#[trigger] for_b@[j])@ == tier_entry(
                        *it.seq()[j].0,
                        *it.seq()[j].1,
                        PostcodeGroup::GroupB,
                    ) && for_b@[j].envelope.is_bounded(),
                forall|j: int|
                    0 <= j < it.index() ==> (#[trigger] for_c@[j])@ == tier_entry(
                        *it.seq()[j].0,
                        *it.seq()[j].1,
                        PostcodeGroup::GroupC,
                    ) && for_c@[j].envelope.is_bounded(),
        {
            for_a.push(entry_for_tier(*pair.0, pair.1, PostcodeGroup::GroupA));
            for_b.push(entry_for_tier(*pair.0, pair.1, PostcodeGroup::GroupB));
            for_c.push(entry_for_tier(*pair.0, pair.1, PostcodeGroup::GroupC));
        }
        proof {
            lemma_listed_mirrors(for_a@, providers, PostcodeGroup::GroupA);
            lemma_listed_mirrors(for_b@, providers, PostcodeGroup::GroupB);
            lemma_listed_mirrors(for_c@, providers, PostcodeGroup::GroupC);
        }
        TieredIndex {
            a_tree: SpatialIndex::bulk_build(for_a),
            b_tree: SpatialIndex::bulk_build(for_b),
            c_tree: SpatialIndex::bulk_build(for_c),
        }
    }

    /// Files a provider under an id in all three tiers, each with that
    /// tier's buffer. Entries already filed under the id are replaced.
    pub fn insert(&mut self, id: u32, provider: &ServiceProvider)
        requires
            old(self).wf(),
        ensures
            final(self).wf(),
            forall|providers: Map<u32, ServiceProvider>| #[trigger]
                old(self).mirrors(providers) ==> final(self).mirrors(providers.insert(id, *provider)),
    {
        let ea = entry_for_tier(id, provider, PostcodeGroup::GroupA);
        let eb = entry_for_tier(id, provider, PostcodeGroup::GroupB);
        let ec = entry_for_tier(id, provider, PostcodeGroup::GroupC);
        proof {
            lemma_bounded_fixed(ea);
            lemma_bounded_fixed(eb);
            lemma_bounded_fixed(ec);
        }
        self.a_tree.insert(ea);
        self.b_tree.insert(eb);
        self.c_tree.insert(ec);
    }

    /// The entry filed under an id in a band's tier, if there is one.
    pub fn get(&self, group: PostcodeGroup, id: u32) -> (entry: Option<&InServiceProvider>)
        ensures
            match entry {
                Some(e) => self.tier(group)@.contains_key(id) && *e == self.tier(group)@[id],
                None => !self.tier(group)@.contains_key(id),
            },
    {
        match group {
            PostcodeGroup::GroupA => self.a_tree.get(id),
            PostcodeGroup::GroupB => self.b_tree.get(id),
            PostcodeGroup::GroupC => self.c_tree.get(id),
        }
    }

    /// The entries of a band's tier whose box holds the point, each once,
    /// in no stated order.
    pub fn query(&self, group: PostcodeGroup, p: &GeoPoint) -> (found: Vec<InServiceProvider>)
        requires
            self.wf(),
        ensures
            answers(self.tier(group)@, *p, found@),
    {
        match group {
            PostcodeGroup::GroupA => self.a_tree.query_point(p),
            PostcodeGroup::GroupB => self.b_tree.query_point(p),
            PostcodeGroup::GroupC => self.c_tree.query_point(p),
        }
    }

    /// A provider's entry in tier C is found wherever its entry in tier A
    /// or B is: the box of the wider tier holds the box of the narrower, and
    /// its effective distance is no smaller.
    pub proof fn lemma_tier_monotone(
        &self,
        providers: Map<u32, ServiceProvider>,
        id: u32,
        p: GeoPoint,
        distance: u64,
    )
        requires
            self.mirrors(providers),
            providers.contains_key(id),
        ensures
            self.tier(PostcodeGroup::GroupC)@[id].envelope.covers(
                self.tier(PostcodeGroup::GroupA)@[id].envelope,
            ),
            self.tier(PostcodeGroup::GroupC)@[id].envelope.covers(
                self.tier(PostcodeGroup::GroupB)@[id].envelope,
            ),
            self.tier(PostcodeGroup::GroupB)@[id].envelope.covers(
                self.tier(PostcodeGroup::GroupA)@[id].envelope,
            ),
            self.tier(PostcodeGroup::GroupA)@[id].envelope.contains(p) ==> self.tier(
                PostcodeGroup::GroupC,
            )@[id].envelope.contains(p),
            self.tier(PostcodeGroup::GroupA)@[id].reaches(distance) ==> self.tier(
                PostcodeGroup::GroupB,
            )@[id].reaches(distance),
            self.tier(PostcodeGroup::GroupB)@[id].reaches(distance) ==> self.tier(
                PostcodeGroup::GroupC,
            )@[id].reaches(distance),
    {
        let a = self.tier(PostcodeGroup::GroupA)@[id];
        let b = self.tier(PostcodeGroup::GroupB)@[id];
        let c = self.tier(PostcodeGroup::GroupC)@[id];
        assert(a@ == tier_entry(id, providers[id], PostcodeGroup::GroupA));
        assert(b@ == tier_entry(id, providers[id], PostcodeGroup::GroupB));
        assert(c@ == tier_entry(id, providers[id], PostcodeGroup::GroupC));
        lemma_tier_envelopes_nested(providers[id].coverage);
        if a.envelope.contains(p) {
            lemma_covers_contains(c.envelope, a.envelope, p);
        }
    }
}

/// A list with one bounded tier entry per pair of a map's iteration files,
/// by `keyed`, exactly the map's providers.
proof fn lemma_listed_mirrors(
    listed: Seq<InServiceProvider>,
    providers: &HashMap<u32, ServiceProvider>,
    group: PostcodeGroup,
)
    requires
        providers.iter().remaining().no_duplicates(),
        listed.len() == providers.iter().remaining().len(),
        forall|j: int|
            0 <= j < listed.len() ==> (#[trigger] listed[j])@ == tier_entry(
                *providers.iter().remaining()[j].0,
                *providers.iter().remaining()[j].1,
                group,
            ) && listed[j].envelope.is_bounded(),
    ensures
        tier_mirrors(keyed(listed), providers@, group),
{
    broadcast use vstd::std_specs::hash::group_hash_axioms;

    let v = providers.iter().remaining();
    assert forall|i: int, j: int|
        0 <= i < listed.len() && 0 <= j < listed.len() && i != j implies (#[trigger] listed[i]).id != (
    #[trigger] listed[j]).id by {
        assert(listed[i]@.id == *v[i].0);
        assert(listed[j]@.id == *v[j].0);
        assert(providers@.contains_key(*v[i].0) && providers@[*v[i].0] == *v[i].1);
        assert(providers@.contains_key(*v[j].0) && providers@[*v[j].0] == *v[j].1);
        if listed[i].id == listed[j].id {
            assert(v[i] == v[j]);
        }
    }
    lemma_keyed_distinct(listed);
    assert forall|id: u32| #[trigger] keyed(listed).contains_key(id) <==> providers@.contains_key(
        id,
    ) by {
        if keyed(listed).contains_key(id) {
            let i = choose|i: int| 0 <= i < listed.len() && (#[trigger] listed[i]).id == id;
            assert(listed[i]@.id == *v[i].0);
            assert(providers@.contains_key(*v[i].0));
        }
        if providers@.contains_key(id) {
            assert(v.contains((&id, &providers@[id])));
            let i = choose|i: int| 0 <= i < v.len() && v[i] == (&id, &providers@[id]);
            assert(listed[i]@.id == id);
            assert(keyed(listed).contains_key(listed[i].id));
        }
    }
    assert forall|id: u32| #[trigger] providers@.contains_key(id) implies keyed(listed)[id]@
        == tier_entry(id, providers@[id], group) by {
        assert(v.contains((&id, &providers@[id])));
        let i = choose|i: int| 0 <= i < v.len() && v[i] == (&id, &providers@[id]);
        assert(listed[i]@.id == id);
        lemma_bounded_fixed(listed[i]);
        assert(keyed(listed)[listed[i].id] == listed[i].bounded());
    }
}

} // verus!
