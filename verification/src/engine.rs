//! The matching engine: postal codes, quality factors and providers by key,
//! and the tiered index over the providers.
//!
//! Great-circle distances are not computed here. A query is answered in two
//! steps. `candidates` names the providers whose box holds the postal code:
//! no other provider can be within reach of it, if the boxes are what they
//! are meant to be. The caller measures the distance from each candidate to
//! the postal code, and the ranking functions take those measurements, in
//! millimetres, keyed by provider id. Whether a provider serves the postal
//! code is then decided by its measured distance alone; a provider without
//! a measurement does not serve it.

use vstd::prelude::*;
use vstd::std_specs::iter::IteratorSpec;
use std::collections::HashMap;
use crate::data::Coverage;
use crate::data::Postcode;
use crate::data::PostcodeGroup;
use crate::data::QualityFactor;
use crate::data::ServiceProvider;
use crate::data::ServiceProviderView;
use crate::geo::lemma_covers_contains;
use crate::index::entry_id;
use crate::index::entry_ids;
use crate::index::ids_holding;
use crate::index::InServiceProvider;
use crate::index::MILLIMETRES_PER_METRE;
use crate::page::has_more_spec;
use crate::page::Page;
use crate::page::page_spec;
use crate::page::paginate;
use crate::rank::blended;
use crate::rank::BLENDED_SCORE_UNITS;
use crate::rank::blended_spec;
use crate::rank::DISTANCE_SCORE_UNITS;
use crate::rank::is_ranked;
use crate::rank::key_before;
use crate::rank::keys_ranked;
use crate::rank::lemma_ranked_keys_unique;
use crate::rank::lemma_ranked_scores;
use crate::rank::line_keys;
use crate::rank::PROFILE_SCORE_UNITS;
use crate::rank::quality;
use crate::rank::quality_spec;
use crate::rank::ranks_before;
use crate::rank::sort_ranked;
use crate::seqs::exactly_once;
use crate::seqs::lemma_filter_facts;
use crate::seqs::lemma_filter_step;
use crate::seqs::lemma_same_members;
use crate::tiers::effective_distance_spec;
use crate::tiers::lemma_tier_envelopes_nested;
use crate::tiers::tier_entry;
use crate::tiers::tier_envelope;
use crate::tiers::TieredIndex;

verus! {

/// Why the engine did not do what was asked.
#[derive(Clone, Copy, Debug, PartialEq, Eq, Structural)]
pub enum EngineError {
    /// No provider is filed under the id.
    NotFound,
    /// The provider has no quality factor.
    MissingQualityFactor,
}

/// A driving distance in metres together with the boxes of the service area
/// it gives in each distance band.
#[derive(Clone, Copy, Debug, PartialEq, Eq, Structural)]
pub struct Reach {
    pub max_driving_distance: u64,
    pub coverage: Coverage,
}

/// The values a provider has after an update.
#[derive(Clone, Copy, Debug, PartialEq, Eq, Structural)]
pub struct UpdatedFields {
    pub max_driving_distance: u64,
    pub profile_picture_score: u32,
    pub profile_description_score: u32,
}

/// What a ranking orders by.
#[derive(Clone, Copy, Debug, PartialEq, Eq, Structural)]
pub enum SortMode {
    /// The blend of closeness and quality, best first.
    Score,
    /// The distance, nearest first.
    Distance,
    /// The quality alone, best first.
    Profile,
}

impl SortMode {
    /// The mode a query asks for: `distance`, `profile`, or the blended
    /// score for any other text and for none.
    pub open spec fn from_query_spec(sort: Option<Seq<char>>) -> SortMode {
        match sort {
            Some(name) => if name == "distance"@ {
                SortMode::Distance
            } else if name == "profile"@ {
                SortMode::Profile
            } else {
                SortMode::Score
            },
            None => SortMode::Score,
        }
    }

    /// Whether the best line has the largest score.
    pub open spec fn descending(self) -> bool {
        self != SortMode::Distance
    }

    /// What a score of this ranking counts per whole unit: per metre for
    /// distances, per whole point for quality and for the blend.
    pub open spec fn score_units_spec(self) -> int {
        match self {
            SortMode::Distance => DISTANCE_SCORE_UNITS as int,
            SortMode::Profile => PROFILE_SCORE_UNITS as int,
            SortMode::Score => BLENDED_SCORE_UNITS as int,
        }
    }

    /// What a score of this ranking counts per whole unit.
    pub fn score_units(&self) -> (units: i128)
        ensures
            units == self.score_units_spec(),
    {
        match self {
            SortMode::Distance => DISTANCE_SCORE_UNITS,
            SortMode::Profile => PROFILE_SCORE_UNITS,
            SortMode::Score => BLENDED_SCORE_UNITS,
        }
    }

    /// Reads the mode a query asks for.
    pub fn from_query(sort: Option<&str>) -> (mode: SortMode)
        ensures
            mode == SortMode::from_query_spec(
                match sort {
                    Some(name) => Some(name@),
                    None => None,
                },
            ),
    {
        match sort {
            Some(name) => {
                let given: String = name.to_owned();
                if given == "distance".to_owned() {
                    SortMode::Distance
                } else if given == "profile".to_owned() {
                    SortMode::Profile
                } else {
                    SortMode::Score
                }
            },
            None => SortMode::Score,
        }
    }
}

/// The ids of result lines, in their order.
pub open spec fn line_ids(lines: Seq<ServiceProviderView>) -> Seq<u32> {
    lines.map_values(|l: ServiceProviderView| l.id)
}

/// The id of a measurement.
pub open spec fn pair_id() -> spec_fn((u32, u64)) -> u32 {
    |pair: (u32, u64)| pair.0
}

/// The test a measurement passes if the tier files an entry under its id
/// and its distance is within that entry's effective driving distance.
pub open spec fn within_reach_of(tier: Map<u32, InServiceProvider>) -> spec_fn((u32, u64)) -> bool {
    |pair: (u32, u64)| tier.contains_key(pair.0) && tier[pair.0].reaches(pair.1)
}

/// The test an entry passes if it has a quality factor (`rated`), or if it
/// has none (`!rated`).
pub open spec fn rated_as(qualities: Map<u32, QualityFactor>, rated: bool) -> spec_fn(
    InServiceProvider,
) -> bool {
    |e: InServiceProvider| qualities.contains_key(e.id) == rated
}

/// Lists the measurements, each id once, in no stated order.
fn measurements(distances: &HashMap<u32, u64>) -> (pairs: Vec<(u32, u64)>)
    ensures
        pairs@.map_values(pair_id()).no_duplicates(),
        forall|j: int|
            0 <= j < pairs@.len() ==> distances@.contains_key((#[trigger] pairs@[j]).0)
                && distances@[pairs@[j].0] == pairs@[j].1,
        forall|id: u32| #[trigger]
            distances@.contains_key(id) ==> pairs@.contains((id, distances@[id])),
{
    broadcast use vstd::std_specs::hash::group_hash_axioms;

    let mut pairs: Vec<(u32, u64)> = Vec::new();
    for entry in it: distances.iter()
        invariant
            it.seq() == distances.iter().remaining(),
            it.seq().no_duplicates(),
            pairs@.len() == it.index(),
            forall|j: int|
                0 <= j < pairs@.len() ==> #[trigger] pairs@[j] == (*it.seq()[j].0, *it.seq()[j].1),
    {
        pairs.push((*entry.0, *entry.1));
    }
    proof {
        let v = distances.iter().remaining();
        let ids = pairs@.map_values(pair_id());
        assert forall|j: int| 0 <= j < pairs@.len() implies distances@.contains_key(
            (#[trigger] pairs@[j]).0,
        ) && distances@[pairs@[j].0] == pairs@[j].1 by {
            assert(distances@.contains_key(*v[j].0));
        }
        assert forall|id: u32| #[trigger] distances@.contains_key(id) implies pairs@.contains(
            (id, distances@[id]),
        ) by {
            assert(v.contains((&id, &distances@[id])));
            let j = choose|j: int| 0 <= j < v.len() && v[j] == (&id, &distances@[id]);
            assert(pairs@[j] == (id, distances@[id]));
        }
        assert forall|i: int, j: int|
            0 <= i < ids.len() && 0 <= j < ids.len() && i != j implies ids[i] != ids[j] by {
            assert(distances@.contains_key(*v[i].0));
            assert(distances@.contains_key(*v[j].0));
            assert(ids[i] == pairs@[i].0);
            assert(ids[j] == pairs@[j].0);
            if ids[i] == ids[j] {
                assert(*v[i].1 == distances@[*v[i].0]);
                assert(*v[j].1 == distances@[*v[j].0]);
                assert(v[i] == v[j]);
            }
        }
    }
    pairs
}

/// Keeps the entries that have a quality factor, or those that have none.
fn keep_rated(
    entries: &Vec<InServiceProvider>,
    qualities: &HashMap<u32, QualityFactor>,
    rated: bool,
) -> (kept: Vec<InServiceProvider>)
    ensures
        kept@ == entries@.filter(rated_as(qualities@, rated)),
{
    broadcast use vstd::std_specs::hash::group_hash_axioms;

    let ghost pred = rated_as(qualities@, rated);
    let mut kept: Vec<InServiceProvider> = Vec::new();
    let mut k: usize = 0;
    proof {
        reveal(Seq::filter);
        assert(entries@.subrange(0, 0) =~= Seq::empty());
    }
    while k < entries.len()
        invariant
            k <= entries@.len(),
            pred == rated_as(qualities@, rated),
            kept@ == entries@.subrange(0, k as int).filter(pred),
        decreases entries@.len() - k,
    {
        let entry = &entries[k];
        let has: bool = qualities.contains_key(&entry.id);
        proof {
            lemma_filter_step(entries@, pred, k as int);
            assert((has == rated) == pred(entries@[k as int]));
        }
        if has == rated {
            kept.push(entry.clone());
        }
        k = k + 1;
    }
    assert(entries@.subrange(0, k as int) =~= entries@);
    kept
}

/// The matching engine.
pub struct ProviderMap {
    postcodes: HashMap<u32, Postcode>,
    quality_factor: HashMap<u32, QualityFactor>,
    service_providers: HashMap<u32, ServiceProvider>,
    tiers: TieredIndex,
}

impl ProviderMap {
    /// The postal codes by code.
    pub closed spec fn postcodes(&self) -> Map<u32, Postcode> {
        self.postcodes@
    }

    /// The quality factors by provider id.
    pub closed spec fn qualities(&self) -> Map<u32, QualityFactor> {
        self.quality_factor@
    }

    /// The providers by id.
    pub closed spec fn providers(&self) -> Map<u32, ServiceProvider> {
        self.service_providers@
    }

    /// The index is well-formed and holds, in every tier, exactly the
    /// providers as they are now.
    pub closed spec fn wf(&self) -> bool {
        &&& self.tiers.wf()
        &&& self.tiers.mirrors(self.service_providers@)
    }

    /// The provider's box in the postal code's tier holds the postal code.
    pub open spec fn is_candidate(&self, id: u32, code: Postcode) -> bool {
        &&& self.providers().contains_key(id)
        &&& tier_envelope(
            self.providers()[id].coverage,
            code.postcode_extension_distance_group,
        ).contains(code.position())
    }

    /// The provider serves the postal code: its distance to the postal code
    /// was measured and is no more than its driving distance plus the buffer
    /// of the postal code's band.
    pub open spec fn in_range(&self, id: u32, code: Postcode, distances: Map<u32, u64>) -> bool {
        &&& self.providers().contains_key(id)
        &&& distances.contains_key(id)
        &&& distances[id] as int <= MILLIMETRES_PER_METRE as int * effective_distance_spec(
            self.providers()[id].max_driving_distance,
            code.postcode_extension_distance_group,
        ) as int
    }

    /// A ranking lists the provider: it serves the postal code and, unless
    /// the ranking is by distance, has a quality factor.
    pub open spec fn is_listed(
        &self,
        mode: SortMode,
        id: u32,
        code: Postcode,
        distances: Map<u32, u64>,
    ) -> bool {
        &&& self.in_range(id, code, distances)
        &&& (mode == SortMode::Distance || self.qualities().contains_key(id))
    }

    /// The provider serves the postal code and has no quality factor.
    pub open spec fn is_unrated(&self, id: u32, code: Postcode, distances: Map<u32, u64>) -> bool {
        &&& self.in_range(id, code, distances)
        &&& !self.qualities().contains_key(id)
    }

    /// The ids of the candidates for a postal code.
    pub open spec fn candidate_ids(&self, code: Postcode) -> Set<u32> {
        Set::new(|id: u32| self.is_candidate(id, code))
    }

    /// The ids of the providers that serve a postal code.
    pub open spec fn in_range_ids(&self, code: Postcode, distances: Map<u32, u64>) -> Set<u32> {
        Set::new(|id: u32| self.in_range(id, code, distances))
    }

    /// The ids of the providers that a ranking lists.
    pub open spec fn listed_ids(&self, mode: SortMode, code: Postcode, distances: Map<u32, u64>)
        -> Set<u32> {
        Set::new(|id: u32| self.is_listed(mode, id, code, distances))
    }

    /// The ids of the providers that serve a postal code and have no quality
    /// factor.
    pub open spec fn unrated_ids(&self, code: Postcode, distances: Map<u32, u64>) -> Set<u32> {
        Set::new(|id: u32| self.is_unrated(id, code, distances))
    }

    /// Every entry is the provider's entry in the postal code's tier.
    pub open spec fn are_tier_entries(&self, entries: Seq<InServiceProvider>, code: Postcode)
        -> bool {
        forall|j: int|
            0 <= j < entries.len() ==> (#[trigger] entries[j])@ == tier_entry(
                entries[j].id,
                self.providers()[entries[j].id],
                code.postcode_extension_distance_group,
            )
    }

    /// The score a ranking gives a provider: its distance in millimetres,
    /// its quality in units of 10^-7, or the blend of both in units of
    /// 1/8 000 000 000.
    pub open spec fn score_of(&self, mode: SortMode, id: u32, distances: Map<u32, u64>) -> int {
        match mode {
            SortMode::Distance => distances[id] as int,
            SortMode::Profile => quality_spec(self.qualities()[id]),
            SortMode::Score => blended_spec(self.qualities()[id], distances[id]),
        }
    }

    /// Every line carries its provider's name and the score the ranking
    /// gives the provider.
    pub open spec fn are_lines(
        &self,
        mode: SortMode,
        distances: Map<u32, u64>,
        lines: Seq<ServiceProviderView>,
    ) -> bool {
        forall|j: int|
            0 <= j < lines.len() ==> (#[trigger] lines[j]).name@
                == self.providers()[lines[j].id].display_name() && lines[j].ranking_score
                == self.score_of(mode, lines[j].id, distances)
    }

    /// `lines` is the ranking of the postal code's providers: every listed
    /// provider once, with its name and its score, in the ranking's order.
    pub open spec fn ranking_of(
        &self,
        mode: SortMode,
        code: Postcode,
        distances: Map<u32, u64>,
        lines: Seq<ServiceProviderView>,
    ) -> bool {
        &&& is_ranked(lines, mode.descending())
        &&& exactly_once(line_ids(lines), self.listed_ids(mode, code, distances))
        &&& self.are_lines(mode, distances, lines)
    }

    /// The engine holds the same postal codes, quality factors and providers
    /// as `other`.
    pub open spec fn same_records(&self, other: ProviderMap) -> bool {
        &&& self.postcodes() == other.postcodes()
        &&& self.qualities() == other.qualities()
        &&& self.providers() == other.providers()
    }

    /// Builds the engine from the three data sets and indexes every provider
    /// under its key in all three tiers.
    pub fn new(
        postcodes: HashMap<u32, Postcode>,
        quality_factor: HashMap<u32, QualityFactor>,
        service_providers: HashMap<u32, ServiceProvider>,
    ) -> (engine: ProviderMap)
        ensures
            engine.wf(),
            engine.postcodes() == postcodes@,
            engine.qualities() == quality_factor@,
            engine.providers() == service_providers@,
    {
        let tiers = TieredIndex::build(&service_providers);
        ProviderMap { postcodes, quality_factor, service_providers, tiers }
    }

    /// Adds a provider under its id, or replaces the one filed there, and
    /// files it in all three tiers with each tier's buffer.
    pub fn add_service_provider(&mut self, service_provider: &ServiceProvider)
        requires
            old(self).wf(),
        ensures
            final(self).wf(),
            final(self).providers() == old(self).providers().insert(
                service_provider.id,
                *service_provider,
            ),
            final(self).postcodes() == old(self).postcodes(),
            final(self).qualities() == old(self).qualities(),
    {
        broadcast use vstd::std_specs::hash::group_hash_axioms;

        self.tiers.insert(service_provider.id, service_provider);
        self.service_providers.insert(service_provider.id, service_provider.clone());
    }

    /// The provider filed under an id.
    pub fn service_provider_by_id(&self, id: u32) -> (found: Option<ServiceProvider>)
        ensures
            match found {
                Some(p) => self.providers().contains_key(id) && p == self.providers()[id],
                None => !self.providers().contains_key(id),
            },
    {
        broadcast use vstd::std_specs::hash::group_hash_axioms;

        match self.service_providers.get(&id) {
            Some(p) => Some(p.clone()),
            None => None,
        }
    }

    /// The postal code filed under a code.
    pub fn postcode(&self, code: u32) -> (found: Option<Postcode>)
        ensures
            match found {
                Some(c) => self.postcodes().contains_key(code) && c == self.postcodes()[code],
                None => !self.postcodes().contains_key(code),
            },
    {
        broadcast use vstd::std_specs::hash::group_hash_axioms;

        match self.postcodes.get(&code) {
            Some(c) => Some(*c),
            None => None,
        }
    }

    /// The quality factor filed under a provider id.
    pub fn quality_by_id(&self, id: u32) -> (found: Option<QualityFactor>)
        ensures
            match found {
                Some(q) => self.qualities().contains_key(id) && q == self.qualities()[id],
                None => !self.qualities().contains_key(id),
            },
    {
        broadcast use vstd::std_specs::hash::group_hash_axioms;

        match self.quality_factor.get(&id) {
            Some(q) => Some(*q),
            None => None,
        }
    }

    /// The entries of the postal code's tier whose box holds the postal
    /// code, each once, in no stated order: the providers whose distance to
    /// it is worth measuring. `None` if the postal code is unknown.
    pub fn candidates(&self, postcode: u32) -> (found: Option<Vec<InServiceProvider>>)
        requires
            self.wf(),
        ensures
            found is None <==> !self.postcodes().contains_key(postcode),
            match found {
                Some(list) => {
                    let code = self.postcodes()[postcode];
                    &&& exactly_once(entry_ids(list@), self.candidate_ids(code))
                    &&& self.are_tier_entries(list@, code)
                },
                None => true,
            },
    {
        broadcast use vstd::std_specs::hash::group_hash_axioms;

        match self.postcodes.get(&postcode) {
            None => None,
            Some(code) => {
                let group = code.postcode_extension_distance_group;
                let at = code.point();
                let list = self.tiers.query(group, &at);
                proof {
                    let ids = entry_ids(list@);
                    let tier = self.tiers.tier(group)@;
                    let held = ids_holding(tier, at);
                    assert forall|j: int| 0 <= j < list@.len() implies self.is_candidate(
                        (#[trigger] list@[j]).id,
                        *code,
                    ) && list@[j]@ == tier_entry(
                        list@[j].id,
                        self.providers()[list@[j].id],
                        group,
                    ) by {
                        assert(ids[j] == list@[j].id);
                        assert(held.contains(ids[j]));
                    }
                    assert forall|j: int| 0 <= j < ids.len() implies self.candidate_ids(
                        *code,
                    ).contains(#[trigger] ids[j]) by {
                        assert(ids[j] == list@[j].id);
                    }
                    assert forall|id: u32| #[trigger]
                        self.candidate_ids(*code).contains(id) implies ids.contains(id) by {
                        assert(self.is_candidate(id, *code));
                        assert(tier.contains_key(id));
                        assert(tier[id]@ == tier_entry(id, self.providers()[id], group));
                        assert(held.contains(id));
                    }
                }
                Some(list)
            },
        }
    }

    /// The entries of the measurements that are within reach in the postal
    /// code's tier are the entries of the providers that serve it.
    proof fn lemma_measured(
        &self,
        code: Postcode,
        distances: Map<u32, u64>,
        pairs: Seq<(u32, u64)>,
        served: Seq<InServiceProvider>,
    )
        requires
            self.wf(),
            pairs.map_values(pair_id()).no_duplicates(),
            forall|j: int|
                0 <= j < pairs.len() ==> distances.contains_key((#[trigger] pairs[j]).0)
                    && distances[pairs[j].0] == pairs[j].1,
            forall|id: u32| #[trigger]
                distances.contains_key(id) ==> pairs.contains((id, distances[id])),
            served.len() == pairs.filter(
                within_reach_of(self.tiers.tier(code.postcode_extension_distance_group)@),
            ).len(),
            forall|j: int|
                0 <= j < served.len() ==> #[trigger] served[j] == self.tiers.tier(
                    code.postcode_extension_distance_group,
                )@[pairs.filter(
                    within_reach_of(self.tiers.tier(code.postcode_extension_distance_group)@),
                )[j].0],
        ensures
            exactly_once(entry_ids(served), self.in_range_ids(code, distances)),
            self.are_tier_entries(served, code),
    {
        let group = code.postcode_extension_distance_group;
        let tier = self.tiers.tier(group)@;
        let pred = within_reach_of(tier);
        let kept = pairs.filter(pred);
        let ids = entry_ids(served);
        let wanted = self.in_range_ids(code, distances);
        lemma_filter_facts(pairs, pred, pair_id());
        assert forall|j: int| 0 <= j < served.len() implies (#[trigger] served[j]).id == kept[j].0
            && self.in_range(kept[j].0, code, distances) && served[j]@ == tier_entry(
            served[j].id,
            self.providers()[served[j].id],
            group,
        ) by {
            assert(pred(kept[j]));
            assert(pairs.contains(kept[j]));
            let k = choose|k: int| 0 <= k < pairs.len() && pairs[k] == kept[j];
            assert(tier.contains_key(kept[j].0));
            assert(self.providers().contains_key(kept[j].0));
        }
        assert forall|j: int| 0 <= j < ids.len() implies wanted.contains(#[trigger] ids[j]) by {
            assert(ids[j] == served[j].id);
        }
        assert forall|id: u32| #[trigger] wanted.contains(id) implies ids.contains(id) by {
            assert(self.in_range(id, code, distances));
            let pair = (id, distances[id]);
            assert(pairs.contains(pair));
            let k = choose|k: int| 0 <= k < pairs.len() && pairs[k] == pair;
            assert(tier.contains_key(id));
            assert(tier[id]@ == tier_entry(id, self.providers()[id], group));
            assert(pred(pairs[k]));
            assert(kept.contains(pairs[k]));
            let j = choose|j: int| 0 <= j < kept.len() && kept[j] == pairs[k];
            assert(ids[j] == served[j].id);
        }
        assert forall|i: int, j: int|
            0 <= i < ids.len() && 0 <= j < ids.len() && i != j implies ids[i] != ids[j] by {
            assert(ids[i] == served[i].id);
            assert(ids[j] == served[j].id);
            assert(kept.map_values(pair_id())[i] == kept[i].0);
            assert(kept.map_values(pair_id())[j] == kept[j].0);
        }
    }

    /// Of the providers that serve a postal code, those with a quality
    /// factor are the ones a ranking by score or profile lists, and those
    /// without are the unrated ones.
    proof fn lemma_rated(
        &self,
        code: Postcode,
        distances: Map<u32, u64>,
        served: Seq<InServiceProvider>,
        mode: SortMode,
    )
        requires
            exactly_once(entry_ids(served), self.in_range_ids(code, distances)),
            self.are_tier_entries(served, code),
        ensures
            mode != SortMode::Distance ==> exactly_once(
                entry_ids(served.filter(rated_as(self.qualities(), true))),
                self.listed_ids(mode, code, distances),
            ),
            mode == SortMode::Distance ==> exactly_once(
                entry_ids(served),
                self.listed_ids(mode, code, distances),
            ),
            exactly_once(
                entry_ids(served.filter(rated_as(self.qualities(), false))),
                self.unrated_ids(code, distances),
            ),
            self.are_tier_entries(served.filter(rated_as(self.qualities(), true)), code),
            forall|j: int|
                0 <= j < served.filter(rated_as(self.qualities(), true)).len()
                    ==> self.qualities().contains_key(
                    (#[trigger] served.filter(rated_as(self.qualities(), true))[j]).id,
                ),
    {
        let all_ids = entry_ids(served);
        let inr = self.in_range_ids(code, distances);
        if mode == SortMode::Distance {
            let wanted = self.listed_ids(mode, code, distances);
            assert forall|j: int| 0 <= j < all_ids.len() implies wanted.contains(
                #[trigger] all_ids[j],
            ) by {
                assert(inr.contains(all_ids[j]));
            }
            assert forall|id: u32| #[trigger] wanted.contains(id) implies all_ids.contains(id) by {
                assert(inr.contains(id));
            }
        }
        // The rated ones.
        {
            let pred = rated_as(self.qualities(), true);
            let kept = served.filter(pred);
            let ids = entry_ids(kept);
            lemma_filter_facts(served, pred, entry_id());
            assert forall|j: int| 0 <= j < kept.len() implies self.in_range(
                (#[trigger] kept[j]).id,
                code,
                distances,
            ) && self.qualities().contains_key(kept[j].id) && kept[j]@ == tier_entry(
                kept[j].id,
                self.providers()[kept[j].id],
                code.postcode_extension_distance_group,
            ) by {
                assert(pred(kept[j]));
                assert(served.contains(kept[j]));
                let k = choose|k: int| 0 <= k < served.len() && served[k] == kept[j];
                assert(all_ids[k] == served[k].id);
                assert(inr.contains(all_ids[k]));
            }
            if mode != SortMode::Distance {
                let wanted = self.listed_ids(mode, code, distances);
                assert forall|j: int| 0 <= j < ids.len() implies wanted.contains(
                    #[trigger] ids[j],
                ) by {
                    assert(ids[j] == kept[j].id);
                }
                assert forall|id: u32| #[trigger] wanted.contains(id) implies ids.contains(id) by {
                    assert(self.is_listed(mode, id, code, distances));
                    assert(inr.contains(id));
                    assert(all_ids.contains(id));
                    let k = choose|k: int| 0 <= k < all_ids.len() && all_ids[k] == id;
                    assert(served[k].id == id);
                    assert(pred(served[k]));
                    assert(kept.contains(served[k]));
                    let j = choose|j: int| 0 <= j < kept.len() && kept[j] == served[k];
                    assert(ids[j] == id);
                }
            }
        }
        // The unrated ones.
        {
            let pred = rated_as(self.qualities(), false);
            let kept = served.filter(pred);
            let ids = entry_ids(kept);
            let wanted = self.unrated_ids(code, distances);
            lemma_filter_facts(served, pred, entry_id());
            assert forall|j: int| 0 <= j < ids.len() implies wanted.contains(#[trigger] ids[j]) by {
                assert(ids[j] == kept[j].id);
                assert(pred(kept[j]));
                assert(served.contains(kept[j]));
                let k = choose|k: int| 0 <= k < served.len() && served[k] == kept[j];
                assert(all_ids[k] == served[k].id);
                assert(inr.contains(all_ids[k]));
            }
            assert forall|id: u32| #[trigger] wanted.contains(id) implies ids.contains(id) by {
                assert(self.is_unrated(id, code, distances));
                assert(inr.contains(id));
                assert(all_ids.contains(id));
                let k = choose|k: int| 0 <= k < all_ids.len() && all_ids[k] == id;
                assert(served[k].id == id);
                assert(pred(served[k]));
                assert(kept.contains(served[k]));
                let j = choose|j: int| 0 <= j < kept.len() && kept[j] == served[k];
                assert(ids[j] == id);
            }
        }
    }

    /// The providers that serve the postal code, as their entries in the
    /// postal code's tier, each once, in no stated order. `None` if the postal
    /// code is unknown.
    ///
    /// `distances` gives the measured distance in millimetres from a
    /// provider, by id, to the postal code. A provider without a measurement
    /// counts as out of range.
    pub fn providers_in_range(&self, postcode: u32, distances: &HashMap<u32, u64>) -> (found:
        Option<Vec<InServiceProvider>>)
        requires
            self.wf(),
        ensures
            found is None <==> !self.postcodes().contains_key(postcode),
            match found {
                Some(list) => {
                    let code = self.postcodes()[postcode];
                    &&& exactly_once(entry_ids(list@), self.in_range_ids(code, distances@))
                    &&& self.are_tier_entries(list@, code)
                },
                None => true,
            },
    {
        broadcast use vstd::std_specs::hash::group_hash_axioms;

        let group: PostcodeGroup = match self.postcodes.get(&postcode) {
            None => {
                return None;
            },
            Some(code) => code.postcode_extension_distance_group,
        };
        let pairs = measurements(distances);
        let ghost tier = self.tiers.tier(group)@;
        let ghost pred = within_reach_of(tier);
        let mut served: Vec<InServiceProvider> = Vec::new();
        let mut k: usize = 0;
        proof {
            reveal(Seq::filter);
            assert(pairs@.subrange(0, 0) =~= Seq::empty());
        }
        while k < pairs.len()
            invariant
                k <= pairs@.len(),
                tier == self.tiers.tier(group)@,
                pred == within_reach_of(tier),
                served@.len() == pairs@.subrange(0, k as int).filter(pred).len(),
                forall|j: int|
                    0 <= j < served@.len() ==> #[trigger] served@[j] == tier[pairs@.subrange(
                        0,
                        k as int,
                    ).filter(pred)[j].0],
            decreases pairs@.len() - k,
        {
            let ghost before = served@;
            let ghost kept = pairs@.subrange(0, k as int).filter(pred);
            let id: u32 = pairs[k].0;
            let distance: u64 = pairs[k].1;
            proof {
                lemma_filter_step(pairs@, pred, k as int);
            }
            match self.tiers.get(group, id) {
                Some(entry) => {
                    if entry.within_reach(distance) {
                        served.push(entry.clone());
                    }
                },
                None => {},
            }
            proof {
                let now = pairs@.subrange(0, k + 1).filter(pred);
                assert forall|j: int| 0 <= j < served@.len() implies #[trigger] served@[j]
                    == tier[now[j].0] by {
                    if j < before.len() {
                        assert(served@[j] == before[j]);
                        assert(now[j] == kept[j]);
                    }
                }
            }
            k = k + 1;
        }
        proof {
            assert(pairs@.subrange(0, k as int) =~= pairs@);
            self.lemma_measured(self.postcodes()[postcode], distances@, pairs@, served@);
        }
        Some(served)
    }

    /// The ids of the providers that serve the postal code and have no
    /// quality factor, each once, in no stated order: the providers that the
    /// rankings by score and by profile leave out. `None` if the postal code
    /// is unknown.
    pub fn unrated_in_range(&self, postcode: u32, distances: &HashMap<u32, u64>) -> (found:
        Option<Vec<u32>>)
        requires
            self.wf(),
        ensures
            found is None <==> !self.postcodes().contains_key(postcode),
            match found {
                Some(ids) => exactly_once(
                    ids@,
                    self.unrated_ids(self.postcodes()[postcode], distances@),
                ),
                None => true,
            },
    {
        match self.providers_in_range(postcode, distances) {
            None => None,
            Some(served) => {
                let kept = keep_rated(&served, &self.quality_factor, false);
                proof {
                    self.lemma_rated(
                        self.postcodes()[postcode],
                        distances@,
                        served@,
                        SortMode::Distance,
                    );
                }
                let mut ids: Vec<u32> = Vec::new();
                let mut k: usize = 0;
                while k < kept.len()
                    invariant
                        k <= kept@.len(),
                        ids@ == entry_ids(kept@).subrange(0, k as int),
                    decreases kept@.len() - k,
                {
                    ids.push(kept[k].id);
                    assert(ids@ =~= entry_ids(kept@).subrange(0, k + 1));
                    k = k + 1;
                }
                assert(ids@ =~= entry_ids(kept@));
                Some(ids)
            },
        }
    }
}

/// Lines in another order are still one line per wanted id.
proof fn lemma_lines_permuted(
    before: Seq<ServiceProviderView>,
    after: Seq<ServiceProviderView>,
    wanted: Set<u32>,
)
    requires
        before.to_multiset() == after.to_multiset(),
        exactly_once(line_ids(before), wanted),
    ensures
        exactly_once(line_ids(after), wanted),
        forall|j: int| 0 <= j < after.len() ==> before.contains(#[trigger] after[j]),
{
    lemma_same_members(before, after);
    let ids0 = line_ids(before);
    let ids1 = line_ids(after);
    assert forall|j: int| 0 <= j < after.len() implies before.contains(#[trigger] after[j]) by {
        assert(after.contains(after[j]));
    }
    assert forall|j: int| 0 <= j < ids1.len() implies wanted.contains(#[trigger] ids1[j]) by {
        assert(before.contains(after[j]));
        let k = choose|k: int| 0 <= k < before.len() && before[k] == after[j];
        assert(ids0[k] == ids1[j]);
    }
    assert forall|id: u32| #[trigger] wanted.contains(id) implies ids1.contains(id) by {
        assert(ids0.contains(id));
        let k = choose|k: int| 0 <= k < ids0.len() && ids0[k] == id;
        assert(before.contains(before[k]));
        assert(after.contains(before[k]));
        let j = choose|j: int| 0 <= j < after.len() && after[j] == before[k];
        assert(ids1[j] == id);
    }
    assert(before.no_duplicates()) by {
        assert forall|i: int, j: int|
            0 <= i < before.len() && 0 <= j < before.len() && i != j implies before[i]
            != before[j] by {
            assert(ids0[i] == before[i].id);
            assert(ids0[j] == before[j].id);
        }
    }
    assert forall|i: int, j: int|
        0 <= i < ids1.len() && 0 <= j < ids1.len() && i != j implies ids1[i] != ids1[j] by {
        assert(before.contains(after[i]));
        assert(before.contains(after[j]));
        let a = choose|a: int| 0 <= a < before.len() && before[a] == after[i];
        let b = choose|b: int| 0 <= b < before.len() && before[b] == after[j];
        assert(ids0[a] == after[i].id);
        assert(ids0[b] == after[j].id);
        assert(ids1[i] == after[i].id);
        assert(ids1[j] == after[j].id);
    }
}

impl ProviderMap {
    /// Makes one result line per entry, with the score of the ranking.
    fn lines_of(
        &self,
        mode: SortMode,
        entries: &Vec<InServiceProvider>,
        distances: &HashMap<u32, u64>,
    ) -> (lines: Vec<ServiceProviderView>)
        requires
            forall|j: int|
                0 <= j < entries@.len() ==> distances@.contains_key((#[trigger] entries@[j]).id),
            mode != SortMode::Distance ==> forall|j: int|
                0 <= j < entries@.len() ==> self.qualities().contains_key(
                    (#[trigger] entries@[j]).id,
                ),
        ensures
            lines@.len() == entries@.len(),
            forall|j: int|
                0 <= j < lines@.len() ==> (#[trigger] lines@[j]).id == entries@[j].id
                    && lines@[j].name@ == entries@[j].name@ && lines@[j].ranking_score
                    == self.score_of(mode, entries@[j].id, distances@),
    {
        broadcast use vstd::std_specs::hash::group_hash_axioms;

        let mut lines: Vec<ServiceProviderView> = Vec::new();
        let mut k: usize = 0;
        while k < entries.len()
            invariant
                k <= entries@.len(),
                lines@.len() == k,
                forall|j: int|
                    0 <= j < entries@.len() ==> distances@.contains_key(
                        (#[trigger] entries@[j]).id,
                    ),
                mode != SortMode::Distance ==> forall|j: int|
                    0 <= j < entries@.len() ==> self.qualities().contains_key(
                        (#[trigger] entries@[j]).id,
                    ),
                forall|j: int|
                    0 <= j < k ==> (#[trigger] lines@[j]).id == entries@[j].id && lines@[j].name@
                        == entries@[j].name@ && lines@[j].ranking_score == self.score_of(
                        mode,
                        entries@[j].id,
                        distances@,
                    ),
            decreases entries@.len() - k,
        {
            let entry = &entries[k];
            let ghost before = lines@;
            assert(distances@.contains_key(entries@[k as int].id));
            let distance: u64 = match distances.get(&entry.id) {
                Some(d) => *d,
                None => 0,
            };
            let score: i128 = match mode {
                SortMode::Distance => distance as i128,
                SortMode::Profile => {
                    assert(self.qualities().contains_key(entries@[k as int].id));
                    match self.quality_factor.get(&entry.id) {
                        Some(q) => quality(q),
                        None => 0,
                    }
                },
                SortMode::Score => {
                    assert(self.qualities().contains_key(entries@[k as int].id));
                    match self.quality_factor.get(&entry.id) {
                        Some(q) => blended(q, distance),
                        None => 0,
                    }
                },
            };
            lines.push(
                ServiceProviderView { id: entry.id, name: entry.name.clone(), ranking_score: score },
            );
            proof {
                assert forall|j: int| 0 <= j < k + 1 implies (#[trigger] lines@[j]).id
                    == entries@[j].id && lines@[j].name@ == entries@[j].name@
                    && lines@[j].ranking_score == self.score_of(
                    mode,
                    entries@[j].id,
                    distances@,
                ) by {
                    if j < k {
                        assert(lines@[j] == before[j]);
                    }
                }
            }
            k = k + 1;
        }
        lines
    }

    /// The ranking of the providers that serve a postal code, in the order
    /// of the given mode. `None` if the postal code is unknown.
    ///
    /// `distances` gives the measured distance in millimetres from a
    /// provider, by id, to the postal code. A ranking by score or by profile
    /// leaves out the providers without a quality factor; `unrated_in_range`
    /// names them.
    pub fn ranked(&self, mode: SortMode, postcode: u32, distances: &HashMap<u32, u64>) -> (found:
        Option<Vec<ServiceProviderView>>)
        requires
            self.wf(),
        ensures
            found is None <==> !self.postcodes().contains_key(postcode),
            match found {
                Some(lines) => self.ranking_of(
                    mode,
                    self.postcodes()[postcode],
                    distances@,
                    lines@,
                ),
                None => true,
            },
    {
        let served = match self.providers_in_range(postcode, distances) {
            None => {
                return None;
            },
            Some(served) => served,
        };
        let ghost code = self.postcodes()[postcode];
        proof {
            self.lemma_rated(code, distances@, served@, mode);
        }
        let listed: Vec<InServiceProvider> = match mode {
            SortMode::Distance => served,
            _ => keep_rated(&served, &self.quality_factor, true),
        };
        let ghost wanted = self.listed_ids(mode, code, distances@);
        assert(exactly_once(entry_ids(listed@), wanted));
        assert(self.are_tier_entries(listed@, code));
        proof {
            assert forall|j: int| 0 <= j < listed@.len() implies distances@.contains_key(
                (#[trigger] listed@[j]).id,
            ) by {
                assert(entry_ids(listed@)[j] == listed@[j].id);
                assert(wanted.contains(entry_ids(listed@)[j]));
            }
        }
        let lines = self.lines_of(mode, &listed, distances);
        proof {
            assert(line_ids(lines@) =~= entry_ids(listed@));
            assert(self.are_lines(mode, distances@, lines@));
        }
        let sorted = sort_ranked(lines, mode != SortMode::Distance);
        proof {
            lemma_lines_permuted(lines@, sorted@, wanted);
            assert forall|j: int| 0 <= j < sorted@.len() implies (#[trigger] sorted@[j]).name@
                == self.providers()[sorted@[j].id].display_name() && sorted@[j].ranking_score
                == self.score_of(mode, sorted@[j].id, distances@) by {
                assert(lines@.contains(sorted@[j]));
                let k = choose|k: int| 0 <= k < lines@.len() && lines@[k] == sorted@[j];
            }
        }
        Some(sorted)
    }

    /// The providers that serve a postal code, best blended score first.
    /// `None` if the postal code is unknown.
    pub fn ranked_by_score(&self, postcode: u32, distances: &HashMap<u32, u64>) -> (found: Option<
        Vec<ServiceProviderView>,
    >)
        requires
            self.wf(),
        ensures
            found is None <==> !self.postcodes().contains_key(postcode),
            match found {
                Some(lines) => self.ranking_of(
                    SortMode::Score,
                    self.postcodes()[postcode],
                    distances@,
                    lines@,
                ),
                None => true,
            },
            match found {
                Some(lines) => forall|i: int, j: int|
                    0 <= i <= j < lines@.len() ==> (#[trigger] lines@[i]).ranking_score >= (
                    #[trigger] lines@[j]).ranking_score,
                None => true,
            },
    {
        let found = self.ranked(SortMode::Score, postcode, distances);
        proof {
            if found is Some {
                let lines = found->Some_0@;
                assert forall|i: int, j: int| 0 <= i <= j < lines.len() implies (
                #[trigger] lines[i]).ranking_score >= (#[trigger] lines[j]).ranking_score by {
                    lemma_ranked_scores(lines, SortMode::Score.descending(), i, j);
                }
            }
        }
        found
    }

    /// The providers that serve a postal code, nearest first. `None` if the
    /// postal code is unknown.
    pub fn ranked_by_distance(&self, postcode: u32, distances: &HashMap<u32, u64>) -> (found:
        Option<Vec<ServiceProviderView>>)
        requires
            self.wf(),
        ensures
            found is None <==> !self.postcodes().contains_key(postcode),
            match found {
                Some(lines) => self.ranking_of(
                    SortMode::Distance,
                    self.postcodes()[postcode],
                    distances@,
                    lines@,
                ),
                None => true,
            },
            match found {
                Some(lines) => forall|i: int, j: int|
                    0 <= i <= j < lines@.len() ==> (#[trigger] lines@[i]).ranking_score <= (
                    #[trigger] lines@[j]).ranking_score,
                None => true,
            },
    {
        let found = self.ranked(SortMode::Distance, postcode, distances);
        proof {
            if found is Some {
                let lines = found->Some_0@;
                assert forall|i: int, j: int| 0 <= i <= j < lines.len() implies (
                #[trigger] lines[i]).ranking_score <= (#[trigger] lines[j]).ranking_score by {
                    lemma_ranked_scores(lines, SortMode::Distance.descending(), i, j);
                }
            }
        }
        found
    }

    /// The providers that serve a postal code, best quality first. `None` if
    /// the postal code is unknown.
    pub fn ranked_by_profile(&self, postcode: u32, distances: &HashMap<u32, u64>) -> (found:
        Option<Vec<ServiceProviderView>>)
        requires
            self.wf(),
        ensures
            found is None <==> !self.postcodes().contains_key(postcode),
            match found {
                Some(lines) => self.ranking_of(
                    SortMode::Profile,
                    self.postcodes()[postcode],
                    distances@,
                    lines@,
                ),
                None => true,
            },
            match found {
                Some(lines) => forall|i: int, j: int|
                    0 <= i <= j < lines@.len() ==> (#[trigger] lines@[i]).ranking_score >= (
                    #[trigger] lines@[j]).ranking_score,
                None => true,
            },
    {
        let found = self.ranked(SortMode::Profile, postcode, distances);
        proof {
            if found is Some {
                let lines = found->Some_0@;
                assert forall|i: int, j: int| 0 <= i <= j < lines.len() implies (
                #[trigger] lines[i]).ranking_score >= (#[trigger] lines[j]).ranking_score by {
                    lemma_ranked_scores(lines, SortMode::Profile.descending(), i, j);
                }
            }
        }
        found
    }
}

/// Index in the list of the first line of a page.
pub open spec fn page_start_of<T>(list: Seq<T>, page: nat) -> int {
    crate::page::page_start(list.len(), page) as int
}

/// The provider with the driving distance and the coverage of `reach`, or
/// unchanged if there is none.
pub open spec fn with_reach(provider: ServiceProvider, reach: Option<Reach>) -> ServiceProvider {
    match reach {
        Some(r) => ServiceProvider {
            id: provider.id,
            first_name: provider.first_name,
            last_name: provider.last_name,
            city: provider.city,
            street: provider.street,
            house_number: provider.house_number,
            lon: provider.lon,
            lat: provider.lat,
            max_driving_distance: r.max_driving_distance,
            coverage: r.coverage,
        },
        None => provider,
    }
}

/// The quality factor with each given score in place of the old one.
pub open spec fn with_scores(quality: QualityFactor, picture: Option<u32>, description: Option<u32>)
    -> QualityFactor {
    QualityFactor {
        profile_id: quality.profile_id,
        profile_picture_score: match picture {
            Some(score) => score,
            None => quality.profile_picture_score,
        },
        profile_description_score: match description {
            Some(score) => score,
            None => quality.profile_description_score,
        },
    }
}

/// The field values that an update reports for a provider and its quality
/// factor.
pub open spec fn fields_of(provider: ServiceProvider, quality: QualityFactor) -> UpdatedFields {
    UpdatedFields {
        max_driving_distance: provider.max_driving_distance,
        profile_picture_score: quality.profile_picture_score,
        profile_description_score: quality.profile_description_score,
    }
}

impl ProviderMap {
    /// Changes a provider's driving distance and scores, each only where a
    /// new value is given, and reports the values the provider then has.
    ///
    /// A new driving distance comes with the boxes of the service area it
    /// gives, and the provider is filed anew in all three tiers, so that
    /// queries see the new distance at once.
    ///
    /// Nothing changes, and an error is returned, if no provider is filed
    /// under the id (`NotFound`) or if the provider has no quality factor
    /// (`MissingQualityFactor`).
    pub fn update_service_provider(
        &mut self,
        id: u32,
        reach: Option<Reach>,
        picture_score: Option<u32>,
        description_score: Option<u32>,
    ) -> (result: Result<UpdatedFields, EngineError>)
        requires
            old(self).wf(),
        ensures
            final(self).wf(),
            final(self).postcodes() == old(self).postcodes(),
            !old(self).providers().contains_key(id) ==> result == Err::<
                UpdatedFields,
                EngineError,
            >(EngineError::NotFound),
            old(self).providers().contains_key(id) && !old(self).qualities().contains_key(id)
                ==> result == Err::<UpdatedFields, EngineError>(EngineError::MissingQualityFactor),
            result is Err ==> final(self).same_records(*old(self)),
            old(self).providers().contains_key(id) && old(self).qualities().contains_key(id) ==> {
                let provider = with_reach(old(self).providers()[id], reach);
                let quality = with_scores(
                    old(self).qualities()[id],
                    picture_score,
                    description_score,
                );
                &&& result == Ok::<UpdatedFields, EngineError>(fields_of(provider, quality))
                &&& final(self).providers() == old(self).providers().insert(id, provider)
                &&& final(self).qualities() == old(self).qualities().insert(id, quality)
            },
            reach is None && picture_score is None && description_score is None ==> {
                &&& final(self).same_records(*old(self))
                &&& result is Ok ==> result == Ok::<UpdatedFields, EngineError>(
                    fields_of(old(self).providers()[id], old(self).qualities()[id]),
                )
            },
    {
        broadcast use vstd::std_specs::hash::group_hash_axioms;

        let current: ServiceProvider = match self.service_providers.get(&id) {
            None => {
                return Err(EngineError::NotFound);
            },
            Some(p) => p.clone(),
        };
        let rated: QualityFactor = match self.quality_factor.get(&id) {
            None => {
                return Err(EngineError::MissingQualityFactor);
            },
            Some(q) => *q,
        };
        let max_driving_distance: u64 = match reach {
            Some(r) => {
                let updated = ServiceProvider {
                    id: current.id,
                    first_name: current.first_name,
                    last_name: current.last_name,
                    city: current.city,
                    street: current.street,
                    house_number: current.house_number,
                    lon: current.lon,
                    lat: current.lat,
                    max_driving_distance: r.max_driving_distance,
                    coverage: r.coverage,
                };
                self.tiers.insert(id, &updated);
                self.service_providers.insert(id, updated);
                r.max_driving_distance
            },
            None => {
                let ghost before = old(self).providers();
                assert(before.insert(id, before[id]) =~= before);
                current.max_driving_distance
            },
        };
        let quality = QualityFactor {
            profile_id: rated.profile_id,
            profile_picture_score: match picture_score {
                Some(score) => score,
                None => rated.profile_picture_score,
            },
            profile_description_score: match description_score {
                Some(score) => score,
                None => rated.profile_description_score,
            },
        };
        if picture_score.is_some() || description_score.is_some() {
            self.quality_factor.insert(id, quality);
        } else {
            let ghost before = old(self).qualities();
            assert(before.insert(id, before[id]) =~= before);
        }
        Ok(
            UpdatedFields {
                max_driving_distance,
                profile_picture_score: quality.profile_picture_score,
                profile_description_score: quality.profile_description_score,
            },
        )
    }

    /// `out` is the page of `lines` with every line replaced by the full
    /// record of its provider.
    pub open spec fn detailed_from(
        &self,
        lines: Seq<ServiceProviderView>,
        page: nat,
        out: Page<ServiceProvider>,
    ) -> bool {
        &&& out.total_count == lines.len()
        &&& out.has_more == has_more_spec(lines.len(), page)
        &&& out.results@.len() == page_spec(lines, page).len()
        &&& forall|j: int|
            0 <= j < out.results@.len() ==> #[trigger] out.results@[j]
                == self.providers()[page_spec(lines, page)[j].id]
    }

    /// The first page of the ranking by blended score; empty if the postal
    /// code is unknown.
    pub fn search(&self, postcode: u32, distances: &HashMap<u32, u64>) -> (top: Vec<
        ServiceProviderView,
    >)
        requires
            self.wf(),
        ensures
            !self.postcodes().contains_key(postcode) ==> top@.len() == 0,
            self.postcodes().contains_key(postcode) ==> exists|lines: Seq<ServiceProviderView>|
                #[trigger] self.ranking_of(
                    SortMode::Score,
                    self.postcodes()[postcode],
                    distances@,
                    lines,
                ) && top@ == page_spec(lines, 0),
    {
        match self.ranked_by_score(postcode, distances) {
            None => Vec::new(),
            Some(lines) => {
                let ghost all = lines@;
                let page = paginate(lines, 0);
                assert(self.ranking_of(
                    SortMode::Score,
                    self.postcodes()[postcode],
                    distances@,
                    all,
                ) && page.results@ == page_spec(all, 0));
                page.results
            },
        }
    }

    /// One page of a ranking, with the full record of each provider on it.
    /// For an unknown postal code the page is empty, nothing follows it, and
    /// the total is zero.
    pub fn search_detailed(
        &self,
        postcode: u32,
        mode: SortMode,
        page: u32,
        distances: &HashMap<u32, u64>,
    ) -> (out: Page<ServiceProvider>)
        requires
            self.wf(),
        ensures
            !self.postcodes().contains_key(postcode) ==> out.results@.len() == 0 && !out.has_more
                && out.total_count == 0,
            self.postcodes().contains_key(postcode) ==> exists|lines: Seq<ServiceProviderView>|
                #[trigger] self.ranking_of(mode, self.postcodes()[postcode], distances@, lines)
                    && self.detailed_from(lines, page as nat, out),
    {
        broadcast use vstd::std_specs::hash::group_hash_axioms;

        let lines = match self.ranked(mode, postcode, distances) {
            None => {
                return Page { results: Vec::new(), has_more: false, total_count: 0 };
            },
            Some(lines) => lines,
        };
        let ghost all = lines@;
        let ghost code = self.postcodes()[postcode];
        let cut = paginate(lines, page);
        let ghost shown = page_spec(all, page as nat);
        proof {
            assert forall|j: int| 0 <= j < shown.len() implies self.providers().contains_key(
                (#[trigger] shown[j]).id,
            ) by {
                let at = page_start_of(all, page as nat) + j;
                assert(shown[j] == all[at]);
                assert(line_ids(all)[at] == all[at].id);
                assert(self.listed_ids(mode, code, distances@).contains(line_ids(all)[at]));
            }
        }
        let mut results: Vec<ServiceProvider> = Vec::new();
        let mut k: usize = 0;
        while k < cut.results.len()
            invariant
                k <= cut.results@.len(),
                cut.results@ == shown,
                results@.len() == k,
                forall|j: int|
                    0 <= j < shown.len() ==> self.providers().contains_key((#[trigger] shown[j]).id),
                forall|j: int|
                    0 <= j < k ==> #[trigger] results@[j] == self.providers()[shown[j].id],
            decreases cut.results@.len() - k,
        {
            let ghost before = results@;
            assert(self.providers().contains_key(shown[k as int].id));
            match self.service_providers.get(&cut.results[k].id) {
                Some(p) => {
                    results.push(p.clone());
                },
                None => {
                    // Never taken: every line on the page names a filed provider.
                    assert(false);
                },
            }
            proof {
                assert forall|j: int| 0 <= j < k + 1 implies #[trigger] results@[j]
                    == self.providers()[shown[j].id] by {
                    if j < k {
                        assert(results@[j] == before[j]);
                    }
                }
            }
            k = k + 1;
        }
        let out = Page { results, has_more: cut.has_more, total_count: cut.total_count };
        assert(self.ranking_of(mode, code, distances@, all) && self.detailed_from(
            all,
            page as nat,
            out,
        ));
        out
    }
}

impl ProviderMap {
    /// A provider that serves a place in one distance band serves the same
    /// place in every band with a buffer at least as large: its box there
    /// holds the box of the narrower band, and its effective driving distance
    /// is no smaller.
    pub proof fn lemma_wider_band_serves(
        &self,
        id: u32,
        narrow: Postcode,
        wide: Postcode,
        distances: Map<u32, u64>,
    )
        requires
            narrow.position() == wide.position(),
            narrow.postcode_extension_distance_group.buffer_spec()
                <= wide.postcode_extension_distance_group.buffer_spec(),
        ensures
            self.providers().contains_key(id) ==> tier_envelope(
                self.providers()[id].coverage,
                wide.postcode_extension_distance_group,
            ).covers(
                tier_envelope(
                    self.providers()[id].coverage,
                    narrow.postcode_extension_distance_group,
                ),
            ),
            self.is_candidate(id, narrow) ==> self.is_candidate(id, wide),
            self.in_range(id, narrow, distances) ==> self.in_range(id, wide, distances),
    {
        if self.providers().contains_key(id) {
            let coverage = self.providers()[id].coverage;
            lemma_tier_envelopes_nested(coverage);
            let inner = tier_envelope(coverage, narrow.postcode_extension_distance_group);
            let outer = tier_envelope(coverage, wide.postcode_extension_distance_group);
            assert(outer.covers(inner));
            if inner.contains(narrow.position()) {
                lemma_covers_contains(outer, inner, narrow.position());
            }
        }
    }

    /// A provider whose distance to a postal code was measured is listed as
    /// serving it if and only if that distance is no more than the
    /// provider's driving distance plus the buffer of the postal code's band.
    pub proof fn lemma_range_correct(
        &self,
        id: u32,
        code: Postcode,
        distances: Map<u32, u64>,
        served: Seq<InServiceProvider>,
    )
        requires
            exactly_once(entry_ids(served), self.in_range_ids(code, distances)),
            self.providers().contains_key(id),
            distances.contains_key(id),
        ensures
            entry_ids(served).contains(id) <==> distances[id] as int <= MILLIMETRES_PER_METRE as int
                * (self.providers()[id].max_driving_distance as int
                + code.postcode_extension_distance_group.buffer_spec() as int),
    {
        let ids = entry_ids(served);
        let wanted = self.in_range_ids(code, distances);
        if ids.contains(id) {
            let j = choose|j: int| 0 <= j < ids.len() && ids[j] == id;
            assert(wanted.contains(ids[j]));
        }
        if self.in_range(id, code, distances) {
            assert(wanted.contains(id));
        }
    }
}

impl ProviderMap {
    /// The keys of a ranking have no pair twice, and hold exactly the pairs
    /// of a listed provider's score and id.
    proof fn lemma_ranking_keys(
        &self,
        mode: SortMode,
        code: Postcode,
        distances: Map<u32, u64>,
        lines: Seq<ServiceProviderView>,
    )
        requires
            self.ranking_of(mode, code, distances, lines),
        ensures
            keys_ranked(line_keys(lines), mode.descending()),
            line_keys(lines).no_duplicates(),
            forall|key: (int, u32)|
                line_keys(lines).contains(key) <==> self.listed_ids(mode, code, distances).contains(
                    key.1,
                ) && key.0 == self.score_of(mode, key.1, distances),
    {
        let keys = line_keys(lines);
        let ids = line_ids(lines);
        let wanted = self.listed_ids(mode, code, distances);
        assert forall|i: int, j: int| 0 <= i < j < keys.len() implies key_before(
            #[trigger] keys[i],
            #[trigger] keys[j],
            mode.descending(),
        ) by {
            assert(ranks_before(lines[i], lines[j], mode.descending()));
        }
        assert forall|i: int, j: int|
            0 <= i < keys.len() && 0 <= j < keys.len() && i != j implies keys[i] != keys[j] by {
            assert(ids[i] == lines[i].id);
            assert(ids[j] == lines[j].id);
        }
        assert forall|key: (int, u32)| keys.contains(key) <==> wanted.contains(key.1) && key.0
            == self.score_of(mode, key.1, distances) by {
            if keys.contains(key) {
                let i = choose|i: int| 0 <= i < keys.len() && keys[i] == key;
                assert(ids[i] == lines[i].id);
                assert(wanted.contains(ids[i]));
            }
            if wanted.contains(key.1) && key.0 == self.score_of(mode, key.1, distances) {
                assert(ids.contains(key.1));
                let i = choose|i: int| 0 <= i < ids.len() && ids[i] == key.1;
                assert(lines[i].id == key.1);
                assert(keys[i] == key);
            }
        }
    }

    /// The engine's state and the measured distances determine a ranking:
    /// any two rankings of one postal code in one mode agree, line by line,
    /// on id, name and score.
    pub proof fn lemma_ranking_determined(
        &self,
        mode: SortMode,
        code: Postcode,
        distances: Map<u32, u64>,
        a: Seq<ServiceProviderView>,
        b: Seq<ServiceProviderView>,
    )
        requires
            self.ranking_of(mode, code, distances, a),
            self.ranking_of(mode, code, distances, b),
        ensures
            a.len() == b.len(),
            forall|k: int|
                0 <= k < a.len() ==> (#[trigger] a[k]).id == b[k].id && a[k].name@ == b[k].name@
                    && a[k].ranking_score == b[k].ranking_score,
    {
        broadcast use vstd::multiset::group_multiset_axioms;
        broadcast use vstd::seq_lib::group_to_multiset_ensures;

        let ka = line_keys(a);
        let kb = line_keys(b);
        self.lemma_ranking_keys(mode, code, distances, a);
        self.lemma_ranking_keys(mode, code, distances, b);
        ka.lemma_multiset_has_no_duplicates();
        kb.lemma_multiset_has_no_duplicates();
        assert forall|key: (int, u32)| ka.to_multiset().count(key) == kb.to_multiset().count(
            key,
        ) by {
            assert(ka.contains(key) <==> kb.contains(key));
            assert(ka.contains(key) <==> ka.to_multiset().count(key) > 0);
            assert(kb.contains(key) <==> kb.to_multiset().count(key) > 0);
        }
        assert(ka.to_multiset() =~= kb.to_multiset());
        lemma_ranked_keys_unique(ka, kb, mode.descending());
        assert(a.len() == ka.len());
        assert(b.len() == kb.len());
        assert forall|k: int| 0 <= k < a.len() implies (#[trigger] a[k]).id == b[k].id
            && a[k].name@ == b[k].name@ && a[k].ranking_score == b[k].ranking_score by {
            assert(ka[k] == (a[k].ranking_score as int, a[k].id));
            assert(kb[k] == (b[k].ranking_score as int, b[k].id));
        }
    }
}

} // verus!
