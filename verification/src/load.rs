//! From lists of records to the keyed data sets the engine is built from.

use vstd::prelude::*;
use std::collections::HashMap;
use crate::data::Postcode;
use crate::data::QualityFactor;
use crate::data::ServiceProvider;

verus! {

/// The postal codes by code: of two records with one code the later stays.
pub open spec fn postcode_table(records: Seq<Postcode>) -> Map<u32, Postcode>
    decreases records.len(),
{
    if records.len() == 0 {
        Map::empty()
    } else {
        postcode_table(records.drop_last()).insert(records.last().postcode, records.last())
    }
}

/// The quality factors by provider id: of two records with one id the later
/// stays.
pub open spec fn quality_table(records: Seq<QualityFactor>) -> Map<u32, QualityFactor>
    decreases records.len(),
{
    if records.len() == 0 {
        Map::empty()
    } else {
        quality_table(records.drop_last()).insert(records.last().profile_id, records.last())
    }
}

/// The providers by id: of two records with one id the later stays.
pub open spec fn provider_table(records: Seq<ServiceProvider>) -> Map<u32, ServiceProvider>
    decreases records.len(),
{
    if records.len() == 0 {
        Map::empty()
    } else {
        provider_table(records.drop_last()).insert(records.last().id, records.last())
    }
}

/// Files postal codes under their codes.
pub fn postcodes_by_code(records: &Vec<Postcode>) -> (table: HashMap<u32, Postcode>)
    ensures
        table@ == postcode_table(records@),
{
    broadcast use vstd::std_specs::hash::group_hash_axioms;

    let mut table: HashMap<u32, Postcode> = HashMap::new();
    let mut k: usize = 0;
    assert(records@.subrange(0, 0) =~= Seq::empty());
    while k < records.len()
        invariant
            k <= records@.len(),
            table@ == postcode_table(records@.subrange(0, k as int)),
        decreases records@.len() - k,
    {
        assert(records@.subrange(0, k + 1).drop_last() =~= records@.subrange(0, k as int));
        table.insert(records[k].postcode, records[k]);
        k = k + 1;
    }
    assert(records@.subrange(0, k as int) =~= records@);
    table
}

/// Files quality factors under the ids of their providers.
pub fn qualities_by_profile(records: &Vec<QualityFactor>) -> (table: HashMap<u32, QualityFactor>)
    ensures
        table@ == quality_table(records@),
{
    broadcast use vstd::std_specs::hash::group_hash_axioms;

    let mut table: HashMap<u32, QualityFactor> = HashMap::new();
    let mut k: usize = 0;
    assert(records@.subrange(0, 0) =~= Seq::empty());
    while k < records.len()
        invariant
            k <= records@.len(),
            table@ == quality_table(records@.subrange(0, k as int)),
        decreases records@.len() - k,
    {
        assert(records@.subrange(0, k + 1).drop_last() =~= records@.subrange(0, k as int));
        table.insert(records[k].profile_id, records[k]);
        k = k + 1;
    }
    assert(records@.subrange(0, k as int) =~= records@);
    table
}

/// Files providers under their ids.
pub fn providers_by_id(records: &Vec<ServiceProvider>) -> (table: HashMap<u32, ServiceProvider>)
    ensures
        table@ == provider_table(records@),
{
    broadcast use vstd::std_specs::hash::group_hash_axioms;

    let mut table: HashMap<u32, ServiceProvider> = HashMap::new();
    let mut k: usize = 0;
    assert(records@.subrange(0, 0) =~= Seq::empty());
    while k < records.len()
        invariant
            k <= records@.len(),
            table@ == provider_table(records@.subrange(0, k as int)),
        decreases records@.len() - k,
    {
        assert(records@.subrange(0, k + 1).drop_last() =~= records@.subrange(0, k as int));
        table.insert(records[k].id, records[k].clone());
        k = k + 1;
    }
    assert(records@.subrange(0, k as int) =~= records@);
    table
}

} // verus!
