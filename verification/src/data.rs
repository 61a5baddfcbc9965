//! The records the matching engine is built from and the record it hands out.
//!
//! Angles are fixed-point (see `geo`), distances are whole metres, and the
//! two quality scores are parts per million of the unit interval.

use vstd::prelude::*;
use vstd::string::StringExecFns;
use crate::geo::Envelope;
use crate::geo::GeoPoint;

verus! {

/// One million: the fixed-point value of a score of 1.
pub const SCORE_ONE: u32 = 1_000_000;

/// The distance band of a postal code. It selects the index tier that
/// answers queries for the code.
#[derive(Clone, Copy, Debug, PartialEq, Eq, Structural)]
pub enum PostcodeGroup {
    GroupA,
    GroupB,
    GroupC,
}

impl PostcodeGroup {
    /// Metres added to every provider's driving distance in this group's tier.
    pub open spec fn buffer_spec(self) -> nat {
        match self {
            PostcodeGroup::GroupA => 0,
            PostcodeGroup::GroupB => 2000,
            PostcodeGroup::GroupC => 5000,
        }
    }

    /// The group a name stands for: `group_a`, `group_b` or `group_c`.
    pub open spec fn from_name_spec(name: Seq<char>) -> Option<PostcodeGroup> {
        if name == "group_a"@ {
            Some(PostcodeGroup::GroupA)
        } else if name == "group_b"@ {
            Some(PostcodeGroup::GroupB)
        } else if name == "group_c"@ {
            Some(PostcodeGroup::GroupC)
        } else {
            None
        }
    }

    /// Metres added to every provider's driving distance in this group's tier.
    pub fn buffer(&self) -> (b: u64)
        ensures
            b == self.buffer_spec(),
    {
        match self {
            PostcodeGroup::GroupA => 0,
            PostcodeGroup::GroupB => 2000,
            PostcodeGroup::GroupC => 5000,
        }
    }

    /// Reads a group from its name; any other text gives `None`.
    pub fn from_name(name: &str) -> (g: Option<PostcodeGroup>)
        ensures
            g == PostcodeGroup::from_name_spec(name@),
    {
        let given: String = name.to_owned();
        if given == "group_a".to_owned() {
            Some(PostcodeGroup::GroupA)
        } else if given == "group_b".to_owned() {
            Some(PostcodeGroup::GroupB)
        } else if given == "group_c".to_owned() {
            Some(PostcodeGroup::GroupC)
        } else {
            None
        }
    }
}

/// A postal code with its location and distance band.
#[derive(Clone, Copy, Debug, PartialEq, Eq, Structural)]
pub struct Postcode {
    pub postcode: u32,
    pub lon: i64,
    pub lat: i64,
    pub postcode_extension_distance_group: PostcodeGroup,
}

impl Postcode {
    /// Where the postal code lies.
    pub open spec fn position(self) -> GeoPoint {
        GeoPoint { lon: self.lon, lat: self.lat }
    }

    /// Where the postal code lies.
    pub fn point(&self) -> (p: GeoPoint)
        ensures
            p == self.position(),
    {
        GeoPoint { lon: self.lon, lat: self.lat }
    }
}

/// The two profile scores of one provider, in parts per million.
#[derive(Clone, Copy, Debug, PartialEq, Eq, Structural)]
pub struct QualityFactor {
    pub profile_id: u32,
    pub profile_picture_score: u32,
    pub profile_description_score: u32,
}

/// The bounding boxes of a provider's service area, one per distance band:
/// each is meant to hold the disc around the provider whose radius is the
/// driving distance plus the band's buffer.
#[derive(Clone, Copy, Debug, PartialEq, Eq, Structural)]
pub struct Coverage {
    pub group_a: Envelope,
    pub group_b: Envelope,
    pub group_c: Envelope,
}

impl Coverage {
    /// The box given for a distance band.
    pub open spec fn of_spec(self, group: PostcodeGroup) -> Envelope {
        match group {
            PostcodeGroup::GroupA => self.group_a,
            PostcodeGroup::GroupB => self.group_b,
            PostcodeGroup::GroupC => self.group_c,
        }
    }

    /// The box given for a distance band.
    pub fn of(&self, group: PostcodeGroup) -> (e: Envelope)
        ensures
            e == self.of_spec(group),
    {
        match group {
            PostcodeGroup::GroupA => self.group_a,
            PostcodeGroup::GroupB => self.group_b,
            PostcodeGroup::GroupC => self.group_c,
        }
    }
}

/// A service provider: who they are, where they are, and how far they drive.
#[derive(Debug)]
pub struct ServiceProvider {
    pub id: u32,
    pub first_name: String,
    pub last_name: String,
    pub city: String,
    pub street: String,
    pub house_number: String,
    pub lon: i64,
    pub lat: i64,
    /// Metres.
    pub max_driving_distance: u64,
    pub coverage: Coverage,
}

impl ServiceProvider {
    /// Where the provider is based.
    pub open spec fn position(self) -> GeoPoint {
        GeoPoint { lon: self.lon, lat: self.lat }
    }

    /// The name shown in results: first name directly followed by last name.
    pub open spec fn display_name(self) -> Seq<char> {
        self.first_name@ + self.last_name@
    }

    /// Where the provider is based.
    pub fn point(&self) -> (p: GeoPoint)
        ensures
            p == self.position(),
    {
        GeoPoint { lon: self.lon, lat: self.lat }
    }

    /// The name shown in results: first name directly followed by last name.
    pub fn name(&self) -> (n: String)
        ensures
            n@ == self.display_name(),
    {
        self.first_name.clone().concat(self.last_name.as_str())
    }
}

impl Clone for ServiceProvider {
    /// A copy equal to the record in every field.
    fn clone(&self) -> (copy: ServiceProvider)
        ensures
            copy == *self,
    {
        ServiceProvider {
            id: self.id,
            first_name: self.first_name.clone(),
            last_name: self.last_name.clone(),
            city: self.city.clone(),
            street: self.street.clone(),
            house_number: self.house_number.clone(),
            lon: self.lon,
            lat: self.lat,
            max_driving_distance: self.max_driving_distance,
            coverage: self.coverage,
        }
    }
}

/// One line of a ranked result: a provider and its score under the ranking
/// that produced the line. Scores of different rankings are not comparable.
#[derive(Debug)]
pub struct ServiceProviderView {
    pub id: u32,
    pub name: String,
    pub ranking_score: i128,
}

impl ServiceProviderView {
}

impl Clone for ServiceProviderView {
    /// A copy equal to the line in every field.
    fn clone(&self) -> (copy: ServiceProviderView)
        ensures
            copy == *self,
    {
        ServiceProviderView { id: self.id, name: self.name.clone(), ranking_score: self.ranking_score }
    }
}

} // verus!
