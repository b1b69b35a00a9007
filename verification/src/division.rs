use vstd::prelude::*;
use crate::text::str_equal;

verus! {

/// A playing division of a fantasy tournament.
#[derive(Clone, Copy, Debug, PartialEq, Eq, Structural)]
pub enum Division {
    MPO,
    FPO,
    Unknown,
}

/// The division as it is stored: only the two real divisions exist there.
#[derive(Clone, Copy, Debug, PartialEq, Eq, Structural)]
pub enum StoredDivision {
    Fpo,
    Mpo,
}

/// The division as the results service names it when players are fetched.
#[derive(Clone, Copy, Debug, PartialEq, Eq, Structural)]
pub enum ApiDivision {
    MPO,
    FPO,
}

impl Default for Division {
    fn default() -> (d: Self)
        ensures
            d == Division::Unknown,
    {
        Division::Unknown
    }
}

pub open spec fn stored_division(d: Division) -> StoredDivision {
    match d {
        Division::FPO => StoredDivision::Fpo,
        _ => StoredDivision::Mpo,
    }
}

/// The division of a stored value.
pub open spec fn division_from_stored(s: StoredDivision) -> Division {
    match s {
        StoredDivision::Mpo => Division::MPO,
        StoredDivision::Fpo => Division::FPO,
    }
}

/// The division that a name gives: "FPO" gives FPO, anything else MPO.
pub open spec fn division_named(name: Seq<char>) -> Division {
    if name == "FPO"@ {
        Division::FPO
    } else {
        Division::MPO
    }
}

/// The name a division is shown with; an unknown division shows as "MPO".
pub open spec fn division_name(d: Division) -> Seq<char> {
    if d == Division::FPO {
        "FPO"@
    } else {
        "MPO"@
    }
}

impl Division {
    /// The stored form of a division; an unknown division is stored as MPO.
    pub fn to_stored(&self) -> (s: StoredDivision)
        ensures
            s == stored_division(*self),
    {
        match self {
            Division::MPO => StoredDivision::Mpo,
            Division::FPO => StoredDivision::Fpo,
            Division::Unknown => StoredDivision::Mpo,
        }
    }

    /// The division of a stored value.
    pub fn from_stored(s: StoredDivision) -> (d: Division)
        ensures
            d == division_from_stored(s),
    {
        match s {
            StoredDivision::Mpo => Division::MPO,
            StoredDivision::Fpo => Division::FPO,
        }
    }

    /// The division named by a path parameter: "FPO" gives FPO, anything else MPO.
    pub fn from_name(name: &str) -> (d: Division)
        ensures
            d == division_named(name@),
    {
        proof {
            reveal_strlit("MPO");
            reveal_strlit("FPO");
            assert("MPO"@[0] != "FPO"@[0]);
        }
        if str_equal(name, "MPO") {
            Division::MPO
        } else if str_equal(name, "FPO") {
            Division::FPO
        } else {
            Division::MPO
        }
    }

    /// The display name of a division; an unknown division shows as "MPO".
    pub fn display_name(&self) -> (s: &'static str)
        ensures
            s@ == division_name(*self),
    {
        match self {
            Division::FPO => "FPO",
            _ => "MPO",
        }
    }
}

impl From<StoredDivision> for Division {
    fn from(s: StoredDivision) -> (d: Division) {
        Division::from_stored(s)
    }
}

impl vstd::std_specs::convert::FromSpecImpl<StoredDivision> for Division {
    open spec fn obeys_from_spec() -> bool {
        true
    }

    open spec fn from_spec(s: StoredDivision) -> Division {
        division_from_stored(s)
    }
}

impl From<Division> for StoredDivision {
    fn from(d: Division) -> (s: StoredDivision) {
        d.to_stored()
    }
}

impl vstd::std_specs::convert::FromSpecImpl<Division> for StoredDivision {
    open spec fn obeys_from_spec() -> bool {
        true
    }

    open spec fn from_spec(d: Division) -> StoredDivision {
        stored_division(d)
    }
}

/// A known division survives being stored and read back, and being shown and read back by
/// name; every stored value survives being read and stored again; an unknown division is
/// stored and shown as MPO.
pub proof fn law_division_round_trip(d: Division, s: StoredDivision)
    ensures
        stored_division(division_from_stored(s)) == s,
        d != Division::Unknown ==> division_from_stored(stored_division(d)) == d,
        d != Division::Unknown ==> division_named(division_name(d)) == d,
        stored_division(Division::Unknown) == StoredDivision::Mpo,
        division_name(Division::Unknown) == "MPO"@,
{
    reveal_strlit("MPO");
    reveal_strlit("FPO");
    assert("MPO"@ != "FPO"@) by {
        assert("MPO"@[0] != "FPO"@[0]);
    }
}

impl ApiDivision {
    /// The stored division that a fetched division names.
    pub fn to_division(&self) -> (s: StoredDivision)
        ensures
            s == (match *self {
                ApiDivision::FPO => StoredDivision::Fpo,
                ApiDivision::MPO => StoredDivision::Mpo,
            }),
    {
        match self {
            ApiDivision::FPO => StoredDivision::Fpo,
            ApiDivision::MPO => StoredDivision::Mpo,
        }
    }
}

/// Where a user stands on an invitation to a fantasy tournament.
#[derive(Clone, Copy, Debug, PartialEq, Eq, Structural)]
pub enum InvitationStatus {
    Accepted,
    Pending,
    Declined,
}

/// The tier of a competition, which scales the fantasy points earned in it.
#[derive(Clone, Copy, Debug, PartialEq, Eq, Structural)]
pub enum CompetitionLevel {
    Major,
    Playoff,
    ElitePlus,
    Elite,
    Silver,
}

/// The multiplier of a level, in quarters: 2, 1.5, 1.25, 1 and 0.5.
pub open spec fn level_quarters(level: CompetitionLevel) -> int {
    match level {
        CompetitionLevel::Major => 8,
        CompetitionLevel::Playoff => 6,
        CompetitionLevel::ElitePlus => 5,
        CompetitionLevel::Elite => 4,
        CompetitionLevel::Silver => 2,
    }
}

impl CompetitionLevel {
    /// The point multiplier of the level, counted in quarters.
    pub fn multiplier_quarters(&self) -> (q: u16)
        ensures
            q == level_quarters(*self),
    {
        match self {
            CompetitionLevel::Major => 8,
            CompetitionLevel::Playoff => 6,
            CompetitionLevel::ElitePlus => 5,
            CompetitionLevel::Elite => 4,
            CompetitionLevel::Silver => 2,
        }
    }
}

} // verus!
