//! The units an angle is measured in, and their sexagesimal subdivisions.

use vstd::prelude::*;

verus! {

/// The base unit of an angle.
#[derive(Debug, Clone, Copy, PartialEq, Eq, Structural)]
pub enum AngleUnit {
    Degrees,
    Hours,
}

/// How finely a base unit is divided: not at all, into minutes, or into seconds.
#[derive(Debug, Clone, Copy, PartialEq, Eq, Structural)]
pub enum AngleUnitSubdivision {
    Wholes,
    Minutes,
    Seconds,
}

impl AngleUnit {
    /// Base units in one full rotation.
    pub open spec fn spec_units_in_rotation(&self) -> nat {
        match self {
            AngleUnit::Degrees => 360,
            AngleUnit::Hours => 24,
        }
    }

    /// Parts of the given subdivision in one full rotation.
    pub open spec fn spec_parts_in_rotation(&self, subdivision: AngleUnitSubdivision) -> nat {
        subdivision.spec_parts_in_unit() * self.spec_units_in_rotation()
    }

    /// The symbols written after the whole, minute and second components of this unit.
    pub open spec fn spec_subdivision_unit_symbols(&self) -> Seq<char> {
        match self {
            AngleUnit::Degrees => seq!['°', '′', '″'],
            AngleUnit::Hours => seq!['ʰ', 'ᵐ', 'ˢ'],
        }
    }

    #[must_use]
    pub fn units_in_rotation(&self) -> (units: u32)
        ensures
            units == self.spec_units_in_rotation(),
    {
        match self {
            Self::Degrees => 360,
            Self::Hours => 24,
        }
    }

    #[must_use]
    pub fn parts_in_rotation(&self, subdivision: AngleUnitSubdivision) -> (parts: u32)
        ensures
            parts == self.spec_parts_in_rotation(subdivision),
    {
        subdivision.parts_in_unit() * self.units_in_rotation()
    }

    #[must_use]
    pub fn subdivision_unit_symbols(&self) -> (symbols: [char; 3])
        ensures
            symbols@ == self.spec_subdivision_unit_symbols(),
    {
        match self {
            Self::Degrees => ['°', '′', '″'],
            Self::Hours => ['ʰ', 'ᵐ', 'ˢ'],
        }
    }
}

impl AngleUnitSubdivision {
    /// Parts of this subdivision in one base unit.
    pub open spec fn spec_parts_in_unit(&self) -> nat {
        match self {
            AngleUnitSubdivision::Wholes => 1,
            AngleUnitSubdivision::Minutes => 60,
            AngleUnitSubdivision::Seconds => 3600,
        }
    }

    #[must_use]
    pub fn parts_in_unit(&self) -> (parts: u32)
        ensures
            parts == self.spec_parts_in_unit(),
    {
        match self {
            Self::Wholes => 1,
            Self::Minutes => 60,
            Self::Seconds => 3600,
        }
    }
}

} // verus!
