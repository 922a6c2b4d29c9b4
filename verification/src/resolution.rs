//! The editing grid resolution: which note subdivision one cursor step or
//! one inserted note covers.

use vstd::prelude::*;

verus! {

/// Grid resolution, from quarter notes down to 32nd notes.
#[derive(Debug, Clone, Copy, PartialEq, Eq, Structural)]
pub enum Resolution {
    Time1_4,
    Time1_8,
    Time1_16,
    Time1_32,
}

impl Resolution {
    /// Width of one grid step in 32nd-note units.
    pub open spec fn duration_b32_spec(self) -> int {
        match self {
            Resolution::Time1_4 => 8,
            Resolution::Time1_8 => 4,
            Resolution::Time1_16 => 2,
            Resolution::Time1_32 => 1,
        }
    }

    /// The next coarser resolution; quarter notes stay put.
    pub open spec fn next_down_spec(self) -> Resolution {
        match self {
            Resolution::Time1_32 => Resolution::Time1_16,
            Resolution::Time1_16 => Resolution::Time1_8,
            Resolution::Time1_8 => Resolution::Time1_4,
            Resolution::Time1_4 => Resolution::Time1_4,
        }
    }

    /// The next finer resolution; 32nd notes stay put.
    pub open spec fn next_up_spec(self) -> Resolution {
        match self {
            Resolution::Time1_4 => Resolution::Time1_8,
            Resolution::Time1_8 => Resolution::Time1_16,
            Resolution::Time1_16 => Resolution::Time1_32,
            Resolution::Time1_32 => Resolution::Time1_32,
        }
    }

    /// Display name of this resolution.
    pub open spec fn str_spec(self) -> Seq<char> {
        match self {
            Resolution::Time1_4 => "1/4"@,
            Resolution::Time1_8 => "1/8"@,
            Resolution::Time1_16 => "1/16"@,
            Resolution::Time1_32 => "1/32"@,
        }
    }

    pub fn as_str(&self) -> (r: &'static str)
        ensures
            r@ == self.str_spec(),
    {
        match self {
            Resolution::Time1_4 => "1/4",
            Resolution::Time1_8 => "1/8",
            Resolution::Time1_16 => "1/16",
            Resolution::Time1_32 => "1/32",
        }
    }

    /// How many grid steps make up one bar at this resolution.
    pub fn bar_length_in_beats(&self) -> (r: usize)
        ensures
            r as int * self.duration_b32_spec() == 32,
    {
        match self {
            Resolution::Time1_4 => 4,
            Resolution::Time1_8 => 8,
            Resolution::Time1_16 => 16,
            Resolution::Time1_32 => 32,
        }
    }

    /// Width of one grid step in 32nd-note units.
    pub fn duration_b32(&self) -> (r: u64)
        ensures
            r as int == self.duration_b32_spec(),
            1 <= r <= 8,
    {
        match self {
            Resolution::Time1_4 => 8,
            Resolution::Time1_8 => 4,
            Resolution::Time1_16 => 2,
            Resolution::Time1_32 => 1,
        }
    }

    /// The next coarser resolution; a no-op at quarter notes.
    pub fn next_down(&self) -> (r: Resolution)
        ensures
            r == self.next_down_spec(),
    {
        match self {
            Resolution::Time1_32 => Resolution::Time1_16,
            Resolution::Time1_16 => Resolution::Time1_8,
            Resolution::Time1_8 => Resolution::Time1_4,
            Resolution::Time1_4 => Resolution::Time1_4,
        }
    }

    /// The next finer resolution; a no-op at 32nd notes.
    pub fn next_up(&self) -> (r: Resolution)
        ensures
            r == self.next_up_spec(),
    {
        match self {
            Resolution::Time1_4 => Resolution::Time1_8,
            Resolution::Time1_8 => Resolution::Time1_16,
            Resolution::Time1_16 => Resolution::Time1_32,
            Resolution::Time1_32 => Resolution::Time1_32,
        }
    }
}

} // verus!
