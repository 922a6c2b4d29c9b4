//! Musical pitches: twelve semitone classes over octaves 0 to 8, totally
//! ordered by musical height (`12 * octave + tone index`).

use vstd::prelude::*;

verus! {

/// Highest octave a pitch may carry.
pub const OCTAVE_MAX: u16 = 8;

/// One of the twelve semitone classes of an octave.
#[derive(Debug, PartialEq, Eq, Clone, Copy, Hash, Structural)]
pub enum Tone {
    C,
    Cs,
    D,
    Ds,
    E,
    F,
    Fs,
    G,
    Gs,
    A,
    As,
    B,
}

/// The semitone class whose index within the octave is `i`; `i` must be in
/// `[0, 12)` for the result to be meaningful.
pub open spec fn tone_of_index(i: int) -> Tone {
    if i == 0 {
        Tone::C
    } else if i == 1 {
        Tone::Cs
    } else if i == 2 {
        Tone::D
    } else if i == 3 {
        Tone::Ds
    } else if i == 4 {
        Tone::E
    } else if i == 5 {
        Tone::F
    } else if i == 6 {
        Tone::Fs
    } else if i == 7 {
        Tone::G
    } else if i == 8 {
        Tone::Gs
    } else if i == 9 {
        Tone::A
    } else if i == 10 {
        Tone::As
    } else {
        Tone::B
    }
}

impl Tone {
    /// Index of this semitone class within its octave, from C at 0 to B at 11.
    pub open spec fn index_spec(self) -> int {
        match self {
            Tone::C => 0,
            Tone::Cs => 1,
            Tone::D => 2,
            Tone::Ds => 3,
            Tone::E => 4,
            Tone::F => 5,
            Tone::Fs => 6,
            Tone::G => 7,
            Tone::Gs => 8,
            Tone::A => 9,
            Tone::As => 10,
            Tone::B => 11,
        }
    }

    /// Display name of this semitone class.
    pub open spec fn str_spec(self) -> Seq<char> {
        match self {
            Tone::C => "C"@,
            Tone::Cs => "C#"@,
            Tone::D => "D"@,
            Tone::Ds => "D#"@,
            Tone::E => "E"@,
            Tone::F => "F"@,
            Tone::Fs => "F#"@,
            Tone::G => "G"@,
            Tone::Gs => "G#"@,
            Tone::A => "A"@,
            Tone::As => "A#"@,
            Tone::B => "B"@,
        }
    }

    /// Inverse of `index`: the semitone class at `index` within the octave.
    pub fn from_index(index: u16) -> (r: Tone)
        requires
            index < 12,
        ensures
            r == tone_of_index(index as int),
    {
        match index {
            0 => Tone::C,
            1 => Tone::Cs,
            2 => Tone::D,
            3 => Tone::Ds,
            4 => Tone::E,
            5 => Tone::F,
            6 => Tone::Fs,
            7 => Tone::G,
            8 => Tone::Gs,
            9 => Tone::A,
            10 => Tone::As,
            _ => Tone::B,
        }
    }

    /// Index of this semitone class within its octave.
    pub fn index(&self) -> (r: u16)
        ensures
            r as int == self.index_spec(),
    {
        match self {
            Tone::C => 0,
            Tone::Cs => 1,
            Tone::D => 2,
            Tone::Ds => 3,
            Tone::E => 4,
            Tone::F => 5,
            Tone::Fs => 6,
            Tone::G => 7,
            Tone::Gs => 8,
            Tone::A => 9,
            Tone::As => 10,
            Tone::B => 11,
        }
    }

    /// Display name of this semitone class, sharps written with `#`.
    pub fn as_str(&self) -> (r: &'static str)
        ensures
            r@ == self.str_spec(),
    {
        match self {
            Tone::C => "C",
            Tone::Cs => "C#",
            Tone::D => "D",
            Tone::Ds => "D#",
            Tone::E => "E",
            Tone::F => "F",
            Tone::Fs => "F#",
            Tone::G => "G",
            Tone::Gs => "G#",
            Tone::A => "A",
            Tone::As => "A#",
            Tone::B => "B",
        }
    }
}

/// A concrete pitch: a semitone class anchored in an octave.
#[derive(Debug, PartialEq, Eq, Clone, Copy, Hash, Structural)]
pub struct Pitch {
    pub tone: Tone,
    pub octave: u16,
}

impl Pitch {
    /// A pitch is valid when its octave lies in `[0, OCTAVE_MAX]`.
    pub open spec fn wf(self) -> bool {
        self.octave <= OCTAVE_MAX
    }

    /// Musical height: semitones above C0. This is the total order used for
    /// pitch-range comparisons.
    pub open spec fn height_spec(self) -> int {
        12 * self.octave + self.tone.index_spec()
    }

    /// The pitch one semitone above, `None` at the top boundary (B8).
    pub open spec fn next_spec(self) -> Option<Pitch> {
        if self.tone == Tone::B && self.octave == OCTAVE_MAX {
            None
        } else if self.tone == Tone::B {
            Some(Pitch { tone: Tone::C, octave: (self.octave + 1) as u16 })
        } else {
            Some(Pitch { tone: tone_of_index(self.tone.index_spec() + 1), octave: self.octave })
        }
    }

    /// The pitch one semitone below, `None` at the bottom boundary (C0).
    pub open spec fn prev_spec(self) -> Option<Pitch> {
        if self.tone == Tone::C && self.octave == 0 {
            None
        } else if self.tone == Tone::C {
            Some(Pitch { tone: Tone::B, octave: (self.octave - 1) as u16 })
        } else {
            Some(Pitch { tone: tone_of_index(self.tone.index_spec() - 1), octave: self.octave })
        }
    }

    pub fn new(tone: Tone, octave: u16) -> (r: Pitch)
        ensures
            r == (Pitch { tone, octave }),
    {
        Pitch { tone, octave }
    }

    /// Every valid pitch in ascending musical height: C0, C#0, ... up to B8.
    pub fn all() -> (r: Vec<Pitch>)
        ensures
            r@.len() == 12 * (OCTAVE_MAX + 1),
            forall|i: int|
                0 <= i < r@.len() ==> #[trigger] r@[i] == (Pitch {
                    tone: tone_of_index(i % 12),
                    octave: (i / 12) as u16,
                }),
    {
        let mut pitches: Vec<Pitch> = Vec::new();
        let mut h: u16 = 0;
        while h < 12 * (OCTAVE_MAX + 1)
            invariant
                h <= 12 * (OCTAVE_MAX + 1),
                pitches@.len() == h,
                forall|i: int|
                    0 <= i < h ==> #[trigger] pitches@[i] == (Pitch {
                        tone: tone_of_index(i % 12),
                        octave: (i / 12) as u16,
                    }),
            decreases 12 * (OCTAVE_MAX + 1) - h,
        {
            pitches.push(Pitch::new(Tone::from_index(h % 12), h / 12));
            h = h + 1;
        }
        pitches
    }

    /// Steps one semitone up; `None` only at the global top boundary.
    pub fn next(&self) -> (r: Option<Pitch>)
        requires
            self.wf(),
        ensures
            r == self.next_spec(),
            r is Some ==> r->Some_0.wf() && r->Some_0.height_spec() == self.height_spec() + 1,
    {
        if self.tone == Tone::B && self.octave == OCTAVE_MAX {
            return None;
        }
        if self.tone == Tone::B {
            return Some(Pitch::new(Tone::C, self.octave + 1));
        }
        Some(Pitch::new(Tone::from_index(self.tone.index() + 1), self.octave))
    }

    /// Steps one semitone down; `None` only at the global bottom boundary.
    pub fn prev(&self) -> (r: Option<Pitch>)
        requires
            self.wf(),
        ensures
            r == self.prev_spec(),
            r is Some ==> r->Some_0.wf() && r->Some_0.height_spec() == self.height_spec() - 1,
    {
        if self.tone == Tone::C && self.octave == 0 {
            return None;
        }
        if self.tone == Tone::C {
            return Some(Pitch::new(Tone::B, self.octave - 1));
        }
        Some(Pitch::new(Tone::from_index(self.tone.index() - 1), self.octave))
    }

    /// Musical height as a number, used for range comparisons.
    pub fn height(&self) -> (r: u16)
        requires
            self.wf(),
        ensures
            r as int == self.height_spec(),
    {
        12 * self.octave + self.tone.index()
    }

    /// Display name, e.g. `C4` or `A#0`.
    pub fn as_str(&self) -> (r: String)
        requires
            self.wf(),
        ensures
            r@ == self.tone.str_spec() + octave_str(self.octave as int)@,
    {
        let mut s = String::new();
        s.append(self.tone.as_str());
        let digit: &'static str = match self.octave {
            0 => "0",
            1 => "1",
            2 => "2",
            3 => "3",
            4 => "4",
            5 => "5",
            6 => "6",
            7 => "7",
            _ => "8",
        };
        s.append(digit);
        s
    }
}

/// Decimal name of an octave in `[0, OCTAVE_MAX]`.
pub open spec fn octave_str(octave: int) -> &'static str {
    if octave == 0 {
        "0"
    } else if octave == 1 {
        "1"
    } else if octave == 2 {
        "2"
    } else if octave == 3 {
        "3"
    } else if octave == 4 {
        "4"
    } else if octave == 5 {
        "5"
    } else if octave == 6 {
        "6"
    } else if octave == 7 {
        "7"
    } else {
        "8"
    }
}

/// A pitch away from the top boundary steps up and back down to itself.
pub proof fn lemma_next_prev_roundtrip(p: Pitch)
    requires
        p.wf(),
        !(p.tone == Tone::B && p.octave == OCTAVE_MAX),
    ensures
        p.next_spec() is Some,
        p.next_spec()->Some_0.prev_spec() == Some(p),
{
}

/// A pitch away from the bottom boundary steps down and back up to itself.
pub proof fn lemma_prev_next_roundtrip(p: Pitch)
    requires
        p.wf(),
        !(p.tone == Tone::C && p.octave == 0),
    ensures
        p.prev_spec() is Some,
        p.prev_spec()->Some_0.next_spec() == Some(p),
{
}

} // verus!
