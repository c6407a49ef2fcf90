//! Shared vocabulary: units, errors, note names and spectral points.
pub mod constants;
pub mod error;
pub mod fft_space;
pub mod fixed;
pub mod into_frequency_domain;
pub mod utils;

use crate::common::fixed::{microbins, to_microbins};
use vstd::prelude::*;
use vstd::string::StringExecFns;

verus! {

/// The twelve note names of an octave, counted in semitones from A.
#[derive(Debug, Clone, Copy, PartialEq, Eq, Structural)]
pub enum NoteName {
    A,
    ASharp,
    B,
    C,
    CSharp,
    D,
    DSharp,
    E,
    F,
    FSharp,
    G,
    GSharp,
}

/// The note name that lies `i mod 12` semitones above A.
pub open spec fn note_at(i: int) -> NoteName {
    let k = i % 12;
    if k == 0 {
        NoteName::A
    } else if k == 1 {
        NoteName::ASharp
    } else if k == 2 {
        NoteName::B
    } else if k == 3 {
        NoteName::C
    } else if k == 4 {
        NoteName::CSharp
    } else if k == 5 {
        NoteName::D
    } else if k == 6 {
        NoteName::DSharp
    } else if k == 7 {
        NoteName::E
    } else if k == 8 {
        NoteName::F
    } else if k == 9 {
        NoteName::FSharp
    } else if k == 10 {
        NoteName::G
    } else {
        NoteName::GSharp
    }
}

impl NoteName {
    /// Semitones above A, from 0 to 11.
    pub open spec fn spec_index(self) -> int {
        match self {
            NoteName::A => 0,
            NoteName::ASharp => 1,
            NoteName::B => 2,
            NoteName::C => 3,
            NoteName::CSharp => 4,
            NoteName::D => 5,
            NoteName::DSharp => 6,
            NoteName::E => 7,
            NoteName::F => 8,
            NoteName::FSharp => 9,
            NoteName::G => 10,
            NoteName::GSharp => 11,
        }
    }

    /// The written name: a letter, followed by `#` for a sharp.
    pub open spec fn name(self) -> Seq<char> {
        match self {
            NoteName::A => seq!['A'],
            NoteName::ASharp => seq!['A', '#'],
            NoteName::B => seq!['B'],
            NoteName::C => seq!['C'],
            NoteName::CSharp => seq!['C', '#'],
            NoteName::D => seq!['D'],
            NoteName::DSharp => seq!['D', '#'],
            NoteName::E => seq!['E'],
            NoteName::F => seq!['F'],
            NoteName::FSharp => seq!['F', '#'],
            NoteName::G => seq!['G'],
            NoteName::GSharp => seq!['G', '#'],
        }
    }

    /// Frequency of the note in the lowest octave of the table, in millihertz.
    pub open spec fn spec_base_freq(self) -> int {
        match self {
            NoteName::A => 25_500,
            NoteName::ASharp => 29_140,
            NoteName::B => 30_870,
            NoteName::C => 32_700,
            NoteName::CSharp => 34_650,
            NoteName::D => 36_710,
            NoteName::DSharp => 38_890,
            NoteName::E => 41_200,
            NoteName::F => 43_650,
            NoteName::FSharp => 46_250,
            NoteName::G => 49_000,
            NoteName::GSharp => 51_910,
        }
    }

    /// Semitones above A, from 0 to 11.
    pub fn index(self) -> (i: usize)
        ensures
            i == self.spec_index(),
            i < 12,
            note_at(i as int) == self,
    {
        match self {
            NoteName::A => 0,
            NoteName::ASharp => 1,
            NoteName::B => 2,
            NoteName::C => 3,
            NoteName::CSharp => 4,
            NoteName::D => 5,
            NoteName::DSharp => 6,
            NoteName::E => 7,
            NoteName::F => 8,
            NoteName::FSharp => 9,
            NoteName::G => 10,
            NoteName::GSharp => 11,
        }
    }

    /// The note name `i` semitones above A.
    pub fn from_index(i: usize) -> (note: NoteName)
        requires
            i < 12,
        ensures
            note == note_at(i as int),
            note.spec_index() == i,
    {
        if i == 0 {
            NoteName::A
        } else if i == 1 {
            NoteName::ASharp
        } else if i == 2 {
            NoteName::B
        } else if i == 3 {
            NoteName::C
        } else if i == 4 {
            NoteName::CSharp
        } else if i == 5 {
            NoteName::D
        } else if i == 6 {
            NoteName::DSharp
        } else if i == 7 {
            NoteName::E
        } else if i == 8 {
            NoteName::F
        } else if i == 9 {
            NoteName::FSharp
        } else if i == 10 {
            NoteName::G
        } else {
            NoteName::GSharp
        }
    }

    /// The note name written as `s`, if `s` is the written name of one.
    pub fn parse(s: &str) -> (note: Option<NoteName>)
        ensures
            match note {
                Some(n) => s@ == n.name(),
                None => forall|n: NoteName| s@ != n.name(),
            },
    {
        let len = s.unicode_len();
        if len == 0 || len > 2 {
            return None;
        }
        let letter = s.get_char(0);
        if len == 2 {
            let mark = s.get_char(1);
            if mark != '#' {
                return None;
            }
            let note = if letter == 'A' {
                NoteName::ASharp
            } else if letter == 'C' {
                NoteName::CSharp
            } else if letter == 'D' {
                NoteName::DSharp
            } else if letter == 'F' {
                NoteName::FSharp
            } else if letter == 'G' {
                NoteName::GSharp
            } else {
                return None;
            };
            assert(s@ =~= note.name());
            Some(note)
        } else {
            let note = if letter == 'A' {
                NoteName::A
            } else if letter == 'B' {
                NoteName::B
            } else if letter == 'C' {
                NoteName::C
            } else if letter == 'D' {
                NoteName::D
            } else if letter == 'E' {
                NoteName::E
            } else if letter == 'F' {
                NoteName::F
            } else if letter == 'G' {
                NoteName::G
            } else {
                return None;
            };
            assert(s@ =~= note.name());
            Some(note)
        }
    }

    /// The note name written as `s`.
    pub fn from(s: &str) -> (note: NoteName)
        requires
            exists|n: NoteName| s@ == n.name(),
        ensures
            s@ == note.name(),
    {
        match NoteName::parse(s) {
            Some(note) => note,
            None => NoteName::A,
        }
    }

    /// The written name of the note.
    pub fn to_string(&self) -> (s: String)
        ensures
            s@ == self.name(),
    {
        let text = match self {
            NoteName::A => "A",
            NoteName::ASharp => "A#",
            NoteName::B => "B",
            NoteName::C => "C",
            NoteName::CSharp => "C#",
            NoteName::D => "D",
            NoteName::DSharp => "D#",
            NoteName::E => "E",
            NoteName::F => "F",
            NoteName::FSharp => "F#",
            NoteName::G => "G",
            NoteName::GSharp => "G#",
        };
        proof {
            reveal_strlit("A");
            reveal_strlit("A#");
            reveal_strlit("B");
            reveal_strlit("C");
            reveal_strlit("C#");
            reveal_strlit("D");
            reveal_strlit("D#");
            reveal_strlit("E");
            reveal_strlit("F");
            reveal_strlit("F#");
            reveal_strlit("G");
            reveal_strlit("G#");
            assert(text@ =~= self.name());
        }
        String::from_str(text)
    }

    /// Frequency of the note in the lowest octave of the table, in millihertz.
    pub fn base_freq(&self) -> (freq: i64)
        ensures
            freq == self.spec_base_freq(),
    {
        match self {
            NoteName::A => 25_500,
            NoteName::ASharp => 29_140,
            NoteName::B => 30_870,
            NoteName::C => 32_700,
            NoteName::CSharp => 34_650,
            NoteName::D => 36_710,
            NoteName::DSharp => 38_890,
            NoteName::E => 41_200,
            NoteName::F => 43_650,
            NoteName::FSharp => 46_250,
            NoteName::G => 49_000,
            NoteName::GSharp => 51_910,
        }
    }

    /// The name one semitone above.
    pub fn next(self) -> (note: NoteName)
        ensures
            note == note_at(self.spec_index() + 1),
    {
        let i = self.index();
        NoteName::from_index(if i == 11 { 0 } else { i + 1 })
    }

    /// The name one semitone below.
    pub fn previous(self) -> (note: NoteName)
        ensures
            note == note_at(self.spec_index() - 1),
    {
        let i = self.index();
        NoteName::from_index(if i == 0 { 11 } else { i - 1 })
    }
}

/// Distinct note names are written differently.
pub proof fn lemma_names_distinct(a: NoteName, b: NoteName)
    ensures
        a.name() == b.name() <==> a == b,
{
    if a != b {
        assert(a.name().len() != b.name().len() || a.name()[0] != b.name()[0]);
    }
}

/// Going up a semitone and then down again, or the reverse, returns to the
/// same name; twelve semitones up is the same name.
pub proof fn lemma_note_cycle(i: int)
    ensures
        note_at(i + 12) == note_at(i),
        note_at(i).spec_index() == i % 12,
        note_at(note_at(i).spec_index() + 1) == note_at(i + 1),
        note_at(note_at(i).spec_index() - 1) == note_at(i - 1),
{
    vstd::arithmetic::div_mod::lemma_mod_add_multiples_vanish(i, 12);
    vstd::arithmetic::div_mod::lemma_mod_bound(i, 12);
    let k = i % 12;
    vstd::arithmetic::div_mod::lemma_add_mod_noop(i, 1, 12);
    vstd::arithmetic::div_mod::lemma_sub_mod_noop(i, 1, 12);
    assert(((i % 12) + (1int % 12)) % 12 == (i + 1) % 12);
    assert(((i % 12) - (1int % 12)) % 12 == (i - 1) % 12);
}

/// One bin of a spectrum: its index and its magnitude.
#[derive(Debug, Clone, Copy, PartialEq, Eq, Structural)]
pub struct FrequencyBin {
    pub bin: usize,
    pub magnitude: i64,
}

impl Default for FrequencyBin {
    fn default() -> (r: Self)
        ensures
            r.bin == 0,
            r.magnitude == 0,
    {
        Self { bin: 0, magnitude: 0 }
    }
}

impl FrequencyBin {
    /// Ordering by magnitude alone.
    pub fn less_than(&self, other: &FrequencyBin) -> (r: bool)
        ensures
            r == (self.magnitude < other.magnitude),
    {
        self.magnitude < other.magnitude
    }
}

/// A bin of the spectrum of a transform.
pub type FftBin = FrequencyBin;

/// A position on the bin axis, in millionths of a bin, and the magnitude
/// there.
#[derive(Debug, Clone, Copy, PartialEq, Eq, Structural)]
pub struct FftPoint {
    pub x: i64,
    pub y: i64,
}

impl Default for FftPoint {
    fn default() -> (r: Self)
        ensures
            r.x == 0,
            r.y == 0,
    {
        Self { x: 0, y: 0 }
    }
}

impl FftPoint {
    /// The point at the centre of a whole bin.
    pub fn from(bin: FrequencyBin) -> (p: FftPoint)
        ensures
            p.x == microbins(bin.bin as int),
            p.y == bin.magnitude,
    {
        FftPoint { x: to_microbins(bin.bin), y: bin.magnitude }
    }
}

} // verus!
