//! Note names and their MIDI key numbers.
//!
//! A [`Note`] is a letter, an optional sharp and an octave; its
//! [`position`](Note::position) is the MIDI key number relative to C-1, the
//! lowest MIDI note (position 0). The highest representable position is 127
//! (G9).

use vstd::prelude::*;

verus! {

/// One of the seven note letters.
#[derive(Clone, Copy, Debug, PartialEq, Eq, Structural)]
pub enum NoteLetter {
    C,
    D,
    E,
    F,
    G,
    A,
    B,
}

/// A named note: letter, optional sharp, octave.
#[derive(Clone, Copy, Debug, PartialEq, Eq, Structural)]
pub struct Note {
    pub note_letter: NoteLetter,
    pub sharp: bool,
    pub octave: i8,
}

/// The semitone offset of a letter within its octave.
pub open spec fn spec_letter_semitone(l: NoteLetter) -> int {
    match l {
        NoteLetter::C => 0,
        NoteLetter::D => 2,
        NoteLetter::E => 4,
        NoteLetter::F => 5,
        NoteLetter::G => 7,
        NoteLetter::A => 9,
        NoteLetter::B => 11,
    }
}

/// The MIDI key number of a note, counted from C-1 at 0.
pub open spec fn spec_position(n: Note) -> int {
    (n.octave + 1) * 12 + spec_letter_semitone(n.note_letter) + (if n.sharp {
        1int
    } else {
        0int
    })
}

/// Whether a note lies within the MIDI key range 0..=127.
pub open spec fn spec_in_midi_range(n: Note) -> bool {
    0 <= spec_position(n) <= 127
}

impl NoteLetter {
    /// The semitone offset of this letter within its octave.
    pub fn semitone(self) -> (r: u8)
        ensures
            r == spec_letter_semitone(self),
    {
        match self {
            NoteLetter::C => 0,
            NoteLetter::D => 2,
            NoteLetter::E => 4,
            NoteLetter::F => 5,
            NoteLetter::G => 7,
            NoteLetter::A => 9,
            NoteLetter::B => 11,
        }
    }
}

impl Note {
    /// The MIDI key number of this note, relative to C-1 (the lowest MIDI
    /// note).
    pub fn position(&self) -> (r: u8)
        requires
            spec_in_midi_range(*self),
        ensures
            r == spec_position(*self),
    {
        let base: i32 = (self.octave as i32 + 1) * 12 + self.note_letter.semitone() as i32;
        if self.sharp {
            (base + 1) as u8
        } else {
            base as u8
        }
    }

    /// The note with the given MIDI key number, relative to C-1 (the lowest
    /// MIDI note). Black keys come back as sharps, so this is a right
    /// inverse of [`position`](Note::position).
    pub fn from_position(position: u8) -> (r: Note)
        requires
            position <= 127,
        ensures
            spec_position(r) == position,
            spec_in_midi_range(r),
            !(r.note_letter == NoteLetter::E && r.sharp),
            !(r.note_letter == NoteLetter::B && r.sharp),
    {
        let octave: i8 = (position / 12) as i8 - 1;
        let semitone: u8 = position % 12;
        let (note_letter, sharp) = match semitone {
            0 => (NoteLetter::C, false),
            1 => (NoteLetter::C, true),
            2 => (NoteLetter::D, false),
            3 => (NoteLetter::D, true),
            4 => (NoteLetter::E, false),
            5 => (NoteLetter::F, false),
            6 => (NoteLetter::F, true),
            7 => (NoteLetter::G, false),
            8 => (NoteLetter::G, true),
            9 => (NoteLetter::A, false),
            10 => (NoteLetter::A, true),
            _ => (NoteLetter::B, false),
        };
        Note { note_letter, sharp, octave }
    }
}

} // verus!
