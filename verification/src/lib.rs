//! A real-time software synthesizer: it turns multi-track MIDI event data and
//! a SoundFont instrument bank into a stream of interleaved stereo PCM samples.
//!
//! The engine is split into five parts, in dependency order:
//! note positions ([`notes`]), the SoundFont bank index ([`bank`]), the MIDI
//! compiler ([`midi`] and [`smf`]), the per-track sequencer ([`track`]) and
//! the voice renderer with its buffering bridge ([`audio`]).
//!
//! All musical time and all resampling arithmetic is carried out in Q32.32
//! fixed point (see [`fixed`]), so that every step of the pipeline is exact
//! integer arithmetic with proven absence of overflow.

pub mod audio;
pub mod bank;
pub mod fixed;
pub mod midi;
pub mod smf;
pub mod track;
pub mod voice;
pub mod notes;

pub use audio::{MidiAudio, MidiAudioTrackHandle, MidiBufferMessage, MidiRenderer, SyncedMidiInfo};
pub use midi::MidiTrack;
pub use notes::{Note, NoteLetter};
pub use rustysynth::SoundFont;
pub use track::{
    MidiAudioTrack, MidiQueueEvent, MidiQueueEventType, MidiQueueLooping, MidiQueueTiming,
};
