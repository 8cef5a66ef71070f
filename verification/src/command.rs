//! The scheduling commands that the interpreter hands to the playback, and
//! the MIDI messages that the playback makes of them.

use vstd::prelude::*;

verus! {

/// The status byte of a note-on message for channel 0.
pub const NOTE_ON: u8 = 0x90;

/// The status byte of a note-off message for channel 0.
pub const NOTE_OFF: u8 = 0x80;

/// A note before it is resolved to a MIDI pitch: an octave index and a
/// degree within it.
#[derive(Debug, Clone, Copy, PartialEq, Eq, Structural)]
pub struct PitchSpec {
    pub octave: i8,
    pub degree: i16,
}

/// One scheduling instruction.
#[derive(Debug, Clone, Copy, PartialEq, Eq, Structural)]
pub enum Command {
    /// Channel, note and velocity.
    NoteOn(u8, PitchSpec, u8),
    /// Channel and note.
    NoteOff(u8, PitchSpec),
    /// The steps that make one pitch period.
    SetTuning(u16),
    SetKeyOffset(i16),
    /// Beats per minute.
    SetTempo(u16),
    SetLinesPerBeat(u16),
    /// A number of ticks to wait.
    Wait(u16),
    Stop,
}

impl Command {
    /// The channel of a note command leaves room for it in the status byte.
    pub open spec fn fits(self) -> bool {
        match self {
            Command::NoteOn(channel, _, _) => NOTE_ON + channel <= u8::MAX,
            Command::NoteOff(channel, _) => NOTE_OFF + channel <= u8::MAX,
            _ => true,
        }
    }

    /// Whether the channel of a note command leaves room for it in the
    /// status byte.
    pub fn check_fits(&self) -> (fits: bool)
        ensures
            fits == self.fits(),
    {
        match *self {
            Command::NoteOn(channel, _, _) => channel <= u8::MAX - NOTE_ON,
            Command::NoteOff(channel, _) => channel <= u8::MAX - NOTE_OFF,
            _ => true,
        }
    }
}

/// A MIDI message of three bytes.
#[derive(Debug, Clone, Copy, PartialEq, Eq, Structural)]
pub struct MidiMessage {
    pub status: u8,
    pub data1: u8,
    pub data2: u8,
}

} // verus!
