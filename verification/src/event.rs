//! Performance events and their decoding from raw MIDI bytes.

use vstd::prelude::*;
use vstd::slice::slice_subrange;

verus! {

/// A decoded performance event.
#[derive(Clone, Copy, Debug, PartialEq, Eq, Structural)]
pub enum Event {
    /// A key was pressed.
    NoteOn { note: u8, velocity: u8 },
    /// A key was released. The velocity carries no meaning.
    NoteOff { note: u8, velocity: u8 },
    /// The pitch wheel moved; 8192 is its centre.
    PitchBend { bend: u16 },
    /// Any message that the synthesizer does not act on.
    Other,
}

/// The largest value of a seven-bit data byte.
pub const DATA_MAX: u8 = 127;

/// The largest pitch-bend value, fourteen bits wide.
pub const BEND_MAX: u16 = 16383;

/// The pitch-bend value at which the wheel is at rest.
pub const BEND_CENTER: u16 = 8192;

impl Event {
    /// Whether every field lies in the range that the wire format allows.
    pub open spec fn valid(self) -> bool {
        match self {
            Event::NoteOn { note, velocity } => note <= DATA_MAX && velocity <= DATA_MAX,
            Event::NoteOff { note, velocity } => note <= DATA_MAX && velocity <= DATA_MAX,
            Event::PitchBend { bend } => bend <= BEND_MAX,
            Event::Other => true,
        }
    }

    /// Executable form of [`Event::valid`].
    pub fn is_valid(&self) -> (ok: bool)
        ensures
            ok == self.valid(),
    {
        match *self {
            Event::NoteOn { note, velocity } => note <= DATA_MAX && velocity <= DATA_MAX,
            Event::NoteOff { note, velocity } => note <= DATA_MAX && velocity <= DATA_MAX,
            Event::PitchBend { bend } => bend <= BEND_MAX,
            Event::Other => true,
        }
    }
}

/// The message kind that a status byte announces: its upper four bits.
pub open spec fn status_kind(status: u8) -> int {
    status as int / 16
}

/// Whether a status byte opens one of the three messages that are acted on:
/// note-off (8), note-on (9) or pitch-bend (14).
pub open spec fn is_voice_status(status: u8) -> bool {
    status_kind(status) == 8 || status_kind(status) == 9 || status_kind(status) == 14
}

/// Whether a message that opens with a voice status carries two seven-bit
/// data bytes behind it.
pub open spec fn has_voice_payload(bytes: Seq<u8>) -> bool {
    bytes.len() >= 3 && bytes[1] <= DATA_MAX && bytes[2] <= DATA_MAX
}

/// What a message that opens with a voice status decodes to. A message that
/// is cut short, or whose data bytes have their top bit set, decodes to
/// nothing. A pitch-bend carries its low seven bits first.
pub open spec fn voice_message(bytes: Seq<u8>) -> Option<Event>
    recommends
        bytes.len() >= 1,
        is_voice_status(bytes[0]),
{
    if !has_voice_payload(bytes) {
        None
    } else if status_kind(bytes[0]) == 8 {
        Some(Event::NoteOff { note: bytes[1], velocity: bytes[2] })
    } else if status_kind(bytes[0]) == 9 {
        Some(Event::NoteOn { note: bytes[1], velocity: bytes[2] })
    } else {
        Some(Event::PitchBend { bend: (bytes[1] as int + 128 * bytes[2] as int) as u16 })
    }
}

/// What a raw message decodes to. An empty message and a malformed voice
/// message decode to nothing; a message of any other kind is not looked into
/// and decodes to [`Event::Other`].
pub open spec fn decoded(bytes: Seq<u8>) -> Option<Event> {
    if bytes.len() == 0 {
        None
    } else if is_voice_status(bytes[0]) {
        voice_message(bytes)
    } else {
        Some(Event::Other)
    }
}

/// Calls `midi_msg::MidiMsg::from_midi` on a message of at most three bytes
/// that opens with a note-off, note-on or pitch-bend status byte, and keeps
/// the note-off, note-on or pitch-bend that it parsed. The contract claims
/// that the parser accepts such a message exactly when two data bytes below
/// 128 follow the status byte, that it hands the two bytes on as note and
/// velocity, and that it joins them, low seven bits first, into the bend.
#[verifier::external_body]
fn parse_voice_message(bytes: &[u8]) -> (parsed: Option<Event>)
    requires
        1 <= bytes@.len() <= 3,
        is_voice_status(bytes@[0]),
    ensures
        parsed == voice_message(bytes@),
{
    match midi_msg::MidiMsg::from_midi(bytes) {
        Ok((midi_msg::MidiMsg::ChannelVoice { msg, .. }, _)) => match msg {
            midi_msg::ChannelVoiceMsg::NoteOn { note, velocity } => Some(Event::NoteOn { note, velocity }),
            midi_msg::ChannelVoiceMsg::NoteOff { note, velocity } => Some(Event::NoteOff { note, velocity }),
            midi_msg::ChannelVoiceMsg::PitchBend { bend } => Some(Event::PitchBend { bend }),
            _ => None,
        },
        _ => None,
    }
}

/// Decodes one raw message. Of a voice message only the status byte and the
/// two data bytes are looked at; what follows them is passed over.
pub fn decode(bytes: &[u8]) -> (event: Option<Event>)
    ensures
        event == decoded(bytes@),
        event matches Some(e) ==> e.valid(),
{
    if bytes.len() == 0 {
        return None;
    }
    let kind: u8 = bytes[0] / 16;
    if kind == 8 || kind == 9 || kind == 14 {
        let head = if bytes.len() > 3 {
            slice_subrange(bytes, 0, 3)
        } else {
            bytes
        };
        parse_voice_message(head)
    } else {
        Some(Event::Other)
    }
}

} // verus!
