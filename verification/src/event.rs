//! The events of a track, reduced to what the analysis reads.

use vstd::prelude::*;

verus! {

/// The number of distinct keys a [`Key`] can name.
pub const KEY_COUNT: u8 = 128;

/// A key number in `0..128`.
#[derive(Clone, Copy, Debug, PartialEq, Eq, Structural)]
pub struct Key {
    index: u8,
}

impl Key {
    #[verifier::type_invariant]
    spec fn in_range(self) -> bool {
        self.index < KEY_COUNT
    }

    /// The key's number.
    pub closed spec fn view(self) -> nat {
        self.index as nat
    }

    /// The key numbered `index`, or `None` when `index` is not below 128.
    pub fn new(index: u8) -> (key: Option<Key>)
        ensures
            match key {
                Some(k) => index < KEY_COUNT && k@ == index,
                None => index >= KEY_COUNT,
            },
    {
        if index < KEY_COUNT {
            Some(Key { index })
        } else {
            None
        }
    }

    /// The key's number, always below 128.
    pub fn as_int(&self) -> (index: u8)
        ensures
            index == self@,
            index < KEY_COUNT,
    {
        proof {
            use_type_invariant(self);
        }
        self.index
    }
}

/// A channel message, as far as the analysis tells messages apart.
#[derive(Clone, Copy, Debug, PartialEq, Eq, Structural)]
pub enum MidiMessage {
    /// Stop playing a note.
    NoteOff { key: Key, vel: u8 },
    /// Start playing a note. With velocity zero it stops the note instead.
    NoteOn { key: Key, vel: u8 },
    /// Any other channel message.
    Other,
}

/// What a track event carries.
#[derive(Clone, Copy, Debug, PartialEq, Eq, Structural)]
pub enum TrackEventKind {
    /// A message on a channel.
    Midi { channel: u8, message: MidiMessage },
    /// The marker that ends a track.
    EndOfTrack,
    /// Anything else: it takes time and changes nothing.
    Other,
}

/// One event of a track: `delta` ticks after the event before it.
#[derive(Clone, Copy, Debug, PartialEq, Eq, Structural)]
pub struct TrackEvent {
    pub delta: u32,
    pub kind: TrackEventKind,
}

impl MidiMessage {
    /// Whether the message starts or stops a note.
    pub open spec fn is_note(self) -> bool {
        self is NoteOn || self is NoteOff
    }

    /// The key of a note message.
    pub fn key(&self) -> (key: Option<Key>)
        ensures
            key == match *self {
                MidiMessage::NoteOn { key, .. } => Some(key),
                MidiMessage::NoteOff { key, .. } => Some(key),
                MidiMessage::Other => None,
            },
    {
        match self {
            MidiMessage::NoteOn { key, .. } => Some(*key),
            MidiMessage::NoteOff { key, .. } => Some(*key),
            MidiMessage::Other => None,
        }
    }

    /// The velocity with which a note message starts its note: that of a
    /// note-on, and zero for a note-off, which starts none.
    pub fn velocity(&self) -> (velocity: Option<u8>)
        ensures
            velocity == match *self {
                MidiMessage::NoteOn { vel, .. } => Some(vel),
                MidiMessage::NoteOff { .. } => Some(0u8),
                MidiMessage::Other => None,
            },
    {
        match self {
            MidiMessage::NoteOn { vel, .. } => Some(*vel),
            MidiMessage::NoteOff { .. } => Some(0),
            MidiMessage::Other => None,
        }
    }
}

/// A track: its events in order.
pub type Track = Vec<TrackEvent>;

impl TrackEventKind {
    /// Whether the event starts or stops a note.
    pub open spec fn is_note(self) -> bool {
        self matches TrackEventKind::Midi { message, .. } && message.is_note()
    }
}

} // verus!
