//! Reducing a file's note track to its note messages.

use vstd::prelude::*;
use crate::event::{MidiMessage, TrackEvent, TrackEventKind};

verus! {

/// The largest delta that a file can hold, `2^28 - 1`.
pub const MAX_DELTA: u32 = 0x0fff_ffff;

/// A delta as a file holds it: the low 28 bits of the number.
pub open spec fn wrap_delta(ticks: nat) -> u32 {
    (ticks % 0x1000_0000) as u32
}

/// `midly::num::u28::from` makes a 28-bit number of a `u32` by dropping
/// the four highest bits, and `as_int` hands that number back as a `u32`.
#[verifier::external_body]
fn lossy_delta(ticks: u32) -> (delta: u32)
    ensures
        delta == ticks % 0x1000_0000,
{
    midly::num::u28::from(ticks).as_int()
}

/// Where the trimming of a track stands: the note events kept so far, and
/// the ticks that have passed since the last of them.
pub struct Trim {
    pub kept: Seq<TrackEvent>,
    pub gap: nat,
}

/// The trimming of the first `n` events of a track. A note-on or note-off
/// event is kept, with the ticks since the note event before it as its
/// delta; any other event is left out and its delta added to the gap.
pub open spec fn trim_scan(events: Seq<TrackEvent>, n: nat) -> Trim
    decreases n,
{
    if n == 0 {
        Trim { kept: Seq::empty(), gap: 0 }
    } else {
        let before = trim_scan(events, (n - 1) as nat);
        let event = events[n - 1];
        let gap = before.gap + event.delta as nat;
        if event.kind.is_note() {
            Trim {
                kept: before.kept.push(TrackEvent { delta: wrap_delta(gap), kind: event.kind }),
                gap: 0,
            }
        } else {
            Trim { kept: before.kept, gap }
        }
    }
}

/// The note events of a track, each as many ticks after the one before it
/// as in the track.
pub open spec fn trimmed(events: Seq<TrackEvent>) -> Seq<TrackEvent> {
    trim_scan(events, events.len()).kept
}

/// The note events of some events, as they stand there.
pub open spec fn notes_of(events: Seq<TrackEvent>) -> Seq<TrackEvent> {
    events.filter(|e: TrackEvent| e.kind.is_note())
}

/// Trimming keeps the note events, all of them and in their order, and
/// changes only their deltas, to numbers that a file can hold.
pub proof fn lemma_trim_keeps_notes(events: Seq<TrackEvent>, n: nat)
    requires
        n <= events.len(),
    ensures
        trim_scan(events, n).kept.len() == notes_of(events.take(n as int)).len(),
        forall|i: int|
            0 <= i < trim_scan(events, n).kept.len() ==> {
                let kept = #[trigger] trim_scan(events, n).kept[i];
                kept.kind == notes_of(events.take(n as int))[i].kind && kept.delta <= MAX_DELTA
            },
    decreases n,
{
    reveal(Seq::filter);
    if n > 0 {
        lemma_trim_keeps_notes(events, (n - 1) as nat);
        assert(events.take(n as int).drop_last() =~= events.take(n - 1));
    }
}

/// The note events of a track. A delta that does not fit in 28 bits
/// loses its higher bits, as it would in a file.
pub fn trim_track(track: &Vec<TrackEvent>) -> (kept: Vec<TrackEvent>)
    ensures
        kept@ == trimmed(track@),
{
    let mut kept: Vec<TrackEvent> = Vec::new();
    let mut delta: u32 = 0;
    let mut i: usize = 0;
    while i < track.len()
        invariant
            i <= track.len(),
            kept@ == trim_scan(track@, i as nat).kept,
            delta == trim_scan(track@, i as nat).gap % 0x1_0000_0000,
        decreases track.len() - i,
    {
        let event = &track[i];
        delta = delta.wrapping_add(event.delta);
        if is_note(event) {
            kept.push(TrackEvent { delta: lossy_delta(delta), kind: event.kind });
            delta = 0;
        }
        i += 1;
    }
    kept
}

/// Whether an event starts or stops a note.
pub fn is_note(event: &TrackEvent) -> (note: bool)
    ensures
        note == event.kind.is_note(),
{
    match event.kind {
        TrackEventKind::Midi { message, .. } => match message {
            MidiMessage::NoteOn { .. } => true,
            MidiMessage::NoteOff { .. } => true,
            MidiMessage::Other => false,
        },
        _ => false,
    }
}

/// Takes the second track out of a file's tracks, reduces it to its note
/// events, and puts it back as the last track.
pub fn trim_midi(tracks: Vec<Vec<TrackEvent>>) -> (out: Vec<Vec<TrackEvent>>)
    requires
        tracks@.len() >= 2,
    ensures
        out@.len() == tracks@.len(),
        out@.drop_last() == tracks@.remove(1),
        out@.last()@ == trimmed(tracks@[1]@),
{
    let mut tracks = tracks;
    let ghost before = tracks@;
    let track = tracks.remove(1);
    let kept = trim_track(&track);
    tracks.push(kept);
    assert(tracks@.drop_last() =~= before.remove(1));
    tracks
}

} // verus!
