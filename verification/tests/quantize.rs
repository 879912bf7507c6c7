use ss_analysis::event::{Key, MidiMessage, TrackEvent, TrackEventKind};
use ss_analysis::quantize::{delta_gcd, gcd, quantize};
use ss_analysis::temporal::TemporalSpace;

fn note(delta: u32, key: u8, vel: u8) -> TrackEvent {
    let message = MidiMessage::NoteOn { key: Key::new(key).unwrap(), vel };
    TrackEvent { delta, kind: TrackEventKind::Midi { channel: 0, message } }
}

fn end(delta: u32) -> TrackEvent {
    TrackEvent { delta, kind: TrackEventKind::EndOfTrack }
}

#[test]
fn gcd_of_two_numbers() {
    assert_eq!(gcd(12, 18), 6);
    assert_eq!(gcd(18, 12), 6);
    assert_eq!(gcd(17, 5), 1);
    assert_eq!(gcd(0, 5), 5);
    assert_eq!(gcd(7, 0), 7);
    assert_eq!(gcd(0, 0), 0);
    assert_eq!(gcd(u32::MAX, u32::MAX), u32::MAX);
    assert_eq!(gcd(u32::MAX, 1), 1);
    assert_eq!(gcd(1 << 31, 1 << 20), 1 << 20);
}

#[test]
fn gcd_of_the_deltas_of_a_track() {
    let track = vec![note(0, 60, 9), note(480, 60, 0), note(240, 62, 9), end(960)];
    assert_eq!(delta_gcd(&track), 240);
    assert_eq!(delta_gcd(&vec![note(6, 1, 1), note(10, 2, 1), end(15)]), 1);
    assert_eq!(delta_gcd(&vec![end(0), end(0)]), 0);
    assert_eq!(delta_gcd(&Vec::new()), 0);
    assert_eq!(delta_gcd(&vec![end(35)]), 35);
}

#[test]
fn quantized_track_has_the_smallest_deltas() {
    let track = vec![note(0, 60, 9), note(480, 60, 0), note(240, 62, 9), end(960)];
    let (small, unit) = quantize(&track);
    assert_eq!(unit, 240);
    assert_eq!(small, vec![note(0, 60, 9), note(2, 60, 0), note(1, 62, 9), end(4)]);
    assert_eq!(delta_gcd(&small), 1);
}

#[test]
fn track_without_time_is_left_as_it_is() {
    let track = vec![note(0, 60, 9), end(0)];
    assert_eq!(quantize(&track), (track.clone(), 1));
    assert_eq!(quantize(&Vec::new()), (Vec::new(), 1));
}

#[test]
fn quantizing_keeps_the_proportions_of_the_space() {
    let track = vec![note(30, 1, 9), note(45, 2, 9), note(0, 1, 0), note(105, 3, 9), end(60)];
    let (small, unit) = quantize(&track);
    assert_eq!(unit, 15);
    let space = TemporalSpace::new(&track);
    let small_space = TemporalSpace::new(&small);
    assert_eq!(space.feature_count(), small_space.feature_count());
    assert_eq!(space.total_duration(), small_space.total_duration() * 15);
    assert_eq!(small_space.total_duration(), 16);
    for (big, little) in space.features().iter().zip(small_space.features().iter()) {
        assert_eq!(big.vector, little.vector);
        assert_eq!(big.offset, little.offset * 15);
        assert_eq!(big.duration, little.duration * 15);
    }
}
