use ss_analysis::event::{Key, MidiMessage, TrackEvent, TrackEventKind};
use ss_analysis::feature::{FeatureVector, Similarity};
use ss_analysis::scale::Scale;
use ss_analysis::temporal::{TemporalFeature, TemporalSpace};

fn on(delta: u32, key: u8) -> TrackEvent {
    let message = MidiMessage::NoteOn { key: Key::new(key).unwrap(), vel: 100 };
    TrackEvent { delta, kind: TrackEventKind::Midi { channel: 0, message } }
}

fn off(delta: u32, key: u8) -> TrackEvent {
    let message = MidiMessage::NoteOff { key: Key::new(key).unwrap(), vel: 0 };
    TrackEvent { delta, kind: TrackEventKind::Midi { channel: 0, message } }
}

fn silent_on(delta: u32, key: u8) -> TrackEvent {
    let message = MidiMessage::NoteOn { key: Key::new(key).unwrap(), vel: 0 };
    TrackEvent { delta, kind: TrackEventKind::Midi { channel: 0, message } }
}

fn other(delta: u32) -> TrackEvent {
    TrackEvent { delta, kind: TrackEventKind::Other }
}

fn controller(delta: u32) -> TrackEvent {
    TrackEvent { delta, kind: TrackEventKind::Midi { channel: 3, message: MidiMessage::Other } }
}

fn end(delta: u32) -> TrackEvent {
    TrackEvent { delta, kind: TrackEventKind::EndOfTrack }
}

fn keys(list: &[u8]) -> FeatureVector {
    let mut v = FeatureVector::new();
    for k in list {
        v = v.apply(&MidiMessage::NoteOn { key: Key::new(*k).unwrap(), vel: 1 });
    }
    v
}

fn feature(list: &[u8], duration: u128, offset: u128) -> TemporalFeature {
    TemporalFeature { vector: keys(list), duration, offset }
}

fn assert_partition(space: &TemporalSpace) {
    let features = space.features();
    let mut at: u128 = 0;
    let mut sum: u128 = 0;
    for f in features.iter() {
        assert_eq!(f.offset, at);
        at = f.offset + f.duration;
        sum += f.duration;
    }
    assert_eq!(at, space.total_duration());
    assert_eq!(sum, space.total_duration());
}

#[test]
fn one_note_held_for_ten_ticks() {
    let track = vec![on(0, 60), off(10, 60), end(0)];
    let space = TemporalSpace::new(&track);
    assert_eq!(
        space.features(),
        &vec![feature(&[], 0, 0), feature(&[60], 10, 0), feature(&[], 0, 10)]
    );
    assert_eq!(space.feature_count(), 3);
    assert_eq!(space.total_duration(), 10);
    assert_eq!(space.size(), 10);
    let sounding = &space.features()[1];
    let terminal = &space.features()[2];
    let score = sounding.vector.similarity_of(&terminal.vector);
    assert_eq!(score, Similarity { numer: 0, denom: 1 });
    assert!(score.is_zero());
}

#[test]
fn note_after_a_rest_has_two_segments_before_the_end() {
    let track = vec![on(4, 60), off(10, 60), end(6)];
    let space = TemporalSpace::new(&track);
    assert_eq!(
        space.features(),
        &vec![feature(&[], 4, 0), feature(&[60], 10, 4), feature(&[], 6, 14)]
    );
    assert_eq!(space.total_duration(), 20);
}

#[test]
fn track_without_notes_is_one_empty_segment() {
    let track = vec![other(5), controller(7), end(3)];
    let space = TemporalSpace::new(&track);
    assert_eq!(space.feature_count(), 1);
    assert_eq!(space.features(), &vec![feature(&[], 15, 0)]);
    assert_eq!(space.total_duration(), 15);
    assert_eq!(space.size(), 15);
}

#[test]
fn end_marker_alone_is_one_segment_of_no_length() {
    let space = TemporalSpace::new(&vec![end(0)]);
    assert_eq!(space.features(), &vec![feature(&[], 0, 0)]);
    assert_eq!(space.total_duration(), 0);
}

#[test]
fn empty_track_has_no_segment() {
    let space = TemporalSpace::new(&Vec::new());
    assert_eq!(space.feature_count(), 0);
    assert_eq!(space.total_duration(), 0);
    assert_eq!(space.size(), 0);
}

#[test]
fn track_without_end_marker_stops_at_the_last_change() {
    let track = vec![on(0, 60), off(10, 60), other(5)];
    let space = TemporalSpace::new(&track);
    assert_eq!(space.features(), &vec![feature(&[], 0, 0), feature(&[60], 10, 0)]);
    assert_eq!(space.total_duration(), 10);
    assert_partition(&space);
}

#[test]
fn events_after_the_end_marker_are_not_read() {
    let track = vec![on(1, 60), end(2), on(3, 61), off(4, 61), end(5)];
    let space = TemporalSpace::new(&track);
    assert_eq!(space.features(), &vec![feature(&[], 1, 0), feature(&[60], 2, 1)]);
    assert_eq!(space.total_duration(), 3);
}

#[test]
fn messages_that_change_nothing_close_no_segment() {
    let track = vec![
        off(2, 60),
        on(3, 60),
        on(4, 60),
        controller(5),
        other(6),
        silent_on(7, 61),
        silent_on(8, 60),
        end(9),
    ];
    let space = TemporalSpace::new(&track);
    assert_eq!(
        space.features(),
        &vec![feature(&[], 5, 0), feature(&[60], 30, 5), feature(&[], 9, 35)]
    );
    assert_eq!(space.total_duration(), 44);
    assert_partition(&space);
}

#[test]
fn chord_passes_through_each_set_on_the_way() {
    let track = vec![on(0, 60), on(0, 64), on(0, 67), off(12, 64), off(0, 60), off(0, 67), end(1)];
    let space = TemporalSpace::new(&track);
    assert_eq!(
        space.features(),
        &vec![
            feature(&[], 0, 0),
            feature(&[60], 0, 0),
            feature(&[60, 64], 0, 0),
            feature(&[60, 64, 67], 12, 0),
            feature(&[60, 67], 0, 12),
            feature(&[67], 0, 12),
            feature(&[], 1, 12),
        ]
    );
    assert_partition(&space);
}

#[test]
fn neighbouring_segments_differ() {
    let track = vec![on(1, 1), on(2, 2), off(3, 1), on(4, 1), off(5, 2), off(6, 1), end(7)];
    let space = TemporalSpace::new(&track);
    let features = space.features();
    assert_eq!(features.len(), 7);
    for i in 0..features.len() - 1 {
        assert_ne!(features[i].vector, features[i + 1].vector);
    }
    assert_partition(&space);
    assert_eq!(space.total_duration(), 28);
}

#[test]
fn size_is_held_at_the_largest_coordinate() {
    let track = vec![other(u32::MAX), other(u32::MAX), end(u32::MAX)];
    let space = TemporalSpace::new(&track);
    assert_eq!(space.total_duration(), 3 * (u32::MAX as u128));
    assert_eq!(space.features(), &vec![feature(&[], 3 * (u32::MAX as u128), 0)]);
    assert_eq!(space.size(), u32::MAX);
}

#[test]
fn scaling_keeps_the_ticks_and_scales_the_size() {
    let track = vec![on(4, 60), off(10, 60), end(7)];
    let mut space = TemporalSpace::new(&track);
    let before = space.features().clone();
    space.scale_domain(Scale::new(1, 2).unwrap());
    assert_eq!(space.features(), &before);
    assert_eq!(space.total_duration(), 21);
    assert_eq!(space.feature_count(), 3);
    assert_eq!(space.size(), 10);
    assert_partition(&space);
}

#[test]
fn scaled_size_is_the_size_times_the_factor_rounded_down() {
    let track = vec![on(100, 60), off(250, 60), end(651)];
    for (numer, denom) in [(1u32, 3u32), (2, 3), (1, 1), (7, 10), (3, 2), (0, 5), (1, 1001)] {
        let mut space = TemporalSpace::new(&track);
        let before = space.size() as u64;
        assert_eq!(before, 1001);
        space.scale_domain(Scale::new(numer, denom).unwrap());
        let after = space.size() as u64;
        assert_eq!(after, before * numer as u64 / denom as u64);
        assert!(after * denom as u64 <= before * numer as u64);
        assert!(before * (numer as u64) < (after + 1) * denom as u64);
    }
}

#[test]
fn scaling_by_zero_leaves_no_size() {
    let track = vec![on(4, 60), off(10, 60), end(7)];
    let mut space = TemporalSpace::new(&track);
    space.scale_domain(Scale::new(0, 1).unwrap());
    assert_eq!(space.size(), 0);
    assert_eq!(space.total_duration(), 21);
    assert_eq!(space.feature_count(), 3);
}

#[test]
fn scaling_rounds_nothing_before_the_size_is_asked_for() {
    let track = vec![on(3, 60), end(0)];
    let mut space = TemporalSpace::new(&track);
    assert_eq!(space.size(), 3);
    space.scale_domain(Scale::new(1, 2).unwrap());
    assert_eq!(space.size(), 1);
    space.scale_domain(Scale::new(2, 1).unwrap());
    assert_eq!(space.size(), 3);
    space.scale_domain(Scale::new(5, 3).unwrap());
    assert_eq!(space.size(), 5);
    space.scale_domain(Scale::new(3, 10).unwrap());
    assert_eq!(space.size(), 1);
    space.scale_domain(Scale::new(2, 1).unwrap());
    assert_eq!(space.size(), 3);
}

#[test]
fn scaling_keeps_the_partition() {
    let track = vec![on(3, 60), end(3)];
    let mut space = TemporalSpace::new(&track);
    space.scale_domain(Scale::new(1, 2).unwrap());
    assert_eq!(space.features(), &vec![feature(&[], 3, 0), feature(&[60], 3, 3)]);
    assert_eq!(space.total_duration(), 6);
    assert_partition(&space);
    assert_eq!(space.size(), 3);
    let factor = space.factor();
    let last = &space.features()[1];
    assert_eq!(factor.coord(last.offset), 1);
    assert_eq!(factor.coord_of_end(last.offset, last.duration), space.size());
}

#[test]
fn factor_of_a_new_space_is_one() {
    let space = TemporalSpace::new(&vec![on(3, 60), end(3)]);
    assert_eq!(space.factor(), Scale::new(1, 1).unwrap());
    assert_eq!(space.factor(), Scale::one());
}

#[test]
fn scaling_stops_where_the_factor_cannot_be_held() {
    let track = vec![on(3, 60), end(3)];
    let mut space = TemporalSpace::new(&track);
    let large = Scale::new(u32::MAX, 1).unwrap();
    assert!(space.try_scale_domain(large));
    assert!(space.try_scale_domain(large));
    assert_eq!(space.size(), u32::MAX);
    let held = space.factor();
    assert!(!space.try_scale_domain(Scale::new(2, 1).unwrap()));
    assert_eq!(space.factor(), held);
    assert_eq!(space.total_duration(), 6);
    assert!(space.try_scale_domain(Scale::new(1, u32::MAX).unwrap()));
    assert!(space.try_scale_domain(Scale::new(1, u32::MAX).unwrap()));
    assert!(!space.try_scale_domain(Scale::new(1, 2).unwrap()));
    assert!(space.try_scale_domain(Scale::new(1, 1).unwrap()));
    assert_eq!(space.size(), 6);
}
