//! The temporal space of a track: one segment for each stretch of time
//! during which the set of sounding keys stays the same.

use vstd::prelude::*;
use crate::event::{TrackEvent, TrackEventKind};
use crate::feature::FeatureVector;
use vstd::arithmetic::div_mod::{lemma_div_by_multiple, lemma_div_denominator};
use crate::scale::{at_most, lemma_scaled_is_floor, scaled, Scale};

verus! {

/// A time or a length of time, in ticks. Wide enough for the sum of the
/// deltas of any track that fits in memory.
pub type Ticks = u128;

/// A segment: `vector` holds throughout `[offset, offset + duration)`.
#[derive(Clone, Copy, Debug, PartialEq, Eq, Structural)]
pub struct TemporalFeature {
    pub vector: FeatureVector,
    pub duration: Ticks,
    pub offset: Ticks,
}

/// A segment over unbounded numbers.
pub struct Segment {
    pub vector: FeatureVector,
    pub duration: nat,
    pub offset: nat,
}

/// A temporal space over unbounded numbers: its extent and its segments
/// in ticks, and the factor `numer / denom` by which the time axis is
/// scaled. A time of the space is its ticks times the factor, exactly.
pub struct SpaceView {
    pub total: nat,
    pub segments: Seq<Segment>,
    pub numer: nat,
    pub denom: nat,
}

impl View for TemporalFeature {
    type V = Segment;

    open spec fn view(&self) -> Segment {
        Segment {
            vector: self.vector,
            duration: self.duration as nat,
            offset: self.offset as nat,
        }
    }
}

/// The sum of the durations of some segments.
pub open spec fn sum_durations(segments: Seq<Segment>) -> nat
    decreases segments.len(),
{
    if segments.len() == 0 {
        0
    } else {
        sum_durations(segments.drop_last()) + segments.last().duration
    }
}

/// The sum of the deltas of the first `n` events.
pub open spec fn sum_deltas(events: Seq<TrackEvent>, n: nat) -> nat
    decreases n,
{
    if n == 0 {
        0
    } else {
        sum_deltas(events, (n - 1) as nat) + events[n - 1].delta as nat
    }
}

impl SpaceView {
    /// The space with its time axis scaled once more: the factor is
    /// multiplied, the ticks stay, and nothing is rounded.
    pub open spec fn scaled(self, factor: Scale) -> SpaceView {
        SpaceView {
            numer: self.numer * factor.numer(),
            denom: self.denom * factor.denom(),
            ..self
        }
    }

    /// Whether the space can be scaled by `factor`: the numerator and the
    /// denominator of the new factor fit in 64 bits.
    pub open spec fn can_scale(self, factor: Scale) -> bool {
        self.numer * factor.numer() <= u64::MAX && self.denom * factor.denom() <= u64::MAX
    }

    /// The side of the square that a picture of the space takes: the
    /// extent times the factor, rounded down and held at `u32::MAX`.
    pub open spec fn size(self) -> nat {
        at_most(scaled(self.total, self.numer, self.denom), u32::MAX as nat)
    }

    /// The segments lie end to end: the first starts at zero, each ends
    /// where the next starts, and the last ends at `total`. Without
    /// segments `total` is zero.
    pub open spec fn is_partition(self) -> bool {
        &&& self.segments.len() == 0 ==> self.total == 0
        &&& self.segments.len() > 0 ==> self.segments[0].offset == 0
        &&& forall|i: int|
            0 <= i < self.segments.len() - 1 ==> (#[trigger] self.segments[i]).offset
                + self.segments[i].duration == self.segments[i + 1].offset
        &&& self.segments.len() > 0 ==> self.segments.last().offset
            + self.segments.last().duration == self.total
    }

    /// No two segments in a row have the same vector: each segment is as
    /// long as it can be.
    pub open spec fn is_run_length(self) -> bool {
        forall|i: int|
            0 <= i < self.segments.len() - 1 ==> (#[trigger] self.segments[i]).vector
                != self.segments[i + 1].vector
    }
}

/// The segments that a list of features stands for.
pub open spec fn segments_of(features: Seq<TemporalFeature>) -> Seq<Segment> {
    features.map_values(|f: TemporalFeature| f@)
}

/// Where a pass over a track stands: the keys that sound now, the time
/// of the last event read, the time up to which segments have been closed,
/// the closed segments, and whether the end of the track has been read.
pub struct Scan {
    pub vector: FeatureVector,
    pub elapsed: nat,
    pub total: nat,
    pub segments: Seq<Segment>,
    pub done: bool,
}

impl Scan {
    /// The pass before any event: nothing sounds, no time has passed.
    pub open spec fn start() -> Scan {
        Scan {
            vector: FeatureVector::spec_empty(),
            elapsed: 0,
            total: 0,
            segments: Seq::empty(),
            done: false,
        }
    }

    /// The pass with the segment that is open closed at `now`.
    pub open spec fn close(self, now: nat) -> Seq<Segment> {
        self.segments.push(
            Segment { vector: self.vector, duration: (now - self.total) as nat, offset: self.total },
        )
    }

    /// The pass after one more event. Time moves on by the event's delta.
    /// A message that changes the set of sounding keys closes the open
    /// segment and opens one for the new set. The end of the track closes
    /// the open segment, whatever its length, and ends the pass. Other
    /// events only take time. Once the pass has ended nothing changes it.
    pub open spec fn step(self, event: TrackEvent) -> Scan {
        let now = self.elapsed + event.delta as nat;
        if self.done {
            self
        } else {
            match event.kind {
                TrackEventKind::Midi { message, .. } => {
                    let next = self.vector.spec_apply(message);
                    if next != self.vector {
                        Scan {
                            vector: next,
                            elapsed: now,
                            total: now,
                            segments: self.close(now),
                            done: false,
                        }
                    } else {
                        Scan { elapsed: now, ..self }
                    }
                },
                TrackEventKind::EndOfTrack => Scan {
                    vector: self.vector,
                    elapsed: now,
                    total: now,
                    segments: self.close(now),
                    done: true,
                },
                TrackEventKind::Other => Scan { elapsed: now, ..self },
            }
        }
    }
}

/// The pass after the first `n` events of a track.
pub open spec fn scan(events: Seq<TrackEvent>, n: nat) -> Scan
    decreases n,
{
    if n == 0 {
        Scan::start()
    } else {
        scan(events, (n - 1) as nat).step(events[n - 1])
    }
}

/// The temporal space of a track: what a pass over all of it has closed.
pub open spec fn encode(events: Seq<TrackEvent>) -> SpaceView {
    let end = scan(events, events.len());
    SpaceView { total: end.total, segments: end.segments, numer: 1, denom: 1 }
}

/// A pass that has ended stays as it is.
pub proof fn lemma_scan_done(events: Seq<TrackEvent>, m: nat, n: nat)
    requires
        m <= n,
        scan(events, m).done,
    ensures
        scan(events, n) == scan(events, m),
    decreases n,
{
    if m < n {
        lemma_scan_done(events, m, (n - 1) as nat);
    }
}

impl Scan {
    /// What holds of a pass at every point: the closed segments lie end to
    /// end up to `total`, their durations add up to `total`, no two in a
    /// row have the same vector, and while the pass goes on the last of
    /// them differs from the set that sounds now.
    pub open spec fn is_sound(self) -> bool {
        let closed = SpaceView { total: self.total, segments: self.segments, numer: 1, denom: 1 };
        &&& self.total <= self.elapsed
        &&& closed.is_partition()
        &&& closed.is_run_length()
        &&& sum_durations(self.segments) == self.total
        &&& !self.done && self.segments.len() > 0 ==> self.segments.last().vector != self.vector
    }

    proof fn lemma_step_is_sound(self, event: TrackEvent)
        requires
            self.is_sound(),
        ensures
            self.step(event).is_sound(),
    {
        let now = self.elapsed + event.delta as nat;
        let after = self.step(event);
        if after.segments != self.segments {
            assert(after.segments == self.close(now));
            assert(after.segments.drop_last() =~= self.segments);
            assert forall|i: int| 0 <= i < after.segments.len() - 1 implies (
            #[trigger] after.segments[i]).offset + after.segments[i].duration
                == after.segments[i + 1].offset && after.segments[i].vector
                != after.segments[i + 1].vector by {
                if i < self.segments.len() - 1 {
                    assert(after.segments[i] == self.segments[i]);
                    assert(after.segments[i + 1] == self.segments[i + 1]);
                } else {
                    assert(after.segments[i] == self.segments.last());
                }
            }
        }
    }
}

/// A pass is sound at every point.
pub proof fn lemma_scan_is_sound(events: Seq<TrackEvent>, n: nat)
    ensures
        scan(events, n).is_sound(),
    decreases n,
{
    if n > 0 {
        lemma_scan_is_sound(events, (n - 1) as nat);
        scan(events, (n - 1) as nat).lemma_step_is_sound(events[n - 1]);
    }
}

/// The segments of a track's temporal space lie end to end from zero to
/// its extent, and their durations add up to it.
pub proof fn lemma_encode_is_partition(events: Seq<TrackEvent>)
    ensures
        encode(events).is_partition(),
        sum_durations(encode(events).segments) == encode(events).total,
{
    lemma_scan_is_sound(events, events.len());
}

/// No two segments in a row of a track's temporal space have the same
/// vector.
pub proof fn lemma_encode_is_run_length(events: Seq<TrackEvent>)
    ensures
        encode(events).is_run_length(),
{
    lemma_scan_is_sound(events, events.len());
}

/// Before the first note message and the end marker, a pass has closed
/// nothing, and the time it has read is the sum of the deltas.
proof fn lemma_scan_quiet(events: Seq<TrackEvent>, n: nat)
    requires
        n <= events.len(),
        forall|i: int|
            0 <= i < n ==> !(#[trigger] events[i]).kind.is_note() && !(events[i].kind
                is EndOfTrack),
    ensures
        scan(events, n) == (Scan { elapsed: sum_deltas(events, n), ..Scan::start() }),
    decreases n,
{
    if n > 0 {
        lemma_scan_quiet(events, (n - 1) as nat);
        assert(!events[n - 1].kind.is_note());
    }
}

/// A track in which no note message comes before the end marker has one
/// segment: it has the empty vector, starts at zero, and lasts the sum of
/// the deltas up to and with the end marker, which is the extent.
pub proof fn lemma_encode_silent(events: Seq<TrackEvent>, end: nat)
    requires
        end < events.len(),
        events[end as int].kind is EndOfTrack,
        forall|i: int|
            0 <= i < end ==> !(#[trigger] events[i]).kind.is_note() && !(events[i].kind
                is EndOfTrack),
    ensures
        encode(events).total == sum_deltas(events, end + 1),
        encode(events).segments == seq![
            Segment {
                vector: FeatureVector::spec_empty(),
                duration: encode(events).total,
                offset: 0,
            },
        ],
{
    lemma_scan_quiet(events, end);
    assert(scan(events, end + 1) == scan(events, end).step(events[end as int]));
    lemma_scan_done(events, end + 1, events.len());
    assert(scan(events, end + 1).segments =~= seq![
        Segment {
            vector: FeatureVector::spec_empty(),
            duration: sum_deltas(events, end + 1),
            offset: 0,
        },
    ]);
}

/// The space of a track, which is not yet scaled, can be scaled by any
/// factor.
pub proof fn lemma_encode_can_scale(events: Seq<TrackEvent>, factor: Scale)
    ensures
        encode(events).can_scale(factor),
{
    factor.lemma_bounded();
}

/// Scaling changes no tick: the segments still lie end to end from zero
/// to the extent, and their durations still add up to it.
pub proof fn lemma_scaling_keeps_partition(space: SpaceView, factor: Scale)
    ensures
        space.scaled(factor).segments == space.segments,
        space.scaled(factor).total == space.total,
        space.scaled(factor).is_partition() == space.is_partition(),
        space.scaled(factor).is_run_length() == space.is_run_length(),
{
}

/// The size of a scaled space is the extent times the whole factor,
/// rounded down once, as long as it is not held at `u32::MAX`. Where the
/// size before was exact, it is the size before times the new factor,
/// rounded down: it differs from the exact product by less than one.
pub proof fn lemma_scaled_size(space: SpaceView, factor: Scale)
    requires
        space.denom > 0,
        factor.denom() > 0,
        scaled(space.total, space.numer, space.denom) <= u32::MAX,
        scaled(space.total, space.numer * factor.numer(), space.denom * factor.denom())
            <= u32::MAX,
    ensures
        space.scaled(factor).size() * (space.denom * factor.denom()) <= space.total * (
        space.numer * factor.numer()),
        space.total * (space.numer * factor.numer()) < (space.scaled(factor).size() + 1) * (
        space.denom * factor.denom()),
        (space.total * space.numer) % space.denom == 0 ==> {
            &&& space.scaled(factor).size() == factor.of(space.size())
            &&& space.scaled(factor).size() * factor.denom() <= space.size() * factor.numer()
            &&& space.size() * factor.numer() < (space.scaled(factor).size() + 1)
                * factor.denom()
        },
{
    let n = factor.numer();
    let d = factor.denom();
    assert(space.denom * d > 0) by (nonlinear_arith)
        requires
            space.denom > 0,
            d > 0,
    ;
    lemma_scaled_is_floor(space.total, space.numer * n, space.denom * d);
    if (space.total * space.numer) % space.denom == 0 {
        let exact = (space.total * space.numer) as int;
        let side = space.size();
        vstd::arithmetic::div_mod::lemma_fundamental_div_mod(exact, space.denom as int);
        assert(side * space.denom == exact) by (nonlinear_arith)
            requires
                exact == space.denom * (exact / space.denom as int) + exact % (space.denom as int),
                exact % (space.denom as int) == 0,
                side == exact / space.denom as int,
        ;
        assert(space.total * (space.numer * n) == (side * n) * space.denom) by (nonlinear_arith)
            requires
                side * space.denom == space.total * space.numer,
        ;
        lemma_div_denominator(((side * n) * space.denom) as int, space.denom as int, d as int);
        lemma_div_by_multiple((side * n) as int, space.denom as int);
        lemma_scaled_is_floor(side, n, d);
    }
}

/// The run-length encoding of a track, with the factor by which its time
/// axis is scaled. The segments are kept in ticks; the factor is applied,
/// and the result rounded, only where a coordinate is asked for.
pub struct TemporalSpace {
    duration: Ticks,
    features: Vec<TemporalFeature>,
    factor: Scale,
}

impl View for TemporalSpace {
    type V = SpaceView;

    closed spec fn view(&self) -> SpaceView {
        SpaceView {
            total: self.duration as nat,
            segments: segments_of(self.features@),
            numer: self.factor.numer(),
            denom: self.factor.denom(),
        }
    }
}

impl TemporalSpace {
    /// Reads a track in one pass, up to its end marker if it has one.
    pub fn new(track: &Vec<TrackEvent>) -> (space: Self)
        ensures
            space@ == encode(track@),
    {
        let mut features: Vec<TemporalFeature> = Vec::new();
        let mut total: Ticks = 0;
        let mut vector = FeatureVector::new();
        let mut elapsed: Ticks = 0;
        let mut i: usize = 0;
        assert(segments_of(features@) =~= Seq::<Segment>::empty());
        while i < track.len()
            invariant
                i <= track.len(),
                elapsed <= i * u32::MAX,
                total <= elapsed,
                scan(track@, i as nat) == (Scan {
                    vector,
                    elapsed: elapsed as nat,
                    total: total as nat,
                    segments: segments_of(features@),
                    done: false,
                }),
            decreases track.len() - i,
        {
            let event = &track[i];
            let ghost before = scan(track@, i as nat);
            assert(scan(track@, (i + 1) as nat) == before.step(track@[i as int]));
            elapsed = elapsed + event.delta as Ticks;
            match event.kind {
                TrackEventKind::Midi { message, .. } => {
                    let next = vector.apply(&message);
                    if next != vector {
                        let closed = TemporalFeature {
                            vector,
                            duration: elapsed - total,
                            offset: total,
                        };
                        assert(segments_of(features@.push(closed)) =~= before.close(
                            elapsed as nat,
                        ));
                        features.push(closed);
                        total = elapsed;
                        vector = next;
                    }
                },
                TrackEventKind::EndOfTrack => {
                    let closed = TemporalFeature { vector, duration: elapsed - total, offset: total };
                    assert(segments_of(features@.push(closed)) =~= before.close(elapsed as nat));
                    features.push(closed);
                    proof {
                        lemma_scan_done(track@, (i + 1) as nat, track@.len());
                    }
                    return TemporalSpace { duration: elapsed, features, factor: Scale::one() };
                },
                TrackEventKind::Other => {},
            }
            i += 1;
        }
        TemporalSpace { duration: total, features, factor: Scale::one() }
    }

    /// Scales the time axis by `factor`. Every time of the space is then
    /// its ticks times all the factors given so far, exactly: the ticks
    /// are kept and nothing is rounded before `size` or a tile asks for a
    /// coordinate. The product of the factors has to fit: see
    /// `try_scale_domain`.
    pub fn scale_domain(&mut self, factor: Scale)
        requires
            old(self)@.can_scale(factor),
        ensures
            final(self)@ == old(self)@.scaled(factor),
    {
        match self.factor.times(factor) {
            Some(product) => {
                self.factor = product;
            },
            None => {},
        }
    }

    /// Scales the time axis by `factor` and returns `true`, or leaves the
    /// space as it is and returns `false` where the product of the factors
    /// given so far and this one does not fit in 64 bits over 64 bits.
    pub fn try_scale_domain(&mut self, factor: Scale) -> (done: bool)
        ensures
            done == old(self)@.can_scale(factor),
            done ==> final(self)@ == old(self)@.scaled(factor),
            !done ==> final(self)@ == old(self)@,
    {
        match self.factor.times(factor) {
            Some(product) => {
                self.factor = product;
                true
            },
            None => false,
        }
    }

    /// The factor by which the time axis is scaled.
    pub fn factor(&self) -> (factor: Scale)
        ensures
            factor.numer() == self@.numer,
            factor.denom() == self@.denom,
    {
        self.factor
    }

    /// The side of the square that a picture of the space takes: the
    /// extent times the factor, rounded down, or `u32::MAX` where that is
    /// larger.
    pub fn size(&self) -> (side: u32)
        ensures
            side == self@.size(),
    {
        self.factor.coord(self.duration)
    }

    /// The number of segments.
    pub fn feature_count(&self) -> (count: usize)
        ensures
            count == self@.segments.len(),
    {
        self.features.len()
    }

    /// The extent of the space in ticks, before any scaling.
    pub fn total_duration(&self) -> (total: Ticks)
        ensures
            total == self@.total,
    {
        self.duration
    }

    /// The segments in order of time, in ticks, before any scaling.
    pub fn features(&self) -> (features: &Vec<TemporalFeature>)
        ensures
            segments_of(features@) == self@.segments,
    {
        &self.features
    }
}

} // verus!
