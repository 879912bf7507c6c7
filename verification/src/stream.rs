//! The sets of sounding keys of a track, one for each instant at which
//! events arrive.

use vstd::prelude::*;
use crate::event::{TrackEvent, TrackEventKind};
use crate::feature::FeatureVector;

verus! {

/// The vector after an event: a channel message acts on it, any other
/// event leaves it as it is.
pub open spec fn apply_event(vector: FeatureVector, event: TrackEvent) -> FeatureVector {
    match event.kind {
        TrackEventKind::Midi { message, .. } => vector.spec_apply(message),
        _ => vector,
    }
}

/// The vector after some events, in their order.
pub open spec fn apply_all(vector: FeatureVector, events: Seq<TrackEvent>) -> FeatureVector
    decreases events.len(),
{
    if events.len() == 0 {
        vector
    } else {
        apply_event(apply_all(vector, events.drop_last()), events.last())
    }
}

/// Applies an event to a vector in place.
pub fn apply_event_to_feature(f: &mut FeatureVector, e: &TrackEvent)
    ensures
        *final(f) == apply_event(*old(f), *e),
{
    match e.kind {
        TrackEventKind::Midi { message, .. } => {
            *f = f.apply(&message);
        },
        _ => {},
    }
}

/// A pass over a track that stops at each instant at which events arrive
/// and tells which keys sound once all events of that instant are in.
pub struct FeatureStream<'l> {
    events: &'l Vec<TrackEvent>,
    pos: usize,
    feature: FeatureVector,
}

impl<'l> FeatureStream<'l> {
    #[verifier::type_invariant]
    spec fn in_track(self) -> bool {
        self.pos <= self.events@.len()
    }

    /// The events of the track.
    pub closed spec fn events(self) -> Seq<TrackEvent> {
        self.events@
    }

    /// How many events have been read.
    pub closed spec fn position(self) -> nat {
        self.pos as nat
    }

    /// The keys that sound after the events read so far.
    pub closed spec fn feature(self) -> FeatureVector {
        self.feature
    }

    /// A pass that has read nothing: no key sounds.
    pub fn new(src: &'l Vec<TrackEvent>) -> (stream: Self)
        ensures
            stream.events() == src@,
            stream.position() == 0,
            stream.feature() == FeatureVector::spec_empty(),
    {
        FeatureStream { events: src, pos: 0, feature: FeatureVector::new() }
    }

    /// Reads the next event and every event after it that comes at the
    /// same instant, that is with a delta of zero, and returns the keys
    /// that sound then; `None` when no event is left.
    pub fn next(&mut self) -> (out: Option<FeatureVector>)
        ensures
            final(self).events() == old(self).events(),
            match out {
                Some(vector) => {
                    let from = old(self).position() as int;
                    let to = final(self).position() as int;
                    let events = old(self).events();
                    &&& from < to <= events.len()
                    &&& forall|j: int| from < j < to ==> (#[trigger] events[j]).delta == 0
                    &&& to < events.len() ==> events[to].delta != 0
                    &&& vector == apply_all(old(self).feature(), events.subrange(from, to))
                    &&& final(self).feature() == vector
                },
                None => {
                    &&& old(self).position() == old(self).events().len()
                    &&& *final(self) == *old(self)
                },
            },
    {
        proof {
            use_type_invariant(&*self);
        }
        let events = self.events;
        let from = self.pos;
        if from >= events.len() {
            return None;
        }
        let mut feature = self.feature;
        apply_event_to_feature(&mut feature, &events[from]);
        let mut pos = from + 1;
        proof {
            let first = events@.subrange(from as int, pos as int);
            assert(first.drop_last().len() == 0);
            assert(apply_all(self.feature, first.drop_last()) == self.feature);
            assert(first.last() == events@[from as int]);
        }
        while pos < events.len() && events[pos].delta == 0
            invariant
                from < pos <= events.len(),
                forall|j: int| from < j < pos ==> (#[trigger] events[j]).delta == 0,
                feature == apply_all(self.feature, events@.subrange(from as int, pos as int)),
            decreases events.len() - pos,
        {
            apply_event_to_feature(&mut feature, &events[pos]);
            assert(events@.subrange(from as int, pos + 1).drop_last() =~= events@.subrange(
                from as int,
                pos as int,
            ));
            pos = pos + 1;
        }
        *self = FeatureStream { events, pos, feature };
        Some(feature)
    }
}

} // verus!
