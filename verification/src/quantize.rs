//! Bringing the deltas of a track down to the smallest numbers that keep
//! their proportions.

use vstd::prelude::*;
use vstd::arithmetic::div_mod::{lemma_fundamental_div_mod, lemma_mod_multiples_vanish};
use crate::event::TrackEvent;
use crate::temporal::{encode, scan, Scan, Segment, SpaceView};

verus! {

/// Whether `d` divides `x`.
pub open spec fn divides(d: nat, x: nat) -> bool {
    d > 0 && x % d == 0
}

/// Whether `d` divides the delta of each of the first `n` events.
pub open spec fn divides_deltas(events: Seq<TrackEvent>, n: nat, d: nat) -> bool {
    d > 0 && forall|i: int| 0 <= i < n ==> divides(d, (#[trigger] events[i]).delta as nat)
}

/// Whether `g` is the greatest common divisor of `a` and `b`: the numbers
/// that divide both are those that divide `g`. It is zero for two zeros.
pub open spec fn is_gcd(a: nat, b: nat, g: nat) -> bool {
    forall|d: nat| d > 0 ==> ((divides(d, a) && divides(d, b)) <==> #[trigger] divides(d, g))
}

/// Whether `g` is the greatest common divisor of the deltas of the first
/// `n` events: the numbers that divide each delta are those that divide
/// `g`. It is zero where each delta is zero.
pub open spec fn is_delta_gcd(events: Seq<TrackEvent>, n: nat, g: nat) -> bool {
    forall|d: nat| d > 0 ==> (#[trigger] divides_deltas(events, n, d) <==> divides(d, g))
}

/// A number divides two numbers exactly when it divides the second and
/// the remainder of the first by the second.
proof fn lemma_divides_remainder(x: nat, y: nat, d: nat)
    requires
        y > 0,
        d > 0,
    ensures
        (divides(d, x) && divides(d, y)) <==> (divides(d, y) && divides(d, x % y)),
{
    if divides(d, y) {
        let q = (x / y) as int;
        let r = (x % y) as int;
        let k = (y / d) as int;
        lemma_fundamental_div_mod(x as int, y as int);
        lemma_fundamental_div_mod(y as int, d as int);
        assert(x == d * (k * q) + r) by (nonlinear_arith)
            requires
                x == y * q + r,
                y == d * k,
        ;
        lemma_mod_multiples_vanish(k * q, r, d as int);
    }
}

/// The greatest common divisor of two numbers.
pub fn gcd(a: u32, b: u32) -> (g: u32)
    ensures
        is_gcd(a as nat, b as nat, g as nat),
{
    let mut x = a;
    let mut y = b;
    while y != 0
        invariant
            forall|d: nat|
                d > 0 ==> ((divides(d, a as nat) && divides(d, b as nat)) <==> (#[trigger] divides(
                    d,
                    x as nat,
                ) && divides(d, y as nat))),
        decreases y,
    {
        proof {
            assert forall|d: nat| d > 0 implies ((divides(d, x as nat) && divides(d, y as nat))
                <==> (#[trigger] divides(d, y as nat) && divides(d, (x % y) as nat))) by {
                lemma_divides_remainder(x as nat, y as nat, d);
            }
        }
        let r = x % y;
        x = y;
        y = r;
    }
    proof {
        assert forall|d: nat| d > 0 implies ((divides(d, a as nat) && divides(d, b as nat))
            <==> #[trigger] divides(d, x as nat)) by {
            assert(divides(d, 0nat));
        }
    }
    x
}

/// The greatest common divisor of the deltas of a track, zero where each
/// delta is zero.
pub fn delta_gcd(track: &Vec<TrackEvent>) -> (g: u32)
    ensures
        is_delta_gcd(track@, track@.len(), g as nat),
{
    let mut g: u32 = 0;
    let mut i: usize = 0;
    proof {
        assert forall|d: nat| d > 0 implies (#[trigger] divides_deltas(track@, 0, d) <==> divides(
            d,
            0nat,
        )) by {
            assert(divides(d, 0nat));
        }
    }
    while i < track.len()
        invariant
            i <= track.len(),
            is_delta_gcd(track@, i as nat, g as nat),
        decreases track.len() - i,
    {
        let next = gcd(g, track[i].delta);
        proof {
            let delta = track@[i as int].delta as nat;
            assert forall|d: nat| d > 0 implies (#[trigger] divides_deltas(
                track@,
                (i + 1) as nat,
                d,
            ) <==> divides(d, next as nat)) by {
                assert(divides_deltas(track@, i as nat, d) <==> divides(d, g as nat));
                assert((divides(d, g as nat) && divides(d, delta)) <==> divides(d, next as nat));
                if divides_deltas(track@, (i + 1) as nat, d) {
                    assert(divides(d, track@[i as int].delta as nat));
                    assert(divides_deltas(track@, i as nat, d));
                }
            }
        }
        g = next;
        i += 1;
    }
    g
}

/// The unit of a track's deltas: their greatest common divisor, or one
/// where each delta is zero.
pub open spec fn is_unit(events: Seq<TrackEvent>, unit: nat) -> bool {
    if is_delta_gcd(events, events.len(), 0) {
        unit == 1
    } else {
        is_delta_gcd(events, events.len(), unit)
    }
}

/// Whether `small` is `events` with each delta divided by `unit`.
pub open spec fn is_quantized(events: Seq<TrackEvent>, small: Seq<TrackEvent>, unit: nat) -> bool {
    &&& unit > 0
    &&& small.len() == events.len()
    &&& forall|i: int|
        0 <= i < events.len() ==> (#[trigger] small[i]).kind == events[i].kind && small[i].delta
            * unit == events[i].delta
}

/// A segment with its start and its length multiplied by `unit`.
pub open spec fn stretched_segment(segment: Segment, unit: nat) -> Segment {
    Segment {
        vector: segment.vector,
        duration: segment.duration * unit,
        offset: segment.offset * unit,
    }
}

/// A space with every time in it multiplied by `unit`.
pub open spec fn stretched(space: SpaceView, unit: nat) -> SpaceView {
    SpaceView {
        total: space.total * unit,
        segments: space.segments.map_values(|s: Segment| stretched_segment(s, unit)),
        ..space
    }
}

/// A pass with every time in it multiplied by `unit`.
spec fn stretched_scan(pass: Scan, unit: nat) -> Scan {
    Scan {
        vector: pass.vector,
        elapsed: pass.elapsed * unit,
        total: pass.total * unit,
        segments: pass.segments.map_values(|s: Segment| stretched_segment(s, unit)),
        done: pass.done,
    }
}

proof fn lemma_quantized_scan(
    events: Seq<TrackEvent>,
    small: Seq<TrackEvent>,
    unit: nat,
    n: nat,
)
    requires
        is_quantized(events, small, unit),
        n <= events.len(),
    ensures
        scan(events, n) == stretched_scan(scan(small, n), unit),
        scan(small, n).total <= scan(small, n).elapsed,
    decreases n,
{
    if n == 0 {
        assert(scan(events, 0).segments =~= stretched_scan(scan(small, 0), unit).segments);
        assert(0 * unit == 0) by (nonlinear_arith);
    } else {
        lemma_quantized_scan(events, small, unit, (n - 1) as nat);
        let before = scan(small, (n - 1) as nat);
        let event = small[n - 1];
        let after = before.step(event);
        let now = before.elapsed + event.delta as nat;
        assert(small[n - 1].kind == events[n - 1].kind);
        assert(small[n - 1].delta * unit == events[n - 1].delta);
        assert(now * unit == before.elapsed * unit + event.delta * unit) by (nonlinear_arith)
            requires
                now == before.elapsed + event.delta as nat,
        ;
        assert((now - before.total) * unit == now * unit - before.total * unit)
            by (nonlinear_arith);
        assert(before.total * unit <= now * unit) by (nonlinear_arith)
            requires
                before.total <= now,
        ;
        let big = scan(events, (n - 1) as nat).step(events[n - 1]);
        assert(big.segments =~= stretched_scan(after, unit).segments);
    }
}

/// The space of a track is the space of the quantized track with every
/// time multiplied by the unit: quantizing loses nothing.
pub proof fn lemma_quantized_space(events: Seq<TrackEvent>, small: Seq<TrackEvent>, unit: nat)
    requires
        is_quantized(events, small, unit),
    ensures
        encode(events) == stretched(encode(small), unit),
{
    lemma_quantized_scan(events, small, unit, events.len());
}

/// Divides each delta of a track by the unit of the deltas and returns
/// the new track with the unit. The events keep their kinds, their order
/// and the proportions of their times.
pub fn quantize(track: &Vec<TrackEvent>) -> (out: (Vec<TrackEvent>, u32))
    ensures
        is_unit(track@, out.1 as nat),
        is_quantized(track@, out.0@, out.1 as nat),
{
    let g = delta_gcd(track);
    let unit = if g == 0 {
        1
    } else {
        g
    };
    proof {
        if g != 0 {
            assert(divides(g as nat, g as nat)) by (nonlinear_arith)
                requires
                    g > 0,
            ;
            assert(divides_deltas(track@, track@.len(), g as nat));
            if is_delta_gcd(track@, track@.len(), 0) {
                assert(divides_deltas(track@, track@.len(), (g + 1) as nat) <==> divides(
                    (g + 1) as nat,
                    0nat,
                ));
                assert(divides((g + 1) as nat, 0nat));
                assert(divides((g + 1) as nat, g as nat));
                assert(g as nat % ((g + 1) as nat) == g) by (nonlinear_arith)
                    requires
                        g > 0,
                ;
            }
        }
    }
    let mut small: Vec<TrackEvent> = Vec::new();
    let mut i: usize = 0;
    while i < track.len()
        invariant
            i <= track.len(),
            unit > 0,
            small@.len() == i,
            g != 0 ==> unit == g && divides_deltas(track@, track@.len(), g as nat),
            g == 0 ==> unit == 1,
            forall|k: int|
                0 <= k < i ==> (#[trigger] small@[k]).kind == track@[k].kind && small@[k].delta
                    * unit == track@[k].delta,
        decreases track.len() - i,
    {
        let event = &track[i];
        proof {
            lemma_fundamental_div_mod(event.delta as int, unit as int);
            if g != 0 {
                assert(divides(g as nat, track@[i as int].delta as nat));
            }
            assert((event.delta / unit) * unit == event.delta) by (nonlinear_arith)
                requires
                    event.delta == unit * (event.delta / unit) + event.delta % unit,
                    event.delta % unit == 0,
            ;
        }
        small.push(TrackEvent { delta: event.delta / unit, kind: event.kind });
        i += 1;
    }
    (small, unit)
}

} // verus!
