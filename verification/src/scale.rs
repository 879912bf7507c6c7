//! Scaling of times and coordinates by an exact fraction.

use vstd::prelude::*;
use vstd::arithmetic::div_mod::{
    lemma_div_is_ordered, lemma_div_is_ordered_by_denominator, lemma_fundamental_div_mod,
    lemma_hoist_over_denominator, lemma_mod_bound,
};

verus! {

/// A scale factor: the fraction `numer / denom`, with `denom` not zero.
/// Nothing is rounded when factors are multiplied; a number is rounded
/// only when a factor is applied to it.
#[derive(Clone, Copy, Debug, PartialEq, Eq, Structural)]
pub struct Scale {
    numer: u64,
    denom: u64,
}

/// `x * numer / denom`, rounded down.
pub open spec fn scaled(x: nat, numer: nat, denom: nat) -> nat {
    (x * numer) / denom
}

/// The smaller of two numbers.
pub open spec fn at_most(x: nat, limit: nat) -> nat {
    if x <= limit {
        x
    } else {
        limit
    }
}

/// Rounding down moves a scaled number by less than one: the result times
/// the denominator is at most the number times the numerator, and less
/// than a denominator short of it.
pub proof fn lemma_scaled_is_floor(x: nat, numer: nat, denom: nat)
    requires
        denom > 0,
    ensures
        scaled(x, numer, denom) * denom <= x * numer < (scaled(x, numer, denom) + 1) * denom,
{
    let product = (x * numer) as int;
    lemma_fundamental_div_mod(product, denom as int);
    lemma_mod_bound(product, denom as int);
    assert(denom * (product / denom as int) == (product / denom as int) * denom)
        by (nonlinear_arith);
    assert((scaled(x, numer, denom) + 1) * denom == scaled(x, numer, denom) * denom + denom)
        by (nonlinear_arith);
}

/// A scaled number can be had from the quotient and the remainder of the
/// number by the denominator.
proof fn lemma_scaled_in_parts(x: nat, numer: nat, denom: nat)
    requires
        denom > 0,
    ensures
        scaled(x, numer, denom) == (x / denom) * numer + ((x % denom) * numer) / denom,
{
    let q = (x / denom) as int;
    let r = (x % denom) as int;
    lemma_fundamental_div_mod(x as int, denom as int);
    lemma_mod_bound(x as int, denom as int);
    assert(x * numer == r * numer + (q * numer) * denom) by (nonlinear_arith)
        requires
            x == denom * q + r,
    ;
    lemma_hoist_over_denominator(r * numer, q * numer, denom);
}

/// A number scaled by a factor that is not zero is at least the number
/// divided by `2^64`.
proof fn lemma_scaled_is_large(x: nat, numer: nat, denom: nat)
    requires
        0 < numer,
        0 < denom <= u64::MAX,
    ensures
        scaled(x, numer, denom) >= x / 0x1_0000_0000_0000_0000,
{
    assert(x <= x * numer) by (nonlinear_arith)
        requires
            0 < numer,
    ;
    lemma_div_is_ordered(x as int, (x * numer) as int, denom as int);
    lemma_div_is_ordered_by_denominator(x as int, denom as int, 0x1_0000_0000_0000_0000);
}

impl Scale {
    #[verifier::type_invariant]
    spec fn is_fraction(self) -> bool {
        self.denom > 0
    }

    /// The numerator.
    pub closed spec fn numer(self) -> nat {
        self.numer as nat
    }

    /// The denominator.
    pub closed spec fn denom(self) -> nat {
        self.denom as nat
    }

    /// Numerator and denominator fit in 64 bits.
    pub proof fn lemma_bounded(self)
        ensures
            self.numer() <= u64::MAX,
            self.denom() <= u64::MAX,
    {
    }

    /// The factor `numer / denom`, or `None` when `denom` is zero.
    pub fn new(numer: u32, denom: u32) -> (factor: Option<Scale>)
        ensures
            match factor {
                Some(f) => denom > 0 && f.numer() == numer && f.denom() == denom,
                None => denom == 0,
            },
    {
        if denom == 0 {
            None
        } else {
            Some(Scale { numer: numer as u64, denom: denom as u64 })
        }
    }

    /// The factor one, `1 / 1`.
    pub fn one() -> (factor: Scale)
        ensures
            factor.numer() == 1,
            factor.denom() == 1,
    {
        Scale { numer: 1, denom: 1 }
    }

    /// A number times the factor, rounded down.
    pub open spec fn of(self, x: nat) -> nat {
        scaled(x, self.numer(), self.denom())
    }

    /// Whether the product of the two factors can be held: its numerator
    /// and its denominator fit in 64 bits.
    pub open spec fn fits_with(self, other: Scale) -> bool {
        self.numer() * other.numer() <= u64::MAX && self.denom() * other.denom() <= u64::MAX
    }

    /// The product of the two factors, numerator by numerator and
    /// denominator by denominator, or `None` where it cannot be held.
    pub fn times(&self, other: Scale) -> (product: Option<Scale>)
        ensures
            match product {
                Some(f) => {
                    &&& self.fits_with(other)
                    &&& f.numer() == self.numer() * other.numer()
                    &&& f.denom() == self.denom() * other.denom()
                },
                None => !self.fits_with(other),
            },
    {
        proof {
            use_type_invariant(self);
            use_type_invariant(&other);
        }
        match (self.numer.checked_mul(other.numer), self.denom.checked_mul(other.denom)) {
            (Some(numer), Some(denom)) => {
                assert(denom > 0) by (nonlinear_arith)
                    requires
                        denom == self.denom * other.denom,
                        self.denom > 0,
                        other.denom > 0,
                ;
                Some(Scale { numer, denom })
            },
            _ => None,
        }
    }

    /// A time times the factor, rounded down, and `u128::MAX` where the
    /// result is larger than that.
    pub fn scale_ticks(&self, ticks: u128) -> (out: u128)
        ensures
            out == at_most(self.of(ticks as nat), u128::MAX as nat),
    {
        proof {
            use_type_invariant(self);
            lemma_scaled_in_parts(ticks as nat, self.numer(), self.denom());
            lemma_mod_bound(ticks as int, self.denom as int);
        }
        let numer = self.numer as u128;
        let denom = self.denom as u128;
        let whole = ticks / denom;
        let rest = ticks % denom;
        assert(rest * numer <= 0xffff_ffff_ffff_ffff * 0xffff_ffff_ffff_ffff) by (nonlinear_arith)
            requires
                rest <= 0xffff_ffff_ffff_ffff,
                numer <= 0xffff_ffff_ffff_ffff,
        ;
        let low = (rest * numer) / denom;
        match whole.checked_mul(numer) {
            Some(high) => match high.checked_add(low) {
                Some(sum) => sum,
                None => u128::MAX,
            },
            None => u128::MAX,
        }
    }

    /// A time as a coordinate: the time times the factor, rounded down,
    /// and `u32::MAX` where the result is larger than that.
    pub fn coord(&self, ticks: u128) -> (out: u32)
        ensures
            out == at_most(self.of(ticks as nat), u32::MAX as nat),
    {
        let scaled = self.scale_ticks(ticks);
        if scaled > u32::MAX as u128 {
            u32::MAX
        } else {
            scaled as u32
        }
    }

    /// The end of a stretch of time as a coordinate: the sum of `offset`
    /// and `duration` times the factor, rounded down, and `u32::MAX` where
    /// the result is larger than that.
    pub fn coord_of_end(&self, offset: u128, duration: u128) -> (out: u32)
        ensures
            out == at_most(self.of((offset + duration) as nat), u32::MAX as nat),
    {
        proof {
            use_type_invariant(self);
        }
        match offset.checked_add(duration) {
            Some(end) => self.coord(end),
            None => {
                let ghost end = (offset + duration) as nat;
                if self.numer == 0 {
                    assert(end * self.numer() == 0) by (nonlinear_arith)
                        requires
                            self.numer() == 0,
                    ;
                    0
                } else {
                    proof {
                        lemma_scaled_is_large(end, self.numer(), self.denom());
                        lemma_div_is_ordered(
                            u128::MAX + 1,
                            end as int,
                            0x1_0000_0000_0000_0000,
                        );
                        assert((u128::MAX + 1) / 0x1_0000_0000_0000_0000
                            == 0x1_0000_0000_0000_0000);
                    }
                    u32::MAX
                }
            },
        }
    }

    /// A coordinate times the factor, rounded down, and `u32::MAX` where
    /// the result is larger than that.
    pub fn scale_coord(&self, coord: u32) -> (out: u32)
        ensures
            out == at_most(self.of(coord as nat), u32::MAX as nat),
    {
        self.coord(coord as u128)
    }
}

/// Scales both numbers of a pair.
pub fn scale_tuple(pair: (u32, u32), scale: Scale) -> (out: (u32, u32))
    ensures
        out.0 == at_most(scale.of(pair.0 as nat), u32::MAX as nat),
        out.1 == at_most(scale.of(pair.1 as nat), u32::MAX as nat),
{
    (scale.scale_coord(pair.0), scale.scale_coord(pair.1))
}

} // verus!
