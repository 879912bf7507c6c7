//! Sets of sounding keys, held as 128 bits, and their Jaccard similarity.

use vstd::prelude::*;
use crate::event::{Key, MidiMessage};

verus! {

/// Whether bit `k` of `bits` is set.
pub open spec fn bit_is_set(bits: u128, k: int) -> bool {
    0 <= k < 128 && (bits >> (k as u128)) & 1u128 == 1u128
}

/// How many of the lowest `n` bits of `bits` are set.
pub open spec fn ones_below(bits: u128, n: nat) -> nat
    decreases n,
{
    if n == 0 {
        0
    } else {
        ones_below(bits, (n - 1) as nat) + if bit_is_set(bits, n - 1) {
            1nat
        } else {
            0nat
        }
    }
}

/// The positions below `n` at which `bits` has a bit set.
pub open spec fn keys_below(bits: u128, n: int) -> Set<int> {
    Set::new(|k: int| k < n && bit_is_set(bits, k))
}

/// `u128::count_ones` returns the number of bits that are set in the
/// binary form of its argument: nothing else is claimed of it.
pub assume_specification[ u128::count_ones ](bits: u128) -> (count: u32)
    ensures
        count == ones_below(bits, 128),
;

/// Setting bit `k` sets that bit and leaves the others.
proof fn lemma_set_bit(bits: u128, k: u128, j: u128)
    by (bit_vector)
    requires
        k < 128,
        j < 128,
    ensures
        ((bits | (1u128 << k)) >> j) & 1u128 == (if j == k {
            1u128
        } else {
            (bits >> j) & 1u128
        }),
{
}

/// Clearing bit `k` clears that bit and leaves the others.
proof fn lemma_clear_bit(bits: u128, k: u128, j: u128)
    by (bit_vector)
    requires
        k < 128,
        j < 128,
    ensures
        ((bits & !(1u128 << k)) >> j) & 1u128 == (if j == k {
            0u128
        } else {
            (bits >> j) & 1u128
        }),
{
}

/// A bit of `a & b` is set where it is set in both.
proof fn lemma_and_bit(a: u128, b: u128, j: u128)
    by (bit_vector)
    requires
        j < 128,
    ensures
        (((a & b) >> j) & 1u128 == 1u128) <==> ((a >> j) & 1u128 == 1u128 && (b >> j) & 1u128
            == 1u128),
{
}

/// A bit of `a | b` is set where it is set in either.
proof fn lemma_or_bit(a: u128, b: u128, j: u128)
    by (bit_vector)
    requires
        j < 128,
    ensures
        (((a | b) >> j) & 1u128 == 1u128) <==> ((a >> j) & 1u128 == 1u128 || (b >> j) & 1u128
            == 1u128),
{
}

/// Zero has no bit set.
proof fn lemma_zero_bit(j: u128)
    by (bit_vector)
    requires
        j < 128,
    ensures
        (0u128 >> j) & 1u128 == 0u128,
{
}

/// Two values that agree on their lowest `n` bits and on bit `n` agree on
/// their lowest `n + 1` bits.
proof fn lemma_next_bit_agrees(a: u128, b: u128, n: u128)
    by (bit_vector)
    requires
        n < 128,
        a & (((1u128 << n) - 1) as u128) == b & (((1u128 << n) - 1) as u128),
        (a >> n) & 1u128 == (b >> n) & 1u128,
    ensures
        n < 127 ==> a & (((1u128 << ((n + 1) as u128)) - 1) as u128) == b & (((1u128 << ((n + 1) as u128)) - 1) as u128),
        n == 127 ==> a == b,
{
}

/// Any two values agree on their lowest zero bits.
proof fn lemma_no_bits_agree(a: u128, b: u128)
    by (bit_vector)
    ensures
        a & (((1u128 << 0u128) - 1) as u128) == b & (((1u128 << 0u128) - 1) as u128),
{
}

/// Two values whose lowest `n` bits are set at the same positions agree
/// on those bits; with all 128, they are equal.
proof fn lemma_bits_agree(a: u128, b: u128, n: nat)
    requires
        n <= 128,
        forall|k: int| 0 <= k < n ==> bit_is_set(a, k) == bit_is_set(b, k),
    ensures
        n < 128 ==> a & (((1u128 << (n as u128)) - 1) as u128) == b & (((1u128 << (n as u128)) - 1) as u128),
        n == 128 ==> a == b,
    decreases n,
{
    if n == 0 {
        lemma_no_bits_agree(a, b);
    } else {
        let m = (n - 1) as nat;
        lemma_bits_agree(a, b, m);
        assert(bit_is_set(a, m as int) == bit_is_set(b, m as int));
        lemma_single_bit(a, m as u128);
        lemma_single_bit(b, m as u128);
        lemma_next_bit_agrees(a, b, m as u128);
    }
}

/// A bit is zero or one.
proof fn lemma_single_bit(a: u128, n: u128)
    by (bit_vector)
    requires
        n < 128,
    ensures
        (a >> n) & 1u128 == 0u128 || (a >> n) & 1u128 == 1u128,
{
}

/// The set bits below `n` are finitely many, and `ones_below` counts them.
pub proof fn lemma_ones_below_counts(bits: u128, n: nat)
    requires
        n <= 128,
    ensures
        keys_below(bits, n as int).finite(),
        keys_below(bits, n as int).len() == ones_below(bits, n),
        ones_below(bits, n) <= n,
    decreases n,
{
    if n == 0 {
        assert(keys_below(bits, 0) =~= Set::<int>::empty());
    } else {
        lemma_ones_below_counts(bits, (n - 1) as nat);
        let lower = keys_below(bits, n - 1);
        if bit_is_set(bits, n - 1) {
            assert(keys_below(bits, n as int) =~= lower.insert(n - 1));
        } else {
            assert(keys_below(bits, n as int) =~= lower);
        }
    }
}

/// The keys that sound at one instant: bit `k` is set exactly when key `k`
/// is active. Two vectors are equal when their bits are.
#[derive(Clone, Copy, Debug, PartialEq, Eq, Structural)]
pub struct FeatureVector {
    bits: u128,
}

/// A Jaccard index as the exact fraction `numer / denom`, with
/// `0 <= numer <= denom` and `denom > 0` wherever the library computes one.
#[derive(Clone, Copy, Debug, PartialEq, Eq, Structural)]
pub struct Similarity {
    pub numer: u32,
    pub denom: u32,
}

/// The Jaccard index of two finite sets as a fraction: the size of the
/// intersection over the size of the union. Two empty sets have nothing
/// that tells them apart and count as fully similar, `1 / 1`.
pub open spec fn jaccard(a: Set<int>, b: Set<int>) -> (nat, nat) {
    if a.union(b).len() == 0 {
        (1, 1)
    } else {
        (a.intersect(b).len(), a.union(b).len())
    }
}

/// A set is fully similar to itself.
pub proof fn lemma_jaccard_reflexive(a: Set<int>)
    ensures
        jaccard(a, a).0 == jaccard(a, a).1,
{
    assert(a.union(a) =~= a);
    assert(a.intersect(a) =~= a);
}

/// The order of the two sets does not matter.
pub proof fn lemma_jaccard_symmetric(a: Set<int>, b: Set<int>)
    ensures
        jaccard(a, b) == jaccard(b, a),
{
    assert(a.union(b) =~= b.union(a));
    assert(a.intersect(b) =~= b.intersect(a));
}

/// The index lies between zero and one, and its denominator is not zero.
pub proof fn lemma_jaccard_bounded(a: Set<int>, b: Set<int>)
    requires
        a.finite(),
        b.finite(),
    ensures
        0 <= jaccard(a, b).0 <= jaccard(a, b).1,
        jaccard(a, b).1 > 0,
{
    vstd::set_lib::lemma_set_union_finite_iff(a, b);
    vstd::set_lib::lemma_len_subset(a.intersect(b), a.union(b));
}

/// The index is zero exactly when the sets share nothing and are not
/// both empty.
pub proof fn lemma_jaccard_disjoint(a: Set<int>, b: Set<int>)
    requires
        a.finite(),
        b.finite(),
    ensures
        jaccard(a, b).0 == 0 <==> (a.disjoint(b) && !(a.is_empty() && b.is_empty())),
{
    vstd::set_lib::lemma_set_union_finite_iff(a, b);
    let both = a.intersect(b);
    let either = a.union(b);
    if either.len() == 0 {
        either.lemma_len0_is_empty();
        assert(a =~= Set::<int>::empty()) by {
            assert forall|k: int| !a.contains(k) by {
                assert(either.contains(k) || !a.contains(k));
            }
        }
        assert(b =~= Set::<int>::empty()) by {
            assert forall|k: int| !b.contains(k) by {
                assert(either.contains(k) || !b.contains(k));
            }
        }
    } else {
        if a.is_empty() && b.is_empty() {
            assert(either =~= Set::<int>::empty());
        }
        if both.len() == 0 {
            both.lemma_len0_is_empty();
            assert forall|k: int| !(a.contains(k) && b.contains(k)) by {
                assert(both.contains(k) == (a.contains(k) && b.contains(k)));
            }
        }
        if a.disjoint(b) {
            assert(both =~= Set::<int>::empty());
        }
    }
}

impl Similarity {
    /// The fraction as a pair of numerator and denominator.
    pub open spec fn view(self) -> (nat, nat) {
        (self.numer as nat, self.denom as nat)
    }

    /// Whether the fraction is one: the two sets are the same.
    pub open spec fn spec_is_one(&self) -> bool {
        self.numer == self.denom
    }

    /// Whether the fraction is zero: the two sets share nothing.
    pub open spec fn spec_is_zero(&self) -> bool {
        self.numer == 0
    }

    /// Whether the fraction is one.
    #[verifier::when_used_as_spec(spec_is_one)]
    pub fn is_one(&self) -> (one: bool)
        ensures
            one == self.spec_is_one(),
    {
        self.numer == self.denom
    }

    /// Whether the fraction is zero.
    #[verifier::when_used_as_spec(spec_is_zero)]
    pub fn is_zero(&self) -> (zero: bool)
        ensures
            zero == self.spec_is_zero(),
    {
        self.numer == 0
    }
}

impl View for FeatureVector {
    type V = Set<int>;

    /// The set of active keys.
    closed spec fn view(&self) -> Set<int> {
        keys_below(self.bits, 128)
    }
}

impl FeatureVector {
    /// The vector in which no key is active.
    pub fn new() -> (vector: Self)
        ensures
            vector@ == Set::<int>::empty(),
            vector == Self::spec_empty(),
    {
        let vector = FeatureVector { bits: 0 };
        proof {
            Self::lemma_empty();
        }
        vector
    }

    /// The vector in which no key is active.
    pub closed spec fn spec_empty() -> Self {
        FeatureVector { bits: 0 }
    }

    /// This vector with `key` made active.
    pub closed spec fn with_key(self, key: Key) -> Self {
        FeatureVector { bits: self.bits | (1u128 << (key@ as u128)) }
    }

    /// This vector with `key` made inactive.
    pub closed spec fn without_key(self, key: Key) -> Self {
        FeatureVector { bits: self.bits & !(1u128 << (key@ as u128)) }
    }

    /// The vector after a message: a note-on with a velocity above zero
    /// makes its key active, a note-off or a note-on with velocity zero
    /// makes it inactive, and any other message leaves the vector as it is.
    pub open spec fn spec_apply(self, message: MidiMessage) -> Self {
        match message {
            MidiMessage::NoteOff { key, .. } => self.without_key(key),
            MidiMessage::NoteOn { key, vel } => if vel == 0 {
                self.without_key(key)
            } else {
                self.with_key(key)
            },
            MidiMessage::Other => self,
        }
    }

    /// The empty vector has no active key.
    pub proof fn lemma_empty()
        ensures
            Self::spec_empty()@ == Set::<int>::empty(),
    {
        assert forall|k: int| !bit_is_set(0u128, k) by {
            if 0 <= k < 128 {
                lemma_zero_bit(k as u128);
            }
        }
        assert(Self::spec_empty()@ =~= Set::<int>::empty());
    }

    /// Every active key is below 128, and there are finitely many.
    pub proof fn lemma_view_bounded(self)
        ensures
            self@.finite(),
            self@.len() <= 128,
            forall|k: int| self@.contains(k) ==> 0 <= k < 128,
    {
        lemma_ones_below_counts(self.bits, 128);
    }

    /// A vector is known by its active keys: two vectors with the same
    /// set of active keys are the same vector.
    pub proof fn lemma_view_injective(self, other: Self)
        requires
            self@ == other@,
        ensures
            self == other,
    {
        assert forall|k: int| 0 <= k < 128 implies bit_is_set(self.bits, k) == bit_is_set(
            other.bits,
            k,
        ) by {
            assert(keys_below(self.bits, 128).contains(k) == bit_is_set(self.bits, k));
            assert(keys_below(other.bits, 128).contains(k) == bit_is_set(other.bits, k));
        }
        lemma_bits_agree(self.bits, other.bits, 128);
    }

    /// Making a key active adds it to the set of active keys.
    pub proof fn lemma_with_key(self, key: Key)
        requires
            key@ < 128,
        ensures
            self.with_key(key)@ == self@.insert(key@ as int),
    {
        let k = key@ as u128;
        let after = self.bits | (1u128 << k);
        assert forall|j: int|
            bit_is_set(after, j) == (j == key@ || bit_is_set(self.bits, j)) by {
            if 0 <= j < 128 {
                lemma_set_bit(self.bits, k, j as u128);
            }
        }
        assert(self.with_key(key)@ =~= self@.insert(key@ as int));
    }

    /// Making a key inactive removes it from the set of active keys.
    pub proof fn lemma_without_key(self, key: Key)
        requires
            key@ < 128,
        ensures
            self.without_key(key)@ == self@.remove(key@ as int),
    {
        let k = key@ as u128;
        let after = self.bits & !(1u128 << k);
        assert forall|j: int|
            bit_is_set(after, j) == (j != key@ && bit_is_set(self.bits, j)) by {
            if 0 <= j < 128 {
                lemma_clear_bit(self.bits, k, j as u128);
            }
        }
        assert(self.without_key(key)@ =~= self@.remove(key@ as int));
    }

    /// Applies a message to a copy of the vector.
    pub fn apply(self, message: &MidiMessage) -> (next: Self)
        ensures
            next == self.spec_apply(*message),
    {
        match message {
            MidiMessage::NoteOff { key, .. } => FeatureVector {
                bits: self.bits & !(1u128 << (key.as_int() as u128)),
            },
            MidiMessage::NoteOn { key, vel } => {
                if *vel == 0 {
                    FeatureVector { bits: self.bits & !(1u128 << (key.as_int() as u128)) }
                } else {
                    FeatureVector { bits: self.bits | (1u128 << (key.as_int() as u128)) }
                }
            },
            MidiMessage::Other => self,
        }
    }

    /// Whether `key` is active.
    pub fn contains(&self, key: Key) -> (active: bool)
        ensures
            active == self@.contains(key@ as int),
    {
        (self.bits >> (key.as_int() as u128)) & 1u128 == 1u128
    }

    /// The Jaccard index of the two sets of active keys.
    pub fn similarity_of(&self, other: &Self) -> (score: Similarity)
        ensures
            score@ == jaccard(self@, other@),
            0 <= score.numer <= score.denom <= 128,
            score.denom > 0,
    {
        let shared = FeatureVector { bits: self.bits & other.bits };
        let either = FeatureVector { bits: self.bits | other.bits };
        proof {
            assert forall|j: int|
                bit_is_set(shared.bits, j) == (bit_is_set(self.bits, j) && bit_is_set(
                    other.bits,
                    j,
                )) by {
                if 0 <= j < 128 {
                    lemma_and_bit(self.bits, other.bits, j as u128);
                }
            }
            assert forall|j: int|
                bit_is_set(either.bits, j) == (bit_is_set(self.bits, j) || bit_is_set(
                    other.bits,
                    j,
                )) by {
                if 0 <= j < 128 {
                    lemma_or_bit(self.bits, other.bits, j as u128);
                }
            }
            assert(shared@ =~= self@.intersect(other@));
            assert(either@ =~= self@.union(other@));
            lemma_ones_below_counts(shared.bits, 128);
            lemma_ones_below_counts(either.bits, 128);
            shared.lemma_view_bounded();
            either.lemma_view_bounded();
            vstd::set_lib::lemma_len_subset(shared@, either@);
        }
        let total = either.bits.count_ones();
        if total == 0 {
            Similarity { numer: 1, denom: 1 }
        } else {
            Similarity { numer: shared.bits.count_ones(), denom: total }
        }
    }
}

/// The Jaccard index of the active keys of two vectors.
pub fn similarity(a: &FeatureVector, b: &FeatureVector) -> (score: Similarity)
    ensures
        score@ == jaccard(a@, b@),
        0 <= score.numer <= score.denom <= 128,
        score.denom > 0,
{
    a.similarity_of(b)
}

impl Default for FeatureVector {
    fn default() -> (vector: Self)
        ensures
            vector@ == Set::<int>::empty(),
            vector == Self::spec_empty(),
    {
        FeatureVector::new()
    }
}

} // verus!
