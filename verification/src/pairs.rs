//! Every pair of segments once: the upper triangle of the matrix, row by
//! row, handed out one pair at a time.

use vstd::prelude::*;
use crate::temporal::{segments_of, TemporalFeature, TemporalSpace};

verus! {

/// The pairs of row `row` among `n` items: `(row, row)`, `(row, row + 1)`,
/// up to `(row, n - 1)`.
pub open spec fn row_pairs(n: nat, row: nat) -> Seq<(nat, nat)> {
    Seq::new((n - row) as nat, |c: int| (row, (row + c) as nat))
}

/// The pairs of the first `rows` rows among `n` items, row after row.
pub open spec fn pairs_upto(n: nat, rows: nat) -> Seq<(nat, nat)>
    decreases rows,
{
    if rows == 0 {
        Seq::empty()
    } else {
        pairs_upto(n, (rows - 1) as nat) + row_pairs(n, (rows - 1) as nat)
    }
}

/// Every pair `(i, j)` with `i <= j < n`, in the order of the rows and,
/// within a row, of the columns.
pub open spec fn all_pairs(n: nat) -> Seq<(nat, nat)> {
    pairs_upto(n, n)
}

/// How many pairs the rows before `row` hold.
pub open spec fn pairs_before(n: nat, row: nat) -> nat
    decreases row,
{
    if row == 0 {
        0
    } else {
        pairs_before(n, (row - 1) as nat) + (n - (row - 1)) as nat
    }
}

/// The place of the pair `(i, j)` among all pairs.
pub open spec fn pair_index(n: nat, i: nat, j: nat) -> nat {
    (pairs_before(n, i) + j - i) as nat
}

/// The first `rows` rows hold `pairs_before(n, rows)` pairs.
pub proof fn lemma_pairs_upto_len(n: nat, rows: nat)
    requires
        rows <= n,
    ensures
        pairs_upto(n, rows).len() == pairs_before(n, rows),
    decreases rows,
{
    if rows > 0 {
        lemma_pairs_upto_len(n, (rows - 1) as nat);
    }
}

/// The rows before `row` hold `row * n - row * (row - 1) / 2` pairs.
pub proof fn lemma_pairs_before_closed_form(n: nat, row: nat)
    requires
        row <= n,
    ensures
        2 * pairs_before(n, row) == row * (2 * n - row + 1),
    decreases row,
{
    let r = row as int;
    let m = n as int;
    if row > 0 {
        lemma_pairs_before_closed_form(n, (row - 1) as nat);
        assert(r * (2 * m - r + 1) == (r - 1) * (2 * m - (r - 1) + 1) + 2 * (m - (r - 1)))
            by (nonlinear_arith);
    } else {
        assert(r * (2 * m - r + 1) == 0) by (nonlinear_arith)
            requires
                r == 0,
        ;
    }
}

/// The rows before a row hold no more pairs than the rows before a
/// later one.
pub proof fn lemma_pairs_before_grows(n: nat, i: nat, j: nat)
    requires
        i <= j <= n,
    ensures
        pairs_before(n, i) <= pairs_before(n, j),
        i < j ==> pairs_before(n, i) + (n - i) <= pairs_before(n, j),
    decreases j,
{
    if i < j {
        lemma_pairs_before_grows(n, i, (j - 1) as nat);
    }
}

/// Among `n` items there are `n * (n + 1) / 2` pairs.
pub proof fn lemma_pair_count(n: nat)
    ensures
        all_pairs(n).len() == n * (n + 1) / 2,
{
    lemma_pairs_upto_len(n, n);
    lemma_pairs_before_closed_form(n, n);
    assert(n * (2 * n - n + 1) == n * (n + 1)) by (nonlinear_arith);
}

/// What the first `rows` rows hold at each place: the pair `(i, j)` stands
/// at `pair_index(n, i, j)`, and each place holds a pair `(i, j)` with
/// `i <= j < n` whose place it is.
proof fn lemma_pairs_upto_entries(n: nat, rows: nat)
    requires
        rows <= n,
    ensures
        forall|i: nat, j: nat|
            i < rows && i <= j < n ==> pair_index(n, i, j) < pairs_upto(n, rows).len()
                && pairs_upto(n, rows)[#[trigger] pair_index(n, i, j) as int] == (i, j),
        forall|k: int|
            0 <= k < pairs_upto(n, rows).len() ==> {
                let p = #[trigger] pairs_upto(n, rows)[k];
                p.0 < rows && p.0 <= p.1 < n && pair_index(n, p.0, p.1) == k
            },
    decreases rows,
{
    if rows > 0 {
        let last = (rows - 1) as nat;
        let before = pairs_upto(n, last);
        let here = pairs_upto(n, rows);
        lemma_pairs_upto_entries(n, last);
        lemma_pairs_upto_len(n, last);
        lemma_pairs_upto_len(n, rows);
        assert forall|i: nat, j: nat| i < rows && i <= j < n implies pair_index(n, i, j)
            < here.len() && here[#[trigger] pair_index(n, i, j) as int] == (i, j) by {
            if i < last {
                assert(before[pair_index(n, i, j) as int] == (i, j));
            } else {
                assert(here[pair_index(n, i, j) as int] == row_pairs(n, last)[j - i]);
            }
        }
        assert forall|k: int| 0 <= k < here.len() implies ({
            let p = #[trigger] here[k];
            p.0 < rows && p.0 <= p.1 < n && pair_index(n, p.0, p.1) == k
        }) by {
            if k < before.len() {
                assert(here[k] == before[k]);
            } else {
                assert(here[k] == row_pairs(n, last)[k - before.len()]);
            }
        }
    }
}

/// Each pair `(i, j)` with `i <= j < n` stands among all pairs, at
/// `pair_index(n, i, j)`.
pub proof fn lemma_pair_is_listed(n: nat, i: nat, j: nat)
    requires
        i <= j < n,
    ensures
        pair_index(n, i, j) < all_pairs(n).len(),
        all_pairs(n)[pair_index(n, i, j) as int] == (i, j),
{
    lemma_pairs_upto_entries(n, n);
}

/// Each place among all pairs holds a pair `(i, j)` with `i <= j < n`,
/// and it is the place of that pair.
pub proof fn lemma_listed_is_pair(n: nat, k: int)
    requires
        0 <= k < all_pairs(n).len(),
    ensures
        all_pairs(n)[k].0 <= all_pairs(n)[k].1 < n,
        pair_index(n, all_pairs(n)[k].0, all_pairs(n)[k].1) == k,
{
    lemma_pairs_upto_entries(n, n);
}

/// No pair stands at two places.
pub proof fn lemma_pairs_are_distinct(n: nat, k: int, m: int)
    requires
        0 <= k < all_pairs(n).len(),
        0 <= m < all_pairs(n).len(),
        all_pairs(n)[k] == all_pairs(n)[m],
    ensures
        k == m,
{
    lemma_listed_is_pair(n, k);
    lemma_listed_is_pair(n, m);
}

/// The pairs of a row stand next to one another, in the order of their
/// columns, and after the pairs of the rows before.
pub proof fn lemma_rows_in_order(n: nat, i: nat, j: nat)
    requires
        i <= j < n,
    ensures
        j + 1 < n ==> pair_index(n, i, j + 1) == pair_index(n, i, j) + 1,
        j + 1 == n ==> pair_index(n, i + 1, i + 1) == pair_index(n, i, j) + 1,
{
}

/// A place in the list of all pairs of a space's segments. It hands out
/// one pair at a time and holds no pair that it has not yet been asked
/// for.
pub struct Pairs<'a> {
    features: &'a Vec<TemporalFeature>,
    row: usize,
    col: usize,
}

impl<'a> Pairs<'a> {
    #[verifier::type_invariant]
    spec fn in_triangle(self) -> bool {
        &&& self.row <= self.col <= self.features@.len()
        &&& self.col == self.features@.len() ==> self.row == self.features@.len()
    }

    /// The segments whose pairs are handed out.
    pub closed spec fn items(self) -> Seq<TemporalFeature> {
        self.features@
    }

    /// How many pairs have been handed out.
    pub closed spec fn position(self) -> nat {
        pair_index(self.features@.len(), self.row as nat, self.col as nat)
    }

    /// The pairs that are still to come, in their order.
    pub open spec fn remaining(self) -> Seq<(nat, nat)> {
        all_pairs(self.items().len()).skip(self.position() as int)
    }

    /// The place before the first pair of `features`.
    pub fn new(features: &'a Vec<TemporalFeature>) -> (pairs: Self)
        ensures
            pairs.items() == features@,
            pairs.position() == 0,
            pairs.remaining() == all_pairs(features@.len()),
    {
        let pairs = Pairs { features, row: 0, col: 0 };
        assert(pairs.remaining() =~= all_pairs(features@.len()));
        pairs
    }

    /// The segments whose pairs are handed out.
    pub fn features(&self) -> (features: &'a Vec<TemporalFeature>)
        ensures
            features@ == self.items(),
    {
        self.features
    }

    /// The next pair as two indices, row first, or `None` after the last.
    pub fn next_indices(&mut self) -> (out: Option<(usize, usize)>)
        ensures
            final(self).items() == old(self).items(),
            match out {
                Some((i, j)) => {
                    &&& old(self).remaining().len() > 0
                    &&& old(self).remaining()[0] == (i as nat, j as nat)
                    &&& final(self).remaining() == old(self).remaining().skip(1)
                    &&& final(self).position() == old(self).position() + 1
                    &&& i <= j < old(self).items().len()
                },
                None => {
                    &&& old(self).remaining().len() == 0
                    &&& final(self).position() == old(self).position()
                },
            },
    {
        proof {
            use_type_invariant(&*self);
        }
        let n = self.features.len();
        let ghost before = *self;
        proof {
            lemma_pairs_upto_len(n as nat, n as nat);
        }
        if self.row >= n {
            return None;
        }
        let pair = (self.row, self.col);
        proof {
            lemma_pair_is_listed(n as nat, self.row as nat, self.col as nat);
            lemma_rows_in_order(n as nat, self.row as nat, self.col as nat);
        }
        if self.col + 1 < n {
            self.col = self.col + 1;
        } else {
            *self = Pairs { features: self.features, row: self.row + 1, col: self.row + 1 };
        }
        proof {
            let all = all_pairs(n as nat);
            let at = before.position() as int;
            assert(self.position() == at + 1);
            assert(before.remaining()[0] == all[at]);
            assert(self.remaining() =~= before.remaining().skip(1));
        }
        Some(pair)
    }

    /// The next pair of segments, or `None` after the last.
    pub fn next(&mut self) -> (out: Option<(&'a TemporalFeature, &'a TemporalFeature)>)
        ensures
            final(self).items() == old(self).items(),
            match out {
                Some((a, b)) => {
                    &&& old(self).remaining().len() > 0
                    &&& *a == old(self).items()[old(self).remaining()[0].0 as int]
                    &&& *b == old(self).items()[old(self).remaining()[0].1 as int]
                    &&& final(self).remaining() == old(self).remaining().skip(1)
                    &&& final(self).position() == old(self).position() + 1
                },
                None => {
                    &&& old(self).remaining().len() == 0
                    &&& final(self).position() == old(self).position()
                },
            },
    {
        let features = self.features;
        match self.next_indices() {
            Some((i, j)) => Some((&features[i], &features[j])),
            None => None,
        }
    }
}

impl TemporalSpace {
    /// The pairs of segments, each pair once: `(i, j)` comes and `(j, i)`
    /// does not.
    pub fn iter_pairs(&self) -> (pairs: Pairs<'_>)
        ensures
            segments_of(pairs.items()) == self@.segments,
            pairs.position() == 0,
            pairs.remaining() == all_pairs(self@.segments.len()),
    {
        Pairs::new(self.features())
    }
}

} // verus!
