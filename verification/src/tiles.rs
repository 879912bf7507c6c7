//! The tiles of a self-similarity matrix: for each pair of segments a
//! rectangle and its mirror image, with how similar the two segments are.

use vstd::prelude::*;
use crate::feature::{jaccard, lemma_jaccard_reflexive, lemma_jaccard_symmetric, Similarity};
use crate::pairs::{all_pairs, lemma_pair_is_listed, pair_index, Pairs};
use crate::scale::{at_most, scaled, Scale};
use crate::temporal::{segments_of, Segment, TemporalFeature, TemporalSpace};

verus! {

/// A filled rectangle from the corner `(x, y)` to the corner `(x2, y2)`.
/// The more similar the two segments, the darker it is to be drawn.
#[derive(Clone, Copy, Debug, PartialEq, Eq, Structural)]
pub struct Tile {
    pub x: u32,
    pub y: u32,
    pub x2: u32,
    pub y2: u32,
    pub similarity: Similarity,
}

/// A time as a coordinate: its ticks times the factor `numer / denom`,
/// rounded down, or `u32::MAX` where that is larger.
pub open spec fn coord_of(ticks: nat, numer: nat, denom: nat) -> u32 {
    at_most(scaled(ticks, numer, denom), u32::MAX as nat) as u32
}

/// The tile of a pair of segments on a time axis scaled by
/// `numer / denom`: across, the time of the first; down, the time of the
/// second. Each corner is rounded on its own, from the exact time.
pub open spec fn tile_of(a: Segment, b: Segment, numer: nat, denom: nat) -> Tile {
    Tile {
        x: coord_of(a.offset, numer, denom),
        y: coord_of(b.offset, numer, denom),
        x2: coord_of(a.offset + a.duration, numer, denom),
        y2: coord_of(b.offset + b.duration, numer, denom),
        similarity: Similarity {
            numer: jaccard(a.vector@, b.vector@).0 as u32,
            denom: jaccard(a.vector@, b.vector@).1 as u32,
        },
    }
}

impl Tile {
    /// The tile on the other side of the diagonal.
    pub open spec fn spec_mirrored(&self) -> Tile {
        Tile { x: self.y, y: self.x, x2: self.y2, y2: self.x2, similarity: self.similarity }
    }

    /// The tile on the other side of the diagonal.
    #[verifier::when_used_as_spec(spec_mirrored)]
    pub fn mirrored(&self) -> (mirror: Tile)
        ensures
            mirror == self.spec_mirrored(),
    {
        Tile { x: self.y, y: self.x, x2: self.y2, y2: self.x2, similarity: self.similarity }
    }

    /// The tile of a pair of segments on a time axis scaled by `factor`.
    pub fn new(a: &TemporalFeature, b: &TemporalFeature, factor: &Scale) -> (tile: Tile)
        ensures
            tile == tile_of(a@, b@, factor.numer(), factor.denom()),
    {
        Tile {
            x: factor.coord(a.offset),
            y: factor.coord(b.offset),
            x2: factor.coord_of_end(a.offset, a.duration),
            y2: factor.coord_of_end(b.offset, b.duration),
            similarity: a.vector.similarity_of(&b.vector),
        }
    }
}

/// The tiles of one pair: a pair on the diagonal has one tile, since its
/// mirror image is the tile itself; any other has the tile and its mirror
/// image.
pub open spec fn pair_tiles(
    segments: Seq<Segment>,
    numer: nat,
    denom: nat,
    pair: (nat, nat),
) -> Seq<Tile> {
    let tile = tile_of(segments[pair.0 as int], segments[pair.1 as int], numer, denom);
    if pair.0 == pair.1 {
        seq![tile]
    } else {
        seq![tile, tile.spec_mirrored()]
    }
}

/// The tiles of some pairs, pair after pair.
pub open spec fn tiles_for(
    segments: Seq<Segment>,
    numer: nat,
    denom: nat,
    pairs: Seq<(nat, nat)>,
) -> Seq<Tile>
    decreases pairs.len(),
{
    if pairs.len() == 0 {
        Seq::empty()
    } else {
        pair_tiles(segments, numer, denom, pairs[0]) + tiles_for(
            segments,
            numer,
            denom,
            pairs.skip(1),
        )
    }
}

/// The tiles of the whole matrix of some segments on a time axis scaled
/// by `numer / denom`.
pub open spec fn all_tiles(segments: Seq<Segment>, numer: nat, denom: nat) -> Seq<Tile> {
    tiles_for(segments, numer, denom, all_pairs(segments.len()))
}

/// The mirror image of the tile of a pair is the tile of the pair the
/// other way round: the matrix is the same on both sides of the diagonal.
pub proof fn lemma_mirror_swaps(a: Segment, b: Segment, numer: nat, denom: nat)
    ensures
        tile_of(a, b, numer, denom).spec_mirrored() == tile_of(b, a, numer, denom),
{
    lemma_jaccard_symmetric(a.vector@, b.vector@);
}

/// The tile of two segments with the same vector is fully similar.
pub proof fn lemma_same_vector_is_one(a: Segment, b: Segment, numer: nat, denom: nat)
    requires
        a.vector == b.vector,
    ensures
        tile_of(a, b, numer, denom).similarity.spec_is_one(),
{
    lemma_jaccard_reflexive(a.vector@);
}

/// The tiles of some pairs followed by the tiles of one more pair are the
/// tiles of all of them.
proof fn lemma_tiles_for_push(
    segments: Seq<Segment>,
    numer: nat,
    denom: nat,
    pairs: Seq<(nat, nat)>,
    pair: (nat, nat),
)
    ensures
        tiles_for(segments, numer, denom, pairs.push(pair)) == tiles_for(
            segments,
            numer,
            denom,
            pairs,
        ) + pair_tiles(segments, numer, denom, pair),
    decreases pairs.len(),
{
    let longer = pairs.push(pair);
    let added = pair_tiles(segments, numer, denom, pair);
    if pairs.len() == 0 {
        assert(longer.skip(1) =~= Seq::<(nat, nat)>::empty());
        assert(tiles_for(segments, numer, denom, longer.skip(1)) =~= Seq::<Tile>::empty());
        assert(longer[0] == pair);
        assert(tiles_for(segments, numer, denom, longer) =~= added);
        assert(tiles_for(segments, numer, denom, pairs) + added =~= added);
    } else {
        assert(longer.skip(1) =~= pairs.skip(1).push(pair));
        lemma_tiles_for_push(segments, numer, denom, pairs.skip(1), pair);
        assert(tiles_for(segments, numer, denom, longer) =~= tiles_for(
            segments,
            numer,
            denom,
            pairs,
        ) + added);
    }
}

/// Each of the first `k` pairs has its tile and the mirror image of it
/// among the tiles of those pairs.
proof fn lemma_tiles_of_prefix(segments: Seq<Segment>, numer: nat, denom: nat, k: nat)
    requires
        k <= all_pairs(segments.len()).len(),
    ensures
        forall|m: int|
            0 <= m < k ==> {
                let pair = #[trigger] all_pairs(segments.len())[m];
                let tile = tile_of(
                    segments[pair.0 as int],
                    segments[pair.1 as int],
                    numer,
                    denom,
                );
                let drawn = tiles_for(
                    segments,
                    numer,
                    denom,
                    all_pairs(segments.len()).take(k as int),
                );
                drawn.contains(tile) && drawn.contains(tile.spec_mirrored())
            },
    decreases k,
{
    let pairs = all_pairs(segments.len());
    if k > 0 {
        let shorter = pairs.take(k - 1);
        let pair = pairs[k - 1];
        let fewer = tiles_for(segments, numer, denom, shorter);
        let drawn = tiles_for(segments, numer, denom, pairs.take(k as int));
        lemma_tiles_of_prefix(segments, numer, denom, (k - 1) as nat);
        assert(pairs.take(k as int) =~= shorter.push(pair));
        lemma_tiles_for_push(segments, numer, denom, shorter, pair);
        let added = pair_tiles(segments, numer, denom, pair);
        let tile = tile_of(segments[pair.0 as int], segments[pair.1 as int], numer, denom);
        assert(added[0] == tile);
        assert(pair.0 != pair.1 ==> added[1] == tile.spec_mirrored());
        assert(pair.0 == pair.1 ==> tile.spec_mirrored() == tile) by {
            lemma_mirror_swaps(segments[pair.0 as int], segments[pair.1 as int], numer, denom);
        }
        assert forall|m: int| 0 <= m < k implies ({
            let p = #[trigger] pairs[m];
            let t = tile_of(segments[p.0 as int], segments[p.1 as int], numer, denom);
            drawn.contains(t) && drawn.contains(t.spec_mirrored())
        }) by {
            let p = pairs[m];
            let t = tile_of(segments[p.0 as int], segments[p.1 as int], numer, denom);
            if m < k - 1 {
                let at = choose|at: int| 0 <= at < fewer.len() && fewer[at] == t;
                assert(drawn[at] == t);
                let mirror_at = choose|at: int|
                    0 <= at < fewer.len() && fewer[at] == t.spec_mirrored();
                assert(drawn[mirror_at] == t.spec_mirrored());
            } else {
                assert(drawn[fewer.len() as int] == t);
                if pair.0 != pair.1 {
                    assert(drawn[(fewer.len() + 1) as int] == t.spec_mirrored());
                }
            }
        }
    }
}

/// Each pair of segments has its tile and the mirror image of that tile
/// among the tiles of the matrix, so the matrix is covered on both sides
/// of the diagonal.
pub proof fn lemma_every_pair_is_drawn(
    segments: Seq<Segment>,
    numer: nat,
    denom: nat,
    i: nat,
    j: nat,
)
    requires
        i <= j < segments.len(),
    ensures
        all_tiles(segments, numer, denom).contains(
            tile_of(segments[i as int], segments[j as int], numer, denom),
        ),
        all_tiles(segments, numer, denom).contains(
            tile_of(segments[j as int], segments[i as int], numer, denom),
        ),
{
    let n = segments.len();
    let pairs = all_pairs(n);
    lemma_pair_is_listed(n, i, j);
    lemma_tiles_of_prefix(segments, numer, denom, pairs.len());
    assert(pairs.take(pairs.len() as int) =~= pairs);
    assert(pairs[pair_index(n, i, j) as int] == (i, j));
    lemma_mirror_swaps(segments[i as int], segments[j as int], numer, denom);
}

/// A place in the list of a space's tiles. It hands out one tile at a
/// time and computes none before it is asked for.
pub struct Tiles<'a> {
    pairs: Pairs<'a>,
    pending: Option<Tile>,
    factor: Scale,
}

impl<'a> Tiles<'a> {
    /// The segments whose tiles are handed out.
    pub closed spec fn segments(self) -> Seq<Segment> {
        segments_of(self.pairs.items())
    }

    /// The numerator of the factor by which the time axis is scaled.
    pub closed spec fn numer(self) -> nat {
        self.factor.numer()
    }

    /// The denominator of the factor by which the time axis is scaled.
    pub closed spec fn denom(self) -> nat {
        self.factor.denom()
    }

    /// The tiles that are still to come, in their order.
    pub closed spec fn remaining(self) -> Seq<Tile> {
        let rest = tiles_for(self.segments(), self.numer(), self.denom(), self.pairs.remaining());
        match self.pending {
            Some(tile) => seq![tile] + rest,
            None => rest,
        }
    }

    /// The place before the first tile of `features`, on a time axis
    /// scaled by `factor`.
    pub fn new(features: &'a Vec<TemporalFeature>, factor: Scale) -> (tiles: Self)
        ensures
            tiles.segments() == segments_of(features@),
            tiles.numer() == factor.numer(),
            tiles.denom() == factor.denom(),
            tiles.remaining() == all_tiles(
                segments_of(features@),
                factor.numer(),
                factor.denom(),
            ),
    {
        Tiles { pairs: Pairs::new(features), pending: None, factor }
    }

    /// The next tile, or `None` after the last.
    pub fn next(&mut self) -> (out: Option<Tile>)
        ensures
            final(self).segments() == old(self).segments(),
            final(self).numer() == old(self).numer(),
            final(self).denom() == old(self).denom(),
            match out {
                Some(tile) => {
                    &&& old(self).remaining().len() > 0
                    &&& tile == old(self).remaining()[0]
                    &&& final(self).remaining() == old(self).remaining().skip(1)
                },
                None => old(self).remaining().len() == 0 && final(self).remaining().len() == 0,
            },
    {
        let ghost before = *self;
        if let Some(tile) = self.pending {
            self.pending = None;
            assert(self.remaining() =~= before.remaining().skip(1));
            return Some(tile);
        }
        match self.pairs.next_indices() {
            Some((i, j)) => {
                let features = self.pairs.features();
                let tile = Tile::new(&features[i], &features[j], &self.factor);
                if i != j {
                    self.pending = Some(tile.mirrored());
                }
                proof {
                    let pair = before.pairs.remaining()[0];
                    let rest = tiles_for(
                        self.segments(),
                        self.numer(),
                        self.denom(),
                        self.pairs.remaining(),
                    );
                    assert(before.remaining() == pair_tiles(
                        self.segments(),
                        self.numer(),
                        self.denom(),
                        pair,
                    ) + rest);
                    assert(self.remaining() =~= before.remaining().skip(1));
                }
                Some(tile)
            },
            None => None,
        }
    }

    /// The next tiles, up to `segment_size` of them: fewer only where no
    /// more are left.
    pub fn next_segment(&mut self, segment_size: usize) -> (out: Vec<Tile>)
        ensures
            final(self).segments() == old(self).segments(),
            final(self).numer() == old(self).numer(),
            final(self).denom() == old(self).denom(),
            out@.len() == at_most(old(self).remaining().len(), segment_size as nat),
            out@ == old(self).remaining().take(out@.len() as int),
            final(self).remaining() == old(self).remaining().skip(out@.len() as int),
    {
        let ghost before = *self;
        let mut out: Vec<Tile> = Vec::new();
        assert(self.remaining() =~= before.remaining().skip(0));
        while out.len() < segment_size
            invariant
                before == *old(self),
                self.segments() == before.segments(),
                self.numer() == before.numer(),
                self.denom() == before.denom(),
                out@.len() <= segment_size,
                out@.len() <= before.remaining().len(),
                out@ == before.remaining().take(out@.len() as int),
                self.remaining() == before.remaining().skip(out@.len() as int),
            decreases segment_size - out.len(),
        {
            let ghost rest = self.remaining();
            match self.next() {
                Some(tile) => {
                    out.push(tile);
                    assert(out@ =~= before.remaining().take(out@.len() as int));
                    assert(self.remaining() =~= before.remaining().skip(out@.len() as int));
                },
                None => {
                    assert(self.remaining() =~= rest);
                    return out;
                },
            }
        }
        out
    }
}

impl TemporalSpace {
    /// The tiles of the self-similarity matrix of the space: for each pair
    /// of segments, in the order of `iter_pairs`, its tile and then, off
    /// the diagonal, the mirror image of that tile. The corners of a tile
    /// are the times of its segments scaled by the factor of the space.
    pub fn draw(&self) -> (tiles: Tiles<'_>)
        ensures
            tiles.segments() == self@.segments,
            tiles.numer() == self@.numer,
            tiles.denom() == self@.denom,
            tiles.remaining() == all_tiles(self@.segments, self@.numer, self@.denom),
    {
        Tiles::new(self.features(), self.factor())
    }
}

} // verus!
