//! The mapping between colour ranks and dimensions that a colour map uses to
//! colour explained points, with the overrides a user can set on it.
use vstd::prelude::*;
use vstd::relations::{sorted_by, total_ordering};
use vstd::seq_lib::{lemma_sorted_unique, to_multiset_build, to_multiset_insert};

use crate::bidirectional::{
    bimap_clear, bimap_get_by_left, bimap_get_by_right, bimap_insert, bimap_len, bimap_new,
    bimap_pairs, pairs_after_insert, IndexBimap,
};

verus! {

/// Ascending order on indices.
pub open spec fn index_leq() -> spec_fn(usize, usize) -> bool {
    |a: usize, b: usize| a <= b
}

proof fn lemma_index_leq_total()
    ensures
        total_ordering(index_leq()),
{
}

/// Sort indices in ascending order.
fn sort_ascending(v: Vec<usize>) -> (res: Vec<usize>)
    ensures
        res@ == v@.sort_by(index_leq()),
{
    let mut res: Vec<usize> = Vec::new();
    let mut i: usize = 0;
    assert(v@.take(0) =~= Seq::<usize>::empty());
    while i < v.len()
        invariant
            i <= v@.len(),
            sorted_by(res@, index_leq()),
            res@.to_multiset() == v@.take(i as int).to_multiset(),
        decreases v@.len() - i,
    {
        let x = v[i];
        let mut pos: usize = 0;
        while pos < res.len() && res[pos] <= x
            invariant
                pos <= res@.len(),
                forall|k: int| 0 <= k < pos ==> res@[k] <= x,
            decreases res@.len() - pos,
        {
            pos = pos + 1;
        }
        let ghost before = res@;
        res.insert(pos, x);
        proof {
            assert(res@ =~= before.insert(pos as int, x));
            to_multiset_insert(before, pos as int, x);
            assert(v@.take(i + 1) =~= v@.take(i as int).push(x));
            to_multiset_build(v@.take(i as int), x);
            assert forall|a: int, b: int| 0 <= a < b < res@.len() implies #[trigger] index_leq()(
                res@[a],
                res@[b],
            ) by {
                if pos < before.len() {
                    assert(x < before[pos as int]);
                }
                if a < pos && b < pos {
                    assert(index_leq()(before[a], before[b]));
                } else if a < pos && b == pos {
                } else if a < pos && b > pos {
                    assert(index_leq()(before[a], before[b - 1]));
                } else if a == pos {
                    if pos < b - 1 {
                        assert(index_leq()(before[pos as int], before[b - 1]));
                    }
                } else {
                    assert(index_leq()(before[a - 1], before[b - 1]));
                }
            }
        }
        i = i + 1;
    }
    proof {
        assert(v@.take(v@.len() as int) =~= v@);
        lemma_index_leq_total();
        v@.lemma_sort_by_ensures(index_leq());
        lemma_sorted_unique(res@, v@.sort_by(index_leq()), index_leq());
    }
    res
}

/// The pairs of a bidirectional map filled by inserting `(i, s[i])` for each
/// position `i` of `s` in turn.
pub open spec fn enumerated(s: Seq<usize>) -> Map<usize, usize>
    decreases s.len(),
{
    if s.len() == 0 {
        Map::empty()
    } else {
        pairs_after_insert(enumerated(s.drop_last()), (s.len() - 1) as usize, s.last())
    }
}

/// No two keys of `m` share a value.
pub open spec fn injective(m: Map<usize, usize>) -> bool {
    forall|a: usize, b: usize|
        #![trigger m[a], m[b]]
        m.contains_key(a) && m.contains_key(b) && m[a] == m[b] ==> a == b
}

/// The pairs of a bidirectional map: finitely many, no value twice.
pub open spec fn valid_pairs(m: Map<usize, usize>) -> bool {
    m.dom().finite() && injective(m)
}

/// Inserting into valid pairs gives valid pairs, in which `left` is paired
/// with `right`.
pub proof fn lemma_insert_keeps_valid(p: Map<usize, usize>, left: usize, right: usize)
    requires
        valid_pairs(p),
    ensures
        valid_pairs(pairs_after_insert(p, left, right)),
        pairs_after_insert(p, left, right).contains_key(left),
        pairs_after_insert(p, left, right)[left] == right,
{
    let kept = p.dom().filter(|k: usize| k != left && p[k] != right);
    p.dom().lemma_len_filter(|k: usize| k != left && p[k] != right);
    let q = pairs_after_insert(p, left, right);
    assert(p.restrict(kept).dom() =~= kept);
    assert(q.dom() =~= kept.insert(left));
    assert forall|a: usize, b: usize|
        #![trigger q[a], q[b]]
        q.contains_key(a) && q.contains_key(b) && q[a] == q[b] implies a == b by {
        if a != left && b != left {
            assert(kept.contains(a) && kept.contains(b));
            assert(q[a] == p[a] && q[b] == p[b]);
        } else if a == left && b != left {
            assert(kept.contains(b));
            assert(q[b] == p[b]);
        } else if a != left && b == left {
            assert(kept.contains(a));
            assert(q[a] == p[a]);
        }
    }
}

/// Filling a map with a sequence that has no value twice pairs each position
/// with the value at that position.
pub proof fn lemma_enumerated_distinct(s: Seq<usize>)
    requires
        s.no_duplicates(),
        s.len() <= usize::MAX,
    ensures
        enumerated(s) == Map::new(|k: usize| k < s.len(), |k: usize| s[k as int]),
    decreases s.len(),
{
    if s.len() == 0 {
        assert(enumerated(s) =~= Map::new(|k: usize| k < s.len(), |k: usize| s[k as int]));
    } else {
        let t = s.drop_last();
        lemma_enumerated_distinct(t);
        let p = enumerated(t);
        let n = (s.len() - 1) as usize;
        assert forall|k: usize| p.contains_key(k) implies k != n && p[k] != s.last() by {
            assert(t[k as int] == s[k as int]);
        }
        assert(p.dom().filter(|k: usize| k != n && p[k] != s.last()) =~= p.dom());
        assert(p.restrict(p.dom()) =~= p);
        assert(enumerated(s) =~= Map::new(|k: usize| k < s.len(), |k: usize| s[k as int]));
    }
}

/// The pairs of `enumerated` are valid.
pub proof fn lemma_enumerated_valid(s: Seq<usize>)
    ensures
        valid_pairs(enumerated(s)),
    decreases s.len(),
{
    if s.len() == 0 {
        assert(enumerated(s).dom() =~= Set::<usize>::empty());
    } else {
        lemma_enumerated_valid(s.drop_last());
        lemma_insert_keeps_valid(enumerated(s.drop_last()), (s.len() - 1) as usize, s.last());
    }
}

/// Insert `(i, values[i])` for every position `i` in turn.
fn fill_enumerated(map: &mut IndexBimap, values: &Vec<usize>)
    requires
        bimap_pairs(*old(map)).dom() == Set::<usize>::empty(),
    ensures
        bimap_pairs(*final(map)) == enumerated(values@),
{
    let mut i: usize = 0;
    assert(values@.take(0) =~= Seq::<usize>::empty());
    assert(bimap_pairs(*map) =~= enumerated(values@.take(0)));
    while i < values.len()
        invariant
            i <= values@.len(),
            bimap_pairs(*map) == enumerated(values@.take(i as int)),
        decreases values@.len() - i,
    {
        bimap_insert(map, i, values[i]);
        assert(values@.take(i + 1).drop_last() =~= values@.take(i as int));
        i = i + 1;
    }
    assert(values@.take(values@.len() as int) =~= values@);
}


/// The value paired with `k`, if any.
pub open spec fn lookup(m: Map<usize, usize>, k: usize) -> Option<usize> {
    if m.contains_key(k) {
        Some(m[k])
    } else {
        None
    }
}

/// The key paired with the value `v`, if any.
pub open spec fn reverse_lookup(m: Map<usize, usize>, v: usize) -> Option<usize> {
    if exists|k: usize| m.contains_key(k) && m[k] == v {
        Some(choose|k: usize| m.contains_key(k) && m[k] == v)
    } else {
        None
    }
}

/// In an injective map the key of a value is the one paired with it.
pub proof fn lemma_reverse_lookup(m: Map<usize, usize>, k: usize, v: usize)
    requires
        injective(m),
        m.contains_key(k),
        m[k] == v,
    ensures
        reverse_lookup(m, v) == Some(k),
{
    let c = choose|c: usize| m.contains_key(c) && m[c] == v;
    assert(m.contains_key(c) && m[c] == v);
}

/// How the dimensions of an explanation are coloured.
#[derive(Copy, Clone, Debug, PartialEq, Eq, Structural)]
pub enum ColoringMode {
    /// Points are in categories
    Categorical,
    /// Points are in ordinal classes
    Ordinal,
    /// Points are in a single class, base color only on confidence
    Single,
}

/// The abstract content of a rank map: the rank of each dimension, the
/// overrides from dimension to rank, and the colouring mode.
pub struct RankMapModel {
    /// rank to dimension
    pub ranks: Map<usize, usize>,
    /// dimension to rank, set by the user
    pub overrides: Map<usize, usize>,
    pub mode: ColoringMode,
}

impl RankMapModel {
    /// Both maps are the pairs of bidirectional maps.
    pub open spec fn wf(self) -> bool {
        valid_pairs(self.ranks) && valid_pairs(self.overrides)
    }

    /// The dimension shown for a rank: an override naming the rank wins; else
    /// the dimension of that rank, unless that dimension was moved to another
    /// rank by an override.
    pub open spec fn dimension_of_rank(self, rank: usize) -> Option<usize> {
        match reverse_lookup(self.overrides, rank) {
            Some(dim) => Some(dim),
            None => match lookup(self.ranks, rank) {
                Some(dim) => if self.overrides.contains_key(dim) {
                    None
                } else {
                    Some(dim)
                },
                None => None,
            },
        }
    }

    /// The rank of a dimension: an override of the dimension wins, unless it
    /// names the rank one past the last; else the rank of that dimension, unless
    /// an override moved another dimension to that rank.
    pub open spec fn rank_of_dimension(self, dim: usize) -> Option<usize> {
        match lookup(self.overrides, dim) {
            Some(rank) => if rank == self.ranks.dom().len() {
                None
            } else {
                Some(rank)
            },
            None => match reverse_lookup(self.ranks, dim) {
                Some(rank) => if reverse_lookup(self.overrides, rank) is Some {
                    None
                } else {
                    Some(rank)
                },
                None => None,
            },
        }
    }
}

/// The ranks that a new map starts with, for a ranking of the dimensions
/// (most important first) and a colouring mode.
pub open spec fn initial_ranks(ranking: Seq<usize>, mode: ColoringMode) -> Map<usize, usize> {
    match mode {
        ColoringMode::Categorical => enumerated(ranking),
        ColoringMode::Ordinal => enumerated(ranking.sort_by(index_leq())),
        ColoringMode::Single => enumerated(seq![0usize, 1usize]),
    }
}

/// Which dimension is shown with which colour rank, and which ranks the user
/// has reassigned.
pub struct RankMap {
    // Map of a rank to the dimension index shown with it
    map: IndexBimap,
    // Dimension rank overrides, we allow the user to override the actual mapping
    // from the UI. This maps a dimension to a rank.
    rank_overrides: IndexBimap,
    mode: ColoringMode,
}

impl View for RankMap {
    type V = RankMapModel;

    closed spec fn view(&self) -> RankMapModel {
        RankMapModel {
            ranks: bimap_pairs(self.map),
            overrides: bimap_pairs(self.rank_overrides),
            mode: self.mode,
        }
    }
}

impl RankMap {
    /// The map is in a consistent state.
    pub open spec fn wf(&self) -> bool {
        self@.wf()
    }

    /// Create the rank map for a ranking of the dimensions. Categorical maps
    /// give rank `i` to `dimension_ranking[i]`; ordinal maps give the ranks in
    /// order of the sorted dimension indices; single maps pair 0 and 1 with
    /// themselves.
    pub fn new(dimension_ranking: Vec<usize>, mode: ColoringMode) -> (res: RankMap)
        ensures
            res.wf(),
            res@.ranks == initial_ranks(dimension_ranking@, mode),
            res@.overrides.dom() == Set::<usize>::empty(),
            res@.mode == mode,
    {
        let mut map = bimap_new();
        match mode {
            ColoringMode::Categorical => {
                fill_enumerated(&mut map, &dimension_ranking);
            },
            ColoringMode::Ordinal => {
                let rankings = sort_ascending(dimension_ranking);
                fill_enumerated(&mut map, &rankings);
            },
            ColoringMode::Single => {
                let pairs: Vec<usize> = vec![0, 1];
                fill_enumerated(&mut map, &pairs);
            },
        }
        let rank_overrides = bimap_new();
        let res = RankMap { map, rank_overrides, mode };
        proof {
            match mode {
                ColoringMode::Categorical => lemma_enumerated_valid(dimension_ranking@),
                ColoringMode::Ordinal => lemma_enumerated_valid(
                    dimension_ranking@.sort_by(index_leq()),
                ),
                ColoringMode::Single => {
                    assert(seq![0usize, 1usize] =~= seq![0usize, 1usize]);
                    lemma_enumerated_valid(seq![0usize, 1usize]);
                },
            }
            assert(bimap_pairs(res.rank_overrides).dom() =~= Set::<usize>::empty());
        }
        res
    }

    /// An empty map, as used before any explanation was loaded.
    pub fn empty() -> (res: RankMap)
        ensures
            res.wf(),
            res@.ranks.dom() == Set::<usize>::empty(),
            res@.overrides.dom() == Set::<usize>::empty(),
            res@.mode == ColoringMode::Categorical,
    {
        let res = RankMap {
            map: bimap_new(),
            rank_overrides: bimap_new(),
            mode: ColoringMode::Categorical,
        };
        proof {
            assert(res@.ranks.dom() =~= Set::<usize>::empty());
        }
        res
    }

    /// Retrieve the amount of dimensions in the ranking map
    pub fn dimension_count(&self) -> (n: usize)
        ensures
            n == self@.ranks.dom().len(),
    {
        bimap_len(&self.map)
    }

    /// Check if the color map has been initialized
    pub fn is_initialized(&self) -> (b: bool)
        ensures
            b == (self@.ranks.dom().len() != 0),
    {
        self.dimension_count() != 0
    }

    /// Return if the color map is only used for one attribute
    pub fn single_attribute_mode(&self) -> (b: bool)
        ensures
            b == (self@.mode == ColoringMode::Single),
    {
        match self.mode {
            ColoringMode::Single => true,
            _ => false,
        }
    }

    /// The colouring mode of the map.
    pub fn mode(&self) -> (m: ColoringMode)
        ensures
            m == self@.mode,
    {
        self.mode
    }

    /// Retrieve the dimension from the rank (0 indexed)
    pub fn get_dimension_from_rank(&self, rank: usize) -> (res: Option<usize>)
        requires
            self.wf(),
        ensures
            res == self@.dimension_of_rank(rank),
    {
        match bimap_get_by_right(&self.rank_overrides, rank) {
            None => {
                proof {
                    assert(!(exists|k: usize|
                        self@.overrides.contains_key(k) && self@.overrides[k] == rank));
                }
                match bimap_get_by_left(&self.map, rank) {
                    Some(dim) => match bimap_get_by_left(&self.rank_overrides, dim) {
                        Some(_) => None,
                        None => Some(dim),
                    },
                    None => None,
                }
            },
            Some(dim) => {
                proof {
                    lemma_reverse_lookup(self@.overrides, dim, rank);
                }
                Some(dim)
            },
        }
    }

    /// Retrieve the rank for a dimension
    pub fn get_rank_from_dimension(&self, dim: usize) -> (res: Option<usize>)
        requires
            self.wf(),
        ensures
            res == self@.rank_of_dimension(dim),
    {
        match bimap_get_by_left(&self.rank_overrides, dim) {
            None => match bimap_get_by_right(&self.map, dim) {
                Some(rank) => {
                    proof {
                        lemma_reverse_lookup(self@.ranks, rank, dim);
                    }
                    match bimap_get_by_right(&self.rank_overrides, rank) {
                        Some(other) => {
                            proof {
                                lemma_reverse_lookup(self@.overrides, other, rank);
                            }
                            None
                        },
                        None => {
                            proof {
                                assert(!(exists|k: usize|
                                    self@.overrides.contains_key(k) && self@.overrides[k] == rank));
                            }
                            Some(rank)
                        },
                    }
                },
                None => {
                    proof {
                        assert(!(exists|k: usize|
                            self@.ranks.contains_key(k) && self@.ranks[k] == dim));
                    }
                    None
                },
            },
            // If the override index rank is out of bounds, consider it the be no color
            Some(rank) => {
                if rank == bimap_len(&self.map) {
                    None
                } else {
                    Some(rank)
                }
            },
        }
    }

    /// Add an override for the standard color map from a color to rank.
    pub fn set_rank_override(&mut self, rank: usize, dim: usize)
        requires
            old(self).wf(),
        ensures
            final(self).wf(),
            final(self)@.overrides == pairs_after_insert(old(self)@.overrides, dim, rank),
            final(self)@.ranks == old(self)@.ranks,
            final(self)@.mode == old(self)@.mode,
    {
        proof {
            lemma_insert_keeps_valid(self@.overrides, dim, rank);
        }
        bimap_insert(&mut self.rank_overrides, dim, rank);
    }

    /// Returns if rank overrides are being used an override from the rank
    pub fn uses_rank_overrides(&self) -> (b: bool)
        ensures
            b == (self@.overrides.dom().len() != 0),
    {
        bimap_len(&self.rank_overrides) != 0
    }

    /// Clear the overrides to the rank
    pub fn clear_rank_overrides(&mut self)
        requires
            old(self).wf(),
        ensures
            final(self).wf(),
            final(self)@.overrides.dom() == Set::<usize>::empty(),
            final(self)@.ranks == old(self)@.ranks,
            final(self)@.mode == old(self)@.mode,
    {
        bimap_clear(&mut self.rank_overrides);
        proof {
            assert(self@.overrides.dom() =~= Set::<usize>::empty());
        }
    }
}


/// Rank and dimension lookups are inverse to each other: when a dimension has
/// a rank, that rank shows the dimension; and a rank shows a dimension exactly
/// when that dimension has that rank, for every rank other than the one past
/// the last rank.
pub proof fn rank_lookups_are_inverse(m: RankMapModel, rank: usize, dim: usize)
    requires
        m.wf(),
    ensures
        m.rank_of_dimension(dim) == Some(rank) ==> m.dimension_of_rank(rank) == Some(dim),
        rank != m.ranks.dom().len() ==> (m.dimension_of_rank(rank) == Some(dim)
            <==> m.rank_of_dimension(dim) == Some(rank)),
{
    if m.dimension_of_rank(rank) == Some(dim) {
        match reverse_lookup(m.overrides, rank) {
            Some(d) => {
                assert(m.overrides.contains_key(d) && m.overrides[d] == rank);
            },
            None => {
                lemma_reverse_lookup(m.ranks, rank, dim);
            },
        }
    }
    if m.rank_of_dimension(dim) == Some(rank) {
        match lookup(m.overrides, dim) {
            Some(r) => {
                lemma_reverse_lookup(m.overrides, dim, rank);
            },
            None => {
                let r = choose|k: usize| m.ranks.contains_key(k) && m.ranks[k] == dim;
                assert(m.ranks.contains_key(r) && m.ranks[r] == dim);
            },
        }
    }
}

/// After the user overrides the rank of a dimension, that rank shows the
/// dimension, and the dimension has that rank unless it is the rank one past
/// the last.
pub proof fn override_takes_effect(m: RankMapModel, rank: usize, dim: usize)
    requires
        m.wf(),
    ensures
        ({
            let after = RankMapModel {
                overrides: pairs_after_insert(m.overrides, dim, rank),
                ..m
            };
            &&& after.wf()
            &&& after.dimension_of_rank(rank) == Some(dim)
            &&& after.rank_of_dimension(dim) == if rank == m.ranks.dom().len() {
                None
            } else {
                Some(rank)
            }
        }),
{
    lemma_insert_keeps_valid(m.overrides, dim, rank);
    lemma_reverse_lookup(pairs_after_insert(m.overrides, dim, rank), dim, rank);
}

/// Without overrides the lookups are those of the ranks alone.
pub proof fn no_overrides_shows_ranks(m: RankMapModel, rank: usize, dim: usize)
    requires
        m.wf(),
        m.overrides.dom() == Set::<usize>::empty(),
    ensures
        m.dimension_of_rank(rank) == lookup(m.ranks, rank),
        m.rank_of_dimension(dim) == reverse_lookup(m.ranks, dim),
{
}

/// An ordinal map built from a ranking without repeated dimensions gives rank
/// `i` to the `i`-th smallest dimension of the ranking: its ranks are exactly
/// the positions of the ranking, each rank shows a dimension of the ranking,
/// and a lower rank always shows a smaller dimension.
pub proof fn ordinal_ranks_follow_dimension_order(ranking: Seq<usize>)
    requires
        ranking.no_duplicates(),
        ranking.len() <= usize::MAX,
    ensures
        forall|k: usize| #[trigger]
            initial_ranks(ranking, ColoringMode::Ordinal).contains_key(k) <==> k < ranking.len(),
        forall|k: usize|
            k < ranking.len() ==> ranking.contains(
                #[trigger] initial_ranks(ranking, ColoringMode::Ordinal)[k],
            ),
        forall|i: usize, j: usize|
            i < j < ranking.len() ==> #[trigger] initial_ranks(ranking, ColoringMode::Ordinal)[i]
                < #[trigger] initial_ranks(ranking, ColoringMode::Ordinal)[j],
{
    broadcast use vstd::multiset::group_multiset_axioms;

    let s = ranking.sort_by(index_leq());
    lemma_index_leq_total();
    ranking.lemma_sort_by_ensures(index_leq());
    ranking.to_multiset_ensures();
    s.to_multiset_ensures();
    ranking.lemma_multiset_has_no_duplicates();
    s.lemma_multiset_has_no_duplicates_conv();
    assert(s.len() == ranking.len());
    lemma_enumerated_distinct(s);
    let m = initial_ranks(ranking, ColoringMode::Ordinal);
    assert(m == Map::new(|k: usize| k < s.len(), |k: usize| s[k as int]));
    assert forall|k: usize| k < ranking.len() implies ranking.contains(#[trigger] m[k]) by {
        assert(s.contains(s[k as int]));
    }
    assert forall|i: usize, j: usize| i < j < ranking.len() implies #[trigger] m[i] < #[trigger] m[j] by {
        assert(index_leq()(s[i as int], s[j as int]));
        assert(s[i as int] != s[j as int]);
    }
}

/// A single attribute map shows dimension 0 at rank 0 and dimension 1 at
/// rank 1, whatever the ranking.
pub proof fn single_ranks_pair_zero_and_one(ranking: Seq<usize>)
    ensures
        initial_ranks(ranking, ColoringMode::Single) == Map::<usize, usize>::empty().insert(
            0,
            0,
        ).insert(1, 1),
{
    let s = seq![0usize, 1usize];
    lemma_enumerated_distinct(s);
    assert(initial_ranks(ranking, ColoringMode::Single) =~= Map::<usize, usize>::empty().insert(
        0,
        0,
    ).insert(1, 1));
}

/// A categorical map made from a ranking without repeated dimensions shows
/// the `i`-th dimension of the ranking at rank `i`.
pub proof fn categorical_ranks_follow_ranking(ranking: Seq<usize>)
    requires
        ranking.no_duplicates(),
        ranking.len() <= usize::MAX,
    ensures
        initial_ranks(ranking, ColoringMode::Categorical) == Map::new(
            |k: usize| k < ranking.len(),
            |k: usize| ranking[k as int],
        ),
{
    lemma_enumerated_distinct(ranking);
}

} // verus!
