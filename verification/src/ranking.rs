//! Ranking of the dimensions chosen by an explanation mechanism, and the
//! agreement of a point with its neighbourhood.
use vstd::prelude::*;

verus! {

/// How often `d` occurs in `s`.
pub open spec fn count_in(s: Seq<usize>, d: usize) -> nat
    decreases s.len(),
{
    if s.len() == 0 {
        0
    } else {
        count_in(s.drop_last(), d) + if s.last() == d {
            1nat
        } else {
            0nat
        }
    }
}

/// `a` comes before `b` in a ranking: it occurs more often in `s`, or as
/// often and it is the smaller dimension index.
pub open spec fn ranked_before(s: Seq<usize>, a: usize, b: usize) -> bool {
    count_in(s, a) > count_in(s, b) || (count_in(s, a) == count_in(s, b) && a < b)
}

/// `r` ranks the dimensions that occur in `s`: each occurs in `r` once, no
/// other value occurs in it, and they are ordered by how often they occur in
/// `s`, most often first, ties broken by the smaller index first.
pub open spec fn is_dimension_ranking(s: Seq<usize>, r: Seq<usize>) -> bool {
    &&& r.no_duplicates()
    &&& forall|d: usize| r.contains(d) <==> s.contains(d)
    &&& forall|i: int, j: int| 0 <= i < j < r.len() ==> ranked_before(s, r[i], r[j])
}

/// The count of a dimension is its number of occurrences, and a ranking puts
/// the dimension that occurs more often first, and of two dimensions that
/// occur equally often the smaller one; never both ways round.
pub proof fn ranking_orders_by_occurrences(s: Seq<usize>, a: usize, b: usize)
    ensures
        count_in(s, a) == s.to_multiset().count(a),
        count_in(s, a) > count_in(s, b) ==> ranked_before(s, a, b),
        count_in(s, a) == count_in(s, b) && a < b ==> ranked_before(s, a, b),
        ranked_before(s, a, b) ==> !ranked_before(s, b, a),
        a != b ==> ranked_before(s, a, b) || ranked_before(s, b, a),
    decreases s.len(),
{
    broadcast use vstd::multiset::group_multiset_axioms;

    if s.len() == 0 {
        assert(s.to_multiset() =~= vstd::multiset::Multiset::<usize>::empty()) by {
            s.to_multiset_ensures();
        }
    } else {
        let t = s.drop_last();
        ranking_orders_by_occurrences(t, a, b);
        assert(s =~= t.push(s.last()));
        t.to_multiset_ensures();
    }
}

/// A value occurs in a sequence exactly when it is counted in it.
pub proof fn lemma_count_positive_iff_contains(s: Seq<usize>, d: usize)
    ensures
        count_in(s, d) > 0 <==> s.contains(d),
    decreases s.len(),
{
    if s.len() > 0 {
        lemma_count_positive_iff_contains(s.drop_last(), d);
        if s.last() == d {
            assert(s[s.len() - 1] == d);
        }
        if s.drop_last().contains(d) {
            let k = choose|k: int| 0 <= k < s.drop_last().len() && s.drop_last()[k] == d;
            assert(s[k] == d);
        }
        if s.contains(d) && s.last() != d {
            let k = choose|k: int| 0 <= k < s.len() && s[k] == d;
            assert(s.drop_last()[k] == d);
        }
    }
}

/// There is exactly one ranking of the dimensions of a sequence.
pub proof fn lemma_dimension_ranking_unique(s: Seq<usize>, r1: Seq<usize>, r2: Seq<usize>)
    requires
        is_dimension_ranking(s, r1),
        is_dimension_ranking(s, r2),
    ensures
        r1 == r2,
{
    lemma_ranked_sequences_equal(s, r1, r2);
}

/// Two duplicate-free sequences with the same elements, both ordered by
/// `ranked_before`, are equal.
proof fn lemma_ranked_sequences_equal(s: Seq<usize>, t1: Seq<usize>, t2: Seq<usize>)
    requires
        t1.no_duplicates(),
        t2.no_duplicates(),
        forall|d: usize| t1.contains(d) <==> t2.contains(d),
        forall|i: int, j: int| 0 <= i < j < t1.len() ==> ranked_before(s, t1[i], t1[j]),
        forall|i: int, j: int| 0 <= i < j < t2.len() ==> ranked_before(s, t2[i], t2[j]),
    ensures
        t1 == t2,
    decreases t1.len(),
{
    if t1.len() == 0 {
        if t2.len() > 0 {
            assert(t2.contains(t2[0]));
        }
        assert(t1 =~= t2);
    } else {
        assert(t1.contains(t1[0]));
        assert(t2.contains(t1[0]));
        assert(t2.len() > 0);
        assert(t2.contains(t2[0]));
        let i = choose|i: int| 0 <= i < t2.len() && t2[i] == t1[0];
        let j = choose|j: int| 0 <= j < t1.len() && t1[j] == t2[0];
        if i > 0 {
            assert(ranked_before(s, t2[0], t2[i]));
            if j > 0 {
                assert(ranked_before(s, t1[0], t1[j]));
            }
            assert(false);
        }
        let u1 = t1.drop_first();
        let u2 = t2.drop_first();
        assert forall|d: usize| u1.contains(d) <==> u2.contains(d) by {
            if u1.contains(d) {
                let k = choose|k: int| 0 <= k < u1.len() && u1[k] == d;
                assert(t1[k + 1] == d);
                assert(t1.contains(d));
                let m = choose|m: int| 0 <= m < t2.len() && t2[m] == d;
                assert(m != 0);
                assert(u2[m - 1] == d);
            }
            if u2.contains(d) {
                let k = choose|k: int| 0 <= k < u2.len() && u2[k] == d;
                assert(t2[k + 1] == d);
                assert(t2.contains(d));
                let m = choose|m: int| 0 <= m < t1.len() && t1[m] == d;
                assert(m != 0);
                assert(u1[m - 1] == d);
            }
        }
        lemma_ranked_sequences_equal(s, u1, u2);
        assert(t1 =~= seq![t1[0]] + u1);
        assert(t2 =~= seq![t2[0]] + u2);
    }
}


/// Counting one more element of a sequence.
proof fn lemma_count_step(s: Seq<usize>, i: int, d: usize)
    requires
        0 <= i < s.len(),
    ensures
        count_in(s.take(i + 1), d) == count_in(s.take(i), d) + if s[i] == d {
            1nat
        } else {
            0nat
        },
{
    assert(s.take(i + 1).drop_last() =~= s.take(i));
}

/// Rank the dimensions on how many times they occur: the dimensions that
/// occur most often come first, ties are ordered by the smaller dimension
/// index first.
pub fn calculate_dimension_rankings(dimensions: &[usize]) -> (ranking: Vec<usize>)
    requires
        forall|i: int| 0 <= i < dimensions@.len() ==> dimensions@[i] < usize::MAX,
    ensures
        is_dimension_ranking(dimensions@, ranking@),
{
    let ghost s = dimensions@;
    if dimensions.len() == 0 {
        let ranking: Vec<usize> = Vec::new();
        assert forall|d: usize| ranking@.contains(d) <==> s.contains(d) by {
            if s.contains(d) {
                let k = choose|k: int| 0 <= k < s.len() && s[k] == d;
            }
        }
        return ranking;
    }
    // The largest dimension index that occurs.
    let mut max: usize = 0;
    let mut i: usize = 0;
    while i < dimensions.len()
        invariant
            s == dimensions@,
            i <= s.len(),
            forall|k: int| 0 <= k < i ==> s[k] <= max,
            forall|k: int| 0 <= k < s.len() ==> s[k] < usize::MAX,
            max < usize::MAX,
        decreases s.len() - i,
    {
        if dimensions[i] > max {
            max = dimensions[i];
        }
        i = i + 1;
    }
    let size: usize = max + 1;
    // Count the occurrences of each dimension.
    let mut counts: Vec<usize> = Vec::new();
    let mut j: usize = 0;
    while j < size
        invariant
            j <= size,
            counts@.len() == j,
            forall|x: int| 0 <= x < j ==> counts@[x] == 0,
        decreases size - j,
    {
        counts.push(0);
        j = j + 1;
    }
    assert(s.take(0) =~= Seq::<usize>::empty());
    let mut i: usize = 0;
    while i < dimensions.len()
        invariant
            s == dimensions@,
            i <= s.len(),
            size == max + 1,
            forall|k: int| 0 <= k < s.len() ==> s[k] <= max,
            counts@.len() == size,
            forall|x: int| 0 <= x < size ==> counts@[x] == count_in(s.take(i as int), x as usize),
            forall|x: int| 0 <= x < size ==> counts@[x] <= i,
        decreases s.len() - i,
    {
        let d = dimensions[i];
        proof {
            assert forall|x: int| 0 <= x < size implies #[trigger] count_in(s.take(i + 1), x as usize)
                == count_in(s.take(i as int), x as usize) + if s[i as int] == x as usize {
                1nat
            } else {
                0nat
            } by {
                lemma_count_step(s, i as int, x as usize);
            }
        }
        let c = counts[d];
        counts.set(d, c + 1);
        i = i + 1;
    }
    assert(s.take(s.len() as int) =~= s);
    proof {
        assert forall|x: usize| x >= size implies count_in(s, x) == 0 by {
            lemma_count_positive_iff_contains(s, x);
            if s.contains(x) {
                let k = choose|k: int| 0 <= k < s.len() && s[k] == x;
            }
        }
    }
    // Insert the dimensions that occur, in order of their index, after every
    // dimension that occurs at least as often.
    let mut ranking: Vec<usize> = Vec::new();
    let mut d: usize = 0;
    while d < size
        invariant
            d <= size,
            size == max + 1,
            counts@.len() == size,
            forall|x: int| 0 <= x < size ==> counts@[x] == count_in(s, x as usize),
            forall|x: usize| x >= size ==> count_in(s, x) == 0,
            ranking@.no_duplicates(),
            forall|x: usize| ranking@.contains(x) <==> (x < d && count_in(s, x) > 0),
            forall|a: int, b: int|
                0 <= a < b < ranking@.len() ==> ranked_before(s, ranking@[a], ranking@[b]),
        decreases size - d,
    {
        let c = counts[d];
        proof {
            assert forall|k: int| 0 <= k < ranking@.len() implies ranking@[k] < d by {
                assert(ranking@.contains(ranking@[k]));
            }
        }
        if c != 0 {
            let mut pos: usize = 0;
            while pos < ranking.len() && counts[ranking[pos]] >= c
                invariant
                    pos <= ranking@.len(),
                    counts@.len() == size,
                    forall|k: int| 0 <= k < ranking@.len() ==> ranking@[k] < d,
                    forall|x: int| 0 <= x < size ==> counts@[x] == count_in(s, x as usize),
                    forall|k: int| 0 <= k < pos ==> count_in(s, ranking@[k]) >= c,
                    c == count_in(s, d),
                    d < size,
                decreases ranking@.len() - pos,
            {
                assert(ranking@.contains(ranking@[pos as int]));
                pos = pos + 1;
            }
            let ghost old_ranking = ranking@;
            proof {
                if pos < old_ranking.len() {
                    assert(old_ranking.contains(old_ranking[pos as int]));
                }
            }
            ranking.insert(pos, d);
            proof {
                let r = ranking@;
                assert(r =~= old_ranking.insert(pos as int, d));
                assert forall|k: int| 0 <= k < old_ranking.len() implies old_ranking[k] < d by {
                    assert(old_ranking.contains(old_ranking[k]));
                }
                assert forall|x: usize| r.contains(x) <==> (x < d + 1 && count_in(s, x) > 0) by {
                    if r.contains(x) {
                        let k = choose|k: int| 0 <= k < r.len() && r[k] == x;
                        if k < pos {
                            assert(old_ranking[k] == x);
                            assert(old_ranking.contains(x));
                        } else if k > pos {
                            assert(old_ranking[k - 1] == x);
                            assert(old_ranking.contains(x));
                        }
                    }
                    if x < d + 1 && count_in(s, x) > 0 {
                        if x == d {
                            assert(r[pos as int] == d);
                        } else {
                            assert(old_ranking.contains(x));
                            let k = choose|k: int| 0 <= k < old_ranking.len() && old_ranking[k] == x;
                            if k < pos {
                                assert(r[k] == x);
                            } else {
                                assert(r[k + 1] == x);
                            }
                        }
                    }
                }
                assert forall|a: int, b: int| 0 <= a < b < r.len() implies r[a] != r[b] by {
                    if a < pos && b < pos {
                    } else if a < pos && b == pos {
                    } else if a < pos && b > pos {
                        assert(old_ranking[b - 1] == r[b]);
                    } else if a == pos {
                        assert(old_ranking[b - 1] == r[b]);
                    } else {
                        assert(old_ranking[a - 1] == r[a]);
                        assert(old_ranking[b - 1] == r[b]);
                    }
                }
                assert forall|a: int, b: int|
                    0 <= a < b < r.len() implies ranked_before(s, r[a], r[b]) by {
                    if pos < old_ranking.len() {
                        assert forall|k: int| pos <= k < old_ranking.len() implies count_in(
                            s,
                            old_ranking[k],
                        ) < c by {
                            if k > pos {
                                assert(ranked_before(s, old_ranking[pos as int], old_ranking[k]));
                            }
                        }
                    }
                    if a < pos && b < pos {
                    } else if a < pos && b == pos {
                    } else if a < pos && b > pos {
                        assert(old_ranking[b - 1] == r[b]);
                    } else if a == pos {
                        assert(old_ranking[b - 1] == r[b]);
                    } else {
                        assert(old_ranking[a - 1] == r[a]);
                        assert(old_ranking[b - 1] == r[b]);
                    }
                }
            }
        } else {
            proof {
                assert forall|x: usize| ranking@.contains(x) <==> (x < d + 1 && count_in(s, x) > 0) by {
                }
            }
        }
        d = d + 1;
    }
    proof {
        assert forall|x: usize| ranking@.contains(x) <==> s.contains(x) by {
            lemma_count_positive_iff_contains(s, x);
        }
    }
    ranking
}


/// How many of the points in `neighborhood` were ranked with dimension `dim`.
pub open spec fn agreeing_neighbors(ranked: Seq<usize>, dim: usize, neighborhood: Seq<u32>) -> nat
    decreases neighborhood.len(),
{
    if neighborhood.len() == 0 {
        0
    } else {
        agreeing_neighbors(ranked, dim, neighborhood.drop_last()) + if ranked[neighborhood.last() as int]
            == dim {
            1nat
        } else {
            0nat
        }
    }
}

/// Whether a neighbour was ranked with dimension `dim`.
pub open spec fn shares_dimension(ranked: Seq<usize>, dim: usize) -> spec_fn(u32) -> bool {
    |i: u32| ranked[i as int] == dim
}

/// The number of agreeing neighbours counts every position of the
/// neighbourhood whose point was ranked with the dimension, no index left out
/// and repeated indices counted each time.
pub proof fn agreeing_neighbors_counts_every_match(ranked: Seq<usize>, dim: usize, neighborhood: Seq<u32>)
    ensures
        agreeing_neighbors(ranked, dim, neighborhood) == neighborhood.filter(
            shares_dimension(ranked, dim),
        ).len(),
    decreases neighborhood.len(),
{
    if neighborhood.len() > 0 {
        let t = neighborhood.drop_last();
        agreeing_neighbors_counts_every_match(ranked, dim, t);
        assert(neighborhood =~= t.push(neighborhood.last()));
        t.lemma_filter_push(neighborhood.last(), shares_dimension(ranked, dim));
    } else {
        assert(neighborhood.filter(shares_dimension(ranked, dim)) =~= Seq::<u32>::empty()) by {
            reveal(Seq::filter);
        }
    }
}

/// The dimension chosen for a point together with the number of its
/// neighbours that had the same dimension chosen. The confidence of the
/// annotation is that number over the size of the neighbourhood.
pub fn annotation_support(
    point_index: usize,
    ranked_dimensions: &[usize],
    neighborhood_indices: &[u32],
) -> (res: (usize, usize))
    requires
        point_index < ranked_dimensions@.len(),
        forall|k: int|
            0 <= k < neighborhood_indices@.len() ==> (neighborhood_indices@[k] as int)
                < ranked_dimensions@.len(),
    ensures
        res.0 == ranked_dimensions@[point_index as int],
        res.1 == agreeing_neighbors(ranked_dimensions@, res.0, neighborhood_indices@),
        res.1 <= neighborhood_indices@.len(),
        res.1 == neighborhood_indices@.filter(shares_dimension(ranked_dimensions@, res.0)).len(),
{
    let point_dim = ranked_dimensions[point_index];
    let mut count: usize = 0;
    let mut k: usize = 0;
    assert(neighborhood_indices@.take(0) =~= Seq::<u32>::empty());
    while k < neighborhood_indices.len()
        invariant
            k <= neighborhood_indices@.len(),
            point_dim == ranked_dimensions@[point_index as int],
            forall|j: int|
                0 <= j < neighborhood_indices@.len() ==> (neighborhood_indices@[j] as int)
                    < ranked_dimensions@.len(),
            count == agreeing_neighbors(
                ranked_dimensions@,
                point_dim,
                neighborhood_indices@.take(k as int),
            ),
            count <= k,
        decreases neighborhood_indices@.len() - k,
    {
        let index = neighborhood_indices[k];
        assert(neighborhood_indices@.take(k + 1).drop_last() =~= neighborhood_indices@.take(
            k as int,
        ));
        if ranked_dimensions[index as usize] == point_dim {
            count = count + 1;
        }
        k = k + 1;
    }
    assert(neighborhood_indices@.take(k as int) =~= neighborhood_indices@);
    proof {
        agreeing_neighbors_counts_every_match(ranked_dimensions@, point_dim, neighborhood_indices@);
    }
    (point_dim, count)
}

} // verus!
