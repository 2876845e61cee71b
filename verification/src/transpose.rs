//! Transposition of a list of n-dimensional points into n lists of
//! coordinates, as used before computing a covariance matrix.
use vstd::prelude::*;

verus! {

/// The rows of a list of vectors.
pub open spec fn rows<T>(data: Seq<Vec<T>>) -> Seq<Seq<T>> {
    data.map_values(|v: Vec<T>| v@)
}

/// All rows have the length of the first one.
pub open spec fn is_rectangular<T>(d: Seq<Seq<T>>) -> bool {
    d.len() > 0 && forall|i: int| 0 <= i < d.len() ==> #[trigger] d[i].len() == d[0].len()
}

/// The transposition of a non-empty list of rows of equal length: row `j`
/// of the result holds coordinate `j` of every point, in order. There is none
/// for an empty list or for rows of different lengths.
pub open spec fn transposed<T>(d: Seq<Seq<T>>) -> Option<Seq<Seq<T>>> {
    if is_rectangular(d) {
        Some(Seq::new(d[0].len(), |j: int| Seq::new(d.len(), |i: int| d[i][j])))
    } else {
        None
    }
}

/// Transpose a list of nd points into n vectors with ||points|| entries
pub fn transpose<T: Copy>(data: &[Vec<T>]) -> (res: Option<Vec<Vec<T>>>)
    ensures
        match res {
            Some(t) => transposed(rows(data@)) == Some(rows(t@)),
            None => transposed(rows(data@)) is None,
        },
{
    let ghost d = rows(data@);
    // If there are no points, or they differ in dimensionality, there is nothing to transpose
    let n = match common_dimensionality(data) {
        Some(n) => n,
        None => return None,
    };
    assert(is_rectangular(d));
    let mut columns: Vec<Vec<T>> = Vec::new();
    let mut j: usize = 0;
    while j < n
        invariant
            d == rows(data@),
            is_rectangular(d),
            n == d[0].len(),
            j <= n,
            columns@.len() == j,
            forall|c: int|
                0 <= c < j ==> #[trigger] columns@[c]@ == Seq::new(
                    d.len(),
                    |k: int| d[k][c],
                ),
        decreases n - j,
    {
        let mut column: Vec<T> = Vec::new();
        let mut k: usize = 0;
        while k < data.len()
            invariant
                d == rows(data@),
                is_rectangular(d),
                n == d[0].len(),
                j < n,
                k <= data@.len(),
                column@ == Seq::new(k as nat, |r: int| d[r][j as int]),
            decreases data@.len() - k,
        {
            assert(d[k as int].len() == n);
            assert(d[k as int] == data@[k as int]@);
            column.push(data[k][j]);
            assert(column@ =~= Seq::new((k + 1) as nat, |r: int| d[r][j as int]));
            k = k + 1;
        }
        columns.push(column);
        j = j + 1;
    }
    assert(rows(columns@) =~= Seq::new(d[0].len(), |c: int| Seq::new(d.len(), |k: int| d[k][c])));
    Some(columns)
}

/// The transposition of points of equal dimensionality has one row per
/// coordinate and one entry per point, with coordinate `j` of point `i` at
/// row `j`, entry `i`; there is none for no points or unequal points.
pub proof fn transposed_swaps_coordinates<T>(d: Seq<Seq<T>>)
    ensures
        is_rectangular(d) ==> (transposed(d) matches Some(t) && t.len() == d[0].len() && (forall|
            j: int,
        | 0 <= j < t.len() ==> #[trigger] t[j].len() == d.len()) && (forall|i: int, j: int|
            0 <= i < d.len() && 0 <= j < d[0].len() ==> #[trigger] t[j][i] == d[i][j])),
        !is_rectangular(d) ==> transposed(d) is None,
{
}

/// Transposing twice gives back a list of points of equal, positive,
/// dimensionality.
pub proof fn transpose_twice_is_identity<T>(d: Seq<Seq<T>>)
    requires
        is_rectangular(d),
        d[0].len() > 0,
    ensures
        transposed(d) matches Some(t) && transposed(t) == Some(d),
{
    let t = transposed(d)->Some_0;
    assert(is_rectangular(t));
    let tt = transposed(t)->Some_0;
    assert(tt.len() == d.len());
    assert forall|i: int| 0 <= i < d.len() implies #[trigger] tt[i] =~= d[i] by {
        assert(d[i].len() == d[0].len());
    }
    assert(tt =~= d);
}


/// The dimensionality shared by all points, or none when there are no points
/// or their dimensionalities differ.
pub fn common_dimensionality<T>(points: &[Vec<T>]) -> (res: Option<usize>)
    ensures
        match res {
            Some(n) => is_rectangular(rows(points@)) && n == points@[0]@.len(),
            None => !is_rectangular(rows(points@)),
        },
{
    let ghost d = rows(points@);
    if points.len() == 0 {
        return None;
    }
    let n = points[0].len();
    assert(d[0] == points@[0]@);
    let mut i: usize = 0;
    while i < points.len()
        invariant
            d == rows(points@),
            points@.len() > 0,
            n == d[0].len(),
            i <= points@.len(),
            forall|k: int| 0 <= k < i ==> #[trigger] d[k].len() == n,
        decreases points@.len() - i,
    {
        assert(d[i as int] == points@[i as int]@);
        if points[i].len() != n {
            assert(d[i as int].len() != d[0].len());
            return None;
        }
        i = i + 1;
    }
    Some(n)
}

} // verus!
