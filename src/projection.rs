use vstd::prelude::*;
use crate::vector::{sub_dot, sqnorm};

verus! {

/// A rational point: a numerator vector over a positive denominator.
pub type RatPoint = (Seq<int>, int);

/// A candidate projection together with the points that support it.
pub type Candidate = (RatPoint, Seq<Seq<int>>);

/// Row `r`, column `j` of the orthogonality system of `s`:
/// `(s[r] - s[0]) . s[j]`. Row zero of the system is all ones.
pub open spec fn entry(s: Seq<Seq<int>>, r: int, j: int) -> int {
    sub_dot(s[r], s[0], s[j])
}

/// Column `c` of a minor from which column `i` was removed.
pub open spec fn minor_col(i: int, c: int) -> int {
    if c < i {
        c
    } else {
        c + 1
    }
}

/// The system of `s` with row zero and column `i` removed.
pub open spec fn minor(s: Seq<Seq<int>>, i: int) -> Seq<Seq<int>> {
    Seq::new(
        (s.len() - 1) as nat,
        |r: int| Seq::new((s.len() - 1) as nat, |c: int| entry(s, r + 1, minor_col(i, c))),
    )
}

/// Determinant of a square matrix of order at most three (the largest
/// minor that arises in a space of dimension at most three).
pub open spec fn det(m: Seq<Seq<int>>) -> int {
    if m.len() == 0 {
        1
    } else if m.len() == 1 {
        m[0][0]
    } else if m.len() == 2 {
        m[0][0] * m[1][1] - m[0][1] * m[1][0]
    } else if m.len() == 3 {
        m[0][0] * m[1][1] * m[2][2] + m[0][1] * m[1][2] * m[2][0] + m[0][2] * m[1][0] * m[2][1]
            - m[0][2] * m[1][1] * m[2][0] - m[0][0] * m[1][2] * m[2][1] - m[0][1] * m[1][0]
            * m[2][2]
    } else {
        0
    }
}

/// Cofactor of entry `(0, i)` of the system of `s`; the first column of the
/// inverse is these cofactors divided by the determinant.
pub open spec fn cofactor(s: Seq<Seq<int>>, i: int) -> int {
    if i % 2 == 0 {
        det(minor(s, i))
    } else {
        -det(minor(s, i))
    }
}

/// Sum of the first `n` cofactors of row zero.
pub open spec fn cofactor_sum(s: Seq<Seq<int>>, n: int) -> int
    decreases n,
{
    if n <= 0 {
        0
    } else {
        cofactor_sum(s, n - 1) + cofactor(s, n - 1)
    }
}

/// Determinant of the system of `s` (expansion along its row of ones).
pub open spec fn system_det(s: Seq<Seq<int>>) -> int {
    cofactor_sum(s, s.len() as int)
}

/// Sign that makes the determinant positive.
pub open spec fn orientation(s: Seq<Seq<int>>) -> int {
    if system_det(s) < 0 {
        -1
    } else {
        1
    }
}

/// Unnormalised barycentric weight of point `i`: its cofactor, oriented so
/// that the weights sum to the positive `|system_det(s)|`.
pub open spec fn weight(s: Seq<Seq<int>>, i: int) -> int {
    orientation(s) * cofactor(s, i)
}

/// `sum_{i < n} weight(s, i)`.
pub open spec fn weight_sum(s: Seq<Seq<int>>, n: int) -> int
    decreases n,
{
    if n <= 0 {
        0
    } else {
        weight_sum(s, n - 1) + weight(s, n - 1)
    }
}

/// Coordinate `c` of `sum_{i < n} weight(s, i) * s[i]`.
pub open spec fn weighted_coord(s: Seq<Seq<int>>, n: int, c: int) -> int
    decreases n,
{
    if n <= 0 {
        0
    } else {
        weighted_coord(s, n - 1, c) + weight(s, n - 1) * s[n - 1][c]
    }
}

/// The system is invertible and every barycentric weight is positive.
pub open spec fn feasible(s: Seq<Seq<int>>) -> bool {
    &&& system_det(s) != 0
    &&& forall|i: int| 0 <= i < s.len() ==> weight(s, i) > 0
}

/// The point of the affine hull of `s` nearest the origin, as the weighted
/// mean of the points of `s`.
pub open spec fn affine_projection(s: Seq<Seq<int>>) -> RatPoint {
    (
        Seq::new(s[0].len(), |c: int| weighted_coord(s, s.len() as int, c)),
        weight_sum(s, s.len() as int),
    )
}

/// A point as a rational point with denominator one.
pub open spec fn vertex(p: Seq<int>) -> RatPoint {
    (p, 1)
}

/// `|a| < |b|`, by cross-multiplying the squared norms.
pub open spec fn closer(a: RatPoint, b: RatPoint) -> bool {
    sqnorm(a.0) * (b.1 * b.1) < sqnorm(b.0) * (a.1 * a.1)
}

/// The projection on the whole of `s`, when it is feasible.
pub open spec fn own_candidate(s: Seq<Seq<int>>) -> Option<Candidate> {
    if feasible(s) {
        Some((affine_projection(s), s))
    } else {
        None
    }
}

/// Keeps `best` unless `cand` is strictly closer to the origin.
pub open spec fn keep_closer(best: Option<Candidate>, cand: Candidate) -> Option<Candidate> {
    match best {
        Some(b) => if closer(cand.0, b.0) {
            Some(cand)
        } else {
            best
        },
        None => Some(cand),
    }
}

/// Best candidate after the own projection of `s` and the faces obtained by
/// removing each of the points `0 .. i` in turn.
pub open spec fn scan(s: Seq<Seq<int>>, i: int) -> Option<Candidate>
    decreases s.len(), 0int, i,
{
    if i <= 0 || i > s.len() || s.len() <= 1 {
        own_candidate(s)
    } else {
        keep_closer(scan(s, i - 1), search(s.remove(i - 1)))
    }
}

/// Exhaustive search over the non-empty subsets of `s`: the candidate of
/// least norm, the first one found among equals.
pub open spec fn search(s: Seq<Seq<int>>) -> Candidate
    decreases s.len(), 1int, 0int,
{
    if s.len() <= 1 {
        (vertex(s[0]), s)
    } else {
        match scan(s, s.len() as int) {
            Some(c) => c,
            None => (vertex(s[0]), s),
        }
    }
}

/// `f` is a non-empty selection of at most as many points as `s` holds, each
/// of them a point of `s`.
pub open spec fn is_face_of(f: Seq<Seq<int>>, s: Seq<Seq<int>>) -> bool {
    &&& 1 <= f.len() <= s.len()
    &&& forall|j: int| 0 <= j < f.len() ==> s.contains(#[trigger] f[j])
}

proof fn lemma_face_of_removed(f: Seq<Seq<int>>, s: Seq<Seq<int>>, i: int)
    requires
        0 <= i < s.len(),
        is_face_of(f, s.remove(i)),
    ensures
        is_face_of(f, s),
{
    assert forall|j: int| 0 <= j < f.len() implies s.contains(#[trigger] f[j]) by {
        let r = s.remove(i);
        assert(r.contains(f[j]));
        let t = choose|t: int| 0 <= t < r.len() && r[t] == f[j];
        if t < i {
            assert(s[t] == f[j]);
        } else {
            assert(s[t + 1] == f[j]);
        }
    }
}

proof fn lemma_scan_face(s: Seq<Seq<int>>, i: int)
    requires
        s.len() >= 1,
    ensures
        match scan(s, i) {
            Some(c) => is_face_of(c.1, s),
            None => true,
        },
    decreases s.len(), 0int, i,
{
    if i <= 0 || i > s.len() || s.len() <= 1 {
        assert forall|j: int| 0 <= j < s.len() implies s.contains(#[trigger] s[j]) by {}
    } else {
        lemma_scan_face(s, i - 1);
        lemma_search_face(s.remove(i - 1));
        lemma_face_of_removed(search(s.remove(i - 1)).1, s, i - 1);
    }
}

/// The face that the search settles on is a non-empty subset of the points it
/// was given, so reducing to it never adds a point.
pub proof fn lemma_search_face(s: Seq<Seq<int>>)
    requires
        s.len() >= 1,
    ensures
        is_face_of(search(s).1, s),
    decreases s.len(), 1int, 0int,
{
    if s.len() <= 1 {
        assert(s.contains(s[0]));
    } else {
        lemma_scan_face(s, s.len() as int);
    }
}

} // verus!
