use vstd::prelude::*;
use crate::projection::{
    search, scan, feasible, vertex, weight, keep_closer, closer, own_candidate,
    weight_sum, weighted_coord, cofactor, cofactor_sum, system_det, orientation, minor, det,
    is_face_of, lemma_search_face, Candidate,
};
use crate::brute_force_simplex::translated;
use crate::vector::sqnorm;

verus! {

/// The rational point of `c` is a convex combination of the points of its
/// face: each point carries a positive weight, the denominator is the sum of
/// the weights, and the numerator is the weighted sum of the points.
pub open spec fn convex_candidate(c: Candidate) -> bool {
    let (p, f) = c;
    &&& f.len() >= 1
    &&& forall|i: int| 0 <= i < f.len() ==> #[trigger] weight(f, i) > 0
    &&& p.1 == weight_sum(f, f.len() as int)
    &&& p.0.len() == f[0].len()
    &&& forall|c: int| 0 <= c < p.0.len() ==> #[trigger] p.0[c] == weighted_coord(f, f.len() as int, c)
}

proof fn lemma_positive_sum(f: Seq<Seq<int>>, n: int)
    requires
        1 <= n <= f.len(),
        forall|i: int| 0 <= i < f.len() ==> #[trigger] weight(f, i) > 0,
    ensures
        weight_sum(f, n) > 0,
    decreases n,
{
    if n > 1 {
        lemma_positive_sum(f, n - 1);
    } else {
        assert(weight_sum(f, 0) == 0);
    }
    assert(weight(f, n - 1) > 0);
    assert(weight_sum(f, n) == weight_sum(f, n - 1) + weight(f, n - 1));
}

proof fn lemma_vertex_convex(s: Seq<Seq<int>>)
    requires
        s.len() == 1,
    ensures
        convex_candidate((vertex(s[0]), s)),
{
    assert(minor(s, 0).len() == 0);
    assert(det(minor(s, 0)) == 1);
    assert(cofactor(s, 0) == 1);
    assert(cofactor_sum(s, 1) == cofactor_sum(s, 0) + cofactor(s, 0));
    assert(system_det(s) == 1);
    assert(weight(s, 0) == 1);
    assert(weight_sum(s, 1) == weight_sum(s, 0) + weight(s, 0));
    assert forall|c: int| 0 <= c < s[0].len() implies #[trigger] s[0][c] == weighted_coord(s, 1, c) by {
        assert(weighted_coord(s, 1, c) == weighted_coord(s, 0, c) + weight(s, 0) * s[0][c]);
    }
}

proof fn lemma_scan_convex(s: Seq<Seq<int>>, i: int)
    requires
        s.len() >= 2,
    ensures
        match scan(s, i) {
            Some(c) => convex_candidate(c),
            None => true,
        },
    decreases s.len(), 0int, i,
{
    if i <= 0 || i > s.len() {
        if feasible(s) {
            lemma_positive_sum(s, s.len() as int);
        }
    } else {
        lemma_scan_convex(s, i - 1);
        lemma_search_convex(s.remove(i - 1));
    }
}

proof fn lemma_search_convex(s: Seq<Seq<int>>)
    requires
        s.len() >= 1,
    ensures
        convex_candidate(search(s)),
    decreases s.len(), 1int, 0int,
{
    if s.len() <= 1 {
        lemma_vertex_convex(s);
    } else {
        lemma_scan_convex(s, s.len() as int);
    }
}

/// For a non-empty set of points of one dimension, the projection that the
/// search returns is a convex combination of a subset of those points: the
/// weights of the face it comes with are positive, their sum is the
/// denominator (so the normalised weights sum to one), and the numerator is
/// their weighted sum.
pub proof fn theorem_projection_is_convex_combination(s: Seq<Seq<int>>, dim: int)
    requires
        s.len() >= 1,
        forall|k: int| 0 <= k < s.len() ==> (#[trigger] s[k]).len() == dim,
    ensures
        is_face_of(search(s).1, s),
        convex_candidate(search(s)),
        search(s).0.1 > 0,
        search(s).0.0.len() == dim,
{
    lemma_search_face(s);
    lemma_search_convex(s);
    let f = search(s).1;
    lemma_positive_sum(f, f.len() as int);
    assert(s.contains(f[0]));
}

/// The projection of a single point is that point, exactly, and the face
/// kept is the point itself.
pub proof fn theorem_single_point(p: Seq<int>)
    ensures
        search(seq![p]) == (vertex(p), seq![p]),
{
}

/// Moving a single point by `v` moves its projection by `v`.
pub proof fn theorem_translate_single_point(p: Seq<int>, v: Seq<int>)
    requires
        p.len() == v.len(),
    ensures
        search(translated(seq![p], v)).0 == (
            Seq::new(p.len(), |c: int| p[c] + v[c]),
            search(seq![p]).0.1,
        ),
{
    let moved = Seq::new(p.len(), |c: int| p[c] + v[c]);
    assert(translated(seq![p], v) =~= seq![moved]);
}

/// `|a| <= |b|` for rational points, by cross-multiplying the squared norms.
pub open spec fn no_farther(a: (Seq<int>, int), b: (Seq<int>, int)) -> bool {
    sqnorm(a.0) * (b.1 * b.1) <= sqnorm(b.0) * (a.1 * a.1)
}

proof fn lemma_no_farther_trans(a: (Seq<int>, int), b: (Seq<int>, int), c: (Seq<int>, int))
    requires
        a.1 > 0,
        b.1 > 0,
        c.1 > 0,
        no_farther(a, b),
        no_farther(b, c),
    ensures
        no_farther(a, c),
{
    let (x, y, z) = (sqnorm(a.0), sqnorm(b.0), sqnorm(c.0));
    let (da, db, dc) = (a.1 * a.1, b.1 * b.1, c.1 * c.1);
    assert(da > 0 && db > 0 && dc > 0) by (nonlinear_arith)
        requires a.1 > 0, b.1 > 0, c.1 > 0, da == a.1 * a.1, db == b.1 * b.1, dc == c.1 * c.1;
    assert(x * dc <= z * da) by (nonlinear_arith)
        requires x * db <= y * da, y * dc <= z * db, da > 0, db > 0, dc > 0;
}

proof fn lemma_no_farther_refl(a: (Seq<int>, int))
    ensures
        no_farther(a, a),
{
}

/// Whether `c` has a positive denominator and is no farther than `target`.
spec fn beats(c: Option<Candidate>, target: (Seq<int>, int)) -> bool {
    match c {
        Some(x) => x.0.1 > 0 && no_farther(x.0, target),
        None => false,
    }
}

proof fn lemma_keep_closer(best: Option<Candidate>, cand: Candidate)
    requires
        cand.0.1 > 0,
        best matches Some(b) ==> b.0.1 > 0,
    ensures
        beats(keep_closer(best, cand), cand.0),
        best matches Some(b) ==> beats(keep_closer(best, cand), b.0),
{
    lemma_no_farther_refl(cand.0);
    if let Some(b) = best {
        lemma_no_farther_refl(b.0);
        if !closer(cand.0, b.0) {
            assert(no_farther(b.0, cand.0));
        }
    }
}

proof fn lemma_scan_beats(s: Seq<Seq<int>>, i: int, j: int, p: Seq<int>)
    requires
        s.len() >= 2,
        0 <= j < i <= s.len(),
        forall|k: int| 0 <= k < s.len() ==> convex_candidate(search(#[trigger] s.remove(k))),
        beats(Some(search(s.remove(j))), vertex(p)),
    ensures
        beats(scan(s, i), vertex(p)),
    decreases i,
{
    let prev = scan(s, i - 1);
    let cand = search(s.remove(i - 1));
    lemma_scan_convex(s, i - 1);
    if let Some(b) = prev {
        let f = b.1;
        lemma_positive_sum(f, f.len() as int);
    }
    lemma_positive_sum(cand.1, cand.1.len() as int);
    lemma_keep_closer(prev, cand);
    if j < i - 1 {
        lemma_scan_beats(s, i - 1, j, p);
        let b = prev.unwrap();
        lemma_no_farther_trans(keep_closer(prev, cand).unwrap().0, b.0, vertex(p));
    } else {
        lemma_no_farther_trans(keep_closer(prev, cand).unwrap().0, cand.0, vertex(p));
    }
}

proof fn lemma_search_beats(s: Seq<Seq<int>>, j: int)
    requires
        0 <= j < s.len(),
    ensures
        beats(Some(search(s)), vertex(s[j])),
    decreases s.len(),
{
    if s.len() <= 1 {
        lemma_no_farther_refl(vertex(s[0]));
    } else {
        let k: int = if j == 0 { 1 } else { 0 };
        let r = s.remove(k);
        let jr: int = if j < k { j } else { j - 1 };
        assert(r[jr] == s[j]);
        lemma_search_beats(r, jr);
        assert forall|t: int| 0 <= t < s.len() implies convex_candidate(search(#[trigger] s.remove(t))) by {
            lemma_search_convex(s.remove(t));
        }
        lemma_scan_beats(s, s.len() as int, k, s[j]);
    }
}

/// The projection is never farther from the origin than any of the points
/// it was computed from.
pub proof fn theorem_projection_no_farther_than_points(s: Seq<Seq<int>>, j: int)
    requires
        0 <= j < s.len(),
    ensures
        no_farther(search(s).0, vertex(s[j])),
{
    lemma_search_beats(s, j);
}

} // verus!
