use vstd::prelude::*;
use crate::fraction::frac_lt;
use crate::projection::{
    entry, minor, det, cofactor, cofactor_sum, system_det, orientation, weight,
    weight_sum, weighted_coord, feasible, affine_projection, vertex, closer, search, scan,
    own_candidate, RatPoint, Candidate,
};
use crate::vector::{coords, admissible, valid_dim, sub_dot_exec, sqnorm_exec, sqnorm, dot_upto, MAX_DIM};

verus! {

/// Largest magnitude of a cofactor of the orthogonality system.
pub const COFACTOR_LIMIT: i128 = 2251799813685248;

/// Largest magnitude of a numerator coordinate of a projection.
pub const NUM_LIMIT: i128 = 1152921504606846976;

/// Largest denominator of a projection.
pub const DEN_LIMIT: i128 = 9007199254740992;

/// An exact rational point: `num / den` coordinate by coordinate.
pub struct RationalPoint {
    pub num: Vec<i128>,
    pub den: i128,
}

impl View for RationalPoint {
    type V = RatPoint;

    open spec fn view(&self) -> RatPoint {
        (self.num@.map_values(|x: i128| x as int), self.den as int)
    }
}

/// A rational point whose parts fit the limits that make comparison exact.
pub open spec fn rat_bounded(p: RatPoint, dim: int) -> bool {
    &&& p.0.len() == dim
    &&& forall|c: int| 0 <= c < dim ==> -NUM_LIMIT <= #[trigger] p.0[c] <= NUM_LIMIT
    &&& 0 < p.1 <= DEN_LIMIT
}

/// Every point of `pts` is admissible in dimension `dim`.
pub open spec fn valid_points(pts: Seq<Vec<i64>>, dim: int) -> bool {
    forall|k: int| 0 <= k < pts.len() ==> admissible(#[trigger] coords(pts[k]), dim)
}

/// A non-empty list of at most `MAX_DIM + 1` indices into a list of `n` points.
pub open spec fn valid_indices(idx: Seq<usize>, n: int) -> bool {
    &&& 1 <= idx.len() <= MAX_DIM + 1
    &&& forall|t: int| 0 <= t < idx.len() ==> #[trigger] idx[t] < n
}

/// The points of `pts` picked by `idx`, in order.
pub open spec fn select(pts: Seq<Vec<i64>>, idx: Seq<usize>) -> Seq<Seq<int>> {
    Seq::new(idx.len(), |t: int| coords(pts[idx[t] as int]))
}

fn entry_exec(pts: &Vec<Vec<i64>>, idx: &Vec<usize>, r: usize, j: usize) -> (e: i128)
    requires
        valid_dim(pts@[idx@[0] as int].len() as int),
        valid_points(pts@, pts@[idx@[0] as int].len() as int),
        valid_indices(idx@, pts.len() as int),
        r < idx.len(),
        j < idx.len(),
    ensures
        e == entry(select(pts@, idx@), r as int, j as int),
        -60000 <= e <= 60000,
{
    let dim = pts[idx[0]].len();
    proof {
        assert(admissible(coords(pts@[idx@[r as int] as int]), dim as int));
        assert(admissible(coords(pts@[idx@[0] as int]), dim as int));
        assert(admissible(coords(pts@[idx@[j as int] as int]), dim as int));
    }
    sub_dot_exec(&pts[idx[r]], &pts[idx[0]], &pts[idx[j]])
}

fn mul2(x: i128, y: i128) -> (r: i128)
    requires
        -65536 <= x <= 65536,
        -65536 <= y <= 65536,
    ensures
        r == x * y,
        -4294967296 <= r <= 4294967296,
{
    proof {
        assert(-4294967296 <= x * y <= 4294967296) by (nonlinear_arith)
            requires -65536 <= x <= 65536, -65536 <= y <= 65536;
    }
    x * y
}

fn mul3(x: i128, y: i128, z: i128) -> (r: i128)
    requires
        -65536 <= x <= 65536,
        -65536 <= y <= 65536,
        -65536 <= z <= 65536,
    ensures
        r == x * y * z,
        -281474976710656 <= r <= 281474976710656,
{
    let xy = mul2(x, y);
    proof {
        assert(-281474976710656 <= xy * z <= 281474976710656) by (nonlinear_arith)
            requires -4294967296 <= xy <= 4294967296, -65536 <= z <= 65536;
    }
    xy * z
}

/// Determinant of the system of the selected points without row zero and
/// column `i`.
fn minor_det(pts: &Vec<Vec<i64>>, idx: &Vec<usize>, i: usize) -> (d: i128)
    requires
        valid_dim(pts@[idx@[0] as int].len() as int),
        valid_points(pts@, pts@[idx@[0] as int].len() as int),
        valid_indices(idx@, pts.len() as int),
        i < idx.len(),
    ensures
        d == det(minor(select(pts@, idx@), i as int)),
        -COFACTOR_LIMIT <= d <= COFACTOR_LIMIT,
{
    let ghost s = select(pts@, idx@);
    let ghost m = minor(s, i as int);
    let n = idx.len() - 1;
    let c0: usize = if 0 < i { 0 } else { 1 };
    if n == 0 {
        return 1;
    }
    let a00 = entry_exec(pts, idx, 1, c0);
    assert(m[0][0] == a00);
    if n == 1 {
        return a00;
    }
    let c1: usize = if 1 < i { 1 } else { 2 };
    let a01 = entry_exec(pts, idx, 1, c1);
    let a10 = entry_exec(pts, idx, 2, c0);
    let a11 = entry_exec(pts, idx, 2, c1);
    assert(m[0][1] == a01 && m[1][0] == a10 && m[1][1] == a11);
    if n == 2 {
        let p = mul2(a00, a11);
        let q = mul2(a01, a10);
        return p - q;
    }
    let c2: usize = if 2 < i { 2 } else { 3 };
    let a02 = entry_exec(pts, idx, 1, c2);
    let a12 = entry_exec(pts, idx, 2, c2);
    let a20 = entry_exec(pts, idx, 3, c0);
    let a21 = entry_exec(pts, idx, 3, c1);
    let a22 = entry_exec(pts, idx, 3, c2);
    assert(m[0][2] == a02 && m[1][2] == a12 && m[2][0] == a20 && m[2][1] == a21 && m[2][2]
        == a22);
    let t0 = mul3(a00, a11, a22);
    let t1 = mul3(a01, a12, a20);
    let t2 = mul3(a02, a10, a21);
    let t3 = mul3(a02, a11, a20);
    let t4 = mul3(a00, a12, a21);
    let t5 = mul3(a01, a10, a22);
    t0 + t1 + t2 - t3 - t4 - t5
}

proof fn lemma_weight_sum(s: Seq<Seq<int>>, n: int)
    ensures
        weight_sum(s, n) == orientation(s) * cofactor_sum(s, n),
    decreases n,
{
    if n > 0 {
        lemma_weight_sum(s, n - 1);
        assert(orientation(s) * cofactor_sum(s, n) == orientation(s) * cofactor_sum(s, n - 1)
            + orientation(s) * cofactor(s, n - 1)) by (nonlinear_arith)
            requires cofactor_sum(s, n) == cofactor_sum(s, n - 1) + cofactor(s, n - 1);
    }
}

proof fn lemma_weighted_term(w: int, x: int)
    requires
        -COFACTOR_LIMIT <= w <= COFACTOR_LIMIT,
        -100 <= x <= 100,
    ensures
        -288230376151711744 <= w * x <= 288230376151711744,
{
    assert(-288230376151711744 <= w * x <= 288230376151711744) by (nonlinear_arith)
        requires -2251799813685248 <= w <= 2251799813685248, -100 <= x <= 100;
}

/// Projection of the origin on the affine hull of the selected points, when
/// the orthogonality system is invertible and all weights are positive.
fn project_on_subsimplex(pts: &Vec<Vec<i64>>, idx: &Vec<usize>) -> (r: Option<RationalPoint>)
    requires
        valid_dim(pts@[idx@[0] as int].len() as int),
        valid_points(pts@, pts@[idx@[0] as int].len() as int),
        valid_indices(idx@, pts.len() as int),
    ensures
        match r {
            Some(p) => feasible(select(pts@, idx@)) && p@ == affine_projection(
                select(pts@, idx@),
            ) && rat_bounded(p@, pts@[idx@[0] as int].len() as int),
            None => !feasible(select(pts@, idx@)),
        },
{
    let ghost s = select(pts@, idx@);
    let k = idx.len();
    let dim = pts[idx[0]].len();
    let mut cof: Vec<i128> = Vec::new();
    let mut total: i128 = 0;
    let mut i: usize = 0;
    while i < k
        invariant
            k == idx.len(),
            valid_dim(dim as int),
            dim == pts@[idx@[0] as int].len(),
            valid_points(pts@, dim as int),
            valid_indices(idx@, pts.len() as int),
            s == select(pts@, idx@),
            0 <= i <= k,
            cof.len() == i,
            forall|t: int| 0 <= t < i ==> #[trigger] cof@[t] == cofactor(s, t),
            forall|t: int| 0 <= t < i ==> -COFACTOR_LIMIT <= #[trigger] cof@[t] <= COFACTOR_LIMIT,
            total == cofactor_sum(s, i as int),
            -2251799813685248 * i <= total <= 2251799813685248 * i,
        decreases k - i,
    {
        let d = minor_det(pts, idx, i);
        let c = if i % 2 == 0 { d } else { -d };
        cof.push(c);
        total = total + c;
        i = i + 1;
    }
    if total == 0 {
        return None;
    }
    let sign: i128 = if total < 0 { -1 } else { 1 };
    assert(system_det(s) == total);
    assert(orientation(s) == sign);
    i = 0;
    while i < k
        invariant
            k == idx.len(),
            cof.len() == k,
            forall|t: int| 0 <= t < k ==> #[trigger] cof@[t] == cofactor(s, t),
            forall|t: int| 0 <= t < k ==> -COFACTOR_LIMIT <= #[trigger] cof@[t] <= COFACTOR_LIMIT,
            s == select(pts@, idx@),
            orientation(s) == sign,
            sign == 1 || sign == -1,
            0 <= i <= k,
            forall|t: int| 0 <= t < i ==> #[trigger] weight(s, t) > 0,
        decreases k - i,
    {
        assert(weight(s, i as int) == sign as int * cof@[i as int] as int);
        if sign * cof[i] <= 0 {
            return None;
        }
        i = i + 1;
    }
    let mut num: Vec<i128> = Vec::new();
    let mut c: usize = 0;
    while c < dim
        invariant
            k == idx.len(),
            valid_dim(dim as int),
            dim == pts@[idx@[0] as int].len(),
            valid_points(pts@, dim as int),
            valid_indices(idx@, pts.len() as int),
            s == select(pts@, idx@),
            cof.len() == k,
            forall|t: int| 0 <= t < k ==> #[trigger] cof@[t] == cofactor(s, t),
            forall|t: int| 0 <= t < k ==> -COFACTOR_LIMIT <= #[trigger] cof@[t] <= COFACTOR_LIMIT,
            orientation(s) == sign,
            sign == 1 || sign == -1,
            0 <= c <= dim,
            num.len() == c,
            forall|cc: int| 0 <= cc < c ==> #[trigger] num@[cc] == weighted_coord(s, k as int, cc),
            forall|cc: int| 0 <= cc < c ==> -NUM_LIMIT <= #[trigger] num@[cc] <= NUM_LIMIT,
        decreases dim - c,
    {
        let mut acc: i128 = 0;
        let mut j: usize = 0;
        while j < k
            invariant
                k == idx.len(),
                dim == pts@[idx@[0] as int].len(),
                valid_points(pts@, dim as int),
                valid_indices(idx@, pts.len() as int),
                s == select(pts@, idx@),
                cof.len() == k,
                forall|t: int| 0 <= t < k ==> #[trigger] cof@[t] == cofactor(s, t),
                forall|t: int| 0 <= t < k ==> -COFACTOR_LIMIT <= #[trigger] cof@[t] <= COFACTOR_LIMIT,
                orientation(s) == sign,
                sign == 1 || sign == -1,
                c < dim,
                0 <= j <= k,
                acc == weighted_coord(s, j as int, c as int),
                -288230376151711744 * j <= acc <= 288230376151711744 * j,
            decreases k - j,
        {
            let w = sign * cof[j];
            let ghost p = pts@[idx@[j as int] as int];
            proof {
                assert(admissible(coords(p), dim as int));
                assert(coords(p)[c as int] == p@[c as int] as int);
                assert(s[j as int] == coords(p));
                lemma_weighted_term(w as int, p@[c as int] as int);
            }
            let x = pts[idx[j]][c] as i128;
            acc = acc + w * x;
            j = j + 1;
        }
        num.push(acc);
        c = c + 1;
    }
    proof {
        lemma_weight_sum(s, k as int);
        assert(num@.map_values(|x: i128| x as int) =~= affine_projection(s).0);
    }
    Some(RationalPoint { num, den: sign * total })
}

/// A point as a rational point with denominator one.
fn vertex_exec(p: &Vec<i64>) -> (r: RationalPoint)
    requires
        valid_dim(p.len() as int),
        admissible(coords(*p), p.len() as int),
    ensures
        r@ == vertex(coords(*p)),
        rat_bounded(r@, p.len() as int),
{
    let mut num: Vec<i128> = Vec::new();
    let mut j: usize = 0;
    while j < p.len()
        invariant
            admissible(coords(*p), p.len() as int),
            0 <= j <= p.len(),
            num.len() == j,
            forall|t: int| 0 <= t < j ==> #[trigger] num@[t] == p@[t],
        decreases p.len() - j,
    {
        num.push(p[j] as i128);
        j = j + 1;
    }
    proof {
        let v = num@.map_values(|x: i128| x as int);
        assert(v =~= coords(*p));
        assert forall|c: int| 0 <= c < p.len() implies -NUM_LIMIT <= #[trigger] v[c]
            <= NUM_LIMIT by {
            assert(coords(*p)[c] == p@[c] as int);
        }
    }
    RationalPoint { num, den: 1 }
}

proof fn lemma_square_of_num(x: int)
    requires
        -NUM_LIMIT <= x <= NUM_LIMIT,
    ensures
        0 <= x * x <= 1329227995784915872903807060280344576,
{
    assert(0 <= x * x <= 1329227995784915872903807060280344576) by (nonlinear_arith)
        requires -1152921504606846976 <= x <= 1152921504606846976;
}

/// Squared norm of the numerator of a bounded rational point.
fn num_sqnorm(p: &RationalPoint) -> (r: u128)
    requires
        valid_dim(p.num.len() as int),
        rat_bounded(p@, p.num.len() as int),
    ensures
        r == sqnorm(p@.0),
{
    let ghost v = p@.0;
    let n = p.num.len();
    let mut acc: u128 = 0;
    let mut j: usize = 0;
    while j < n
        invariant
            n == p.num.len(),
            v == p@.0,
            valid_dim(n as int),
            rat_bounded(p@, n as int),
            0 <= j <= n,
            acc == dot_upto(v, v, j as int),
            acc <= 1329227995784915872903807060280344576 * j,
        decreases n - j,
    {
        proof {
            assert(v[j as int] == p.num@[j as int] as int);
            lemma_square_of_num(v[j as int]);
        }
        let x = p.num[j];
        let sq = (x * x) as u128;
        acc = acc + sq;
        j = j + 1;
    }
    acc
}

proof fn lemma_den_square(d: int)
    requires
        0 < d <= DEN_LIMIT,
    ensures
        0 < d * d <= 81129638414606681695789005144064,
{
    assert(0 < d * d <= 81129638414606681695789005144064) by (nonlinear_arith)
        requires 0 < d <= 9007199254740992;
}

/// Whether `a` is strictly nearer the origin than `b`.
fn is_closer(a: &RationalPoint, b: &RationalPoint) -> (r: bool)
    requires
        valid_dim(a.num.len() as int),
        valid_dim(b.num.len() as int),
        rat_bounded(a@, a.num.len() as int),
        rat_bounded(b@, b.num.len() as int),
    ensures
        r == closer(a@, b@),
{
    let na = num_sqnorm(a);
    let nb = num_sqnorm(b);
    proof {
        lemma_den_square(a.den as int);
        lemma_den_square(b.den as int);
    }
    let da = (a.den * a.den) as u128;
    let db = (b.den * b.den) as u128;
    frac_lt(na, da, nb, db)
}

/// `idx` without its entry at position `i`.
fn remove_index(idx: &Vec<usize>, i: usize) -> (r: Vec<usize>)
    requires
        i < idx.len(),
    ensures
        r@ == idx@.remove(i as int),
{
    let mut r: Vec<usize> = Vec::new();
    let mut j: usize = 0;
    while j < idx.len()
        invariant
            i < idx.len(),
            0 <= j <= idx.len(),
            r@ == (if j <= i {
                idx@.subrange(0, j as int)
            } else {
                idx@.subrange(0, i as int) + idx@.subrange(i + 1, j as int)
            }),
        decreases idx.len() - j,
    {
        if j != i {
            r.push(idx[j]);
        }
        proof {
            if j < i {
                assert(idx@.subrange(0, j + 1) =~= idx@.subrange(0, j as int).push(idx@[j as int]));
            } else if j == i {
                assert(idx@.subrange(i + 1, j + 1) =~= Seq::<usize>::empty());
                assert(r@ =~= idx@.subrange(0, i as int) + idx@.subrange(i + 1, j + 1));
            } else {
                assert(idx@.subrange(0, i as int) + idx@.subrange(i + 1, j + 1) =~= (idx@.subrange(
                    0,
                    i as int,
                ) + idx@.subrange(i + 1, j as int)).push(idx@[j as int]));
            }
        }
        j = j + 1;
    }
    assert(r@ =~= idx@.remove(i as int));
    r
}

proof fn lemma_select_remove(pts: Seq<Vec<i64>>, idx: Seq<usize>, i: int)
    requires
        0 <= i < idx.len(),
    ensures
        select(pts, idx.remove(i)) == select(pts, idx).remove(i),
{
    assert(select(pts, idx.remove(i)) =~= select(pts, idx).remove(i));
}

/// What the search state stands for: the best candidate so far, if any.
pub open spec fn best_view(
    pts: Seq<Vec<i64>>,
    best: Option<RationalPoint>,
    best_idx: Seq<usize>,
) -> Option<Candidate> {
    match best {
        Some(p) => Some((p@, select(pts, best_idx))),
        None => None,
    }
}

/// Recursive search over the faces of the selected points: the projection of
/// least norm and the indices of the face it lies on.
fn project_on_subsimplices(pts: &Vec<Vec<i64>>, idx: Vec<usize>) -> (res: (
    RationalPoint,
    Vec<usize>,
))
    requires
        valid_dim(pts@[idx@[0] as int].len() as int),
        valid_points(pts@, pts@[idx@[0] as int].len() as int),
        valid_indices(idx@, pts.len() as int),
    ensures
        (res.0@, select(pts@, res.1@)) == search(select(pts@, idx@)),
        valid_indices(res.1@, pts.len() as int),
        rat_bounded(res.0@, pts@[idx@[0] as int].len() as int),
    decreases idx.len(),
{
    let ghost s = select(pts@, idx@);
    let dim = pts[idx[0]].len();
    if idx.len() == 1 {
        let v = vertex_exec(&pts[idx[0]]);
        assert(s =~= select(pts@, idx@));
        return (v, idx);
    }
    let k = idx.len();
    let mut best = project_on_subsimplex(pts, &idx);
    let mut best_idx = idx.clone();
    assert(best_idx@ =~= idx@);
    proof {
        assert(scan(s, 0) == own_candidate(s));
    }
    let mut i: usize = 0;
    while i < k
        invariant
            k == idx.len(),
            2 <= k,
            dim == pts@[idx@[0] as int].len(),
            valid_dim(dim as int),
            valid_points(pts@, dim as int),
            valid_indices(idx@, pts.len() as int),
            s == select(pts@, idx@),
            0 <= i <= k,
            best_view(pts@, best, best_idx@) == scan(s, i as int),
            i > 0 ==> best.is_some(),
            best.is_some() ==> valid_indices(best_idx@, pts.len() as int),
            best.is_some() ==> rat_bounded(best.unwrap()@, dim as int),
        decreases k - i,
    {
        let sub = remove_index(&idx, i);
        proof {
            lemma_select_remove(pts@, idx@, i as int);
            assert(sub@[0] == idx@[if i == 0 { 1 } else { 0 }]);
        }
        let (proj, sub_pts) = project_on_subsimplices(pts, sub);
        let replace = match &best {
            Some(p) => is_closer(&proj, p),
            None => true,
        };
        if replace {
            best = Some(proj);
            best_idx = sub_pts;
        }
        i = i + 1;
    }
    match best {
        Some(p) => (p, best_idx),
        None => (vertex_exec(&pts[idx[0]]), idx),
    }
}

/// Exact equality of two points, coordinate by coordinate.
fn same_point(a: &Vec<i64>, b: &Vec<i64>) -> (r: bool)
    ensures
        r == (coords(*a) == coords(*b)),
{
    if a.len() != b.len() {
        proof {
            assert(coords(*a).len() != coords(*b).len());
        }
        return false;
    }
    let mut j: usize = 0;
    while j < a.len()
        invariant
            a.len() == b.len(),
            0 <= j <= a.len(),
            forall|t: int| 0 <= t < j ==> a@[t] == b@[t],
        decreases a.len() - j,
    {
        if a[j] != b[j] {
            proof {
                assert(coords(*a)[j as int] != coords(*b)[j as int]);
            }
            return false;
        }
        j = j + 1;
    }
    assert(coords(*a) =~= coords(*b));
    true
}

/// Largest squared norm among the first `n` points of `s`, and zero if none.
pub open spec fn max_sqnorm(s: Seq<Seq<int>>, n: int) -> int
    decreases n,
{
    if n <= 0 {
        0
    } else if sqnorm(s[n - 1]) > max_sqnorm(s, n - 1) {
        sqnorm(s[n - 1])
    } else {
        max_sqnorm(s, n - 1)
    }
}

/// Every point of `s` moved by `v`.
pub open spec fn translated(s: Seq<Seq<int>>, v: Seq<int>) -> Seq<Seq<int>> {
    Seq::new(s.len(), |k: int| Seq::new(s[k].len(), |c: int| s[k][c] + v[c]))
}

/// The working point set of a GJK-style distance query, solved by exhaustive
/// search over its faces.
pub struct BruteForceSimplex {
    dim: usize,
    points: Vec<Vec<i64>>,
}

impl View for BruteForceSimplex {
    type V = Seq<Seq<int>>;

    /// The coordinates of the held points, in order.
    closed spec fn view(&self) -> Seq<Seq<int>> {
        Seq::new(self.points@.len(), |k: int| coords(self.points@[k]))
    }
}

impl BruteForceSimplex {
    /// Dimension of the space the points live in.
    pub closed spec fn space_dim(&self) -> int {
        self.dim as int
    }

    /// The dimension is supported, every point is admissible in it, and at
    /// most `dimension + 1` points are held.
    pub closed spec fn wf(&self) -> bool {
        &&& valid_dim(self.dim as int)
        &&& valid_points(self.points@, self.dim as int)
        &&& self.points@.len() <= self.dim + 1
    }

    proof fn lemma_view_points(&self)
        requires
            self.wf(),
        ensures
            forall|k: int| 0 <= k < self@.len() ==> admissible(#[trigger] self@[k], self.dim as int),
            self@.len() == self.points@.len(),
    {
        assert forall|k: int| 0 <= k < self@.len() implies admissible(#[trigger] self@[k], self.dim as int) by {
            assert(admissible(coords(self.points@[k]), self.dim as int));
        }
    }

    /// An empty simplex in a space of dimension `dim`.
    pub fn new(dim: usize) -> (r: Self)
        requires
            valid_dim(dim as int),
        ensures
            r.wf(),
            r.space_dim() == dim,
            r@ == Seq::<Seq<int>>::empty(),
    {
        let r = BruteForceSimplex { dim, points: Vec::new() };
        assert(r@ =~= Seq::<Seq<int>>::empty());
        r
    }

    /// Appends a point; the simplex must hold at most `dimension` points.
    pub fn add_point(&mut self, pt: Vec<i64>)
        requires
            old(self).wf(),
            old(self)@.len() <= old(self).space_dim(),
            admissible(coords(pt), old(self).space_dim()),
        ensures
            final(self).wf(),
            final(self).space_dim() == old(self).space_dim(),
            final(self)@ == old(self)@.push(coords(pt)),
    {
        self.points.push(pt);
        assert(self@ =~= old(self)@.push(coords(pt)));
    }

    /// Discards every held point and holds `initial_point` alone.
    pub fn reset(&mut self, initial_point: Vec<i64>)
        requires
            old(self).wf(),
            admissible(coords(initial_point), old(self).space_dim()),
        ensures
            final(self).wf(),
            final(self).space_dim() == old(self).space_dim(),
            final(self)@ == seq![coords(initial_point)],
    {
        self.points.clear();
        self.points.push(initial_point);
        assert(self@ =~= seq![coords(initial_point)]);
    }

    /// Number of held points minus one.
    pub fn dimension(&self) -> (r: usize)
        requires
            self.wf(),
            self@.len() >= 1,
        ensures
            r == self@.len() - 1,
    {
        self.points.len() - 1
    }

    /// Largest squared norm of a held point (zero when none is held).
    pub fn max_sq_len(&self) -> (r: i128)
        requires
            self.wf(),
        ensures
            r == max_sqnorm(self@, self@.len() as int),
    {
        let mut best: i128 = 0;
        let mut k: usize = 0;
        while k < self.points.len()
            invariant
                self.wf(),
                0 <= k <= self.points.len(),
                best == max_sqnorm(self@, k as int),
            decreases self.points.len() - k,
        {
            proof {
                assert(admissible(coords(self.points@[k as int]), self.dim as int));
            }
            let norm = sqnorm_exec(&self.points[k]);
            assert(self@[k as int] == coords(self.points@[k as int]));
            if norm > best {
                best = norm;
            }
            k = k + 1;
        }
        best
    }

    /// Whether `pt` is exactly one of the held points.
    pub fn contains_point(&self, pt: &Vec<i64>) -> (r: bool)
        ensures
            r == self@.contains(coords(*pt)),
    {
        let mut k: usize = 0;
        while k < self.points.len()
            invariant
                0 <= k <= self.points.len(),
                forall|t: int| 0 <= t < k ==> self@[t] != coords(*pt),
            decreases self.points.len() - k,
        {
            if same_point(&self.points[k], pt) {
                assert(self@[k as int] == coords(*pt));
                return true;
            }
            k = k + 1;
        }
        false
    }

    /// Projects the origin on the convex hull of the held points; with
    /// `reduce`, keeps only the points of the face that the projection lies on.
    pub fn do_project_origin(&mut self, reduce: bool) -> (r: RationalPoint)
        requires
            old(self).wf(),
            old(self)@.len() >= 1,
        ensures
            final(self).wf(),
            final(self).space_dim() == old(self).space_dim(),
            r@ == search(old(self)@).0,
            final(self)@ == (if reduce {
                search(old(self)@).1
            } else {
                old(self)@
            }),
            rat_bounded(r@, old(self).space_dim()),
    {
        let n = self.points.len();
        let mut all: Vec<usize> = Vec::new();
        let mut k: usize = 0;
        while k < n
            invariant
                n == self.points.len(),
                0 <= k <= n,
                all.len() == k,
                forall|t: int| 0 <= t < k ==> #[trigger] all@[t] == t,
            decreases n - k,
        {
            all.push(k);
            k = k + 1;
        }
        proof {
            assert(select(self.points@, all@) =~= self@);
            assert(coords(self.points@[0]).len() == self.dim);
        }
        let (res, face) = project_on_subsimplices(&self.points, all);
        proof {
            crate::projection::lemma_search_face(self@);
        }
        if reduce {
            let mut kept: Vec<Vec<i64>> = Vec::new();
            let mut t: usize = 0;
            while t < face.len()
                invariant
                    self.wf(),
                    valid_indices(face@, self.points.len() as int),
                    0 <= t <= face.len(),
                    kept.len() == t,
                    forall|u: int| 0 <= u < t ==> #[trigger] kept@[u]@ == self.points@[face@[u] as int]@,
                decreases face.len() - t,
            {
                let p = self.points[face[t]].clone();
                assert(p@ =~= self.points@[face@[t as int] as int]@);
                kept.push(p);
                t = t + 1;
            }
            proof {
                assert forall|u: int| 0 <= u < kept@.len() implies admissible(#[trigger] coords(kept@[u]), self.dim as int) by {
                    assert(coords(kept@[u]) =~= coords(self.points@[face@[u] as int]));
                    assert(admissible(coords(self.points@[face@[u] as int]), self.dim as int));
                }
                let after = Seq::new(kept@.len(), |k: int| coords(kept@[k]));
                assert(after =~= select(self.points@, face@)) by {
                    assert forall|u: int| 0 <= u < kept@.len() implies after[u] == select(self.points@, face@)[u] by {
                        assert(coords(kept@[u]) =~= coords(self.points@[face@[u] as int]));
                    }
                }
            }
            self.points = kept;
        }
        res
    }

    /// The point of the convex hull of the held points nearest the origin.
    pub fn project_origin(&mut self) -> (r: RationalPoint)
        requires
            old(self).wf(),
            old(self)@.len() >= 1,
        ensures
            final(self).wf(),
            final(self).space_dim() == old(self).space_dim(),
            final(self)@ == old(self)@,
            r@ == search(old(self)@).0,
            rat_bounded(r@, old(self).space_dim()),
    {
        self.do_project_origin(false)
    }

    /// As `project_origin`, and keeps only the points of the face that the
    /// projection lies on.
    pub fn project_origin_and_reduce(&mut self) -> (r: RationalPoint)
        requires
            old(self).wf(),
            old(self)@.len() >= 1,
        ensures
            final(self).wf(),
            final(self).space_dim() == old(self).space_dim(),
            final(self)@ == search(old(self)@).1,
            r@ == search(old(self)@).0,
            rat_bounded(r@, old(self).space_dim()),
    {
        self.do_project_origin(true)
    }

    /// Moves every held point by `v`; the moved points must stay admissible.
    pub fn translate_by(&mut self, v: &Vec<i64>)
        requires
            old(self).wf(),
            v.len() == old(self).space_dim(),
            forall|k: int|
                0 <= k < old(self)@.len() ==> admissible(
                    #[trigger] translated(old(self)@, coords(*v))[k],
                    old(self).space_dim(),
                ),
        ensures
            final(self).wf(),
            final(self).space_dim() == old(self).space_dim(),
            final(self)@ == translated(old(self)@, coords(*v)),
    {
        let ghost target = translated(self@, coords(*v));
        let dim = self.dim;
        let mut moved: Vec<Vec<i64>> = Vec::new();
        let mut k: usize = 0;
        while k < self.points.len()
            invariant
                self.wf(),
                dim == self.dim,
                v.len() == dim,
                target == translated(self@, coords(*v)),
                forall|t: int| 0 <= t < self@.len() ==> admissible(#[trigger] target[t], dim as int),
                0 <= k <= self.points.len(),
                moved.len() == k,
                forall|t: int| 0 <= t < k ==> #[trigger] coords(moved@[t]) == target[t],
            decreases self.points.len() - k,
        {
            let ghost row = target[k as int];
            proof {
                assert(admissible(coords(self.points@[k as int]), dim as int));
                assert(admissible(row, dim as int));
            }
            let mut q: Vec<i64> = Vec::new();
            let mut c: usize = 0;
            while c < dim
                invariant
                    self.wf(),
                    dim == self.dim,
                    v.len() == dim,
                    k < self.points.len(),
                    row == target[k as int],
                    target == translated(self@, coords(*v)),
                    admissible(row, dim as int),
                    admissible(coords(self.points@[k as int]), dim as int),
                    0 <= c <= dim,
                    q.len() == c,
                    forall|u: int| 0 <= u < c ==> #[trigger] q@[u] as int == row[u],
                decreases dim - c,
            {
                proof {
                    assert(self@[k as int] == coords(self.points@[k as int]));
                    assert(row[c as int] == self@[k as int][c as int] + coords(*v)[c as int]);
                    assert(coords(self.points@[k as int])[c as int] == self.points@[k as int]@[c as int] as int);
                }
                q.push(self.points[k][c] + v[c]);
                c = c + 1;
            }
            assert(coords(q) =~= row);
            moved.push(q);
            k = k + 1;
        }
        proof {
            assert forall|t: int| 0 <= t < moved@.len() implies admissible(#[trigger] coords(moved@[t]), dim as int) by {
                assert(coords(moved@[t]) == target[t]);
            }
            let after = Seq::new(moved@.len(), |t: int| coords(moved@[t]));
            assert(after =~= target);
        }
        self.points = moved;
    }
}

} // verus!
