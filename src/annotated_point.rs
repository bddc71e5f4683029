use vstd::prelude::*;
use crate::vector::{coords, admissible, valid_dim, sub_dot, sqnorm, sub_dot_exec, sqnorm_exec};

verus! {

/// Coordinatewise sum.
pub open spec fn vadd(a: Seq<int>, b: Seq<int>) -> Seq<int> {
    Seq::new(a.len(), |c: int| a[c] + b[c])
}

/// Coordinatewise difference.
pub open spec fn vsub(a: Seq<int>, b: Seq<int>) -> Seq<int> {
    Seq::new(a.len(), |c: int| a[c] - b[c])
}

/// Negation.
pub open spec fn vneg(a: Seq<int>) -> Seq<int> {
    Seq::new(a.len(), |c: int| -a[c])
}

/// Product by a scalar.
pub open spec fn vscale(a: Seq<int>, n: int) -> Seq<int> {
    Seq::new(a.len(), |c: int| a[c] * n)
}

/// The zero vector of a dimension.
pub open spec fn vzero(dim: nat) -> Seq<int> {
    Seq::new(dim, |c: int| 0)
}

/// Every coordinate of `a` is a valid `i64`.
pub open spec fn fits_i64(a: Seq<int>) -> bool {
    forall|c: int| 0 <= c < a.len() ==> i64::MIN <= #[trigger] a[c] <= i64::MAX
}

/// Witnesses and combined point, as `(orig1, orig2, point)`.
pub type AnnotatedView = (Seq<int>, Seq<int>, Seq<int>);

/// The three vectors have the same length.
pub open spec fn same_dim(a: AnnotatedView) -> bool {
    a.0.len() == a.2.len() && a.1.len() == a.2.len()
}

/// The combined point is the sum of the two witnesses, as support points of a
/// sum of two shapes are.
pub open spec fn is_sum_of_witnesses(a: AnnotatedView) -> bool {
    same_dim(a) && a.2 == vadd(a.0, a.1)
}

/// A point of the combined space, tagged with the point of each of the two
/// shapes that it was built from. Every linear operation acts on the three
/// vectors alike; comparisons look at the combined point only.
pub struct AnnotatedPoint {
    orig1: Vec<i64>,
    orig2: Vec<i64>,
    point: Vec<i64>,
}

impl View for AnnotatedPoint {
    type V = AnnotatedView;

    closed spec fn view(&self) -> AnnotatedView {
        (coords(self.orig1), coords(self.orig2), coords(self.point))
    }
}

fn zeros(n: usize) -> (r: Vec<i64>)
    ensures
        coords(r) == vzero(n as nat),
{
    let mut r: Vec<i64> = Vec::new();
    let mut j: usize = 0;
    while j < n
        invariant
            0 <= j <= n,
            r.len() == j,
            forall|t: int| 0 <= t < j ==> r@[t] == 0,
        decreases n - j,
    {
        r.push(0);
        j = j + 1;
    }
    assert(coords(r) =~= vzero(n as nat));
    r
}

fn add_vec(a: &Vec<i64>, b: &Vec<i64>) -> (r: Vec<i64>)
    requires
        a.len() == b.len(),
        fits_i64(vadd(coords(*a), coords(*b))),
    ensures
        coords(r) == vadd(coords(*a), coords(*b)),
{
    let ghost target = vadd(coords(*a), coords(*b));
    let mut r: Vec<i64> = Vec::new();
    let mut j: usize = 0;
    while j < a.len()
        invariant
            a.len() == b.len(),
            target == vadd(coords(*a), coords(*b)),
            fits_i64(target),
            0 <= j <= a.len(),
            r.len() == j,
            forall|t: int| 0 <= t < j ==> r@[t] as int == #[trigger] target[t],
        decreases a.len() - j,
    {
        assert(target[j as int] == a@[j as int] + b@[j as int]);
        r.push(a[j] + b[j]);
        j = j + 1;
    }
    assert(coords(r) =~= target);
    r
}

fn sub_vec(a: &Vec<i64>, b: &Vec<i64>) -> (r: Vec<i64>)
    requires
        a.len() == b.len(),
        fits_i64(vsub(coords(*a), coords(*b))),
    ensures
        coords(r) == vsub(coords(*a), coords(*b)),
{
    let ghost target = vsub(coords(*a), coords(*b));
    let mut r: Vec<i64> = Vec::new();
    let mut j: usize = 0;
    while j < a.len()
        invariant
            a.len() == b.len(),
            target == vsub(coords(*a), coords(*b)),
            fits_i64(target),
            0 <= j <= a.len(),
            r.len() == j,
            forall|t: int| 0 <= t < j ==> r@[t] as int == #[trigger] target[t],
        decreases a.len() - j,
    {
        assert(target[j as int] == a@[j as int] - b@[j as int]);
        r.push(a[j] - b[j]);
        j = j + 1;
    }
    assert(coords(r) =~= target);
    r
}

fn neg_vec(a: &Vec<i64>) -> (r: Vec<i64>)
    requires
        fits_i64(vneg(coords(*a))),
    ensures
        coords(r) == vneg(coords(*a)),
{
    let ghost target = vneg(coords(*a));
    let mut r: Vec<i64> = Vec::new();
    let mut j: usize = 0;
    while j < a.len()
        invariant
            target == vneg(coords(*a)),
            fits_i64(target),
            0 <= j <= a.len(),
            r.len() == j,
            forall|t: int| 0 <= t < j ==> r@[t] as int == #[trigger] target[t],
        decreases a.len() - j,
    {
        assert(target[j as int] == -a@[j as int]);
        r.push(-a[j]);
        j = j + 1;
    }
    assert(coords(r) =~= target);
    r
}

fn scale_vec(a: &Vec<i64>, n: i64) -> (r: Vec<i64>)
    requires
        fits_i64(vscale(coords(*a), n as int)),
    ensures
        coords(r) == vscale(coords(*a), n as int),
{
    let ghost target = vscale(coords(*a), n as int);
    let mut r: Vec<i64> = Vec::new();
    let mut j: usize = 0;
    while j < a.len()
        invariant
            target == vscale(coords(*a), n as int),
            fits_i64(target),
            0 <= j <= a.len(),
            r.len() == j,
            forall|t: int| 0 <= t < j ==> r@[t] as int == #[trigger] target[t],
        decreases a.len() - j,
    {
        assert(target[j as int] == a@[j as int] * n);
        r.push(a[j] * n);
        j = j + 1;
    }
    assert(coords(r) =~= target);
    r
}

impl AnnotatedPoint {
    /// Combined point `point`, built from `orig1` and `orig2`.
    pub fn new(orig1: Vec<i64>, orig2: Vec<i64>, point: Vec<i64>) -> (r: Self)
        ensures
            r@ == (coords(orig1), coords(orig2), coords(point)),
    {
        AnnotatedPoint { orig1, orig2, point }
    }

    /// The combined point.
    pub fn point(&self) -> (r: &Vec<i64>)
        ensures
            coords(*r) == self@.2,
    {
        &self.point
    }

    /// The contributing point of the first shape.
    pub fn orig1(&self) -> (r: &Vec<i64>)
        ensures
            coords(*r) == self@.0,
    {
        &self.orig1
    }

    /// The contributing point of the second shape.
    pub fn orig2(&self) -> (r: &Vec<i64>)
        ensures
            coords(*r) == self@.1,
    {
        &self.orig2
    }

    /// A combined point whose witnesses are unknown (left at zero).
    pub fn new_invalid(point: Vec<i64>) -> (r: Self)
        ensures
            r@ == (vzero(point.len() as nat), vzero(point.len() as nat), coords(point)),
    {
        let n = point.len();
        AnnotatedPoint { orig1: zeros(n), orig2: zeros(n), point }
    }

    /// The zero of a space of dimension `dim`, witnesses included.
    pub fn zero(dim: usize) -> (r: Self)
        ensures
            r@ == (vzero(dim as nat), vzero(dim as nat), vzero(dim as nat)),
    {
        AnnotatedPoint { orig1: zeros(dim), orig2: zeros(dim), point: zeros(dim) }
    }

    /// Whether the combined point is zero; the witnesses are not looked at.
    pub fn is_zero(&self) -> (r: bool)
        ensures
            r == (self@.2 == vzero(self@.2.len())),
    {
        let mut j: usize = 0;
        while j < self.point.len()
            invariant
                0 <= j <= self.point.len(),
                forall|t: int| 0 <= t < j ==> self.point@[t] == 0,
            decreases self.point.len() - j,
        {
            if self.point[j] != 0 {
                assert(self@.2[j as int] != vzero(self@.2.len())[j as int]);
                return false;
            }
            j = j + 1;
        }
        assert(self@.2 =~= vzero(self@.2.len()));
        true
    }

    /// Dimension of the space.
    pub fn dim(&self) -> (r: usize)
        ensures
            r == self@.2.len(),
    {
        self.point.len()
    }

    /// Sum, taken on the three vectors alike.
    pub fn add(&self, other: &Self) -> (r: Self)
        requires
            same_dim(self@),
            same_dim(other@),
            self@.2.len() == other@.2.len(),
            fits_i64(vadd(self@.0, other@.0)),
            fits_i64(vadd(self@.1, other@.1)),
            fits_i64(vadd(self@.2, other@.2)),
        ensures
            r@ == (vadd(self@.0, other@.0), vadd(self@.1, other@.1), vadd(self@.2, other@.2)),
    {
        AnnotatedPoint {
            orig1: add_vec(&self.orig1, &other.orig1),
            orig2: add_vec(&self.orig2, &other.orig2),
            point: add_vec(&self.point, &other.point),
        }
    }

    /// Difference, taken on the three vectors alike.
    pub fn sub(&self, other: &Self) -> (r: Self)
        requires
            same_dim(self@),
            same_dim(other@),
            self@.2.len() == other@.2.len(),
            fits_i64(vsub(self@.0, other@.0)),
            fits_i64(vsub(self@.1, other@.1)),
            fits_i64(vsub(self@.2, other@.2)),
        ensures
            r@ == (vsub(self@.0, other@.0), vsub(self@.1, other@.1), vsub(self@.2, other@.2)),
    {
        AnnotatedPoint {
            orig1: sub_vec(&self.orig1, &other.orig1),
            orig2: sub_vec(&self.orig2, &other.orig2),
            point: sub_vec(&self.point, &other.point),
        }
    }

    /// Negation, taken on the three vectors alike.
    pub fn neg(&self) -> (r: Self)
        requires
            fits_i64(vneg(self@.0)),
            fits_i64(vneg(self@.1)),
            fits_i64(vneg(self@.2)),
        ensures
            r@ == (vneg(self@.0), vneg(self@.1), vneg(self@.2)),
    {
        AnnotatedPoint {
            orig1: neg_vec(&self.orig1),
            orig2: neg_vec(&self.orig2),
            point: neg_vec(&self.point),
        }
    }

    /// Product by a scalar, taken on the three vectors alike.
    pub fn mul(&self, n: i64) -> (r: Self)
        requires
            fits_i64(vscale(self@.0, n as int)),
            fits_i64(vscale(self@.1, n as int)),
            fits_i64(vscale(self@.2, n as int)),
        ensures
            r@ == (vscale(self@.0, n as int), vscale(self@.1, n as int), vscale(self@.2, n as int)),
    {
        AnnotatedPoint {
            orig1: scale_vec(&self.orig1, n),
            orig2: scale_vec(&self.orig2, n),
            point: scale_vec(&self.point, n),
        }
    }

    /// Dot product of the combined points.
    pub fn dot(a: &Self, b: &Self) -> (r: i128)
        requires
            valid_dim(a@.2.len() as int),
            admissible(a@.2, a@.2.len() as int),
            admissible(b@.2, a@.2.len() as int),
        ensures
            r == sub_dot(a@.2, vzero(a@.2.len()), b@.2),
    {
        let z = zeros(a.point.len());
        sub_dot_exec(&a.point, &z, &b.point)
    }

    /// `(a - b) . c` on the combined points.
    pub fn sub_dot(a: &Self, b: &Self, c: &Self) -> (r: i128)
        requires
            valid_dim(a@.2.len() as int),
            admissible(a@.2, a@.2.len() as int),
            admissible(b@.2, a@.2.len() as int),
            admissible(c@.2, a@.2.len() as int),
        ensures
            r == sub_dot(a@.2, b@.2, c@.2),
    {
        sub_dot_exec(&a.point, &b.point, &c.point)
    }

    /// Squared norm of the combined point.
    pub fn sqnorm(&self) -> (r: i128)
        requires
            valid_dim(self@.2.len() as int),
            admissible(self@.2, self@.2.len() as int),
        ensures
            r == sqnorm(self@.2),
    {
        sqnorm_exec(&self.point)
    }
}

fn same_coords(a: &Vec<i64>, b: &Vec<i64>) -> (r: bool)
    ensures
        r == (coords(*a) == coords(*b)),
{
    if a.len() != b.len() {
        assert(coords(*a).len() != coords(*b).len());
        return false;
    }
    let mut j: usize = 0;
    while j < a.len()
        invariant
            a.len() == b.len(),
            0 <= j <= a.len(),
            forall|t: int| 0 <= t < j ==> a@[t] == b@[t],
        decreases a.len() - j,
    {
        if a[j] != b[j] {
            assert(coords(*a)[j as int] != coords(*b)[j as int]);
            return false;
        }
        j = j + 1;
    }
    assert(coords(*a) =~= coords(*b));
    true
}

impl PartialEq for AnnotatedPoint {
    /// Equality of the combined points; the witnesses are not compared.
    fn eq(&self, other: &AnnotatedPoint) -> (r: bool) {
        same_coords(&self.point, &other.point)
    }
}

impl vstd::std_specs::cmp::PartialEqSpecImpl for AnnotatedPoint {
    open spec fn obeys_eq_spec() -> bool {
        true
    }

    open spec fn eq_spec(&self, other: &AnnotatedPoint) -> bool {
        self@.2 == other@.2
    }
}

proof fn lemma_scale_distributes(x: int, y: int, n: int)
    ensures
        (x + y) * n == x * n + y * n,
{
    assert((x + y) * n == x * n + y * n) by (nonlinear_arith);
}

/// Linear operations keep the combined point equal to the sum of the
/// witnesses: sums, differences, negations and scalings of such points are
/// again such points.
pub proof fn theorem_witnesses_follow_linear_operations(a: AnnotatedView, b: AnnotatedView, n: int)
    requires
        is_sum_of_witnesses(a),
        is_sum_of_witnesses(b),
        a.2.len() == b.2.len(),
    ensures
        is_sum_of_witnesses((vadd(a.0, b.0), vadd(a.1, b.1), vadd(a.2, b.2))),
        is_sum_of_witnesses((vsub(a.0, b.0), vsub(a.1, b.1), vsub(a.2, b.2))),
        is_sum_of_witnesses((vneg(a.0), vneg(a.1), vneg(a.2))),
        is_sum_of_witnesses((vscale(a.0, n), vscale(a.1, n), vscale(a.2, n))),
{
    assert(vadd(a.2, b.2) =~= vadd(vadd(a.0, b.0), vadd(a.1, b.1)));
    assert(vsub(a.2, b.2) =~= vadd(vsub(a.0, b.0), vsub(a.1, b.1)));
    assert(vneg(a.2) =~= vadd(vneg(a.0), vneg(a.1)));
    assert forall|c: int| 0 <= c < a.2.len() implies #[trigger] vscale(a.2, n)[c] == vadd(
        vscale(a.0, n),
        vscale(a.1, n),
    )[c] by {
        lemma_scale_distributes(a.0[c], a.1[c], n);
    }
    assert(vscale(a.2, n) =~= vadd(vscale(a.0, n), vscale(a.1, n)));
}

} // verus!
