use vstd::prelude::*;
use crate::vector::coords;
use crate::annotated_point::{AnnotatedPoint, vadd, vneg, fits_i64, is_sum_of_witnesses};

verus! {

/// A convex shape that answers support queries: placed by a value of type
/// `M`, it returns its farthest point along a direction.
pub trait SupportMap<M> {
    /// The point that `support_point` returns.
    spec fn support_spec(&self, m: &M, dir: Seq<int>) -> Seq<int>;

    /// The placements and directions for which the shape can answer.
    spec fn answers(&self, m: &M, dir: Seq<int>) -> bool;

    /// Farthest point of the shape, placed by `m`, along `dir`.
    fn support_point(&self, m: &M, dir: &Vec<i64>) -> (r: Vec<i64>)
        requires
            self.answers(m, coords(*dir)),
        ensures
            coords(r) == self.support_spec(m, coords(*dir)),
            r.len() == dir.len(),
            fits_i64(vneg(coords(r))),
    ;
}

/// A shape seen through the point reflection about the origin: its support
/// query negates the direction, asks the shape, and negates the answer.
pub struct Reflection<'a, G> {
    g: &'a G,
}

impl<'a, G> Reflection<'a, G> {
    /// The reflection of `g`.
    pub fn new(g: &'a G) -> (r: Self)
        ensures
            r.shape() == g,
    {
        Reflection { g }
    }

    /// The reflected shape.
    pub closed spec fn shape(&self) -> &'a G {
        self.g
    }

    /// The reflected shape.
    pub fn g(&self) -> (r: &'a G)
        ensures
            r == self.shape(),
    {
        self.g
    }
}

fn negate(a: &Vec<i64>) -> (r: Vec<i64>)
    requires
        fits_i64(vneg(coords(*a))),
    ensures
        coords(r) == vneg(coords(*a)),
        r.len() == a.len(),
{
    let ghost target = vneg(coords(*a));
    let mut r: Vec<i64> = Vec::new();
    let mut j: usize = 0;
    while j < a.len()
        invariant
            target == vneg(coords(*a)),
            fits_i64(target),
            0 <= j <= a.len(),
            r.len() == j,
            forall|t: int| 0 <= t < j ==> r@[t] as int == #[trigger] target[t],
        decreases a.len() - j,
    {
        assert(target[j as int] == -a@[j as int]);
        r.push(-a[j]);
        j = j + 1;
    }
    assert(coords(r) =~= target);
    r
}

fn add_points(a: &Vec<i64>, b: &Vec<i64>) -> (r: Vec<i64>)
    requires
        a.len() == b.len(),
        fits_i64(vadd(coords(*a), coords(*b))),
    ensures
        coords(r) == vadd(coords(*a), coords(*b)),
{
    let ghost target = vadd(coords(*a), coords(*b));
    let mut r: Vec<i64> = Vec::new();
    let mut j: usize = 0;
    while j < a.len()
        invariant
            a.len() == b.len(),
            target == vadd(coords(*a), coords(*b)),
            fits_i64(target),
            0 <= j <= a.len(),
            r.len() == j,
            forall|t: int| 0 <= t < j ==> r@[t] as int == #[trigger] target[t],
        decreases a.len() - j,
    {
        assert(target[j as int] == a@[j as int] + b@[j as int]);
        r.push(a[j] + b[j]);
        j = j + 1;
    }
    assert(coords(r) =~= target);
    r
}

impl<'a, M, G: SupportMap<M>> SupportMap<M> for Reflection<'a, G> {
    open spec fn support_spec(&self, m: &M, dir: Seq<int>) -> Seq<int> {
        vneg(self.shape().support_spec(m, vneg(dir)))
    }

    open spec fn answers(&self, m: &M, dir: Seq<int>) -> bool {
        fits_i64(vneg(dir)) && self.shape().answers(m, vneg(dir))
    }

    fn support_point(&self, m: &M, dir: &Vec<i64>) -> (r: Vec<i64>) {
        let d = negate(dir);
        let p = self.g.support_point(m, &d);
        let r = negate(&p);
        proof {
            assert(vneg(coords(r)) =~= coords(p));
        }
        r
    }
}

/// Implicit sum of two placed shapes, known only through its support query.
pub struct MinkowskiSum<'a, M, G1, G2> {
    m1: &'a M,
    g1: &'a G1,
    m2: &'a M,
    g2: &'a G2,
}

/// The difference of two placed shapes: the second one is reflected.
pub type Cso<'a, M, G1, G2> = MinkowskiSum<'a, M, G1, Reflection<'a, G2>>;

impl<'a, M, G1: SupportMap<M>, G2: SupportMap<M>> MinkowskiSum<'a, M, G1, G2> {
    /// The placements and shapes held, as `(m1, g1, m2, g2)`.
    pub closed spec fn parts(&self) -> (&'a M, &'a G1, &'a M, &'a G2) {
        (self.m1, self.g1, self.m2, self.g2)
    }

    /// The sum of `g1` placed by `m1` and `g2` placed by `m2`.
    pub fn new(m1: &'a M, g1: &'a G1, m2: &'a M, g2: &'a G2) -> (r: Self)
        ensures
            r.parts() == (m1, g1, m2, g2),
    {
        MinkowskiSum { m1, g1, m2, g2 }
    }

    /// Placement of the first shape.
    pub fn m1(&self) -> (r: &'a M)
        ensures
            r == self.parts().0,
    {
        self.m1
    }

    /// Placement of the second shape.
    pub fn m2(&self) -> (r: &'a M)
        ensures
            r == self.parts().2,
    {
        self.m2
    }

    /// The first shape.
    pub fn g1(&self) -> (r: &'a G1)
        ensures
            r == self.parts().1,
    {
        self.g1
    }

    /// The second shape.
    pub fn g2(&self) -> (r: &'a G2)
        ensures
            r == self.parts().3,
    {
        self.g2
    }

    /// The sum of the two shapes' support points along `dir`.
    pub open spec fn support_spec(&self, dir: Seq<int>) -> Seq<int> {
        vadd(
            self.parts().1.support_spec(self.parts().0, dir),
            self.parts().3.support_spec(self.parts().2, dir),
        )
    }

    /// Both shapes can answer along `dir`, and the sum of their answers
    /// fits in `i64`.
    pub open spec fn answers(&self, dir: Seq<int>) -> bool {
        &&& self.parts().1.answers(self.parts().0, dir)
        &&& self.parts().3.answers(self.parts().2, dir)
        &&& fits_i64(self.support_spec(dir))
    }

    /// Farthest point of the sum along `dir`.
    pub fn support_point(&self, dir: &Vec<i64>) -> (r: Vec<i64>)
        requires
            self.answers(coords(*dir)),
        ensures
            coords(r) == self.support_spec(coords(*dir)),
    {
        let p1 = self.g1.support_point(self.m1, dir);
        let p2 = self.g2.support_point(self.m2, dir);
        add_points(&p1, &p2)
    }
}

/// As `MinkowskiSum`, with a support query that also hands back the point of
/// each shape that the answer was built from.
pub struct AnnotatedMinkowskiSum<'a, M, G1, G2> {
    m1: &'a M,
    g1: &'a G1,
    m2: &'a M,
    g2: &'a G2,
}

/// The annotated difference of two placed shapes.
pub type AnnotatedCso<'a, M, G1, G2> = AnnotatedMinkowskiSum<'a, M, G1, Reflection<'a, G2>>;

impl<'a, M, G1: SupportMap<M>, G2: SupportMap<M>> AnnotatedMinkowskiSum<'a, M, G1, G2> {
    /// The placements and shapes held, as `(m1, g1, m2, g2)`.
    pub closed spec fn parts(&self) -> (&'a M, &'a G1, &'a M, &'a G2) {
        (self.m1, self.g1, self.m2, self.g2)
    }

    /// The sum of `g1` placed by `m1` and `g2` placed by `m2`.
    pub fn new(m1: &'a M, g1: &'a G1, m2: &'a M, g2: &'a G2) -> (r: Self)
        ensures
            r.parts() == (m1, g1, m2, g2),
    {
        AnnotatedMinkowskiSum { m1, g1, m2, g2 }
    }

    /// Placement of the first shape.
    pub fn m1(&self) -> (r: &'a M)
        ensures
            r == self.parts().0,
    {
        self.m1
    }

    /// Placement of the second shape.
    pub fn m2(&self) -> (r: &'a M)
        ensures
            r == self.parts().2,
    {
        self.m2
    }

    /// The first shape.
    pub fn g1(&self) -> (r: &'a G1)
        ensures
            r == self.parts().1,
    {
        self.g1
    }

    /// The second shape.
    pub fn g2(&self) -> (r: &'a G2)
        ensures
            r == self.parts().3,
    {
        self.g2
    }

    /// Both shapes can answer along `dir`, and the sum of their answers
    /// fits in `i64`.
    pub open spec fn answers(&self, dir: Seq<int>) -> bool {
        &&& self.parts().1.answers(self.parts().0, dir)
        &&& self.parts().3.answers(self.parts().2, dir)
        &&& fits_i64(
            vadd(
                self.parts().1.support_spec(self.parts().0, dir),
                self.parts().3.support_spec(self.parts().2, dir),
            ),
        )
    }

    /// Farthest point of the sum along `dir`, with the support point of each
    /// shape as its witnesses.
    pub fn support_point(&self, dir: &Vec<i64>) -> (r: AnnotatedPoint)
        requires
            self.answers(coords(*dir)),
        ensures
            r@.0 == self.parts().1.support_spec(self.parts().0, coords(*dir)),
            r@.1 == self.parts().3.support_spec(self.parts().2, coords(*dir)),
            is_sum_of_witnesses(r@),
    {
        let p1 = self.g1.support_point(self.m1, dir);
        let p2 = self.g2.support_point(self.m2, dir);
        let p = add_points(&p1, &p2);
        AnnotatedPoint::new(p1, p2, p)
    }
}

/// Support point of a box of half extents `h` translated by `t`.
pub open spec fn box_support(h: Seq<int>, t: Seq<int>, dir: Seq<int>) -> Seq<int> {
    Seq::new(h.len(), |c: int| if dir[c] >= 0 { t[c] + h[c] } else { t[c] - h[c] })
}

/// An axis-aligned box centred on the origin, placed by a translation.
pub struct Cuboid {
    half_extents: Vec<i64>,
}

impl Cuboid {
    /// The half extents, one per axis.
    pub closed spec fn extents(&self) -> Seq<int> {
        coords(self.half_extents)
    }

    /// A box of the given half extents.
    pub fn new(half_extents: Vec<i64>) -> (r: Self)
        ensures
            r.extents() == coords(half_extents),
    {
        Cuboid { half_extents }
    }
}

impl SupportMap<Vec<i64>> for Cuboid {
    open spec fn support_spec(&self, m: &Vec<i64>, dir: Seq<int>) -> Seq<int> {
        box_support(self.extents(), coords(*m), dir)
    }

    open spec fn answers(&self, m: &Vec<i64>, dir: Seq<int>) -> bool {
        &&& self.extents().len() == dir.len()
        &&& coords(*m).len() == dir.len()
        &&& forall|c: int|
            0 <= c < dir.len() ==> 0 <= #[trigger] self.extents()[c] && -i64::MAX <= coords(*m)[c]
                - self.extents()[c] && coords(*m)[c] + self.extents()[c] <= i64::MAX
    }

    fn support_point(&self, m: &Vec<i64>, dir: &Vec<i64>) -> (r: Vec<i64>) {
        let ghost target = box_support(self.extents(), coords(*m), coords(*dir));
        let mut r: Vec<i64> = Vec::new();
        let mut j: usize = 0;
        while j < dir.len()
            invariant
                self.answers(m, coords(*dir)),
                target == box_support(self.extents(), coords(*m), coords(*dir)),
                0 <= j <= dir.len(),
                r.len() == j,
                forall|t: int| 0 <= t < j ==> r@[t] as int == #[trigger] target[t],
            decreases dir.len() - j,
        {
            assert(0 <= self.extents()[j as int]);
            assert(coords(self.half_extents)[j as int] == self.half_extents@[j as int]);
            assert(coords(*m)[j as int] == m@[j as int]);
            assert(coords(*dir)[j as int] == dir@[j as int]);
            let x = if dir[j] >= 0 {
                m[j] + self.half_extents[j]
            } else {
                m[j] - self.half_extents[j]
            };
            r.push(x);
            j = j + 1;
        }
        assert(coords(r) =~= target);
        r
    }
}

} // verus!
