use vstd::prelude::*;

verus! {

/// Largest magnitude of a coordinate. Projections are computed exactly in
/// 128-bit integers, and this bound keeps every intermediate value in range.
pub const COORD_LIMIT: i64 = 100;

/// Largest supported dimension of the embedding space.
pub const MAX_DIM: usize = 3;

/// The coordinates of a point as mathematical integers.
pub open spec fn coords(v: Vec<i64>) -> Seq<int> {
    v@.map_values(|x: i64| x as int)
}

/// `sum_{j < n} (a[j] - b[j]) * c[j]`.
pub open spec fn sub_dot_upto(a: Seq<int>, b: Seq<int>, c: Seq<int>, n: int) -> int
    decreases n,
{
    if n <= 0 {
        0
    } else {
        sub_dot_upto(a, b, c, n - 1) + (a[n - 1] - b[n - 1]) * c[n - 1]
    }
}

/// `sum_{j < n} a[j] * c[j]`.
pub open spec fn dot_upto(a: Seq<int>, c: Seq<int>, n: int) -> int
    decreases n,
{
    if n <= 0 {
        0
    } else {
        dot_upto(a, c, n - 1) + a[n - 1] * c[n - 1]
    }
}

/// `(a - b) . c`
pub open spec fn sub_dot(a: Seq<int>, b: Seq<int>, c: Seq<int>) -> int {
    sub_dot_upto(a, b, c, a.len() as int)
}

/// `a . c`
pub open spec fn dot(a: Seq<int>, c: Seq<int>) -> int {
    dot_upto(a, c, a.len() as int)
}

/// Squared Euclidean norm.
pub open spec fn sqnorm(a: Seq<int>) -> int {
    dot(a, a)
}

/// A point of the given dimension whose coordinates respect `COORD_LIMIT`.
pub open spec fn admissible(p: Seq<int>, dim: int) -> bool {
    &&& p.len() == dim
    &&& forall|j: int| 0 <= j < dim ==> -COORD_LIMIT <= #[trigger] p[j] <= COORD_LIMIT
}

/// A valid dimension for the space.
pub open spec fn valid_dim(dim: int) -> bool {
    1 <= dim <= MAX_DIM
}

proof fn lemma_term_bound(x: int, y: int, z: int)
    requires
        -100 <= x <= 100,
        -100 <= y <= 100,
        -100 <= z <= 100,
    ensures
        -20000 <= (x - y) * z <= 20000,
{
    assert(-20000 <= (x - y) * z <= 20000) by (nonlinear_arith)
        requires -200 <= x - y <= 200, -100 <= z <= 100;
}

/// `(a - b) . c` on admissible points.
pub fn sub_dot_exec(a: &Vec<i64>, b: &Vec<i64>, c: &Vec<i64>) -> (r: i128)
    requires
        valid_dim(a.len() as int),
        admissible(coords(*a), a.len() as int),
        admissible(coords(*b), a.len() as int),
        admissible(coords(*c), a.len() as int),
    ensures
        r == sub_dot(coords(*a), coords(*b), coords(*c)),
        -60000 <= r <= 60000,
{
    let n = a.len();
    let mut acc: i128 = 0;
    let mut j: usize = 0;
    while j < n
        invariant
            n == a.len(),
            valid_dim(n as int),
            admissible(coords(*a), n as int),
            admissible(coords(*b), n as int),
            admissible(coords(*c), n as int),
            0 <= j <= n,
            acc == sub_dot_upto(coords(*a), coords(*b), coords(*c), j as int),
            -20000 * j <= acc <= 20000 * j,
        decreases n - j,
    {
        proof {
            assert(coords(*a)[j as int] == a@[j as int] as int);
            assert(coords(*b)[j as int] == b@[j as int] as int);
            assert(coords(*c)[j as int] == c@[j as int] as int);
            lemma_term_bound(a@[j as int] as int, b@[j as int] as int, c@[j as int] as int);
        }
        let t: i128 = (a[j] as i128 - b[j] as i128) * (c[j] as i128);
        acc = acc + t;
        j = j + 1;
    }
    acc
}

proof fn lemma_square_bound(x: int)
    requires
        -100 <= x <= 100,
    ensures
        0 <= x * x <= 10000,
{
    assert(0 <= x * x <= 10000) by (nonlinear_arith)
        requires -100 <= x <= 100;
}

/// Squared norm of an admissible point.
pub fn sqnorm_exec(a: &Vec<i64>) -> (r: i128)
    requires
        valid_dim(a.len() as int),
        admissible(coords(*a), a.len() as int),
    ensures
        r == sqnorm(coords(*a)),
        0 <= r <= 30000,
{
    let n = a.len();
    let mut acc: i128 = 0;
    let mut j: usize = 0;
    while j < n
        invariant
            n == a.len(),
            valid_dim(n as int),
            admissible(coords(*a), n as int),
            0 <= j <= n,
            acc == dot_upto(coords(*a), coords(*a), j as int),
            0 <= acc <= 10000 * j,
        decreases n - j,
    {
        proof {
            assert(coords(*a)[j as int] == a@[j as int] as int);
            lemma_square_bound(a@[j as int] as int);
        }
        let x = a[j] as i128;
        acc = acc + x * x;
        j = j + 1;
    }
    acc
}

} // verus!
