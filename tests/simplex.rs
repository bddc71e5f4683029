use gjk_simplex::brute_force_simplex::{BruteForceSimplex, RationalPoint};
use gjk_simplex::fraction::frac_lt;
use gjk_simplex::vector::{sqnorm_exec, sub_dot_exec};

fn simplex_of(dim: usize, points: &[&[i64]]) -> BruteForceSimplex {
    let mut s = BruteForceSimplex::new(dim);
    for p in points {
        s.add_point(p.to_vec());
    }
    s
}

/// The rational point as exact fractions reduced to a common check:
/// `num[c] * other_den == other_num[c] * den`.
fn same_value(p: &RationalPoint, num: &[i128], den: i128) -> bool {
    p.num.len() == num.len()
        && p.num.iter().zip(num.iter()).all(|(a, b)| a * den == b * p.den)
}

#[test]
fn single_point_projects_to_itself() {
    for p in [[3i64, -4], [0, 0], [-100, 100], [7, 1]] {
        let mut s = simplex_of(2, &[&p]);
        let r = s.project_origin();
        assert_eq!(r.num, vec![p[0] as i128, p[1] as i128]);
        assert_eq!(r.den, 1);
    }
}

#[test]
fn single_point_in_three_dimensions() {
    let mut s = simplex_of(3, &[&[5, -6, 7]]);
    let r = s.project_origin_and_reduce();
    assert_eq!(r.num, vec![5, -6, 7]);
    assert_eq!(r.den, 1);
    assert_eq!(s.dimension(), 0);
}

#[test]
fn triangle_with_vertex_at_origin() {
    let mut s = simplex_of(2, &[&[0, 0], &[2, 0], &[0, 2]]);
    let r = s.project_origin();
    assert!(same_value(&r, &[0, 0], 1));
    assert_eq!(s.dimension(), 2);
    let r = s.project_origin_and_reduce();
    assert!(same_value(&r, &[0, 0], 1));
    assert_eq!(s.dimension(), 0);
    assert!(s.contains_point(&vec![0, 0]));
    assert!(!s.contains_point(&vec![2, 0]));
    assert!(!s.contains_point(&vec![0, 2]));
}

#[test]
fn triangle_away_from_origin_projects_to_nearest_vertex() {
    let mut s = simplex_of(2, &[&[1, 1], &[3, 1], &[1, 3]]);
    let r = s.project_origin();
    assert!(same_value(&r, &[1, 1], 1));
    let r = s.project_origin_and_reduce();
    assert!(same_value(&r, &[1, 1], 1));
    assert_eq!(s.dimension(), 0);
    assert!(s.contains_point(&vec![1, 1]));
    assert!(!s.contains_point(&vec![3, 1]));
}

#[test]
fn segment_projects_inside_its_interior() {
    let mut s = simplex_of(2, &[&[-1, 1], &[1, 1]]);
    let r = s.project_origin_and_reduce();
    assert!(same_value(&r, &[0, 1], 1));
    assert!(r.den > 0);
    assert_eq!(s.dimension(), 1);
}

#[test]
fn segment_with_unequal_weights() {
    // Nearest point of the segment from (-1, 2) to (3, 2) is (0, 2).
    let mut s = simplex_of(2, &[&[-1, 2], &[3, 2]]);
    let r = s.project_origin();
    assert!(same_value(&r, &[0, 2], 1));
    // Nearest point of the segment from (2, 0) to (0, 2) is (1, 1).
    let mut s = simplex_of(2, &[&[2, 0], &[0, 2]]);
    let r = s.project_origin();
    assert!(same_value(&r, &[1, 1], 1));
    // From (1, 0) to (0, 2): the foot of the perpendicular is (4/5, 2/5).
    let mut s = simplex_of(2, &[&[1, 0], &[0, 2]]);
    let r = s.project_origin();
    assert!(same_value(&r, &[4, 2], 5));
}

#[test]
fn triangle_containing_origin_projects_to_origin() {
    let mut s = simplex_of(2, &[&[-1, -1], &[3, -1], &[-1, 3]]);
    let r = s.project_origin_and_reduce();
    assert!(same_value(&r, &[0, 0], 1));
    assert_eq!(s.dimension(), 2);
}

#[test]
fn tetrahedron_containing_origin_projects_to_origin() {
    let mut s = simplex_of(3, &[&[-1, -1, -1], &[4, -1, -1], &[-1, 4, -1], &[-1, -1, 4]]);
    let r = s.project_origin_and_reduce();
    assert!(same_value(&r, &[0, 0, 0], 1));
    assert_eq!(s.dimension(), 3);
}

#[test]
fn tetrahedron_projects_onto_a_face() {
    // The face z = 1 lies between the origin and the apex.
    let mut s = simplex_of(3, &[&[-1, -1, 1], &[4, -1, 1], &[-1, 4, 1], &[0, 0, 5]]);
    let r = s.project_origin_and_reduce();
    assert!(same_value(&r, &[0, 0, 1], 1));
    assert_eq!(s.dimension(), 2);
    assert!(!s.contains_point(&vec![0, 0, 5]));
}

#[test]
fn largest_dimension_and_coordinates() {
    let mut s = simplex_of(
        3,
        &[&[100, 100, 100], &[-100, 100, 100], &[100, -100, 100], &[100, 100, -100]],
    );
    let r = s.project_origin();
    assert!(r.den > 0);
    // The nearest point is on the face x + y + z = 100 with three vertices.
    assert!(same_value(&r, &[100, 100, 100], 3));
    assert_eq!(s.max_sq_len(), 30000);
}

#[test]
fn duplicate_points_are_degenerate_but_handled() {
    let mut s = simplex_of(2, &[&[2, 2], &[2, 2], &[2, 2]]);
    let r = s.project_origin_and_reduce();
    assert!(same_value(&r, &[2, 2], 1));
    assert_eq!(s.dimension(), 0);
}

#[test]
fn collinear_points_are_handled() {
    let mut s = simplex_of(2, &[&[-2, 1], &[0, 1], &[2, 1]]);
    let r = s.project_origin_and_reduce();
    assert!(same_value(&r, &[0, 1], 1));
    assert!(s.dimension() <= 1);
}

#[test]
fn reduce_and_plain_projection_agree() {
    let cases: Vec<Vec<Vec<i64>>> = vec![
        vec![vec![1, 0], vec![0, 2]],
        vec![vec![1, 1], vec![3, 1], vec![1, 3]],
        vec![vec![-1, 2], vec![3, 2], vec![5, 7]],
        vec![vec![-3, -1], vec![4, -2], vec![1, 5]],
    ];
    for pts in cases {
        let mut a = BruteForceSimplex::new(2);
        let mut b = BruteForceSimplex::new(2);
        for p in &pts {
            a.add_point(p.clone());
            b.add_point(p.clone());
        }
        let ra = a.project_origin();
        let rb = b.project_origin_and_reduce();
        assert_eq!(ra.num, rb.num);
        assert_eq!(ra.den, rb.den);
        assert_eq!(a.dimension() + 1, pts.len());
        assert!(b.dimension() <= a.dimension());
        for p in &pts {
            assert!(a.contains_point(p));
        }
    }
}

#[test]
fn projection_weights_are_convex() {
    // Segment from (1, 0) to (0, 2): the projection is (4/5, 2/5), i.e.
    // weights 4/5 and 1/5 that are positive and sum to one.
    let mut s = simplex_of(2, &[&[1, 0], &[0, 2]]);
    let r = s.project_origin();
    assert!(r.den > 0);
    let w1 = 4 * r.den / 5;
    let w2 = r.den - w1;
    assert!(w1 > 0 && w2 > 0);
    assert_eq!(r.num[0], w1);
    assert_eq!(r.num[1], 2 * w2);
}

#[test]
fn translating_a_single_point_moves_its_projection() {
    let mut s = simplex_of(2, &[&[3, -4]]);
    s.translate_by(&vec![-5, 6]);
    let r = s.project_origin();
    assert_eq!(r.num, vec![-2, 2]);
    assert_eq!(r.den, 1);
}

#[test]
fn translating_a_segment_does_not_move_its_projection_alike() {
    let mut s = simplex_of(2, &[&[-1, 1], &[1, 1]]);
    s.translate_by(&vec![5, 0]);
    assert!(s.contains_point(&vec![4, 1]));
    assert!(s.contains_point(&vec![6, 1]));
    let r = s.project_origin();
    assert!(same_value(&r, &[4, 1], 1));
}

#[test]
fn contains_point_is_exact() {
    let s = simplex_of(2, &[&[1, 1], &[3, 1]]);
    assert!(s.contains_point(&vec![1, 1]));
    assert!(s.contains_point(&vec![3, 1]));
    assert!(!s.contains_point(&vec![1, 2]));
    assert!(!s.contains_point(&vec![2, 1]));
    assert!(!s.contains_point(&vec![1, 1, 0]));
}

#[test]
fn reset_discards_previous_points() {
    let mut s = simplex_of(2, &[&[1, 1], &[3, 1], &[1, 3]]);
    s.reset(vec![9, 9]);
    assert_eq!(s.dimension(), 0);
    assert!(s.contains_point(&vec![9, 9]));
    assert!(!s.contains_point(&vec![1, 1]));
    assert_eq!(s.max_sq_len(), 162);
}

#[test]
fn max_sq_len_picks_farthest_point() {
    let s = simplex_of(3, &[&[1, 2, 2], &[0, -5, 0], &[3, 0, 0]]);
    assert_eq!(s.max_sq_len(), 25);
    let e = BruteForceSimplex::new(3);
    assert_eq!(e.max_sq_len(), 0);
}

#[test]
fn capacity_is_dimension_plus_one() {
    let s = simplex_of(2, &[&[1, 0], &[0, 1], &[1, 1]]);
    assert_eq!(s.dimension(), 2);
    let s = simplex_of(3, &[&[1, 0, 0], &[0, 1, 0], &[0, 0, 1], &[1, 1, 1]]);
    assert_eq!(s.dimension(), 3);
}

#[test]
fn fraction_comparison_is_exact() {
    assert!(frac_lt(1, 3, 1, 2));
    assert!(!frac_lt(1, 2, 1, 3));
    assert!(!frac_lt(2, 4, 1, 2));
    assert!(frac_lt(0, 5, 1, 1000));
    assert!(!frac_lt(7, 7, 0, 3));
    assert!(frac_lt(u128::MAX - 1, u128::MAX, 1, 1));
    // x / (x - 1) decreases as x grows.
    assert!(frac_lt(u128::MAX, u128::MAX - 1, u128::MAX - 1, u128::MAX - 2));
    assert!(!frac_lt(u128::MAX - 1, u128::MAX - 2, u128::MAX, u128::MAX - 1));
}

#[test]
fn dot_products() {
    assert_eq!(sub_dot_exec(&vec![3, 4], &vec![1, 1], &vec![2, -1]), 1);
    assert_eq!(sub_dot_exec(&vec![100, 100, 100], &vec![-100, -100, -100], &vec![100, 100, 100]), 60000);
    assert_eq!(sqnorm_exec(&vec![3, 4]), 25);
    assert_eq!(sqnorm_exec(&vec![-100, 100, 100]), 30000);
}

#[test]
fn projection_is_no_farther_than_any_point() {
    let cases: Vec<Vec<Vec<i64>>> = vec![
        vec![vec![1, 0], vec![0, 2]],
        vec![vec![5, 1], vec![-3, 4], vec![2, -6]],
        vec![vec![7, 7, 1], vec![-2, 9, 3], vec![4, -1, 8], vec![6, 5, -2]],
    ];
    for pts in cases {
        let mut s = BruteForceSimplex::new(pts[0].len());
        for p in &pts {
            s.add_point(p.clone());
        }
        let r = s.project_origin();
        let proj_sq: i128 = r.num.iter().map(|x| x * x).sum();
        for p in &pts {
            let p_sq: i128 = p.iter().map(|&x| (x as i128) * (x as i128)).sum();
            assert!(proj_sq <= p_sq * r.den * r.den);
        }
    }
}
