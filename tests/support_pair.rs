use gjk_simplex::annotated_point::AnnotatedPoint;
use gjk_simplex::minkowski_sum::{
    AnnotatedMinkowskiSum, Cuboid, MinkowskiSum, Reflection, SupportMap,
};

fn annotated(o1: &[i64], o2: &[i64]) -> AnnotatedPoint {
    let p: Vec<i64> = o1.iter().zip(o2.iter()).map(|(a, b)| a + b).collect();
    AnnotatedPoint::new(o1.to_vec(), o2.to_vec(), p)
}

fn witnesses_sum_up(a: &AnnotatedPoint) -> bool {
    a.orig1().iter().zip(a.orig2().iter()).zip(a.point().iter()).all(|((x, y), p)| x + y == *p)
}

#[test]
fn annotated_accessors() {
    let a = AnnotatedPoint::new(vec![1, 2], vec![3, 4], vec![4, 6]);
    assert_eq!(a.orig1(), &vec![1, 2]);
    assert_eq!(a.orig2(), &vec![3, 4]);
    assert_eq!(a.point(), &vec![4, 6]);
    assert_eq!(a.dim(), 2);
}

#[test]
fn annotated_invalid_and_zero() {
    let a = AnnotatedPoint::new_invalid(vec![5, -1, 2]);
    assert_eq!(a.orig1(), &vec![0, 0, 0]);
    assert_eq!(a.orig2(), &vec![0, 0, 0]);
    assert_eq!(a.point(), &vec![5, -1, 2]);
    assert!(!a.is_zero());
    let z = AnnotatedPoint::zero(3);
    assert!(z.is_zero());
    assert_eq!(z.orig1(), &vec![0, 0, 0]);
    // Only the combined point decides whether a point is zero.
    let w = AnnotatedPoint::new(vec![1, 1], vec![-1, -1], vec![0, 0]);
    assert!(w.is_zero());
}

#[test]
fn annotated_arithmetic_acts_on_all_three_vectors() {
    let a = annotated(&[1, 2], &[3, -4]);
    let b = annotated(&[-5, 6], &[7, 8]);
    let s = a.add(&b);
    assert_eq!(s.orig1(), &vec![-4, 8]);
    assert_eq!(s.orig2(), &vec![10, 4]);
    assert_eq!(s.point(), &vec![6, 12]);
    assert!(witnesses_sum_up(&s));
    let d = a.sub(&b);
    assert_eq!(d.orig1(), &vec![6, -4]);
    assert_eq!(d.orig2(), &vec![-4, -12]);
    assert_eq!(d.point(), &vec![2, -16]);
    assert!(witnesses_sum_up(&d));
    let n = a.neg();
    assert_eq!(n.orig1(), &vec![-1, -2]);
    assert_eq!(n.orig2(), &vec![-3, 4]);
    assert_eq!(n.point(), &vec![-4, 2]);
    assert!(witnesses_sum_up(&n));
    let m = a.mul(3);
    assert_eq!(m.orig1(), &vec![3, 6]);
    assert_eq!(m.orig2(), &vec![9, -12]);
    assert_eq!(m.point(), &vec![12, -6]);
    assert!(witnesses_sum_up(&m));
}

#[test]
fn annotated_products_use_the_combined_point() {
    let a = AnnotatedPoint::new(vec![9, 9], vec![9, 9], vec![3, 4]);
    let b = AnnotatedPoint::new(vec![-7, 0], vec![1, 1], vec![2, -1]);
    assert_eq!(AnnotatedPoint::dot(&a, &b), 2);
    assert_eq!(a.sqnorm(), 25);
    let c = AnnotatedPoint::new(vec![0, 0], vec![0, 0], vec![1, 1]);
    assert_eq!(AnnotatedPoint::sub_dot(&a, &c, &b), 1);
}

#[test]
fn annotated_equality_ignores_witnesses() {
    let a = AnnotatedPoint::new(vec![1, 2], vec![3, 4], vec![5, 6]);
    let b = AnnotatedPoint::new(vec![0, 0], vec![5, 6], vec![5, 6]);
    let c = AnnotatedPoint::new(vec![1, 2], vec![3, 4], vec![5, 7]);
    assert!(a == b);
    assert!(a != c);
}

#[test]
fn box_support_follows_direction_signs() {
    let b = Cuboid::new(vec![2, 3]);
    let t = vec![10, -10];
    assert_eq!(b.support_point(&t, &vec![1, 1]), vec![12, -7]);
    assert_eq!(b.support_point(&t, &vec![-1, 5]), vec![8, -7]);
    assert_eq!(b.support_point(&t, &vec![0, -2]), vec![12, -13]);
}

#[test]
fn reflection_negates_direction_and_answer() {
    let b = Cuboid::new(vec![2, 3]);
    let t = vec![10, -10];
    let r = Reflection::new(&b);
    // The reflected box is centred on (-10, 10).
    assert_eq!(r.support_point(&t, &vec![1, 1]), vec![-8, 13]);
    assert_eq!(r.support_point(&t, &vec![-1, -1]), vec![-12, 7]);
}

#[test]
fn minkowski_sum_adds_support_points() {
    let a = Cuboid::new(vec![1, 1]);
    let b = Cuboid::new(vec![2, 3]);
    let ta = vec![0, 0];
    let tb = vec![5, 5];
    let sum = MinkowskiSum::new(&ta, &a, &tb, &b);
    assert_eq!(sum.support_point(&vec![1, 1]), vec![8, 9]);
    assert_eq!(sum.support_point(&vec![-1, 1]), vec![2, 9]);
    assert_eq!(sum.m1(), &ta);
    assert_eq!(sum.m2(), &tb);
    assert!(std::ptr::eq(sum.g1(), &a));
    assert!(std::ptr::eq(sum.g2(), &b));
}

#[test]
fn difference_of_boxes_through_reflection() {
    let a = Cuboid::new(vec![1, 1]);
    let b = Cuboid::new(vec![1, 1]);
    let ta = vec![0, 0];
    let tb = vec![5, 0];
    let rb = Reflection::new(&b);
    let cso = MinkowskiSum::new(&ta, &a, &tb, &rb);
    // a - b is the box of half extents (2, 2) centred on (-5, 0).
    assert_eq!(cso.support_point(&vec![1, 1]), vec![-3, 2]);
    assert_eq!(cso.support_point(&vec![-1, -1]), vec![-7, -2]);
}

#[test]
fn annotated_sum_keeps_witnesses() {
    let a = Cuboid::new(vec![1, 1]);
    let b = Cuboid::new(vec![1, 1]);
    let ta = vec![0, 0];
    let tb = vec![5, 0];
    let rb = Reflection::new(&b);
    let cso = AnnotatedMinkowskiSum::new(&ta, &a, &tb, &rb);
    let p = cso.support_point(&vec![1, 1]);
    assert_eq!(p.orig1(), &vec![1, 1]);
    assert_eq!(p.orig2(), &vec![-4, 1]);
    assert_eq!(p.point(), &vec![-3, 2]);
    assert!(witnesses_sum_up(&p));
    assert_eq!(cso.m1(), &ta);
    assert_eq!(cso.m2(), &tb);
    assert!(std::ptr::eq(cso.g1(), &a));
    assert!(std::ptr::eq(cso.g2(), &rb));
    assert!(std::ptr::eq(rb.g(), &b));
}
