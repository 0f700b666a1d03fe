use hw_raytracer::fixed::{Fixed, SCALE};
use hw_raytracer::vector::{v3max, v3min, Vector3};

#[test]
fn sums_and_differences_go_by_component() {
    let a = Vector3::from_ints(1, 2, 3);
    let b = Vector3::from_ints(4, -5, 6);
    assert_eq!(a.saturating_add(b), Vector3::from_ints(5, -3, 9));
    assert_eq!(a.saturating_sub(b), Vector3::from_ints(-3, 7, -3));
    assert_eq!(a.saturating_neg(), Vector3::from_ints(-1, -2, -3));
    assert_eq!(a.scale(Fixed::from_int(2)), Vector3::from_ints(2, 4, 6));
    assert_eq!(Vector3::from_ints(2, 4, 6).unscale(Fixed::from_int(2)), a);
    assert_eq!(a.component_mul(b), Vector3::from_ints(4, -10, 18));
}

#[test]
fn dot_product_of_whole_vectors() {
    let a = Vector3::from_ints(1, 2, 3);
    let b = Vector3::from_ints(4, -5, 6);
    assert_eq!(a.dot(&b).raw, 12 * SCALE);
    assert_eq!(a.norm_squared().raw, 14 * SCALE);
}

#[test]
fn cross_product_of_the_axes() {
    let x = Vector3::from_ints(1, 0, 0);
    let y = Vector3::from_ints(0, 1, 0);
    let z = Vector3::from_ints(0, 0, 1);
    assert_eq!(x.cross(&y), z);
    assert_eq!(y.cross(&z), x);
    assert_eq!(z.cross(&x), y);
    assert_eq!(y.cross(&x), z.saturating_neg());
    let a = Vector3::from_ints(1, 2, 3);
    let b = Vector3::from_ints(4, 5, 6);
    assert_eq!(a.cross(&b), Vector3::from_ints(-3, 6, -3));
}

#[test]
fn length_of_a_three_four_five_triangle() {
    let v = Vector3::from_ints(3, 4, 0);
    assert_eq!(v.norm().raw, 5 * SCALE);
    let unit = v.normalize();
    assert_eq!(unit.x.raw, Fixed::from_ratio(3, 5).raw);
    assert_eq!(unit.y.raw, Fixed::from_ratio(4, 5).raw);
    assert_eq!(unit.z.raw, 0);
}

#[test]
fn length_does_not_overflow_for_long_vectors() {
    let v = Vector3::from_ints(300000, 400000, 0);
    assert_eq!(v.norm().raw, 500000 * SCALE);
}

#[test]
fn the_zero_vector_stays_zero_when_normalised() {
    assert_eq!(Vector3::zero().normalize(), Vector3::zero());
}

#[test]
fn components_by_axis() {
    let v = Vector3::from_ints(7, 8, 9);
    assert_eq!(v.axis(0), Fixed::from_int(7));
    assert_eq!(v.axis(1), Fixed::from_int(8));
    assert_eq!(v.axis(2), Fixed::from_int(9));
    assert_eq!(Vector3::new(Fixed::from_int(7), Fixed::from_int(8), Fixed::from_int(9)), v);
    assert_eq!(Vector3::from_element(Fixed::one()), Vector3::from_ints(1, 1, 1));
}

#[test]
fn minimum_and_maximum_by_component() {
    let a = Vector3::from_ints(1, 5, -3);
    let b = Vector3::from_ints(2, 4, -3);
    assert_eq!(v3min(&a, &b), Vector3::from_ints(1, 4, -3));
    assert_eq!(v3max(&a, &b), Vector3::from_ints(2, 5, -3));
}
