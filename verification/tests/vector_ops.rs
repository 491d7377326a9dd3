//! The vector algebra, exercised on whole-unit values: one unit is 65536
//! in the fixed-point scale.

use rust_tracer::math::Vector3;

#[test]
fn vector_eq() {
    assert_eq!(
        Vector3(65536, 131072, 196608),
        Vector3(65536, 131072, 196608)
    );
}

#[test]
fn vector_add() {
    assert_eq!(
        Vector3(65536, 131072, 196608).add(Vector3(262144, 327680, 393216)),
        Vector3(327680, 458752, 589824)
    );
}

#[test]
fn vector_add_assign() {
    let mut v = Vector3(65536, 131072, 196608);
    v.add_assign(Vector3(262144, 327680, 393216));

    assert_eq!(v, Vector3(327680, 458752, 589824));
}

#[test]
fn vector_sub() {
    assert_eq!(
        Vector3(65536, 131072, 196608).sub(Vector3(262144, 327680, 393216)),
        Vector3(-196608, -196608, -196608)
    );
}

#[test]
fn vector_sub_assign() {
    let mut v = Vector3(65536, 131072, 196608);
    v.sub_assign(Vector3(262144, 327680, 393216));

    assert_eq!(v, Vector3(-196608, -196608, -196608));
}

#[test]
fn vector_div() {
    assert_eq!(
        Vector3(65536, 131072, 196608).div(131072),
        Vector3(32768, 65536, 98304)
    );
}

#[test]
fn vector_div_assign() {
    let mut v = Vector3(65536, 131072, 196608);
    v.div_assign(131072);

    assert_eq!(v, Vector3(32768, 65536, 98304));
}

#[test]
fn vector_mul() {
    assert_eq!(
        Vector3(65536, 131072, 196608).mul(131072),
        Vector3(131072, 262144, 393216)
    );
}

#[test]
fn vector_mul_assign() {
    let mut v = Vector3(65536, 131072, 196608);
    v.mul_assign(131072);

    assert_eq!(v, Vector3(131072, 262144, 393216));
}

#[test]
fn vector_neg() {
    assert_eq!(
        Vector3(65536, 131072, 196608).neg(),
        Vector3(-65536, -131072, -196608)
    );
}

#[test]
fn vector_dot_and_length() {
    // (1, 2, 2) . (1, 2, 2) = 9, and |(1, 2, 2)| = 3, exactly
    let v = Vector3(65536, 131072, 131072);
    assert_eq!(v.dot(&v), 9 * 65536);
    assert_eq!(v.length_squared(), 9 * 65536);
    assert_eq!(v.length(), 3 * 65536);
    assert_eq!(v.unit_vector(), Vector3(21845, 43690, 43690));
}

#[test]
fn vector_cross_axes() {
    // x cross y = z
    let x = Vector3(65536, 0, 0);
    let y = Vector3(0, 65536, 0);
    assert_eq!(x.cross(&y), Vector3(0, 0, 65536));
    assert_eq!(y.cross(&x), Vector3(0, 0, -65536));
}
