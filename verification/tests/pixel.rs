use std::ops::{Add, Div, Mul};

use inksy::pixel::{Area, Vex, Zero};

#[derive(Clone, Copy, Debug, PartialEq, Default)]
struct Length(f64);

#[derive(Clone, Copy, Debug, PartialEq)]
struct Square(f64);

impl Zero for Length {
    fn zero() -> Self {
        Length(0.0)
    }
}

impl Zero for Square {
    fn zero() -> Self {
        Square(0.0)
    }
}

impl Mul for Length {
    type Output = Square;

    fn mul(self, other: Length) -> Square {
        Square(self.0 * other.0)
    }
}

impl Add for Square {
    type Output = Square;

    fn add(self, other: Square) -> Square {
        Square(self.0 + other.0)
    }
}

impl Div for Length {
    type Output = f64;

    fn div(self, other: Length) -> f64 {
        self.0 / other.0
    }
}

impl Area for Square {
    type Length = Length;

    fn sqrt(self) -> Length {
        Length(self.0.sqrt())
    }
}

#[test]
fn zero_of_integers() {
    assert_eq!(<i64 as Zero>::zero(), 0);
}

#[test]
fn map_applies_to_each_component() {
    let v = Vex([1u8, 2, 3]).map(|x| x as u32 * 2);
    assert_eq!(v.0, [2, 4, 6]);
}

#[test]
fn dot_of_integer_vectors() {
    let d: i64 = Vex([1i64, 2]).dot(Vex([3i64, 4]));
    assert_eq!(d, 11);
    let d: i64 = Vex([2i64, -3, 5]).dot(Vex([7i64, 11, -13]));
    assert_eq!(d, 14 - 33 - 65);
    let d: i64 = Vex::<0, i64>([]).dot(Vex::<0, i64>([]));
    assert_eq!(d, 0);
}

#[test]
fn cross_of_integer_vectors() {
    let c: i64 = Vex([1i64, 2]).cross(Vex([3i64, 4]));
    assert_eq!(c, -2);
    let c: i64 = Vex([3i64, 4]).cross(Vex([1i64, 2]));
    assert_eq!(c, 2);
    let c: i64 = Vex([2i64, 4]).cross(Vex([1i64, 2]));
    assert_eq!(c, 0);
}

#[test]
fn norm_is_the_length() {
    let n = Vex([Length(3.0), Length(4.0)]).norm::<Square>();
    assert_eq!(n, Length(5.0));
}

#[test]
fn normalized_has_unit_length() {
    let u: Vex<2, f64> = Vex([Length(3.0), Length(4.0)]).normalized::<f64, Square>();
    assert!((u.0[0] - 0.6).abs() < 1e-12);
    assert!((u.0[1] - 0.8).abs() < 1e-12);
}

#[test]
fn componentwise_arithmetic() {
    let a = Vex([1i64, 2, 3]);
    let b = Vex([10i64, 20, 30]);
    assert_eq!((a + b).0, [11, 22, 33]);
    assert_eq!((b - a).0, [9, 18, 27]);
    assert_eq!((-a).0, [-1, -2, -3]);
    assert_eq!((a * 4i64).0, [4, 8, 12]);
    assert_eq!((b / 10i64).0, [1, 2, 3]);
    assert_eq!(<Vex<3, i64> as Zero>::zero().0, [0, 0, 0]);
}

#[test]
fn arithmetic_on_lengths() {
    let v = Vex([Length(1.5), Length(-2.0)]);
    let w: Vex<2, f64> = v.map(|l| l.0 * 2.0);
    assert_eq!(w.0, [3.0, -4.0]);
    assert_eq!((Vex([1.0f64, 2.0]) * 0.5f64).0, [0.5, 1.0]);
}
