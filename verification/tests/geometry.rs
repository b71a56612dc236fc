use geometry::point::scale;
use geometry::point::Point;
use geometry::segment::Segment;
use geometry::sqrt::isqrt;

#[test]
fn origin() {
    assert_eq!(Point { x: 0, y: 0 }, Point::origin());
}

#[test]
fn magnitude() {
    assert_eq!(5, Point { y: 3, x: 4 }.magnitude());
    assert_eq!(13, Point { y: 5, x: 12 }.magnitude());
    assert_eq!(65, Point { y: -33, x: -56 }.magnitude());
}

#[test]
fn add() {
    let a = Point { x: 1, y: 2 };
    let b = Point { x: 1, y: 0 };
    assert_eq!(a.add(b), Point { x: 2, y: 2 });
}

#[test]
fn subtract() {
    let a = Point { x: 1, y: 2 };
    let b = Point { x: 1, y: 0 };
    assert_eq!(b.sub(a), Point { x: 0, y: -2 });
}

#[test]
fn mul() {
    assert_eq!(Point { x: 13, y: 20 }.mul(4), Point { x: 52, y: 80 });
    assert_eq!(scale(4, Point { x: 13, y: 20 }), Point { x: 52, y: 80 });
}

#[test]
fn div() {
    assert_eq!(Point { x: 7, y: 2 }.div(2), Point { x: 3, y: 1 });
}

#[test]
fn segment_length() {
    assert_eq!(
        0,
        Segment {
            start: Point::origin(),
            end: Point::origin()
        }
        .length()
    );
    assert_eq!(
        5,
        Segment {
            start: Point::origin(),
            end: Point { x: 3, y: 4 }
        }
        .length()
    );
    assert_eq!(
        13,
        Segment {
            start: Point { x: 17, y: 4 },
            end: Point { x: 22, y: 16 }
        }
        .length()
    );
}

#[test]
fn origin_is_identity() {
    let p = Point { x: -7, y: 42 };
    assert_eq!(Point::origin().add(p), p);
    assert_eq!(p.sub(Point::origin()), p);
}

#[test]
fn mul_commutes() {
    let p = Point { x: -9, y: 5 };
    assert_eq!(p.mul(-3), scale(-3, p));
    assert_eq!(p.mul(0), scale(0, p));
    assert_eq!(p.mul(11), scale(11, p));
}

#[test]
fn div_undoes_mul() {
    let p = Point { x: -12, y: 35 };
    assert_eq!(p.mul(-4).div(-4), p);
    assert_eq!(p.mul(9).div(9), p);
    assert_eq!(Point::origin().mul(7).div(7), Point::origin());
}

#[test]
fn magnitude_of_origin_is_zero() {
    assert_eq!(0, Point { x: 0, y: 0 }.magnitude());
}

#[test]
fn magnitude_rounds_toward_zero() {
    assert_eq!(1, Point { x: 1, y: 1 }.magnitude());
    assert_eq!(2, Point { x: 2, y: 2 }.magnitude());
    assert_eq!(7, Point { x: 5, y: 6 }.magnitude());
}

#[test]
fn magnitude_of_extreme_coordinates() {
    // floor(sqrt(2) * 2^63), the norm of the most negative corner
    assert_eq!(
        13043817825332782212,
        Point {
            x: i64::MIN,
            y: i64::MIN
        }
        .magnitude()
    );
}

#[test]
fn div_rounds_toward_zero() {
    assert_eq!(Point { x: -7, y: 7 }.div(2), Point { x: -3, y: 3 });
    assert_eq!(Point { x: 7, y: -7 }.div(-2), Point { x: -3, y: 3 });
}

#[test]
fn degenerate_segment_has_zero_length() {
    let p = Point { x: 5, y: -5 };
    assert_eq!(0, Segment { start: p, end: p }.length());
    assert_ne!(
        0,
        Segment {
            start: p,
            end: Point { x: 5, y: -4 }
        }
        .length()
    );
}

#[test]
fn isqrt_edges() {
    assert_eq!(0, isqrt(0));
    assert_eq!(1, isqrt(1));
    assert_eq!(1, isqrt(3));
    assert_eq!(2, isqrt(4));
    assert_eq!(3, isqrt(15));
    assert_eq!(4, isqrt(16));
    assert_eq!(u64::MAX, isqrt(u128::MAX));
}
