use triadchain::decimal::Decimal;
use triadchain::errors::SierpinskiError;
use triadchain::geometry::{sqrt, Point, Vector2D};
use triadchain::triangle::Triangle;

fn dec(num: i64, scale: u32) -> Decimal {
    Decimal::new(num, scale)
}

fn create_test_triangle() -> Triangle {
    Triangle::new(
        Point::new(dec(0, 0), dec(0, 0)),
        Point::new(dec(1, 0), dec(0, 0)),
        Point::new(dec(5, 1), dec(866, 3)), // Approximately equilateral
    )
    .unwrap()
}

#[test]
fn test_point_creation() {
    let p = Point::new(Decimal::from_int(1), Decimal::from_int(2));
    assert_eq!(p.x, Decimal::from_int(1));
    assert_eq!(p.y, Decimal::from_int(2));
}

#[test]
fn test_midpoint() {
    let p1 = Point::new(Decimal::from_int(0), Decimal::from_int(0));
    let p2 = Point::new(Decimal::from_int(2), Decimal::from_int(2));
    let mid = p1.midpoint(&p2).unwrap();
    assert_eq!(mid.x, Decimal::from_int(1));
    assert_eq!(mid.y, Decimal::from_int(1));
}

#[test]
fn test_collinear_points() {
    let p1 = Point::new(Decimal::from_int(0), Decimal::from_int(0));
    let p2 = Point::new(Decimal::from_int(1), Decimal::from_int(1));
    let p3 = Point::new(Decimal::from_int(2), Decimal::from_int(2));
    assert!(Point::are_collinear(&p1, &p2, &p3).unwrap());
}

#[test]
fn test_triangle_creation() {
    let triangle = create_test_triangle();
    assert_eq!(triangle.vertices().len(), 3);
}

#[test]
fn test_triangle_area() {
    let triangle = create_test_triangle();
    let area = triangle.area().unwrap();
    assert!(area > Decimal::zero());
}

#[test]
fn test_triangle_centroid() {
    let triangle = create_test_triangle();
    let centroid = triangle.centroid().unwrap();
    // Centroid should be approximately (0.5, 0.289)
    assert!(centroid.x.checked_sub(dec(5, 1)).unwrap().abs() < dec(1, 10));
}

#[test]
fn test_collinear_triangle_rejection() {
    let result = Triangle::new(
        Point::new(dec(0, 0), dec(0, 0)),
        Point::new(dec(1, 0), dec(1, 0)),
        Point::new(dec(2, 0), dec(2, 0)),
    );
    assert!(matches!(result, Err(SierpinskiError::CollinearPoints)));
}

#[test]
fn test_triangle_contains_point() {
    let triangle = create_test_triangle();
    let center = triangle.centroid().unwrap();
    assert!(triangle.contains_point(&center).unwrap());

    let outside_point = Point::new(dec(10, 0), dec(10, 0));
    assert!(!triangle.contains_point(&outside_point).unwrap());
}

#[test]
fn decimal_values_compare_by_number() {
    assert_eq!(dec(10, 1), dec(1, 0));
    assert_eq!(dec(100, 2), Decimal::one());
    assert!(dec(5, 1) < dec(1, 0));
    assert!(dec(-5, 1) < Decimal::zero());
    assert!(dec(15, 1).gt(&dec(149, 2)));
    assert!(dec(15, 1).ge(&dec(150, 2)));
    assert!(dec(15, 1).le(&dec(150, 2)));
    assert!(!dec(15, 1).lt(&dec(150, 2)));
    assert!(dec(15, 1).eq_value(&dec(1500, 3)));
    assert!(!dec(15, 1).eq_value(&dec(1501, 3)));
    assert_eq!(dec(-3141, 3).abs().to_text(), "3.141");
    assert_eq!(dec(3141, 3).neg().to_text(), "-3.141");
    assert_eq!(dec(3141, 3).mantissa(), 3141);
    assert_eq!(dec(3141, 3).scale(), 3);
    assert!(dec(0, 5).is_zero());
    assert!(dec(-1, 5).is_negative());
    assert!(dec(1, 5).is_positive());
    assert_eq!(Decimal::from_unsigned(7, 1).to_text(), "0.7");
}

#[test]
fn decimal_arithmetic_goes_through_the_decimal_crate() {
    assert_eq!(dec(15, 1).checked_add(dec(25, 2)).unwrap().to_text(), "1.75");
    assert_eq!(dec(15, 1).checked_sub(dec(25, 2)).unwrap().to_text(), "1.25");
    assert_eq!(dec(15, 1).checked_mul(dec(25, 2)).unwrap().to_text(), "0.375");
    assert_eq!(dec(1, 0).checked_div(dec(4, 0)).unwrap().to_text(), "0.25");
    assert_eq!(dec(1, 0).checked_div(dec(3, 0)).unwrap().to_text(), "0.3333333333333333333333333333");
    assert!(dec(1, 0).checked_div(dec(0, 0)).is_none());
    let largest = Decimal::from_parts(79_228_162_514_264_337_593_543_950_335, 0).unwrap();
    assert!(largest.checked_add(dec(1, 0)).is_none());
    assert!(largest.checked_mul(dec(2, 0)).is_none());
    assert!(Decimal::from_parts(79_228_162_514_264_337_593_543_950_336, 0).is_none());
    assert!(Decimal::from_parts(1, 29).is_none());
}

#[test]
fn square_root_by_newton() {
    assert_eq!(sqrt(Decimal::zero()).unwrap(), Decimal::zero());
    assert!(matches!(sqrt(dec(-1, 0)), Err(SierpinskiError::ArithmeticOverflow)));
    let root = sqrt(dec(4, 0)).unwrap();
    assert!(root.checked_sub(dec(2, 0)).unwrap().abs() < dec(1, 12));
    let root = sqrt(dec(2, 0)).unwrap();
    assert!(root.checked_sub(dec(14142135623731, 13)).unwrap().abs() < dec(1, 12));
    let origin = Point::new(dec(0, 0), dec(0, 0));
    assert_eq!(origin.decimal_sqrt(dec(4, 0)).unwrap(), sqrt(dec(4, 0)).unwrap());
}

#[test]
fn distances_and_cross_products() {
    let a = Point::new(dec(0, 0), dec(0, 0));
    let b = Point::new(dec(3, 0), dec(4, 0));
    let d = a.distance_to(&b).unwrap();
    assert!(d.checked_sub(dec(5, 0)).unwrap().abs() < dec(1, 12));
    let c = Point::new(dec(0, 0), dec(2, 0));
    assert_eq!(a.cross_product(&b, &c).unwrap(), dec(6, 0));
    assert_eq!(a.cross_product(&c, &b).unwrap(), dec(-6, 0));
    assert!(!Point::are_collinear(&a, &b, &c).unwrap());
    assert!(Point::is_below_collinear_threshold(dec(99, 12)));
    assert!(Point::is_below_collinear_threshold(dec(-99, 12)));
    assert!(!Point::is_below_collinear_threshold(dec(1, 10)));
}

#[test]
fn vectors() {
    let from = Point::new(dec(1, 0), dec(1, 0));
    let to = Point::new(dec(4, 0), dec(5, 0));
    let v = Vector2D::from_points(&from, &to).unwrap();
    assert_eq!(v.x, dec(3, 0));
    assert_eq!(v.y, dec(4, 0));
    assert!(v.magnitude().unwrap().checked_sub(dec(5, 0)).unwrap().abs() < dec(1, 12));
    let unit = v.normalize().unwrap();
    assert!(unit.x.checked_sub(dec(6, 1)).unwrap().abs() < dec(1, 12));
    assert!(unit.y.checked_sub(dec(8, 1)).unwrap().abs() < dec(1, 12));
    assert_eq!(v.dot(&Vector2D::new(dec(2, 0), dec(-1, 0))).unwrap(), dec(2, 0));
    let zero = Vector2D::new(dec(0, 0), dec(0, 0));
    assert!(matches!(zero.normalize(), Err(SierpinskiError::ArithmeticOverflow)));
}

#[test]
fn triangle_area_is_half_the_cross_product() {
    let a = Point::new(dec(0, 0), dec(0, 0));
    let b = Point::new(dec(4, 0), dec(0, 0));
    let c = Point::new(dec(0, 0), dec(3, 0));
    let t = Triangle::new(a, b, c).unwrap();
    assert_eq!(t.area().unwrap(), dec(6, 0));
    // the area does not depend on the order of the vertices
    assert_eq!(Triangle::new(b, a, c).unwrap().area().unwrap(), dec(6, 0));
    assert_eq!(Triangle::new(c, b, a).unwrap().area().unwrap(), dec(6, 0));
    assert_eq!(Triangle::new(b, c, a).unwrap().area().unwrap(), dec(6, 0));
    assert!(t.perimeter().unwrap().checked_sub(dec(12, 0)).unwrap().abs() < dec(1, 12));
    let sides = t.side_lengths().unwrap();
    assert!(sides[0].checked_sub(dec(4, 0)).unwrap().abs() < dec(1, 12));
    assert!(sides[1].checked_sub(dec(5, 0)).unwrap().abs() < dec(1, 12));
    assert!(sides[2].checked_sub(dec(3, 0)).unwrap().abs() < dec(1, 12));
    assert!(!t.is_equilateral().unwrap());
    assert!(!t.is_isosceles().unwrap());
    let mids = t.side_midpoints().unwrap();
    assert_eq!(mids[0], Point::new(dec(2, 0), dec(0, 0)));
    assert_eq!(mids[1], Point::new(dec(2, 0), dec(15, 1)));
    assert_eq!(mids[2], Point::new(dec(0, 0), dec(15, 1)));
    let centroid = t.centroid().unwrap();
    assert!(centroid.x.checked_sub(dec(13333333333333, 13)).unwrap().abs() < dec(1, 12));
    assert_eq!(centroid.y, dec(1, 0));
}

#[test]
fn triangle_shapes() {
    let t = create_test_triangle();
    assert!(t.is_equilateral().unwrap());
    assert!(t.is_isosceles().unwrap());
    let iso = Triangle::new(
        Point::new(dec(0, 0), dec(0, 0)),
        Point::new(dec(2, 0), dec(0, 0)),
        Point::new(dec(1, 0), dec(5, 0)),
    )
    .unwrap();
    assert!(!iso.is_equilateral().unwrap());
    assert!(iso.is_isosceles().unwrap());
    let big = Triangle::new(
        Point::new(dec(0, 0), dec(0, 0)),
        Point::new(dec(2, 0), dec(0, 0)),
        Point::new(dec(1, 0), dec(1732, 3)),
    )
    .unwrap();
    let factor = big.scale_factor(&t).unwrap();
    assert!(factor.checked_sub(dec(2, 0)).unwrap().abs() < dec(1, 9));
}

#[test]
fn triangle_hash_is_a_digest_of_the_coordinates() {
    let t = create_test_triangle();
    let hash = t.hash();
    assert_eq!(hash.len(), 64);
    assert!(hash.chars().all(|c| c.is_ascii_hexdigit() && !c.is_ascii_uppercase()));
    let expected = blake3::hash("00100.50.866".as_bytes()).to_hex().to_string();
    assert_eq!(hash, expected);
    assert_eq!(hash, create_test_triangle().hash());
    let other = Triangle::new(
        Point::new(dec(0, 0), dec(0, 0)),
        Point::new(dec(1, 0), dec(0, 0)),
        Point::new(dec(5, 1), dec(867, 3)),
    )
    .unwrap();
    assert_ne!(hash, other.hash());
}

#[test]
fn degenerate_triangles_are_rejected() {
    let a = Point::new(dec(0, 0), dec(0, 0));
    assert!(matches!(Triangle::new(a, a, a), Err(SierpinskiError::CollinearPoints)));
    let tiny = Triangle::new(
        Point::new(dec(0, 0), dec(0, 0)),
        Point::new(dec(1, 6), dec(0, 0)),
        Point::new(dec(0, 0), dec(1, 6)),
    );
    assert!(matches!(tiny, Err(SierpinskiError::CollinearPoints)));
    let huge = Decimal::from_parts(79_228_162_514_264_337_593_543_950_335, 0).unwrap();
    let overflow = Triangle::new(
        Point::new(huge, huge),
        Point::new(huge.neg(), huge),
        Point::new(huge, huge.neg()),
    );
    assert!(matches!(overflow, Err(SierpinskiError::ArithmeticOverflow)));
}

#[test]
fn area_of_rounded_products_depends_on_the_order_in_the_last_digit_only() {
    // products of coordinates with fifteen fractional digits do not fit
    // into twenty-eight digits and are rounded
    let p1 = Point::new(dec(1_000_000_000_000_013, 15), dec(87, 15));
    let p2 = Point::new(dec(2_000_000_000_000_043, 15), dec(1_000_000_000_000_021, 15));
    let p3 = Point::new(dec(23, 15), dec(3_000_000_000_000_073, 15));
    let first = Triangle::new(p1, p2, p3).unwrap().area().unwrap();
    let second = Triangle::new(p3, p1, p2).unwrap().area().unwrap();
    assert_eq!(first.to_text(), "2.0000000000000000000000000002");
    assert_eq!(second.to_text(), "2.0000000000000000000000000001");
    assert!(first.checked_sub(second).unwrap().abs() <= dec(1, 27));
}

#[test]
fn points_and_triangles_as_text() {
    assert_eq!(Point::new(dec(15, 1), dec(-2, 0)).to_text(), "(1.5, -2)");
    assert_eq!(create_test_triangle().to_text(), "Triangle[(0, 0), (1, 0), (0.5, 0.866)]");
}
