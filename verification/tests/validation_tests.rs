use triadchain::address::TriangleAddress;
use triadchain::decimal::Decimal;
use triadchain::errors::SierpinskiError;
use triadchain::fractal::{FractalStructure, FractalTriangle};
use triadchain::genesis::genesis_fractal_triangle;
use triadchain::geometry::Point;
use triadchain::state::TriangleState;
use triadchain::subdivision::{subdivide_to_depth, subdivide_triangle};
use triadchain::text::number_to_text;
use triadchain::triangle::Triangle;
use triadchain::validation::{
    is_valid_fractal_triangle, is_valid_triangle, validate_area_conservation,
    validate_equilateral_triangle, validate_fractal_structure, validate_fractal_triangle,
    validate_parent_child_relationship, validate_sierpinski_properties, validate_triangle,
    ValidationResult,
};

fn dec(num: i64, scale: u32) -> Decimal {
    Decimal::new(num, scale)
}

fn create_test_triangle() -> Triangle {
    Triangle::new(
        Point::new(dec(0, 0), dec(0, 0)),
        Point::new(dec(1, 0), dec(0, 0)),
        Point::new(dec(5, 1), dec(866, 3)),
    )
    .unwrap()
}

#[test]
fn test_valid_triangle_validation() {
    let triangle = create_test_triangle();
    let result = validate_triangle(&triangle);
    assert!(result.is_valid);
    assert!(result.errors.is_empty());
}

#[test]
fn test_collinear_triangle_validation() {
    let triangle = Triangle::new(
        Point::new(dec(0, 0), dec(0, 0)),
        Point::new(dec(1, 0), dec(1, 0)),
        Point::new(dec(2, 0), dec(2, 0)),
    );

    // This should fail during triangle creation, not validation
    assert!(triangle.is_err());
}

#[test]
fn test_fractal_triangle_validation() {
    let genesis = genesis_fractal_triangle().unwrap();
    let result = validate_fractal_triangle(&genesis);
    assert!(result.is_valid);
}

#[test]
fn test_parent_child_validation() {
    let genesis = genesis_fractal_triangle().unwrap();
    let subdivision = subdivide_triangle(&genesis).unwrap();

    for child in &subdivision.children {
        let result = validate_parent_child_relationship(&subdivision.parent, child);
        assert!(result.is_valid, "Validation failed: {:?}", result.errors);
    }
}

#[test]
fn test_equilateral_validation() {
    let triangle = create_test_triangle();
    let result = validate_equilateral_triangle(&triangle);

    // This should pass since our test triangle is approximately equilateral
    if !result.is_valid {
        println!("Equilateral validation errors: {:?}", result.errors);
    }
}

#[test]
fn validation_result_gathers_findings() {
    let mut result = ValidationResult::success();
    assert!(result.is_valid);
    assert!(result.errors.is_empty() && result.warnings.is_empty());
    result.add_warning("odd".to_string());
    assert!(result.is_valid);
    result.add_error("wrong".to_string());
    assert!(!result.is_valid);

    let mut other = ValidationResult::success();
    other.add_warning("odd too".to_string());
    other.combine(result.clone());
    assert!(!other.is_valid);
    assert_eq!(other.errors, vec!["wrong".to_string()]);
    assert_eq!(other.warnings, vec!["odd too".to_string(), "odd".to_string()]);

    let mut fine = ValidationResult::success();
    fine.combine(ValidationResult::success());
    assert!(fine.is_valid);

    let failed = ValidationResult::failure(vec!["a".to_string(), "b".to_string()]);
    assert!(!failed.is_valid);
    assert_eq!(failed.errors.len(), 2);
    assert!(failed.warnings.is_empty());
    assert_eq!(number_to_text(0), "0");
    assert_eq!(number_to_text(1907), "1907");
    assert_eq!(number_to_text(u64::MAX), "18446744073709551615");
}

#[test]
fn triangle_validation_warns_of_far_coordinates() {
    let far = Triangle::new(
        Point::new(dec(-1_000_001, 0), dec(0, 0)),
        Point::new(dec(1, 0), dec(-2_000_000, 0)),
        Point::new(dec(-1_000_000, 0), dec(866, 3)),
    )
    .unwrap();
    let result = validate_triangle(&far);
    assert!(result.is_valid);
    assert!(is_valid_triangle(&far));
    assert_eq!(
        result.warnings,
        vec![
            "Vertex 0 has very large negative x coordinate".to_string(),
            "Vertex 1 has very large negative y coordinate".to_string(),
        ]
    );
}

#[test]
fn fractal_triangle_validation_finds_inconsistencies() {
    let t = create_test_triangle();
    let address = TriangleAddress::genesis();
    let mut genesis = FractalTriangle::with_identity(1, 10, t, TriangleState::Genesis, address.clone(), 3);
    genesis.parent_id = Some(2);
    genesis.updated_at = 9;
    let result = validate_fractal_triangle(&genesis);
    assert!(!result.is_valid);
    assert!(!is_valid_fractal_triangle(&genesis));
    assert_eq!(
        result.errors,
        vec![
            "Genesis triangle must have depth 0".to_string(),
            "Genesis triangle cannot have a parent".to_string(),
            "Updated timestamp cannot be before created timestamp".to_string(),
        ]
    );

    let subdivided = FractalTriangle::with_identity(1, 10, t, TriangleState::Subdivided, address.clone(), 21);
    assert_eq!(
        validate_fractal_triangle(&subdivided).errors,
        vec![
            "Subdivided triangle must have children".to_string(),
            "Triangle depth 21 exceeds maximum allowed depth 20".to_string(),
        ]
    );

    let active = FractalTriangle::with_identity(1, 10, t, TriangleState::Active, address.clone(), 0);
    let result = validate_fractal_triangle(&active);
    assert!(result.is_valid);
    assert_eq!(result.warnings, vec!["Active triangle at depth 0 should probably be Genesis".to_string()]);

    let void = FractalTriangle::with_identity(1, 10, t, TriangleState::Void, address, 0);
    let result = validate_fractal_triangle(&void);
    assert!(result.is_valid && result.warnings.is_empty());
}

#[test]
fn parent_child_validation_finds_broken_links() {
    let t = create_test_triangle();
    let parent = FractalTriangle::with_identity(1, 0, t, TriangleState::Active, TriangleAddress::genesis(), 0);
    let mut child = FractalTriangle::with_identity(
        2,
        0,
        Triangle::new(
            Point::new(dec(10, 0), dec(10, 0)),
            Point::new(dec(20, 0), dec(10, 0)),
            Point::new(dec(15, 0), dec(20, 0)),
        )
        .unwrap(),
        TriangleState::Active,
        TriangleAddress::genesis(),
        5,
    );
    child.parent_id = Some(7);
    let result = validate_parent_child_relationship(&parent, &child);
    assert!(!result.is_valid);
    assert_eq!(
        result.errors,
        vec![
            "Child depth 5 should be parent depth 0 + 1".to_string(),
            "Child parent_id does not match parent ID".to_string(),
            "Parent does not contain child ID in its child list".to_string(),
            "Parent of a child triangle must be in Subdivided state".to_string(),
            "Child triangle area should be smaller than parent area".to_string(),
        ]
    );
    assert_eq!(result.warnings, vec!["Child triangle centroid is not inside parent triangle".to_string()]);

    let genesis = genesis_fractal_triangle().unwrap();
    let made = subdivide_triangle(&genesis).unwrap();
    let result = validate_parent_child_relationship(&made.parent, &made.void_triangle);
    assert!(result.is_valid);
    assert!(result.warnings.is_empty());
}

#[test]
fn structure_validation() {
    let empty = FractalStructure::new();
    let result = validate_fractal_structure(&empty);
    assert!(!result.is_valid);
    assert_eq!(result.errors, vec!["Fractal structure must have a genesis triangle".to_string()]);

    let genesis = genesis_fractal_triangle().unwrap();
    let structure = subdivide_to_depth(genesis, 2).unwrap();
    let result = validate_fractal_structure(&structure);
    assert!(result.is_valid, "{:?}", result.errors);
    // the children of the genesis triangle have been subdivided themselves
    assert_eq!(result.warnings.len(), 1, "{:?}", result.warnings);
    assert!(result.warnings[0].ends_with(
        " subdivision should have 3 active + 1 void children, found 0 active + 1 void"
    ));
    let genesis = genesis_fractal_triangle().unwrap();
    let flat = subdivide_to_depth(genesis, 1).unwrap();
    let result = validate_fractal_structure(&flat);
    assert!(result.is_valid && result.warnings.is_empty(), "{:?}", result);
    // the height of the genesis triangle is 0.866 of its side, which is
    // equilateral to five digits and not to six; the areas are conserved
    let result = validate_sierpinski_properties(&structure);
    assert_eq!(result.errors, vec!["Genesis triangle is not equilateral".to_string()]);
    assert!(result.warnings.is_empty(), "{:?}", result.warnings);

    // an orphan, a parent that lists a child which is not held, and a
    // triangle with something wrong in itself
    let t = create_test_triangle();
    let mut structure = FractalStructure::new();
    let root = FractalTriangle::with_identity(1, 0, t, TriangleState::Genesis, TriangleAddress::genesis(), 0);
    structure.set_genesis(root).unwrap();
    let mut orphan = FractalTriangle::with_identity(
        2,
        5,
        t,
        TriangleState::Subdivided,
        TriangleAddress::new(vec![0]).unwrap(),
        1,
    );
    orphan.parent_id = Some(3);
    orphan.child_ids = vec![9];
    orphan.updated_at = 4;
    structure.add_triangle(orphan).unwrap();
    let result = validate_fractal_structure(&structure);
    assert!(!result.is_valid);
    assert_eq!(
        result.errors,
        vec![
            "Triangle 00000000-0000-0000-0000-000000000002 at depth 1 failed validation: [\"Updated timestamp cannot be before created timestamp\"]".to_string(),
            "Triangle 00000000-0000-0000-0000-000000000002 references non-existent parent 00000000-0000-0000-0000-000000000003".to_string(),
            "Triangle 00000000-0000-0000-0000-000000000002 has 1 child IDs but 0 actual children found".to_string(),
        ]
    );
}

#[test]
fn structure_validation_looks_at_families() {
    let t = create_test_triangle();
    let small = Triangle::new(
        Point::new(dec(0, 0), dec(0, 0)),
        Point::new(dec(5, 1), dec(0, 0)),
        Point::new(dec(25, 2), dec(433, 3)),
    )
    .unwrap();
    let mut structure = FractalStructure::new();
    let mut root = FractalTriangle::with_identity(1, 0, t, TriangleState::Genesis, TriangleAddress::genesis(), 0);
    root.change_state(TriangleState::Subdivided).unwrap();
    root.state = TriangleState::Genesis;
    structure.set_genesis(root.clone()).unwrap();
    root.state = TriangleState::Subdivided;
    structure.add_triangle(root.clone()).unwrap();
    for digit in 0..4u8 {
        let child = FractalTriangle::child(small, &root, digit).unwrap();
        structure.add_triangle(child).unwrap();
    }
    let result = validate_fractal_structure(&structure);
    assert!(result.is_valid, "{:?}", result.errors);
    assert_eq!(
        result.warnings,
        vec![
            "Triangle 00000000-0000-0000-0000-000000000001 subdivision should have 3 active + 1 void children, found 4 active + 0 void".to_string()
        ]
    );
    let children = structure.children(&1);
    assert_eq!(validate_area_conservation(structure.get_triangle(&1).unwrap(), &children), Some(true));
    let fewer = children[..3].to_vec();
    assert_eq!(validate_area_conservation(structure.get_triangle(&1).unwrap(), &fewer), Some(false));
}

#[test]
fn equilateral_validation_is_strict() {
    // the sides of the test triangle differ by 0.00002
    let result = validate_equilateral_triangle(&create_test_triangle());
    assert!(!result.is_valid);
    assert_eq!(result.errors.len(), 3);
    assert!(result.errors[0].starts_with("Side 0 length 1"), "{:?}", result.errors);
    assert!(result.errors[0].contains(" differs from average 0.99998"), "{:?}", result.errors);

    let scalene = Triangle::new(
        Point::new(dec(0, 0), dec(0, 0)),
        Point::new(dec(4, 0), dec(0, 0)),
        Point::new(dec(0, 0), dec(3, 0)),
    )
    .unwrap();
    let result = validate_equilateral_triangle(&scalene);
    // the side of length 4 is the mean of 4, 5 and 3
    assert_eq!(result.errors.len(), 3);
    // a square root comes with all the digits a decimal can carry
    assert_eq!(
        result.errors[1],
        "Side 1 length 5.000000000000000000000000000 differs from average 4.000000000000000000000000000 by 1.000000000000000000000000000"
    );
    assert!(result.errors[2].starts_with("Side 2 length 3.0000"));
    assert_eq!(result.errors[0], "Triangle is not equilateral");

    let precise = Triangle::new(
        Point::new(dec(0, 0), dec(0, 0)),
        Point::new(dec(1, 0), dec(0, 0)),
        Point::new(dec(5, 1), dec(8660254037844386, 16)),
    )
    .unwrap();
    let result = validate_equilateral_triangle(&precise);
    assert!(result.is_valid, "{:?}", result.errors);

    let mut structure = FractalStructure::new();
    structure
        .set_genesis(FractalTriangle::with_identity(
            1,
            0,
            scalene,
            TriangleState::Genesis,
            TriangleAddress::genesis(),
            0,
        ))
        .unwrap();
    let result = validate_sierpinski_properties(&structure);
    assert_eq!(result.errors, vec!["Genesis triangle is not equilateral".to_string()]);
}

#[test]
fn error_messages() {
    let cases: Vec<(SierpinskiError, &str)> = vec![
        (SierpinskiError::invalid_triangle("flat"), "Invalid triangle: flat"),
        (SierpinskiError::validation("no"), "Geometric validation failed: no"),
        (SierpinskiError::subdivision("deep"), "Subdivision failed: deep"),
        (
            SierpinskiError::InvalidAddress { address: "x.y".to_string() },
            "Invalid address format: x.y",
        ),
        (
            SierpinskiError::MaxDepthExceeded { max_depth: 20 },
            "Maximum subdivision depth (20) exceeded",
        ),
        (
            SierpinskiError::PrecisionError { details: "nan".to_string() },
            "Coordinate precision error: nan",
        ),
        (
            SierpinskiError::StateTransitionError { from: "Void".to_string(), to: "Active".to_string() },
            "State transition error: from Void to Active",
        ),
        (
            SierpinskiError::HierarchyError { reason: "orphan".to_string() },
            "Parent-child relationship error: orphan",
        ),
        (SierpinskiError::ArithmeticOverflow, "Arithmetic overflow in geometric calculation"),
        (SierpinskiError::CollinearPoints, "Invalid triangle configuration: points are collinear"),
        (SierpinskiError::InvalidArea, "Triangle area is zero or negative"),
        (
            SierpinskiError::AddressComponentOutOfRange { component: 255 },
            "Address path component out of range: 255",
        ),
    ];
    for (error, text) in cases {
        assert_eq!(error.message(), text);
    }
}
