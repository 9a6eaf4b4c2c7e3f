use triadchain::decimal::Decimal;
use triadchain::errors::SierpinskiError;
use triadchain::fractal::FractalStructure;
use triadchain::genesis::genesis_fractal_triangle;
use triadchain::geometry::Point;
use triadchain::renderer::{
    calculate_bounds, calculate_scale, fill_color, layout_labels, layout_triangles, take_in,
    transform_point, Bounds, ColorScheme,
};
use triadchain::state::TriangleState;
use triadchain::subdivision::subdivide_to_depth;

fn dec(num: i64, scale: u32) -> Decimal {
    Decimal::new(num, scale)
}

#[test]
fn test_bounds_calculation() {
    let genesis = genesis_fractal_triangle().unwrap();
    let structure = subdivide_to_depth(genesis, 1).unwrap();

    let bounds = calculate_bounds(&structure).unwrap();

    assert!(bounds.max_x > bounds.min_x);
    assert!(bounds.max_y > bounds.min_y);
}

#[test]
fn bounds_hold_the_fractal_with_padding() {
    let genesis = genesis_fractal_triangle().unwrap();
    let structure = subdivide_to_depth(genesis, 2).unwrap();
    let bounds = calculate_bounds(&structure).unwrap();
    // the genesis triangle spans -0.5 to 0.5, the padding is a tenth of that
    assert_eq!(bounds.min_x, dec(-6, 1));
    assert_eq!(bounds.max_x, dec(6, 1));
    assert_eq!(bounds.min_y.to_text(), "-0.3886666666666666666666666667");
    assert_eq!(bounds.max_y.to_text(), "0.6773333333333333333333333333");
    assert!(matches!(calculate_bounds(&FractalStructure::new()), Err(SierpinskiError::ArithmeticOverflow)));

    let grown = take_in(
        Bounds { min_x: dec(0, 0), max_x: dec(1, 0), min_y: dec(0, 0), max_y: dec(1, 0) },
        &Point::new(dec(-2, 0), dec(5, 1)),
    );
    assert_eq!(grown.min_x, dec(-2, 0));
    assert_eq!(grown.max_x, dec(1, 0));
    assert_eq!(grown.min_y, dec(0, 0));
    assert_eq!(grown.max_y, dec(1, 0));
}

#[test]
fn scale_keeps_the_proportions() {
    let bounds = Bounds { min_x: dec(-1, 0), max_x: dec(3, 0), min_y: dec(0, 0), max_y: dec(2, 0) };
    let scale = calculate_scale(&bounds, 400, 400).unwrap();
    assert_eq!(scale.factor, dec(100, 0));
    assert_eq!(scale.offset_x, dec(-1, 0));
    assert_eq!(scale.offset_y, dec(0, 0));
    assert_eq!(scale.canvas_width, 400);
    assert_eq!(scale.canvas_height, 400);
    let tall = calculate_scale(&bounds, 400, 100).unwrap();
    assert_eq!(tall.factor, dec(50, 0));
    let p = transform_point(&Point::new(dec(1, 0), dec(15, 1)), &scale).unwrap();
    assert_eq!(p, Point::new(dec(200, 0), dec(150, 0)));
    let flat = Bounds { min_x: dec(1, 0), max_x: dec(1, 0), min_y: dec(0, 0), max_y: dec(2, 0) };
    assert!(matches!(calculate_scale(&flat, 400, 400), Err(SierpinskiError::ArithmeticOverflow)));
}

#[test]
fn colours_by_state() {
    let colors = ColorScheme::default();
    assert_eq!(colors.genesis, "#FF6B6B");
    assert_eq!(colors.active, "#4ECDC4");
    assert_eq!(colors.subdivided, "#45B7D1");
    assert_eq!(colors.void_triangle, "#F9F9F9");
    assert_eq!(colors.stroke, "#2C3E50");
    assert_eq!(colors.text, "#2C3E50");
    assert_eq!(colors.background, "#FFFFFF");
    assert_eq!(fill_color(&colors, TriangleState::Genesis), "#FF6B6B");
    assert_eq!(fill_color(&colors, TriangleState::Active), "#4ECDC4");
    assert_eq!(fill_color(&colors, TriangleState::Inactive), "#4ECDC4");
    assert_eq!(fill_color(&colors, TriangleState::Subdivided), "#45B7D1");
    assert_eq!(fill_color(&colors, TriangleState::Void), "#F9F9F9");
}

#[test]
fn layout_draws_the_deepest_level_first() {
    let genesis = genesis_fractal_triangle().unwrap();
    let structure = subdivide_to_depth(genesis, 2).unwrap();
    let bounds = calculate_bounds(&structure).unwrap();
    let scale = calculate_scale(&bounds, 400, 400).unwrap();
    let colors = ColorScheme::default();

    let all = layout_triangles(&structure, &scale, &colors, true).unwrap();
    assert_eq!(all.len(), 17);
    // twelve at depth 2, then four at depth 1, then the genesis triangle
    let fills: Vec<&str> = all.iter().map(|d| d.fill.as_str()).collect();
    assert_eq!(fills.iter().filter(|f| **f == "#4ECDC4").count(), 9);
    assert_eq!(fills.iter().filter(|f| **f == "#F9F9F9").count(), 4);
    assert_eq!(&fills[12..], &["#45B7D1", "#45B7D1", "#45B7D1", "#F9F9F9", "#45B7D1"]);
    assert_eq!(all.iter().filter(|d| d.is_void).count(), 4);
    let root = &all[16];
    let expected: Vec<Point> = structure
        .genesis()
        .unwrap()
        .triangle
        .vertices()
        .iter()
        .map(|v| transform_point(v, &scale).unwrap())
        .collect();
    assert_eq!(root.corners.to_vec(), expected);
    for drawn in all.iter() {
        for corner in drawn.corners.iter() {
            assert!(corner.x >= Decimal::zero() && corner.x <= dec(400, 0));
            assert!(corner.y >= Decimal::zero() && corner.y <= dec(400, 0));
        }
    }

    let solid = layout_triangles(&structure, &scale, &colors, false).unwrap();
    assert_eq!(solid.len(), 13);
    assert!(solid.iter().all(|d| !d.is_void));

    let labels = layout_labels(&structure, &scale).unwrap();
    assert_eq!(labels.len(), 13);
    assert_eq!(labels[0].text, "genesis");
    assert_eq!(labels[0].depth, 0);
    let texts: Vec<&str> = labels.iter().map(|l| l.text.as_str()).collect();
    assert_eq!(&texts[1..4], &["0", "1", "2"]);
    assert_eq!(&texts[4..7], &["0.0", "0.1", "0.2"]);
    assert_eq!(texts[12], "2.2");
    let centre = transform_point(&structure.genesis().unwrap().triangle.centroid().unwrap(), &scale).unwrap();
    assert_eq!(labels[0].position, centre);
}
