use triadchain::address::TriangleAddress;
use triadchain::decimal::Decimal;
use triadchain::errors::SierpinskiError;
use triadchain::fractal::{FractalStructure, FractalTriangle};
use triadchain::genesis::{
    genesis_fractal_triangle, genesis_triangle, genesis_triangle_bounded, genesis_triangle_with_size,
    max_theoretical_depth, validate_genesis_triangle, GenesisProperties,
};
use triadchain::geometry::Point;
use triadchain::state::TriangleState;
use triadchain::subdivision::{
    areas_conserved, child_area_ratio, subdivide_and_add_to_structure, subdivide_to_depth,
    subdivide_to_depth_with, subdivide_triangle, subdivide_triangle_with, total_triangles_to_depth,
    triangles_at_depth, validate_subdivision, void_area_ratio, PartDraws, SubdivisionStats,
};
use triadchain::triangle::Triangle;

fn dec(num: i64, scale: u32) -> Decimal {
    Decimal::new(num, scale)
}

fn create_test_triangle() -> Triangle {
    Triangle::new(
        Point::new(dec(0, 0), dec(0, 0)),
        Point::new(dec(1, 0), dec(0, 0)),
        Point::new(dec(5, 1), dec(866, 3)),
    )
    .unwrap()
}

#[test]
fn test_fractal_triangle_creation() {
    let triangle = create_test_triangle();
    let fractal_triangle = FractalTriangle::genesis(triangle);

    assert_eq!(fractal_triangle.state, TriangleState::Genesis);
    assert_eq!(fractal_triangle.depth, 0);
    assert!(fractal_triangle.parent_id.is_none());
    assert!(fractal_triangle.child_ids.is_empty());
}

#[test]
fn test_child_creation() {
    let parent_triangle = create_test_triangle();
    let parent = FractalTriangle::genesis(parent_triangle);

    let child_triangle = create_test_triangle();
    let child = FractalTriangle::child(child_triangle, &parent, 0).unwrap();

    assert_eq!(child.depth, 1);
    assert_eq!(child.parent_id, Some(parent.id));
    assert_eq!(child.state, TriangleState::Active);
}

#[test]
fn test_fractal_structure() {
    let mut structure = FractalStructure::new();
    let triangle = create_test_triangle();
    let genesis = FractalTriangle::genesis(triangle);
    let genesis_id = genesis.id;

    structure.set_genesis(genesis).unwrap();

    assert_eq!(structure.total_triangles(), 1);
    assert_eq!(structure.max_depth(), 0);
    assert!(structure.genesis().is_some());
    assert_eq!(structure.genesis().unwrap().id, genesis_id);
}

#[test]
fn fractal_test_state_transitions() {
    let triangle = create_test_triangle();
    let mut fractal_triangle = FractalTriangle::genesis(triangle);

    // Genesis can transition to Subdivided
    assert!(fractal_triangle.change_state(TriangleState::Subdivided).is_ok());
    assert_eq!(fractal_triangle.state, TriangleState::Subdivided);

    // Subdivided cannot transition back
    assert!(fractal_triangle.change_state(TriangleState::Active).is_err());
}

#[test]
fn test_genesis_triangle_creation() {
    let triangle = genesis_triangle().unwrap();
    assert!(triangle.is_equilateral().unwrap());
    assert!(triangle.area().unwrap() > Decimal::zero());
}

#[test]
fn test_genesis_validation() {
    let triangle = genesis_triangle().unwrap();
    assert!(validate_genesis_triangle(&triangle).unwrap());
}

#[test]
fn test_genesis_with_custom_size() {
    let center = Point::new(Decimal::from_int(5), Decimal::from_int(5));
    let side_length = Decimal::from_int(2);

    let triangle = genesis_triangle_with_size(center, side_length).unwrap();
    assert!(triangle.is_equilateral().unwrap());

    let centroid = triangle.centroid().unwrap();
    // Centroid should be close to the specified center
    let tolerance = Decimal::new(1, 2); // 0.01
    assert!(centroid.x.checked_sub(center.x).unwrap().abs() < tolerance);
    assert!(centroid.y.checked_sub(center.y).unwrap().abs() < tolerance);
}

#[test]
fn test_bounded_genesis() {
    let min_x = Decimal::from_int(-10);
    let max_x = Decimal::from_int(10);
    let min_y = Decimal::from_int(-10);
    let max_y = Decimal::from_int(10);

    let triangle = genesis_triangle_bounded(min_x, max_x, min_y, max_y).unwrap();

    // Check that all vertices are within bounds
    for vertex in triangle.vertices() {
        assert!(vertex.x >= min_x && vertex.x <= max_x);
        assert!(vertex.y >= min_y && vertex.y <= max_y);
    }
}

#[test]
fn bounded_genesis_has_the_expected_size() {
    let triangle = genesis_triangle_bounded(dec(-10, 0), dec(10, 0), dec(-10, 0), dec(10, 0)).unwrap();
    let vertices = triangle.vertices();
    // height of the box 20, so the side is 0.9 * 20 * 0.75 / 0.866
    let side = vertices[1].x.checked_sub(vertices[0].x).unwrap();
    assert!(side.checked_sub(dec(15588914549, 9)).unwrap().abs() < dec(1, 8));
    assert!(vertices[2].y.checked_sub(dec(9, 0)).unwrap().abs() < dec(1, 20));
    assert!(vertices[0].y.checked_sub(dec(-45, 1)).unwrap().abs() < dec(1, 20));
    // a flat box: the width decides
    let flat = genesis_triangle_bounded(dec(0, 0), dec(1, 0), dec(0, 0), dec(100, 0)).unwrap();
    let side = flat.vertices()[1].x.checked_sub(flat.vertices()[0].x).unwrap();
    assert_eq!(side, dec(9, 1));
}

#[test]
fn test_genesis_properties() {
    let triangle = genesis_triangle().unwrap();
    let properties = GenesisProperties::calculate(&triangle).unwrap();

    assert!(properties.is_equilateral);
    assert!(properties.area > Decimal::zero());
    assert!(properties.perimeter > Decimal::zero());
    assert!(properties.max_depth > 0);
}

#[test]
fn test_subdivision() {
    let genesis = genesis_fractal_triangle().unwrap();
    let result = subdivide_triangle(&genesis).unwrap();

    assert_eq!(result.children.len(), 3);
    assert_eq!(result.parent.state, TriangleState::Subdivided);
    assert_eq!(result.void_triangle.state, TriangleState::Void);

    // Validate the subdivision
    assert!(validate_subdivision(&result).unwrap());
}

#[test]
fn test_subdivision_to_depth() {
    let genesis = genesis_fractal_triangle().unwrap();
    let structure = subdivide_to_depth(genesis, 2).unwrap();

    assert_eq!(structure.max_depth(), 2);
    assert_eq!(structure.total_triangles(), total_triangles_to_depth(2) as usize);
}

#[test]
fn test_triangles_at_depth_calculation() {
    assert_eq!(triangles_at_depth(0), 1);
    assert_eq!(triangles_at_depth(1), 3);
    assert_eq!(triangles_at_depth(2), 9);
    assert_eq!(triangles_at_depth(3), 27);
}

#[test]
fn test_total_triangles_calculation() {
    assert_eq!(total_triangles_to_depth(0), 1);
    assert_eq!(total_triangles_to_depth(1), 4); // 1 + 3
    assert_eq!(total_triangles_to_depth(2), 13); // 1 + 3 + 9
}

#[test]
fn test_subdivision_stats() {
    let genesis = genesis_fractal_triangle().unwrap();
    let structure = subdivide_to_depth(genesis, 1).unwrap();
    let stats = SubdivisionStats::calculate(&structure).unwrap();

    assert_eq!(stats.max_depth, 1);
    assert_eq!(stats.active_triangles, 3);
    assert_eq!(stats.subdivided_triangles, 1);
    assert_eq!(stats.void_triangles, 1);
}

#[test]
fn genesis_triangle_has_the_canonical_shape() {
    let triangle = genesis_triangle().unwrap();
    let vertices = triangle.vertices();
    assert_eq!(vertices[0].x, dec(-5, 1));
    assert_eq!(vertices[1].x, dec(5, 1));
    assert_eq!(vertices[2].x, Decimal::zero());
    assert_eq!(vertices[0].y, vertices[1].y);
    assert_eq!(vertices[0].y.to_text(), "-0.2886666666666666666666666667");
    assert_eq!(vertices[2].y.to_text(), "0.5773333333333333333333333333");
    // area 0.433, a little under the square root of three over four
    let area = triangle.area().unwrap();
    assert!(area.checked_sub(dec(4330, 4)).unwrap().abs() < dec(1, 4));
    assert!(area.checked_sub(dec(433, 3)).unwrap().abs() < dec(1, 20));
    assert!(triangle.is_equilateral().unwrap());
    assert_eq!(max_theoretical_depth(&triangle).unwrap(), 20);
}

#[test]
fn subdivision_makes_the_four_parts() {
    let a = Point::new(dec(0, 0), dec(0, 0));
    let b = Point::new(dec(4, 0), dec(0, 0));
    let c = Point::new(dec(0, 0), dec(4, 0));
    let triangle = Triangle::new(a, b, c).unwrap();
    let address = TriangleAddress::new(vec![1, 2]).unwrap();
    let parent = FractalTriangle::with_identity(77, 1000, triangle, TriangleState::Active, address, 2);
    let made = subdivide_triangle(&parent).unwrap();

    let mid_ab = Point::new(dec(2, 0), dec(0, 0));
    let mid_bc = Point::new(dec(2, 0), dec(2, 0));
    let mid_ca = Point::new(dec(0, 0), dec(2, 0));
    assert_eq!(made.children[0].triangle.vertices(), &[a, mid_ab, mid_ca]);
    assert_eq!(made.children[1].triangle.vertices(), &[mid_ab, b, mid_bc]);
    assert_eq!(made.children[2].triangle.vertices(), &[mid_ca, mid_bc, c]);
    assert_eq!(made.void_triangle.triangle.vertices(), &[mid_ab, mid_bc, mid_ca]);
    for (i, child) in made.children.iter().enumerate() {
        assert_eq!(child.state, TriangleState::Active);
        assert_eq!(child.depth, 3);
        assert_eq!(child.parent_id, Some(77));
        assert_eq!(child.address.components(), &[1, 2, i as u8]);
        assert!(child.child_ids.is_empty());
        assert_eq!(child.triangle.area().unwrap(), dec(2, 0));
    }
    assert_eq!(made.void_triangle.state, TriangleState::Void);
    assert_eq!(made.void_triangle.address.components(), &[1, 2, 3]);
    assert!(made.void_triangle.address.is_void());
    assert_eq!(made.void_triangle.depth, 3);
    assert_eq!(made.void_triangle.parent_id, Some(77));
    assert_eq!(made.parent.id, 77);
    assert_eq!(made.parent.state, TriangleState::Subdivided);
    assert_eq!(
        made.parent.child_ids,
        vec![made.children[0].id, made.children[1].id, made.children[2].id, made.void_triangle.id]
    );
    // the parent that was handed in is untouched
    assert_eq!(parent.state, TriangleState::Active);
    assert!(parent.child_ids.is_empty());
    assert!(validate_subdivision(&made).unwrap());
    assert_eq!(parent.triangle.area().unwrap(), dec(8, 0));
}

#[test]
fn subdivision_is_refused_for_triangles_that_cannot_be_subdivided() {
    let triangle = create_test_triangle();
    for state in [TriangleState::Subdivided, TriangleState::Void, TriangleState::Inactive] {
        let parent =
            FractalTriangle::with_identity(1, 0, triangle, state, TriangleAddress::genesis(), 0);
        match subdivide_triangle(&parent) {
            Err(SierpinskiError::SubdivisionError { reason }) => {
                assert_eq!(
                    reason,
                    format!(
                        "Triangle 00000000-0000-0000-0000-000000000001 cannot be subdivided in state {}",
                        state.name()
                    )
                );
            }
            other => panic!("{:?}", other),
        }
    }
    let deep = FractalTriangle::with_identity(
        1,
        0,
        triangle,
        TriangleState::Active,
        TriangleAddress::new(vec![0; 20]).unwrap(),
        20,
    );
    assert!(matches!(subdivide_triangle(&deep), Err(SierpinskiError::SubdivisionError { .. })));
    assert!(!deep.can_subdivide());
    assert!(deep.is_at_max_depth());
    assert!(matches!(
        FractalTriangle::child(triangle, &deep, 0),
        Err(SierpinskiError::MaxDepthExceeded { max_depth: 20 })
    ));
    let shallow = FractalTriangle::genesis(triangle);
    assert!(matches!(
        FractalTriangle::child(triangle, &shallow, 4),
        Err(SierpinskiError::AddressComponentOutOfRange { component: 4 })
    ));
}

#[test]
fn validation_of_a_subdivision_looks_at_states_links_and_areas() {
    let genesis = genesis_fractal_triangle().unwrap();
    let made = subdivide_triangle(&genesis).unwrap();
    assert!(validate_subdivision(&made).unwrap());

    let mut wrong_parent = subdivide_triangle(&genesis).unwrap();
    wrong_parent.parent.state = TriangleState::Active;
    assert!(!validate_subdivision(&wrong_parent).unwrap());

    let mut wrong_child = subdivide_triangle(&genesis).unwrap();
    wrong_child.children[1].state = TriangleState::Inactive;
    assert!(!validate_subdivision(&wrong_child).unwrap());

    let mut wrong_link = subdivide_triangle(&genesis).unwrap();
    wrong_link.children[2].parent_id = None;
    assert!(!validate_subdivision(&wrong_link).unwrap());

    let mut wrong_void = subdivide_triangle(&genesis).unwrap();
    wrong_void.void_triangle.state = TriangleState::Active;
    assert!(!validate_subdivision(&wrong_void).unwrap());

    let mut wrong_area = subdivide_triangle(&genesis).unwrap();
    wrong_area.void_triangle.triangle = create_test_triangle();
    assert!(!validate_subdivision(&wrong_area).unwrap());
}

#[test]
fn area_conservation_tolerates_a_millionth() {
    let one = dec(1, 0);
    let quarter = dec(25, 2);
    assert_eq!(areas_conserved(one, quarter, quarter, quarter, quarter), Some(true));
    assert_eq!(areas_conserved(one, quarter, quarter, quarter, dec(250001, 6)), Some(true));
    assert_eq!(areas_conserved(one, quarter, quarter, quarter, dec(249999, 6)), Some(true));
    assert_eq!(areas_conserved(one, quarter, quarter, quarter, dec(250002, 6)), Some(false));
    assert_eq!(areas_conserved(one, quarter, quarter, quarter, dec(249998, 6)), Some(false));
    let largest = Decimal::from_parts(79_228_162_514_264_337_593_543_950_335, 0).unwrap();
    assert_eq!(areas_conserved(one, largest, largest, quarter, quarter), None);
    assert_eq!(child_area_ratio().unwrap(), quarter);
    assert_eq!(void_area_ratio().unwrap(), quarter);
}

#[test]
fn subdivision_conserves_area_at_every_level() {
    let genesis = genesis_fractal_triangle().unwrap();
    let mut structure = FractalStructure::new();
    let id = genesis.id;
    structure.set_genesis(genesis).unwrap();
    let mut current = id;
    for _ in 0..16 {
        let made = subdivide_and_add_to_structure(&mut structure, &current).unwrap();
        assert!(validate_subdivision(&made).unwrap());
        current = made.children[1].id;
    }
    assert_eq!(structure.max_depth(), 16);
    // one level further the parts are so small that their vertices count
    // as lying on one line; the structure is then left as it was
    let held = structure.len();
    assert!(matches!(
        subdivide_and_add_to_structure(&mut structure, &current),
        Err(SierpinskiError::CollinearPoints)
    ));
    assert_eq!(structure.len(), held);
    assert_eq!(structure.get_triangle(&current).unwrap().state, TriangleState::Active);
    assert!(matches!(
        subdivide_and_add_to_structure(&mut structure, &12345),
        Err(SierpinskiError::SubdivisionError { .. })
    ));
}

#[test]
fn structure_after_subdivision_to_depth_two() {
    let genesis = genesis_fractal_triangle().unwrap();
    let genesis_id = genesis.id;
    let structure = subdivide_to_depth(genesis, 2).unwrap();
    assert_eq!(structure.total_triangles(), 13);
    assert_eq!(structure.len(), 17);
    assert_eq!(structure.triangles_at_depth(0).len(), 1);
    assert_eq!(structure.triangles_at_depth(1).len(), 4);
    assert_eq!(structure.triangles_at_depth(2).len(), 12);
    assert_eq!(structure.triangles_by_state(TriangleState::Genesis).len(), 0);
    assert_eq!(structure.triangles_by_state(TriangleState::Subdivided).len(), 4);
    assert_eq!(structure.triangles_by_state(TriangleState::Active).len(), 9);
    assert_eq!(structure.triangles_by_state(TriangleState::Void).len(), 4);
    let root = structure.genesis().unwrap();
    assert_eq!(root.id, genesis_id);
    assert_eq!(root.state, TriangleState::Subdivided);
    assert_eq!(root.child_ids.len(), 4);
    let children = structure.children(&genesis_id);
    assert_eq!(children.len(), 4);
    for (i, child) in children.iter().enumerate() {
        assert_eq!(child.address.components(), &[i as u8]);
        assert_eq!(child.parent_id, Some(genesis_id));
        if i < 3 {
            assert_eq!(child.state, TriangleState::Subdivided);
            assert_eq!(structure.children(&child.id).len(), 4);
        } else {
            assert_eq!(child.state, TriangleState::Void);
            assert!(structure.children(&child.id).is_empty());
        }
    }
    // nothing that may be subdivided is left above the target depth
    for depth in 0..2 {
        for t in structure.triangles_at_depth(depth) {
            assert!(!t.can_subdivide());
        }
    }
    // nine active triangles of a sixteenth of the genesis area each
    let active = structure.total_active_area().unwrap();
    let expected = dec(433, 3).checked_mul(dec(9, 0)).unwrap().checked_div(dec(16, 0)).unwrap();
    assert!(active.checked_sub(expected).unwrap().abs() < dec(1, 20));
    assert!(structure.get_triangle(&12345).is_none());
    assert!(structure.children(&12345).is_empty());
}

#[test]
fn subdivision_to_depth_checks_its_arguments() {
    let genesis = genesis_fractal_triangle().unwrap();
    assert!(matches!(
        subdivide_to_depth(genesis, 21),
        Err(SierpinskiError::MaxDepthExceeded { max_depth: 20 })
    ));
    let active = FractalTriangle::with_identity(
        5,
        0,
        create_test_triangle(),
        TriangleState::Active,
        TriangleAddress::genesis(),
        0,
    );
    match subdivide_to_depth(active, 1) {
        Err(SierpinskiError::ValidationError { message }) => {
            assert_eq!(message, "Genesis triangle must have Genesis state")
        }
        other => panic!("{:?}", other.map(|s| s.len())),
    }
    let genesis = genesis_fractal_triangle().unwrap();
    let structure = subdivide_to_depth(genesis, 0).unwrap();
    assert_eq!(structure.len(), 1);
    assert_eq!(structure.total_triangles(), 1);
    assert_eq!(structure.genesis().unwrap().state, TriangleState::Genesis);
    let stats = SubdivisionStats::calculate(&structure).unwrap();
    assert_eq!(stats.total_triangles, 1);
    assert_eq!(stats.active_triangles, 0);
    assert!(stats.total_area.checked_sub(dec(433, 3)).unwrap().abs() < dec(1, 20));
    assert_eq!(stats.active_area, Decimal::zero());
}

#[test]
fn structure_adds_and_replaces_by_identifier() {
    let t = create_test_triangle();
    let mut structure = FractalStructure::new();
    assert!(structure.genesis().is_none());
    assert_eq!(structure.total_triangles(), 0);
    let not_genesis =
        FractalTriangle::with_identity(1, 0, t, TriangleState::Active, TriangleAddress::genesis(), 0);
    assert!(matches!(
        structure.set_genesis(not_genesis),
        Err(SierpinskiError::ValidationError { .. })
    ));
    assert_eq!(structure.len(), 0);

    let root = FractalTriangle::with_identity(1, 0, t, TriangleState::Genesis, TriangleAddress::genesis(), 0);
    structure.set_genesis(root.clone()).unwrap();
    let child = FractalTriangle::child(t, &root, 2).unwrap();
    let child_id = child.id;
    structure.add_triangle(child.clone()).unwrap();
    structure.add_triangle(child).unwrap();
    assert_eq!(structure.len(), 2);
    assert_eq!(structure.max_depth(), 1);
    assert_eq!(structure.get_triangle(&1).unwrap().child_ids, vec![child_id]);
    assert!(structure.get_triangle(&1).unwrap().has_children());
    assert_eq!(structure.nth(1).unwrap().id, child_id);
    assert!(structure.nth(2).is_none());

    assert_eq!(structure.change_state(&child_id, TriangleState::Inactive), Ok(true));
    assert_eq!(structure.get_triangle(&child_id).unwrap().state, TriangleState::Inactive);
    assert_eq!(structure.change_state(&999, TriangleState::Inactive), Ok(false));
    assert!(structure.change_state(&child_id, TriangleState::Void).is_err());
    assert_eq!(structure.total_active_area().unwrap(), t.area().unwrap());
}

#[test]
fn fractal_triangle_details() {
    let t = create_test_triangle();
    let mut triangle = FractalTriangle::with_identity(
        0xa1a2a3a4b1b2c1c2d1d2d3d4d5d6d7d8,
        5,
        t,
        TriangleState::Active,
        TriangleAddress::new(vec![0, 1]).unwrap(),
        2,
    );
    assert_eq!(triangle.generation(), 2);
    assert_eq!(triangle.created_at, 5);
    assert_eq!(triangle.updated_at, 5);
    assert_eq!(triangle.area().unwrap(), t.area().unwrap());
    assert_eq!(triangle.area_ratio_to_genesis().unwrap(), dec(5625, 4));
    triangle.add_child(9);
    triangle.add_child(9);
    triangle.add_child(8);
    assert_eq!(triangle.child_ids, vec![9, 8]);
    match triangle.change_state(TriangleState::Void) {
        Err(SierpinskiError::StateTransitionError { from, to }) => {
            assert_eq!(from, "Active");
            assert_eq!(to, "Void");
        }
        other => panic!("{:?}", other),
    }
    assert_eq!(triangle.state, TriangleState::Active);

    let mut bytes: Vec<u8> = vec![
        0xa1, 0xa2, 0xa3, 0xa4, 0xb1, 0xb2, 0xc1, 0xc2, 0xd1, 0xd2, 0xd3, 0xd4, 0xd5, 0xd6, 0xd7, 0xd8,
    ];
    bytes.extend_from_slice(t.hash().as_bytes());
    bytes.push(2);
    assert_eq!(triangle.hash(), blake3::hash(&bytes).to_hex().to_string());
}

#[test]
fn structure_is_rebuilt_from_its_parts() {
    let genesis = genesis_fractal_triangle().unwrap();
    let structure = subdivide_to_depth(genesis, 1).unwrap();
    let mut parts: Vec<FractalTriangle> = Vec::new();
    let mut i = 0;
    while let Some(t) = structure.nth(i) {
        parts.push(t.clone());
        i += 1;
    }
    assert_eq!(parts.len(), 5);
    let rebuilt = FractalStructure::from_parts(parts.clone(), structure.genesis_id(), structure.max_depth()).unwrap();
    assert_eq!(rebuilt.len(), 5);
    assert_eq!(rebuilt.total_triangles(), 4);
    assert_eq!(rebuilt.max_depth(), 1);
    assert_eq!(rebuilt.genesis().unwrap(), structure.genesis().unwrap());
    assert_eq!(rebuilt.genesis().unwrap().state, TriangleState::Subdivided);
    for k in 0..5 {
        assert_eq!(rebuilt.nth(k), structure.nth(k));
    }
    parts.push(parts[2].clone());
    match FractalStructure::from_parts(parts, None, 1) {
        Err(SierpinskiError::HierarchyError { reason }) => {
            assert_eq!(reason, "Two triangles share an identifier")
        }
        other => panic!("{:?}", other.map(|s| s.len())),
    }
}

#[test]
fn a_complete_fractal_has_its_counts() {
    // one void for every triangle that was subdivided: 1 + 3 + 9 of them
    let structure = subdivide_to_depth(genesis_fractal_triangle().unwrap(), 3).unwrap();
    assert_eq!(structure.len(), 40 + 13);
    assert_eq!(structure.total_triangles(), 40);
    assert_eq!(structure.total_triangles(), total_triangles_to_depth(3) as usize);
    assert_eq!(structure.max_depth(), 3);
    assert_eq!(structure.triangles_by_state(TriangleState::Void).len(), 13);
    assert_eq!(structure.triangles_by_state(TriangleState::Subdivided).len(), 13);
    assert_eq!(structure.triangles_by_state(TriangleState::Active).len(), 27);

    // nothing to do at depth zero
    let single = subdivide_to_depth(genesis_fractal_triangle().unwrap(), 0).unwrap();
    assert_eq!(single.len(), 1);
    assert_eq!(single.total_triangles(), 1);
    assert_eq!(single.max_depth(), 0);
}

#[test]
fn a_change_of_state_notes_the_time_given() {
    let mut triangle = FractalTriangle::genesis(genesis_triangle().unwrap());
    triangle.change_state_at(77, TriangleState::Subdivided).unwrap();
    assert_eq!(triangle.state, TriangleState::Subdivided);
    assert_eq!(triangle.updated_at, 77);
    // a refused change leaves the time alone
    assert!(triangle.change_state_at(78, TriangleState::Active).is_err());
    assert_eq!(triangle.updated_at, 77);

    let genesis = genesis_fractal_triangle().unwrap();
    let id = genesis.id;
    let mut structure = FractalStructure::new();
    structure.set_genesis(genesis).unwrap();
    assert_eq!(structure.change_state_at(&(id ^ 1), TriangleState::Subdivided, 5), Ok(false));
    assert_eq!(structure.change_state_at(&id, TriangleState::Subdivided, 5), Ok(true));
    assert_eq!(structure.get_triangle(&id).unwrap().updated_at, 5);
    assert!(structure.change_state_at(&id, TriangleState::Active, 6).is_err());
    assert_eq!(structure.get_triangle(&id).unwrap().updated_at, 5);
}

fn part_draws(first: u128, time: u64) -> PartDraws {
    PartDraws {
        ids: [first, first + 1, first + 2, first + 3],
        times: [time, time + 1, time + 2, time + 3],
        changed_at: time + 4,
    }
}

#[test]
fn a_subdivision_takes_what_is_drawn() {
    let parent = genesis_fractal_triangle().unwrap();
    let made = subdivide_triangle_with(&parent, &part_draws(100, 10)).unwrap();
    for (i, child) in made.children.iter().enumerate() {
        assert_eq!(child.id, 100 + i as u128);
        assert_eq!(child.created_at, 10 + i as u64);
        assert_eq!(child.updated_at, 10 + i as u64);
        assert_eq!(child.parent_id, Some(parent.id));
        assert_eq!(child.state, TriangleState::Active);
    }
    assert_eq!(made.void_triangle.id, 103);
    assert_eq!(made.void_triangle.created_at, 13);
    assert_eq!(made.void_triangle.state, TriangleState::Void);
    assert_eq!(made.parent.id, parent.id);
    assert_eq!(made.parent.created_at, parent.created_at);
    assert_eq!(made.parent.updated_at, 14);
    assert_eq!(made.parent.child_ids, vec![100, 101, 102, 103]);
    assert!(validate_subdivision(&made).unwrap());
}

#[test]
fn a_fractal_built_from_new_identifiers_is_complete() {
    let genesis = genesis_fractal_triangle().unwrap();
    let root = genesis.id;
    // four subdivisions lead to depth 2: the genesis triangle and its three children
    let draws: Vec<PartDraws> = (0..4u128).map(|k| part_draws(root.wrapping_add(10 + 4 * k), 50)).collect();
    let structure = subdivide_to_depth_with(genesis, 2, &draws).unwrap();
    assert_eq!(structure.len(), 17);
    assert_eq!(structure.total_triangles(), 13);
    assert_eq!(structure.max_depth(), 2);
    // the subdivisions were made in the order in which the triangles are held
    let first = structure.get_triangle(&root).unwrap();
    assert_eq!(first.state, TriangleState::Subdivided);
    assert_eq!(
        first.child_ids,
        vec![root.wrapping_add(10), root.wrapping_add(11), root.wrapping_add(12), root.wrapping_add(13)]
    );
    for i in 0..3u128 {
        let child = structure.get_triangle(&root.wrapping_add(10 + i)).unwrap();
        assert_eq!(child.state, TriangleState::Subdivided);
        assert_eq!(child.depth, 1);
        assert_eq!(child.parent_id, Some(root));
        let below = root.wrapping_add(14 + 4 * i);
        assert_eq!(
            child.child_ids,
            vec![below, below.wrapping_add(1), below.wrapping_add(2), below.wrapping_add(3)]
        );
        for j in 0..4u128 {
            let part = structure.get_triangle(&below.wrapping_add(j)).unwrap();
            assert_eq!(part.parent_id, Some(child.id));
            assert_eq!(part.depth, 2);
            assert_eq!(part.state, if j == 3 { TriangleState::Void } else { TriangleState::Active });
        }
    }
    assert_eq!(structure.get_triangle(&root.wrapping_add(13)).unwrap().state, TriangleState::Void);
}

#[test]
fn an_identifier_drawn_twice_replaces_a_triangle() {
    let genesis = genesis_fractal_triangle().unwrap();
    let root = genesis.id;
    let same = root.wrapping_add(1);
    let draws = vec![PartDraws { ids: [same; 4], times: [5; 4], changed_at: 6 }];
    let structure = subdivide_to_depth_with(genesis, 1, &draws).unwrap();
    // every part took the place of the part before it: the void is left
    assert_eq!(structure.len(), 2);
    assert_eq!(structure.total_triangles(), 1);
    assert_eq!(structure.get_triangle(&same).unwrap().state, TriangleState::Void);
    assert_eq!(structure.get_triangle(&root).unwrap().state, TriangleState::Subdivided);
    assert_eq!(structure.max_depth(), 1);
}

#[test]
fn a_refusal_names_the_triangle_by_its_uuid() {
    let triangle = FractalTriangle::with_identity(
        0x0102030405060708090a0b0c0d0e0f10,
        5,
        genesis_triangle().unwrap(),
        TriangleState::Void,
        TriangleAddress::genesis(),
        0,
    );
    match subdivide_triangle(&triangle) {
        Err(SierpinskiError::SubdivisionError { reason }) => assert_eq!(
            reason,
            "Triangle 01020304-0506-0708-090a-0b0c0d0e0f10 cannot be subdivided in state Void"
        ),
        other => panic!("{:?}", other),
    }
    let high = FractalTriangle::with_identity(
        0xfedcba98_7654_3210_0000_00000000abcd,
        5,
        genesis_triangle().unwrap(),
        TriangleState::Subdivided,
        TriangleAddress::genesis(),
        0,
    );
    match subdivide_triangle(&high) {
        Err(SierpinskiError::SubdivisionError { reason }) => assert_eq!(
            reason,
            "Triangle fedcba98-7654-3210-0000-00000000abcd cannot be subdivided in state Subdivided"
        ),
        other => panic!("{:?}", other),
    }
}
