use triadchain::address::{AddressBfsIterator, TriangleAddress};
use triadchain::errors::SierpinskiError;

#[test]
fn test_address_creation() {
    let genesis = TriangleAddress::genesis();
    assert!(genesis.is_genesis());
    assert_eq!(genesis.depth(), 0);

    let child = genesis.child(1).unwrap();
    assert_eq!(child.depth(), 1);
    assert!(!child.is_genesis());
}

#[test]
fn test_string_representation() {
    let genesis = TriangleAddress::genesis();
    assert_eq!(genesis.to_string_representation(), "genesis");

    let address = TriangleAddress::new(vec![0, 1, 2]).unwrap();
    assert_eq!(address.to_string_representation(), "0.1.2");
}

#[test]
fn test_string_parsing() {
    let address = TriangleAddress::from_string_representation("0.1.2").unwrap();
    assert_eq!(address.components(), &[0, 1, 2]);

    let genesis = TriangleAddress::from_string_representation("genesis").unwrap();
    assert!(genesis.is_genesis());
}

#[test]
fn test_parent_child_relationships() {
    let parent = TriangleAddress::new(vec![0, 1]).unwrap();
    let child = parent.child(2).unwrap();

    assert!(child.is_child_of(&parent));
    assert!(parent.is_ancestor_of(&child));
    assert_eq!(child.parent().unwrap(), parent);
}

#[test]
fn test_siblings() {
    let address = TriangleAddress::new(vec![0, 1]).unwrap();
    let siblings = address.siblings();

    assert_eq!(siblings.len(), 3); // 3 siblings (0.0, 0.2, 0.3)
    assert!(!siblings.contains(&address)); // Should not contain self
}

#[test]
fn test_void_detection() {
    let void_address = TriangleAddress::new(vec![0, 1, 3]).unwrap();
    assert!(void_address.is_void());

    let normal_address = TriangleAddress::new(vec![0, 1, 2]).unwrap();
    assert!(!normal_address.is_void());
}

#[test]
fn test_common_ancestor() {
    let addr1 = TriangleAddress::new(vec![0, 1, 2]).unwrap();
    let addr2 = TriangleAddress::new(vec![0, 1, 0]).unwrap();
    let ancestor = addr1.common_ancestor(&addr2);

    assert_eq!(ancestor.components(), &[0, 1]);
}

#[test]
fn test_invalid_components() {
    let result = TriangleAddress::new(vec![0, 1, 4]);
    assert!(matches!(result, Err(SierpinskiError::AddressComponentOutOfRange { component: 4 })));
}

#[test]
fn address_text_round_trip() {
    let paths: Vec<Vec<u8>> = vec![
        vec![],
        vec![0],
        vec![3],
        vec![0, 1, 2],
        vec![3, 3, 3, 3],
        vec![0, 1, 2, 3, 0, 1, 2, 3, 0, 1, 2, 3, 0, 1, 2, 3, 0, 1, 2, 3],
    ];
    for path in paths {
        let address = TriangleAddress::new(path).unwrap();
        let text = address.to_string_representation();
        let back = TriangleAddress::from_string_representation(&text).unwrap();
        assert_eq!(back, address);
    }
}

#[test]
fn address_scenario_depth_three() {
    let address = TriangleAddress::from_string_representation("0.1.2").unwrap();
    assert_eq!(address.depth(), 3);
    assert!(!address.is_void());
    assert_eq!(
        address.parent().unwrap(),
        TriangleAddress::from_string_representation("0.1").unwrap()
    );
}

#[test]
fn address_scenario_void() {
    let address = TriangleAddress::from_string_representation("0.1.3").unwrap();
    assert!(address.is_void());
    assert!(!TriangleAddress::genesis().is_void());
}

#[test]
fn address_parsing_rejects_malformed_text() {
    for text in ["", ".", "0.", ".0", "0..1", "4", "0.4", "a", "0.1.x", "-1", "256", "1 ", "Genesis", "+", "0.+", "0,1", "１"] {
        let result = TriangleAddress::from_string_representation(text);
        match result {
            Err(SierpinskiError::InvalidAddress { address }) => assert_eq!(address, text),
            other => panic!("{:?} gave {:?}", text, other),
        }
    }
}

#[test]
fn address_parsing_reads_numbers() {
    let address = TriangleAddress::from_string_representation("+1.02.003.0").unwrap();
    assert_eq!(address.components(), &[1, 2, 3, 0]);
}

#[test]
fn address_family_laws() {
    let address = TriangleAddress::new(vec![2, 0, 3]).unwrap();
    let last = address.last_component().unwrap();
    assert_eq!(address.parent().unwrap().child(last).unwrap(), address);

    let children = address.children();
    assert_eq!(children.len(), 4);
    for (digit, child) in children.iter().enumerate() {
        assert_eq!(child.components(), &[2, 0, 3, digit as u8]);
        assert!(child.is_child_of(&address));
    }

    let siblings = address.siblings();
    assert_eq!(siblings.len(), 3);
    assert_eq!(siblings[0].components(), &[2, 0, 0]);
    assert_eq!(siblings[1].components(), &[2, 0, 1]);
    assert_eq!(siblings[2].components(), &[2, 0, 2]);
    assert!(!siblings.contains(&address));

    assert!(TriangleAddress::genesis().siblings().is_empty());
    assert!(TriangleAddress::genesis().parent().is_none());
    assert_eq!(TriangleAddress::genesis().last_component(), None);
}

#[test]
fn address_child_rejects_large_digit() {
    let result = TriangleAddress::genesis().child(4);
    assert!(matches!(result, Err(SierpinskiError::AddressComponentOutOfRange { component: 4 })));
    let first = TriangleAddress::new(vec![0, 7, 9]);
    assert!(matches!(first, Err(SierpinskiError::AddressComponentOutOfRange { component: 7 })));
}

#[test]
fn address_position_index_weights_last_digit_least() {
    assert_eq!(TriangleAddress::genesis().position_index(), 0);
    assert_eq!(TriangleAddress::new(vec![1, 0]).unwrap().position_index(), 4);
    assert_eq!(TriangleAddress::new(vec![0, 1]).unwrap().position_index(), 1);
    assert_eq!(TriangleAddress::new(vec![1, 2, 3]).unwrap().position_index(), 16 + 8 + 3);
    assert_eq!(TriangleAddress::new(vec![3; 32]).unwrap().position_index(), u64::MAX);
}

#[test]
fn address_ancestry() {
    let a = TriangleAddress::new(vec![0, 1]).unwrap();
    let b = TriangleAddress::new(vec![0, 1, 2, 3]).unwrap();
    let c = TriangleAddress::new(vec![0, 2, 2, 3]).unwrap();
    assert!(a.is_ancestor_of(&b));
    assert!(!a.is_ancestor_of(&c));
    assert!(!a.is_ancestor_of(&a));
    assert!(!b.is_child_of(&a));
    assert!(TriangleAddress::genesis().is_ancestor_of(&a));
    assert_eq!(b.common_ancestor(&c).components(), &[0]);
    assert_eq!(a.common_ancestor(&b), a);
    assert!(a.same_as(&a.clone()));
    assert!(!a.same_as(&b));
}

#[test]
fn address_walk_goes_level_by_level() {
    let mut walk = AddressBfsIterator::new(2);
    let mut seen: Vec<Vec<u8>> = Vec::new();
    while let Some(address) = walk.next() {
        seen.push(address.components().to_vec());
    }
    assert_eq!(seen.len(), 1 + 4 + 16);
    assert_eq!(seen[0], Vec::<u8>::new());
    assert_eq!(seen[1], vec![0]);
    assert_eq!(seen[4], vec![3]);
    assert_eq!(seen[5], vec![0, 0]);
    assert_eq!(seen[6], vec![0, 1]);
    assert_eq!(seen[9], vec![1, 0]);
    assert_eq!(seen[20], vec![3, 3]);
    assert!(walk.next().is_none());
}
