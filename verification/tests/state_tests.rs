use triadchain::state::{StateTransition, TriangleState};

#[test]
fn state_test_state_transitions() {
    assert!(TriangleState::Genesis.can_transition_to(TriangleState::Subdivided));
    assert!(TriangleState::Active.can_transition_to(TriangleState::Subdivided));
    assert!(TriangleState::Active.can_transition_to(TriangleState::Inactive));
    assert!(TriangleState::Inactive.can_transition_to(TriangleState::Active));

    assert!(!TriangleState::Subdivided.can_transition_to(TriangleState::Active));
    assert!(!TriangleState::Void.can_transition_to(TriangleState::Active));
}

#[test]
fn test_can_subdivide() {
    assert!(TriangleState::Genesis.can_subdivide());
    assert!(TriangleState::Active.can_subdivide());
    assert!(!TriangleState::Subdivided.can_subdivide());
    assert!(!TriangleState::Void.can_subdivide());
    assert!(!TriangleState::Inactive.can_subdivide());
}

#[test]
fn test_terminal_states() {
    assert!(!TriangleState::Genesis.is_terminal());
    assert!(!TriangleState::Active.is_terminal());
    assert!(TriangleState::Subdivided.is_terminal());
    assert!(TriangleState::Void.is_terminal());
    assert!(!TriangleState::Inactive.is_terminal());
}

#[test]
fn test_state_transition_creation() {
    let transition = StateTransition::new(
        TriangleState::Genesis,
        TriangleState::Subdivided,
        "Initial subdivision".to_string(),
    );
    assert!(transition.is_valid());
    assert_eq!(transition.from, TriangleState::Genesis);
    assert_eq!(transition.to, TriangleState::Subdivided);
}

#[test]
fn state_machine_has_exactly_four_transitions() {
    let states = TriangleState::all_states();
    assert_eq!(states.len(), 5);
    let mut legal = Vec::new();
    for from in states.iter() {
        for to in states.iter() {
            if from.can_transition_to(*to) {
                legal.push((*from, *to));
            }
        }
    }
    assert_eq!(
        legal,
        vec![
            (TriangleState::Genesis, TriangleState::Subdivided),
            (TriangleState::Active, TriangleState::Subdivided),
            (TriangleState::Active, TriangleState::Inactive),
            (TriangleState::Inactive, TriangleState::Active),
        ]
    );
    for to in states.iter() {
        assert!(!TriangleState::Subdivided.can_transition_to(*to));
        assert!(!TriangleState::Void.can_transition_to(*to));
    }
}

#[test]
fn state_after_subdivision_and_names() {
    assert_eq!(TriangleState::Genesis.after_subdivision(), Some(TriangleState::Subdivided));
    assert_eq!(TriangleState::Active.after_subdivision(), Some(TriangleState::Subdivided));
    assert_eq!(TriangleState::Void.after_subdivision(), None);
    assert_eq!(TriangleState::Inactive.after_subdivision(), None);
    assert_eq!(TriangleState::Subdivided.after_subdivision(), None);
    assert_eq!(TriangleState::Void.name(), "Void");
    assert_eq!(TriangleState::Genesis.description(), "The root triangle of the fractal system");
    let bad = StateTransition::at(7, TriangleState::Void, TriangleState::Active, "no".to_string());
    assert!(!bad.is_valid());
    assert_eq!(bad.timestamp, 7);
}
