//! The life cycle of a triangle.

use vstd::prelude::*;
use crate::clock::unix_time_now;

verus! {

/// The states a triangle of the fractal can be in.
#[derive(Debug, Clone, Copy, PartialEq, Eq, Hash, Structural)]
pub enum TriangleState {
    /// The root of the fractal.
    Genesis,
    /// A triangle that may still be subdivided.
    Active,
    /// A triangle that has been split into its children.
    Subdivided,
    /// The central region left empty by a subdivision.
    Void,
    /// A triangle taken out of use for the time being.
    Inactive,
}

/// The transition relation of the life cycle: the four moves that are legal.
pub open spec fn legal_transition(from: TriangleState, to: TriangleState) -> bool {
    ||| (from == TriangleState::Genesis && to == TriangleState::Subdivided)
    ||| (from == TriangleState::Active && to == TriangleState::Subdivided)
    ||| (from == TriangleState::Active && to == TriangleState::Inactive)
    ||| (from == TriangleState::Inactive && to == TriangleState::Active)
}

impl TriangleState {
    /// Whether a triangle in this state may be subdivided.
    pub open spec fn spec_can_subdivide(&self) -> bool {
        *self == TriangleState::Genesis || *self == TriangleState::Active
    }

    /// Whether no transition leaves this state.
    pub open spec fn spec_is_terminal(&self) -> bool {
        *self == TriangleState::Subdivided || *self == TriangleState::Void
    }

    /// The name of the state, as it is written in error values.
    pub open spec fn spec_name(self) -> Seq<char> {
        match self {
            TriangleState::Genesis => "Genesis"@,
            TriangleState::Active => "Active"@,
            TriangleState::Subdivided => "Subdivided"@,
            TriangleState::Void => "Void"@,
            TriangleState::Inactive => "Inactive"@,
        }
    }

    /// True for `Genesis` and `Active` only.
    #[verifier::when_used_as_spec(spec_can_subdivide)]
    pub fn can_subdivide(&self) -> (r: bool)
        ensures
            r == self.spec_can_subdivide(),
    {
        match self {
            TriangleState::Genesis => true,
            TriangleState::Active => true,
            _ => false,
        }
    }

    /// Whether the life cycle allows the move from this state to `target`.
    pub fn can_transition_to(&self, target: TriangleState) -> (r: bool)
        ensures
            r == legal_transition(*self, target),
    {
        match (*self, target) {
            (TriangleState::Genesis, TriangleState::Subdivided) => true,
            (TriangleState::Active, TriangleState::Subdivided) => true,
            (TriangleState::Active, TriangleState::Inactive) => true,
            (TriangleState::Inactive, TriangleState::Active) => true,
            _ => false,
        }
    }

    /// The state a triangle enters when it is subdivided, if it can be.
    pub fn after_subdivision(&self) -> (r: Option<TriangleState>)
        ensures
            r == if self.spec_can_subdivide() {
                Some(TriangleState::Subdivided)
            } else {
                None
            },
    {
        if self.can_subdivide() {
            Some(TriangleState::Subdivided)
        } else {
            None
        }
    }

    /// True for `Subdivided` and `Void` only.
    #[verifier::when_used_as_spec(spec_is_terminal)]
    pub fn is_terminal(&self) -> (r: bool)
        ensures
            r == self.spec_is_terminal(),
    {
        match self {
            TriangleState::Subdivided => true,
            TriangleState::Void => true,
            _ => false,
        }
    }

    /// The name of the state.
    pub fn name(&self) -> (r: &'static str)
        ensures
            r@ == self.spec_name(),
    {
        match self {
            TriangleState::Genesis => "Genesis",
            TriangleState::Active => "Active",
            TriangleState::Subdivided => "Subdivided",
            TriangleState::Void => "Void",
            TriangleState::Inactive => "Inactive",
        }
    }

    /// A sentence describing the state.
    pub fn description(&self) -> (r: &'static str)
        ensures
            r@ == match *self {
                TriangleState::Genesis => "The root triangle of the fractal system"@,
                TriangleState::Active => "An active triangle that can be subdivided"@,
                TriangleState::Subdivided => "A triangle that has been divided into child triangles"@,
                TriangleState::Void => "The central void created during subdivision"@,
                TriangleState::Inactive => "An inactive triangle that is not currently processing"@,
            },
    {
        match self {
            TriangleState::Genesis => "The root triangle of the fractal system",
            TriangleState::Active => "An active triangle that can be subdivided",
            TriangleState::Subdivided => "A triangle that has been divided into child triangles",
            TriangleState::Void => "The central void created during subdivision",
            TriangleState::Inactive => "An inactive triangle that is not currently processing",
        }
    }

    /// The five states, in declaration order.
    pub fn all_states() -> (r: Vec<TriangleState>)
        ensures
            r@ == seq![
                TriangleState::Genesis,
                TriangleState::Active,
                TriangleState::Subdivided,
                TriangleState::Void,
                TriangleState::Inactive,
            ],
    {
        let mut states: Vec<TriangleState> = Vec::new();
        states.push(TriangleState::Genesis);
        states.push(TriangleState::Active);
        states.push(TriangleState::Subdivided);
        states.push(TriangleState::Void);
        states.push(TriangleState::Inactive);
        states
    }
}

/// A move from one state to another, with the time and the reason.
#[derive(Debug, Clone, PartialEq)]
pub struct StateTransition {
    /// The state that is left.
    pub from: TriangleState,
    /// The state that is entered.
    pub to: TriangleState,
    /// When the move was noted, in seconds since the Unix epoch.
    pub timestamp: u64,
    /// Why the move was made.
    pub reason: String,
}

impl StateTransition {
    /// A move from `from` to `to`, noted now.
    pub fn new(from: TriangleState, to: TriangleState, reason: String) -> (r: StateTransition)
        ensures
            r.from == from,
            r.to == to,
            r.reason@ == reason@,
    {
        StateTransition::at(unix_time_now(), from, to, reason)
    }

    /// A move from `from` to `to`, noted at `timestamp`.
    pub fn at(timestamp: u64, from: TriangleState, to: TriangleState, reason: String) -> (r: StateTransition)
        ensures
            r.from == from,
            r.to == to,
            r.timestamp == timestamp,
            r.reason@ == reason@,
    {
        StateTransition { from, to, timestamp, reason }
    }

    /// Whether the life cycle allows the move.
    pub fn is_valid(&self) -> (r: bool)
        ensures
            r == legal_transition(self.from, self.to),
    {
        self.from.can_transition_to(self.to)
    }
}

/// No transition leaves a terminal state, and every state that is not
/// terminal has a transition leaving it.
pub proof fn lemma_terminal_states_have_no_exit(from: TriangleState)
    ensures
        from.spec_is_terminal() <==> forall|to: TriangleState| !legal_transition(from, to),
{
    if !from.spec_is_terminal() {
        if from == TriangleState::Inactive {
            assert(legal_transition(from, TriangleState::Active));
        } else {
            assert(legal_transition(from, TriangleState::Subdivided));
        }
    }
}

} // verus!
