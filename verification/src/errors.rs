//! The error type shared by every fallible operation of the crate.

use vstd::prelude::*;
use vstd::string::*;
use crate::text::{append_number, number_text};

verus! {

/// Everything that can go wrong in a geometric or chain operation.
#[derive(Debug, Clone, PartialEq)]
pub enum SierpinskiError {
    /// A triangle was rejected for the stated reason.
    InvalidTriangle { reason: String },
    /// A business rule was violated.
    ValidationError { message: String },
    /// A triangle could not be subdivided.
    SubdivisionError { reason: String },
    /// An address text could not be read.
    InvalidAddress { address: String },
    /// A subdivision would go below the deepest permitted level.
    MaxDepthExceeded { max_depth: u8 },
    /// A number could not be converted without loss.
    PrecisionError { details: String },
    /// A triangle may not move between the two named states.
    StateTransitionError { from: String, to: String },
    /// Parent and child records disagree.
    HierarchyError { reason: String },
    /// A decimal operation left the representable range, divided by zero,
    /// or took the square root of a negative number.
    ArithmeticOverflow,
    /// Three vertices lie on one line.
    CollinearPoints,
    /// A triangle has no positive area.
    InvalidArea,
    /// An address digit is larger than three.
    AddressComponentOutOfRange { component: u8 },
}

/// Outcome of a fallible operation.
pub type SierpinskiResult<T> = Result<T, SierpinskiError>;

impl SierpinskiError {
    /// The sentence that describes the error.
    pub open spec fn spec_message(self) -> Seq<char> {
        match self {
            SierpinskiError::InvalidTriangle { reason } => "Invalid triangle: "@ + reason@,
            SierpinskiError::ValidationError { message } => "Geometric validation failed: "@ + message@,
            SierpinskiError::SubdivisionError { reason } => "Subdivision failed: "@ + reason@,
            SierpinskiError::InvalidAddress { address } => "Invalid address format: "@ + address@,
            SierpinskiError::MaxDepthExceeded { max_depth } => "Maximum subdivision depth ("@ + number_text(
                max_depth as nat,
            ) + ") exceeded"@,
            SierpinskiError::PrecisionError { details } => "Coordinate precision error: "@ + details@,
            SierpinskiError::StateTransitionError { from, to } => "State transition error: from "@ + from@
                + " to "@ + to@,
            SierpinskiError::HierarchyError { reason } => "Parent-child relationship error: "@ + reason@,
            SierpinskiError::ArithmeticOverflow => "Arithmetic overflow in geometric calculation"@,
            SierpinskiError::CollinearPoints => "Invalid triangle configuration: points are collinear"@,
            SierpinskiError::InvalidArea => "Triangle area is zero or negative"@,
            SierpinskiError::AddressComponentOutOfRange { component } =>
                "Address path component out of range: "@ + number_text(component as nat),
        }
    }

    /// The sentence that describes the error.
    pub fn message(&self) -> (r: String)
        ensures
            r@ == self.spec_message(),
    {
        match self {
            SierpinskiError::InvalidTriangle { reason } => "Invalid triangle: ".to_owned().concat(
                reason.as_str(),
            ),
            SierpinskiError::ValidationError { message } => "Geometric validation failed: ".to_owned().concat(
                message.as_str(),
            ),
            SierpinskiError::SubdivisionError { reason } => "Subdivision failed: ".to_owned().concat(
                reason.as_str(),
            ),
            SierpinskiError::InvalidAddress { address } => "Invalid address format: ".to_owned().concat(
                address.as_str(),
            ),
            SierpinskiError::MaxDepthExceeded { max_depth } => {
                let mut text = "Maximum subdivision depth (".to_owned();
                append_number(&mut text, *max_depth as u64);
                text.append(") exceeded");
                text
            },
            SierpinskiError::PrecisionError { details } => "Coordinate precision error: ".to_owned().concat(
                details.as_str(),
            ),
            SierpinskiError::StateTransitionError { from, to } => {
                let mut text = "State transition error: from ".to_owned();
                text.append(from.as_str());
                text.append(" to ");
                text.append(to.as_str());
                text
            },
            SierpinskiError::HierarchyError { reason } => "Parent-child relationship error: ".to_owned().concat(
                reason.as_str(),
            ),
            SierpinskiError::ArithmeticOverflow => "Arithmetic overflow in geometric calculation".to_owned(),
            SierpinskiError::CollinearPoints => "Invalid triangle configuration: points are collinear".to_owned(),
            SierpinskiError::InvalidArea => "Triangle area is zero or negative".to_owned(),
            SierpinskiError::AddressComponentOutOfRange { component } => {
                let mut text = "Address path component out of range: ".to_owned();
                append_number(&mut text, *component as u64);
                text
            },
        }
    }

    /// A `ValidationError` carrying `message`.
    pub fn validation(message: &str) -> (e: SierpinskiError)
        ensures
            e matches SierpinskiError::ValidationError { message: m } && m@ == message@,
    {
        SierpinskiError::ValidationError { message: message.to_owned() }
    }

    /// An `InvalidTriangle` error carrying `reason`.
    pub fn invalid_triangle(reason: &str) -> (e: SierpinskiError)
        ensures
            e matches SierpinskiError::InvalidTriangle { reason: r } && r@ == reason@,
    {
        SierpinskiError::InvalidTriangle { reason: reason.to_owned() }
    }

    /// A `SubdivisionError` carrying `reason`.
    pub fn subdivision(reason: &str) -> (e: SierpinskiError)
        ensures
            e matches SierpinskiError::SubdivisionError { reason: r } && r@ == reason@,
    {
        SierpinskiError::SubdivisionError { reason: reason.to_owned() }
    }
}

} // verus!
