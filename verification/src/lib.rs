//! Geometric foundation of a triangle-fractal cryptocurrency.
//!
//! The crate holds a quaternary address scheme for the triangles of a
//! Sierpinski fractal, fixed-point planar geometry, the triangle life cycle,
//! the subdivision algorithm with its area-conservation check, and the block
//! and chain structures that commit to them; around these stand the
//! validation of fractals, the token economics, the wallets, and what a node
//! answers to its peers. Every executable function is verified against the
//! contract written beside it. Decimal arithmetic, hashing, signatures,
//! identifiers and the clock come from outside and are trusted as their
//! contracts state.

use vstd::prelude::*;

pub mod address;
pub mod block;
pub mod blockchain;
pub mod clock;
pub mod decimal;
pub mod economics;
pub mod errors;
pub mod fractal;
pub mod genesis;
pub mod geometry;
pub mod hashing;
pub mod ident;
pub mod ledger;
pub mod mining;
pub mod network;
pub mod renderer;
pub mod state;
pub mod subdivision;
pub mod text;
pub mod triangle;
pub mod validation;
pub mod wallet;

pub use address::TriangleAddress;
pub use decimal::Decimal;
pub use errors::{SierpinskiError, SierpinskiResult};
pub use fractal::FractalTriangle;
pub use genesis::genesis_triangle;
pub use geometry::Point;
pub use state::TriangleState;
pub use subdivision::subdivide_triangle;
pub use triangle::Triangle;
pub use validation::validate_triangle;

verus! {

/// Number of fractional digits a decimal coordinate can carry.
pub const DECIMAL_PRECISION: u32 = 28;

/// Deepest level a triangle may be subdivided to.
pub const MAX_SUBDIVISION_DEPTH: u8 = 20;

/// Version of the geometric protocol.
pub const PROTOCOL_VERSION: &'static str = "0.1.0";

} // verus!
