//! Middle-tier SSA passes of a compiler that lowers a high-level language
//! into an arithmetic-circuit-compatible form.
//!
//! The heart of the crate is the internal-slice data fill pass: given a
//! single-block SSA function holding arbitrarily nested dynamically-sized
//! sequences ("slices"), every sequence-typed value is rewritten so that, at
//! every nesting depth, all concrete instances are padded with zero-shaped
//! dummy data to a single common maximum size.  The circuit backend can then
//! treat every memory operation as statically sized.
//!
//! Around the pass stand the opcode-name catalogue of the circuit's black box
//! functions and a recursive-descent parser for `for` loop expressions.

pub mod blackbox;
pub mod builder;
pub mod fill;
pub mod imvec;
pub mod ir;
pub mod laws;
pub mod parser;
pub mod pass;
pub mod ssa;
pub mod strcmp;
pub mod token;
pub mod tracker;

pub use ir::IrType;
pub use ir::TypeV;
