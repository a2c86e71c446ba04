//! An interpreter for a small stack-based language: source text is tokenized
//! into raw tokens, parsed into a nested sequence of typed values, and
//! evaluated against a machine that holds an operand stack and a flat global
//! variable store.

use vstd::prelude::*;

pub mod eval;
pub mod float;
pub mod machine;
pub mod parse;
pub mod text;
pub mod token;
pub mod value;

verus! {

pub use crate::machine::Machine;
pub use crate::parse::parse;
pub use crate::value::Value;

} // verus!
