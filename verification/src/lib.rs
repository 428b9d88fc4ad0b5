pub mod text;
pub mod literal;
pub mod lexer;
pub mod env;
pub mod expr;
pub mod params;
pub mod design;
pub mod width;
pub mod report;
pub mod ff;
pub mod visit;
pub mod loader;
pub mod args;
pub mod analyze;
pub mod format;
pub mod laws;

use vstd::prelude::*;

verus! {
}
