use vstd::prelude::*;

pub mod bracket;
pub mod frame;
pub mod laws;
pub mod lexer;
pub mod machine;
pub mod ops;
pub mod table;
pub mod text;
pub mod value;

verus! {

} // verus!
