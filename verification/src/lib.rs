use vstd::prelude::*;

pub mod attachment;
pub mod blueprint;
pub mod logging;
pub mod byte_size;
pub mod docx;
pub mod errors;
pub mod markdown;
pub mod mutation;
pub mod natural;
pub mod parser;
pub mod query;
pub mod text;

verus! {
} // verus!
