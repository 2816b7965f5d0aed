pub mod business_requirement;
pub mod business_requirement_id;
pub mod contact;
pub mod date;
pub mod digits;
pub mod known_gap;
pub mod persona;
pub mod render;
pub mod repository;
pub mod sort;
pub mod spec_meta;
pub mod technical_requirement;
pub mod term;

use vstd::prelude::*;

verus! {

/// Why loading or rendering a specification failed.
///
/// `IoError` carries the path of a required file that could not be read.
/// `ParseError` carries a description of the malformed input.
/// `NotFound` carries the numeric id of a referenced contact or persona
/// that is absent from the loaded collections.
#[derive(Debug)]
pub enum SpecError {
    IoError(String),
    ParseError(String),
    NotFound(u8),
}

} // verus!
