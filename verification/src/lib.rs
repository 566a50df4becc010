//! A converter for a small custom markup language into HTML fragments.
//!
//! The conversion core is a pure pipeline over one document: line
//! segmentation, block-level markup, inline statement directives, a table
//! sub-formatter and a final pass toggling paired inline styles.  Reading
//! and writing files, configuration parsing and template substitution are
//! collaborators around the core and live outside this library.

use vstd::prelude::*;

pub mod case;
pub mod config;
pub mod convert;
pub mod escape;
pub mod text;
pub mod utils;

verus! {

/// Error raised by the collaborators around the conversion core (a missing
/// file, an unknown file extension).  The core itself is total and never
/// fails, so no error originates inside it.
#[derive(Debug)]
pub struct MyError(pub String);

impl MyError {
    pub fn new(message: String) -> (r: MyError)
        ensures
            r.0@ == message@,
    {
        MyError(message)
    }

    /// The human-readable description carried by this error.
    pub fn message(&self) -> (r: &String)
        ensures
            r@ == self.0@,
    {
        &self.0
    }
}

} // verus!
