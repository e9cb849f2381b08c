//! Loading a module from the bytes its compiler wrote. Decoding the bytes
//! is the caller's part; the library says how a failure is reported.

use vstd::prelude::*;

verus! {

/// The loader of serialized modules.
pub struct Loader;

impl Loader {
    /// The message a failed decoding is reported with, given what the
    /// decoder said.
    pub fn failure_message(detail: &str) -> (m: String)
        ensures
            m@ == "deserialization failed: "@ + detail@,
    {
        let mut m = String::new();
        m.append("deserialization failed: ");
        m.append(detail);
        m
    }
}

} // verus!
