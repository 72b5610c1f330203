//! Commands invoked from the bundled web UI.

use vstd::prelude::*;
use vstd::string::StringExecFns;

verus! {

/// Greets the named caller with the fixed salutation text around the name.
pub fn greet(name: &str) -> (r: String)
    ensures
        r@ == "Hello, "@ + name@ + "! You've been greeted from Rust!"@,
{
    "Hello, ".to_owned().concat(name).concat("! You've been greeted from Rust!")
}

} // verus!
