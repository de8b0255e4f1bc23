//! The body of the service's root route.
use vstd::prelude::*;

verus! {

/// The greeting served at the root.
pub fn greeting() -> (r: String)
    ensures
        r@ == "Hello, world!"@,
{
    String::from_str("Hello, world!")
}

} // verus!
