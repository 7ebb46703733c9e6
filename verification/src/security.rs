//! Core logic of the `security` Fusion module, shared by its bindings.

use vstd::prelude::*;

use crate::text::{chars_of, extend, to_string};

verus! {

/// The greeting of the `security` module.
pub fn hello(name: &str) -> (r: String)
    ensures
        r@ == "Hello, "@ + name@ + "! (from security)"@,
{
    let mut out = chars_of("Hello, ");
    extend(&mut out, &chars_of(name));
    extend(&mut out, &chars_of("! (from security)"));
    to_string(&out)
}

} // verus!
