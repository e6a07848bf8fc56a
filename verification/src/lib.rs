//! Adapter for an OpenAI-compatible chat-completion endpoint.
//!
//! The library builds the outbound HTTP request (URL, headers, JSON body)
//! from a structured request value, and interprets the status and body that
//! come back.  Sending the request over the network is left to the caller.

use vstd::prelude::*;

pub mod chars;
pub mod gateway;
pub mod json;
pub mod model;

verus! {

/// The greeting for `name`: a function of the name alone, so repeated
/// calls with the same name always yield the same text.
pub open spec fn greeting_of(name: Seq<char>) -> Seq<char> {
    "Hello, "@ + name + "! You've been greeted!"@
}

/// Returns the greeting for `name`, exactly
/// `"Hello, <name>! You've been greeted!"`.
pub fn greet(name: &str) -> (r: String)
    ensures
        r@ == greeting_of(name@),
{
    let mut s = String::new();
    s.append("Hello, ");
    s.append(name);
    s.append("! You've been greeted!");
    s
}

} // verus!
