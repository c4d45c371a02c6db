//! The methods of a request.

use crate::text::{chars_of, spells};
use vstd::prelude::*;

verus! {

/// The method of a request.
#[derive(Clone, Copy, Debug, PartialEq, Eq, Structural)]
pub enum Method {
    GET,
    POST,
    PUT,
    DELETE,
    PATCH,
    HEAD,
    OPTIONS,
    CONNECT,
    TRACE,
}

impl Method {
    /// The method that a name, in capital letters, stands for.
    pub open spec fn of_name(s: Seq<char>) -> Option<Method> {
        if s == "GET"@ {
            Some(Method::GET)
        } else if s == "POST"@ {
            Some(Method::POST)
        } else if s == "PUT"@ {
            Some(Method::PUT)
        } else if s == "DELETE"@ {
            Some(Method::DELETE)
        } else if s == "PATCH"@ {
            Some(Method::PATCH)
        } else if s == "HEAD"@ {
            Some(Method::HEAD)
        } else if s == "OPTIONS"@ {
            Some(Method::OPTIONS)
        } else if s == "CONNECT"@ {
            Some(Method::CONNECT)
        } else if s == "TRACE"@ {
            Some(Method::TRACE)
        } else {
            None
        }
    }

    /// The method that `name` stands for, if it is one of the nine.
    pub fn from_name(name: &str) -> (r: Option<Method>)
        ensures
            r == Method::of_name(name@),
    {
        let word = chars_of(name);
        if spells(&word, "GET") {
            Some(Method::GET)
        } else if spells(&word, "POST") {
            Some(Method::POST)
        } else if spells(&word, "PUT") {
            Some(Method::PUT)
        } else if spells(&word, "DELETE") {
            Some(Method::DELETE)
        } else if spells(&word, "PATCH") {
            Some(Method::PATCH)
        } else if spells(&word, "HEAD") {
            Some(Method::HEAD)
        } else if spells(&word, "OPTIONS") {
            Some(Method::OPTIONS)
        } else if spells(&word, "CONNECT") {
            Some(Method::CONNECT)
        } else if spells(&word, "TRACE") {
            Some(Method::TRACE)
        } else {
            None
        }
    }
}

} // verus!
