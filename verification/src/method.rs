//! HTTP methods and how a test case names them.

use crate::error::{Error, ErrorView};
use crate::text::{chars_of, raised, reads_as, string_of, trim, trimmed, uppercase};
use vstd::prelude::*;

verus! {

/// The method of a request. `UNSET` stands for a test case that names none.
#[derive(Debug, Clone, Copy, PartialEq, Eq, Structural)]
pub enum Method {
    GET,
    POST,
    PUT,
    PATCH,
    DELETE,
    HEAD,
    TRACE,
    OPTIONS,
    CONNECT,
    UNSET,
}

/// The method that an upper-case name stands for.
pub open spec fn method_named(name: Seq<char>) -> Option<Method> {
    if name == "GET"@ {
        Some(Method::GET)
    } else if name == "POST"@ {
        Some(Method::POST)
    } else if name == "PUT"@ {
        Some(Method::PUT)
    } else if name == "PATCH"@ {
        Some(Method::PATCH)
    } else if name == "DELETE"@ {
        Some(Method::DELETE)
    } else if name == "HEAD"@ {
        Some(Method::HEAD)
    } else if name == "TRACE"@ {
        Some(Method::TRACE)
    } else if name == "OPTIONS"@ {
        Some(Method::OPTIONS)
    } else if name == "CONNECT"@ {
        Some(Method::CONNECT)
    } else {
        None
    }
}

/// What the value of a `method:` line gives: the method that its upper-case
/// form names, white space around it aside, or `InvalidMethod` with that form.
pub open spec fn method_of(input: Seq<char>) -> Result<Method, ErrorView> {
    let name = uppercase(trim(input));
    match method_named(name) {
        Some(m) => Ok(m),
        None => Err(ErrorView::InvalidMethod(name)),
    }
}

/// The method that the upper-case name `name` stands for.
pub(crate) fn named(name: &[char]) -> (r: Option<Method>)
    ensures
        r == method_named(name@),
{
    if reads_as(name, "GET") {
        Some(Method::GET)
    } else if reads_as(name, "POST") {
        Some(Method::POST)
    } else if reads_as(name, "PUT") {
        Some(Method::PUT)
    } else if reads_as(name, "PATCH") {
        Some(Method::PATCH)
    } else if reads_as(name, "DELETE") {
        Some(Method::DELETE)
    } else if reads_as(name, "HEAD") {
        Some(Method::HEAD)
    } else if reads_as(name, "TRACE") {
        Some(Method::TRACE)
    } else if reads_as(name, "OPTIONS") {
        Some(Method::OPTIONS)
    } else if reads_as(name, "CONNECT") {
        Some(Method::CONNECT)
    } else {
        None
    }
}

/// Reads the value of a `method:` line.
pub(crate) fn method_of_chars(input: &[char]) -> (r: Result<Method, Error>)
    ensures
        match r {
            Ok(m) => method_of(input@) == Ok::<Method, ErrorView>(m),
            Err(e) => method_of(input@) == Err::<Method, ErrorView>(e@),
        },
{
    let name = raised(trimmed(input));
    match named(name.as_slice()) {
        Some(m) => Ok(m),
        None => Err(Error::InvalidMethod(string_of(name.as_slice()))),
    }
}

impl Method {
    /// The method that `name` stands for, where `name` is in upper case
    /// already: one of the nine method names, letter for letter.
    pub fn named(name: &str) -> (r: Option<Method>)
        ensures
            r == method_named(name@),
    {
        let cs = chars_of(name);
        named(cs.as_slice())
    }

    /// Reads the value of a `method:` line.
    pub fn parse(input: &str) -> (r: Result<Method, Error>)
        ensures
            match r {
                Ok(m) => method_of(input@) == Ok::<Method, ErrorView>(m),
                Err(e) => method_of(input@) == Err::<Method, ErrorView>(e@),
            },
    {
        let cs = chars_of(input);
        method_of_chars(cs.as_slice())
    }
}

/// Reads the value of a `method:` line.
pub fn parse_method(input: &str) -> (r: Result<Method, Error>)
    ensures
        match r {
            Ok(m) => method_of(input@) == Ok::<Method, ErrorView>(m),
            Err(e) => method_of(input@) == Err::<Method, ErrorView>(e@),
        },
{
    Method::parse(input)
}

} // verus!
