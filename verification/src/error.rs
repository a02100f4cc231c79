//! The library's error type.
use vstd::prelude::*;
use crate::text::push_str;

verus! {

#[verifier::external_type_specification]
#[verifier::external_body]
pub struct ExIoError(std::io::Error);

#[verifier::external_type_specification]
#[verifier::external_body]
pub struct ExJsonError(serde_json::Error);

#[derive(Debug)]
pub enum TaildropError {
    /// The `tailscale` CLI could not be started.
    Spawn(std::io::Error),
    /// The CLI ran and refused; holds its message.
    Command(String),
    /// Distinguished from `Command` so callers (the GUI in particular) can
    /// tell "tailscale rejected this" apart from "we gave up waiting" and
    /// show different UI — e.g. "device is offline" rather than a generic
    /// failure. The message is prefixed with `timeout:` so it survives the
    /// conversion of the error to its text.
    Timeout(String),
    /// Output of the CLI, or a file of ours, that is not the JSON expected.
    Parse(serde_json::Error),
    Io(String),
    NotFound(String),
}

/// The text of an I/O error.
/// Trusted: calls `std::io::Error`'s `to_string`; the text depends on the
/// operating system, so nothing is stated of it.
#[verifier::external_body]
fn io_error_text(e: &std::io::Error) -> (r: String) {
    e.to_string()
}

/// The text of a JSON error.
/// Trusted: calls `serde_json::Error`'s `to_string`; the error is opaque
/// here, so nothing is stated of the text.
#[verifier::external_body]
fn json_error_text(e: &serde_json::Error) -> (r: String) {
    e.to_string()
}

/// The text shown for an error whose inner text is `m`, for the variants
/// that carry their own message.
pub open spec fn error_text(e: TaildropError) -> Seq<char>
    recommends
        !(e is Spawn),
        !(e is Parse),
{
    match e {
        TaildropError::Command(m) => m@,
        TaildropError::Timeout(m) => "timeout: "@ + m@,
        TaildropError::Io(m) => "io error: "@ + m@,
        TaildropError::NotFound(m) => "not found: "@ + m@,
        _ => Seq::empty(),
    }
}

impl TaildropError {
    /// The human-readable text of the error.
    pub fn message(&self) -> (r: String)
        ensures
            !(*self is Spawn) && !(*self is Parse) ==> r@ == error_text(*self),
            *self is Spawn ==> "failed to launch tailscale CLI: "@.is_prefix_of(r@),
            *self is Parse ==> "failed to parse tailscale output: "@.is_prefix_of(r@),
    {
        let mut r = String::new();
        match self {
            TaildropError::Spawn(e) => {
                push_str(&mut r, "failed to launch tailscale CLI: ");
                let t = io_error_text(e);
                push_str(&mut r, t.as_str());
            },
            TaildropError::Command(m) => {
                push_str(&mut r, m.as_str());
            },
            TaildropError::Timeout(m) => {
                push_str(&mut r, "timeout: ");
                push_str(&mut r, m.as_str());
            },
            TaildropError::Parse(e) => {
                push_str(&mut r, "failed to parse tailscale output: ");
                let t = json_error_text(e);
                push_str(&mut r, t.as_str());
            },
            TaildropError::Io(m) => {
                push_str(&mut r, "io error: ");
                push_str(&mut r, m.as_str());
            },
            TaildropError::NotFound(m) => {
                push_str(&mut r, "not found: ");
                push_str(&mut r, m.as_str());
            },
        }
        r
    }
}

impl From<serde_json::Error> for TaildropError {
    fn from(e: serde_json::Error) -> (r: Self) {
        TaildropError::Parse(e)
    }
}

impl vstd::std_specs::convert::FromSpecImpl<serde_json::Error> for TaildropError {
    open spec fn obeys_from_spec() -> bool {
        true
    }

    open spec fn from_spec(e: serde_json::Error) -> Self {
        TaildropError::Parse(e)
    }
}

} // verus!
