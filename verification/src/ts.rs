//! Timestamps: texts that name a date and time with an offset.

use crate::date::invalid_text;
use crate::error::CliError;
use crate::text::{trim, trimmed};
use vstd::prelude::*;

verus! {

/// `chrono::ParseError`, the error of a text that chrono cannot read; it is
/// only carried through.
#[verifier::external_type_specification]
#[verifier::external_body]
pub struct ExParseError(chrono::ParseError);

/// Whether `chrono::DateTime::parse_from_rfc3339` reads a date and time
/// from the text.
pub uninterp spec fn rfc3339_accepts(s: Seq<char>) -> bool;

/// `chrono::DateTime::parse_from_rfc3339` reads an RFC 3339 date and time
/// from the whole text or fails with its own error; which of the two
/// depends on the text alone. The value it reads is dropped.
#[verifier::external_body]
fn parse_rfc3339(t: &str) -> (r: Result<(), chrono::ParseError>)
    ensures
        (r is Ok) == rfc3339_accepts(t@),
{
    match chrono::DateTime::parse_from_rfc3339(t) {
        Ok(_) => Ok(()),
        Err(e) => Err(e),
    }
}

/// Whether the trimmed text is read as a date and time.
pub fn is_rfc3339(ts: &str) -> (accepted: bool)
    ensures
        accepted == rfc3339_accepts(trimmed(ts@)),
{
    let t = trim(ts);
    match parse_rfc3339(t.as_str()) {
        Ok(_) => true,
        Err(_) => false,
    }
}

/// Whether a text is a timestamp: not blank, and read as a date and time
/// once trimmed.
pub open spec fn timestamp_ok(ts: Seq<char>) -> bool {
    trimmed(ts).len() > 0 && rfc3339_accepts(trimmed(ts))
}

/// The message for a text that is no timestamp.
pub open spec fn bad_timestamp_text(label: Seq<char>, ts: Seq<char>) -> Seq<char> {
    if trimmed(ts).len() == 0 {
        invalid_text(label, "(empty)"@)
    } else {
        invalid_text(label, ts)
    }
}

/// The fault of a timestamp as its error message, or `None`, given whether
/// its trimmed text was read as a date and time.
pub open spec fn verdict_fault(label: Seq<char>, ts: Seq<char>, accepted: bool) -> Option<
    Seq<char>,
> {
    if trimmed(ts).len() > 0 && accepted {
        None
    } else {
        Some(bad_timestamp_text(label, ts))
    }
}

/// The fault of the timestamp `ts`, if it has one.
pub open spec fn timestamp_fault(ts: Seq<char>) -> Option<Seq<char>> {
    verdict_fault("ts"@, ts, rfc3339_accepts(trimmed(ts)))
}

/// The verdict on a timestamp, given whether its trimmed text was read as
/// a date and time.
pub fn timestamp_verdict(ts: &str, label: &str, accepted: bool) -> (r: Result<(), CliError>)
    ensures
        r is Ok <==> verdict_fault(label@, ts@, accepted) is None,
        r is Err ==> r->Err_0.is_usage(verdict_fault(label@, ts@, accepted)->0),
{
    let t = trim(ts);
    if t.as_str().unicode_len() == 0 {
        return Err(crate::date::invalid_input(label, "(empty)"));
    }
    if accepted {
        Ok(())
    } else {
        Err(crate::date::invalid_input(label, ts))
    }
}

/// Checks that a text is a timestamp; `label` names the input in the
/// error message.
pub fn validate_rfc3339(ts: &str, label: &str) -> (r: Result<(), CliError>)
    ensures
        r is Ok <==> timestamp_ok(ts@),
        r is Err ==> r->Err_0.is_usage(bad_timestamp_text(label@, ts@)),
{
    timestamp_verdict(ts, label, is_rfc3339(ts))
}

} // verus!
