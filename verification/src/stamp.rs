//! Identifiers and times, which come from the clock and from chance. Nothing
//! in this file is proved: each function hands on what an outside function
//! returned.

use vstd::prelude::*;
use std::time::SystemTime;

verus! {

/// A point in time of the system clock, opaque to the proofs.
#[verifier::external_type_specification]
#[verifier::external_body]
pub struct ExSystemTime(SystemTime);

/// The time of the system clock, from `std::time::SystemTime::now`. Nothing
/// is claimed of it.
#[verifier::external_body]
pub(crate) fn now() -> SystemTime {
    SystemTime::now()
}

/// A new identifier, from `ulid::Ulid::new`: 48 bits of the clock's
/// milliseconds above 80 bits of chance, handed on as the number that the
/// identifier wraps. Nothing is claimed of it: two calls may even agree.
#[verifier::external_body]
pub(crate) fn fresh_ulid() -> u128 {
    ulid::Ulid::new().0
}

/// The time at which the identifier was made, in the time zone of this
/// machine, written as `format` says. The time is read off the identifier by
/// `ulid::Ulid::datetime` and written out by `chrono`, through
/// `DateTime::<Local>::from` and `DateTime::format`. Nothing is claimed of the
/// text, which depends on the time zone. Every identifier holds a time that
/// both can represent; `chrono` fails on a format that it cannot read, so
/// only the one format of the titles is let in.
#[verifier::external_body]
pub(crate) fn local_creation_time(ulid: u128, format: &str) -> String
    requires
        format@ == crate::chat::DATE_FORMAT@,
{
    let date: chrono::DateTime<chrono::Local> = ulid::Ulid(ulid).datetime().into();
    date.format(format).to_string()
}

} // verus!
