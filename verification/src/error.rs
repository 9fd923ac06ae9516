//! What can go wrong in the library itself.

use vstd::prelude::*;

use crate::text;
use crate::text::{append_chars, append_text, chars_of, int_chars, text_of};

verus! {

#[derive(Debug, Clone, Copy, PartialEq, Eq)]
pub enum Error {
    /// There is nothing to scan.
    NoRoots,
    /// The database was written by a later build.
    SchemaTooNew { found: i64, supported: i64 },
    /// There is no such row.
    NotFound { kind: &'static str, id: i64 },
}

/// The text an error is reported with.
pub open spec fn error_text(e: Error) -> Seq<char> {
    match e {
        Error::NoRoots => "no library roots configured; add one with `albumplayer scan <DIR>`"@,
        Error::SchemaTooNew { found, supported } => "database schema is version "@ + text::int_text(
            found as int,
        ) + ", but this build understands "@ + text::int_text(supported as int),
        Error::NotFound { kind, id } => "no such "@ + kind@ + " with id "@ + text::int_text(
            id as int,
        ),
    }
}

impl Error {
    pub fn to_text(&self) -> (r: String)
        ensures
            r@ == error_text(*self),
    {
        match self {
            Error::NoRoots => "no library roots configured; add one with `albumplayer scan <DIR>`".to_owned(),
            Error::SchemaTooNew { found, supported } => {
                let mut out = chars_of("database schema is version ");
                append_chars(&mut out, &int_chars(*found));
                append_text(&mut out, ", but this build understands ");
                append_chars(&mut out, &int_chars(*supported));
                text_of(&out)
            },
            Error::NotFound { kind, id } => {
                let mut out = chars_of("no such ");
                append_text(&mut out, kind);
                append_text(&mut out, " with id ");
                append_chars(&mut out, &int_chars(*id));
                text_of(&out)
            },
        }
    }
}

} // verus!
