//! The reasons for which a message is turned down.

use crate::text::{decimal, push_decimal, push_signed_decimal, signed_decimal};
use vstd::prelude::*;
use vstd::string::StringExecFns;

verus! {

/// Why a message asks for no command.
#[derive(Debug, PartialEq, Eq)]
pub enum DecodeError {
    /// The message has no line at all, so no marker.
    MissingMarker,
    /// The line that should give an argument's length is not there.
    MissingLength,
    /// The line that should hold an argument is not there.
    MissingText,
    /// An argument's length line, here without its `$`, spells no `i32`.
    BadLength(String),
    /// An argument is not as long as its length line says.
    LengthMismatch { actual: usize, text: String, declared: i32 },
    /// An argument that should be a signed index spells no `i32`.
    NotAnInteger(String),
    /// The marker, held here, and the command's name go with no command.
    UnknownCommand(String),
    /// What a `SET` with a deadline gives as its flag is not `PX`.
    UnknownFlag(String),
    /// A `SET` with the flag `PX` has no line for its milliseconds.
    MissingExpiry,
    /// The milliseconds of a deadline spell no `u64`.
    BadExpiry(String),
}

/// What a `DecodeError` says, with each text as the sequence of its
/// characters.
pub ghost enum DecodeErrorView {
    MissingMarker,
    MissingLength,
    MissingText,
    BadLength(Seq<char>),
    LengthMismatch { actual: nat, text: Seq<char>, declared: int },
    NotAnInteger(Seq<char>),
    UnknownCommand(Seq<char>),
    UnknownFlag(Seq<char>),
    MissingExpiry,
    BadExpiry(Seq<char>),
}

impl View for DecodeError {
    type V = DecodeErrorView;

    open spec fn view(&self) -> DecodeErrorView {
        match *self {
            DecodeError::MissingMarker => DecodeErrorView::MissingMarker,
            DecodeError::MissingLength => DecodeErrorView::MissingLength,
            DecodeError::MissingText => DecodeErrorView::MissingText,
            DecodeError::BadLength(token) => DecodeErrorView::BadLength(token@),
            DecodeError::LengthMismatch { actual, text, declared } => DecodeErrorView::LengthMismatch {
                actual: actual as nat,
                text: text@,
                declared: declared as int,
            },
            DecodeError::NotAnInteger(token) => DecodeErrorView::NotAnInteger(token@),
            DecodeError::UnknownCommand(marker) => DecodeErrorView::UnknownCommand(marker@),
            DecodeError::UnknownFlag(flag) => DecodeErrorView::UnknownFlag(flag@),
            DecodeError::MissingExpiry => DecodeErrorView::MissingExpiry,
            DecodeError::BadExpiry(token) => DecodeErrorView::BadExpiry(token@),
        }
    }
}

/// The sentence that tells a reader of `why`.
pub open spec fn message_of(why: DecodeErrorView) -> Seq<char> {
    match why {
        DecodeErrorView::MissingMarker => "Missing argument length"@,
        DecodeErrorView::MissingLength => "Missing length"@,
        DecodeErrorView::MissingText => "Missing text"@,
        DecodeErrorView::BadLength(token) => "Length must be an integer, got: '"@ + token + "'"@,
        DecodeErrorView::LengthMismatch { actual, text, declared } => "Actual text ("@ + decimal(
            actual,
        ) + ":"@ + text + ") doesn't match expected length ("@ + signed_decimal(declared) + ")"@,
        DecodeErrorView::NotAnInteger(token) => "Expected an integer but got: "@ + token,
        DecodeErrorView::UnknownCommand(marker) => "Command not recognized: "@ + marker,
        DecodeErrorView::UnknownFlag(flag) => "Unrecognized flag: "@ + flag,
        DecodeErrorView::MissingExpiry => "Missing expire time"@,
        DecodeErrorView::BadExpiry(token) => "Expire time must be an integer, got: '"@ + token
            + "'"@,
    }
}

impl DecodeError {
    /// Says in a sentence what is wrong.
    pub fn message(&self) -> (text: String)
        ensures
            text@ == message_of(self@),
    {
        match self {
            DecodeError::MissingMarker => "Missing argument length".to_owned(),
            DecodeError::MissingLength => "Missing length".to_owned(),
            DecodeError::MissingText => "Missing text".to_owned(),
            DecodeError::BadLength(token) => {
                let mut text = "Length must be an integer, got: '".to_owned();
                text.append(token.as_str());
                text.append("'");
                text
            },
            DecodeError::LengthMismatch { actual, text, declared } => {
                let mut out = "Actual text (".to_owned();
                push_decimal(&mut out, *actual as u128);
                out.append(":");
                out.append(text.as_str());
                out.append(") doesn't match expected length (");
                push_signed_decimal(&mut out, *declared as i64);
                out.append(")");
                out
            },
            DecodeError::NotAnInteger(token) => {
                let mut text = "Expected an integer but got: ".to_owned();
                text.append(token.as_str());
                text
            },
            DecodeError::UnknownCommand(marker) => {
                let mut text = "Command not recognized: ".to_owned();
                text.append(marker.as_str());
                text
            },
            DecodeError::UnknownFlag(flag) => {
                let mut text = "Unrecognized flag: ".to_owned();
                text.append(flag.as_str());
                text
            },
            DecodeError::MissingExpiry => "Missing expire time".to_owned(),
            DecodeError::BadExpiry(token) => {
                let mut text = "Expire time must be an integer, got: '".to_owned();
                text.append(token.as_str());
                text.append("'");
                text
            },
        }
    }
}

} // verus!
