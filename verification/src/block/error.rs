//! The error a failed configuration load carries: the offending raw line and
//! the reason the line was rejected.

use vstd::prelude::*;

verus! {

/// Why a configuration line was rejected.  An unrecognized key is not an
/// error: it is skipped.
#[derive(Copy, Clone, Debug, PartialEq, Eq, Structural)]
pub enum ErrorKind {
    /// A `key: value` line lacks the separating colon.
    MissingSeparator,
    /// A color value was rejected, for the carried reason.
    InvalidColor(crate::text::color::ParseError),
    /// A numeric value (an interval, a count, a width, an offset) was
    /// rejected.
    InvalidNumber,
    /// A boolean value is neither `true` nor `false`.
    InvalidBoolean,
    /// An alignment value names no placement group.
    InvalidAlignment,
    /// A block section configured no content.
    MissingContent,
    /// A block section configured no alignment.
    MissingAlignment,
}

/// A fatal parse failure: the offending raw line and the reason.  One error
/// aborts the whole parse; there is no partial configuration.
#[derive(Clone, Debug)]
pub struct ParseError {
    pub line: String,
    pub kind: ErrorKind,
}

#[verifier::ext_equal]
pub struct ParseErrorV {
    pub line: Seq<char>,
    pub kind: ErrorKind,
}

impl View for ParseError {
    type V = ParseErrorV;

    open spec fn view(&self) -> ParseErrorV {
        ParseErrorV { line: self.line@, kind: self.kind }
    }
}

/// The reason text each kind carries.
pub open spec fn kind_message_spec(kind: ErrorKind) -> Seq<char> {
    match kind {
        ErrorKind::MissingSeparator => "missing :"@,
        ErrorKind::InvalidColor(c) => match c {
            crate::text::color::ParseError::InvalidDigit => "invalid hex digit in color"@,
            crate::text::color::ParseError::Length(_) => "color string too long"@,
        },
        ErrorKind::InvalidNumber => "invalid number"@,
        ErrorKind::InvalidBoolean => "invalid boolean"@,
        ErrorKind::InvalidAlignment => "invalid alignment"@,
        ErrorKind::MissingContent => "no content defined"@,
        ErrorKind::MissingAlignment => "no alignment defined"@,
    }
}

impl ErrorKind {
    /// The reason in words.
    pub fn message(&self) -> (r: String)
        ensures
            r@ == kind_message_spec(*self),
    {
        match self {
            ErrorKind::MissingSeparator => String::from_str("missing :"),
            ErrorKind::InvalidColor(c) => match c {
                crate::text::color::ParseError::InvalidDigit => String::from_str(
                    "invalid hex digit in color",
                ),
                crate::text::color::ParseError::Length(_) => String::from_str(
                    "color string too long",
                ),
            },
            ErrorKind::InvalidNumber => String::from_str("invalid number"),
            ErrorKind::InvalidBoolean => String::from_str("invalid boolean"),
            ErrorKind::InvalidAlignment => String::from_str("invalid alignment"),
            ErrorKind::MissingContent => String::from_str("no content defined"),
            ErrorKind::MissingAlignment => String::from_str("no alignment defined"),
        }
    }
}

impl ParseError {
    pub fn new(line: &str, kind: ErrorKind) -> (r: ParseError)
        ensures
            r@ == (ParseErrorV { line: line@, kind }),
    {
        ParseError { line: line.to_owned(), kind }
    }

    /// The failure in words: the rejected line and the reason.
    pub fn message(&self) -> (r: String)
        ensures
            r@ == "tried to parse '"@ + self.line@ + "' but "@ + kind_message_spec(self.kind),
    {
        let mut m = String::from_str("tried to parse '");
        m.append(self.line.as_str());
        m.append("' but ");
        let reason = self.kind.message();
        m.append(reason.as_str());
        m
    }
}

} // verus!
