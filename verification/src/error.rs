//! The ways in which reading a ClientHello fails.

use vstd::prelude::*;
use vstd::string::*;

verus! {

/// Why a buffer could not be read as a ClientHello.
#[derive(Debug)]
pub enum ParseError {
    TooShort,
    NotHandshakeRecord,
    NotClientHello,
    /// The named field runs past the visible bytes.
    Truncated(&'static str),
    BadExtensionData,
}

/// A [`ParseError`] with the name of the truncated field as characters.
pub enum ParseErrorView {
    TooShort,
    NotHandshakeRecord,
    NotClientHello,
    Truncated(Seq<char>),
    BadExtensionData,
}

impl View for ParseError {
    type V = ParseErrorView;

    open spec fn view(&self) -> ParseErrorView {
        match self {
            ParseError::TooShort => ParseErrorView::TooShort,
            ParseError::NotHandshakeRecord => ParseErrorView::NotHandshakeRecord,
            ParseError::NotClientHello => ParseErrorView::NotClientHello,
            ParseError::Truncated(field) => ParseErrorView::Truncated(field@),
            ParseError::BadExtensionData => ParseErrorView::BadExtensionData,
        }
    }
}

impl ParseErrorView {
    /// The message that describes the error.
    pub open spec fn message(self) -> Seq<char> {
        match self {
            ParseErrorView::TooShort => "buffer too short"@,
            ParseErrorView::NotHandshakeRecord => "not a TLS handshake record"@,
            ParseErrorView::NotClientHello => "not a ClientHello handshake message"@,
            ParseErrorView::Truncated(field) => "truncated: "@ + field,
            ParseErrorView::BadExtensionData => "malformed extension data"@,
        }
    }
}

/// The messages of the errors; that of a truncated field ends in the name of
/// the field.
pub proof fn law_messages(field: Seq<char>)
    ensures
        ParseErrorView::TooShort.message() == "buffer too short"@,
        ParseErrorView::NotHandshakeRecord.message() == "not a TLS handshake record"@,
        ParseErrorView::NotClientHello.message() == "not a ClientHello handshake message"@,
        ParseErrorView::BadExtensionData.message() == "malformed extension data"@,
        ParseErrorView::Truncated(field).message().take(11) == "truncated: "@,
        ParseErrorView::Truncated(field).message().skip(11) == field,
{
    reveal_strlit("truncated: ");
    assert(ParseErrorView::Truncated(field).message().take(11) =~= "truncated: "@);
    assert(ParseErrorView::Truncated(field).message().skip(11) =~= field);
}

impl ParseError {
    /// The message that describes the error.
    pub fn to_string(&self) -> (s: String)
        ensures
            s@ == self@.message(),
    {
        match self {
            ParseError::TooShort => String::from_str("buffer too short"),
            ParseError::NotHandshakeRecord => String::from_str("not a TLS handshake record"),
            ParseError::NotClientHello => String::from_str("not a ClientHello handshake message"),
            ParseError::Truncated(field) => {
                let mut s = String::from_str("truncated: ");
                s.append(field);
                s
            },
            ParseError::BadExtensionData => String::from_str("malformed extension data"),
        }
    }
}

} // verus!
