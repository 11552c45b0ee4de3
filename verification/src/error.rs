use vstd::prelude::*;

verus! {

/// Why a header could not be decoded.
#[derive(Debug, Clone, Copy, PartialEq, Eq, Structural)]
pub enum ParseError {
    /// The buffer ends before the header (or a field it announces) does.
    BufferTooShort,
    /// A field holds a value that the format does not allow.
    InvalidFormat,
}

/// The message that describes an error.
pub open spec fn parse_error_text(e: ParseError) -> Seq<char> {
    match e {
        ParseError::BufferTooShort => "buffer is too short to parse the header"@,
        ParseError::InvalidFormat => "invalid header format"@,
    }
}

impl ParseError {
    /// The error described for a person.
    pub fn to_string(&self) -> (s: String)
        ensures
            s@ == parse_error_text(*self),
    {
        match self {
            ParseError::BufferTooShort => String::from_str("buffer is too short to parse the header"),
            ParseError::InvalidFormat => String::from_str("invalid header format"),
        }
    }
}

} // verus!
