use vstd::prelude::*;
use vstd::slice::slice_subrange;
use vstd::string::StringSliceAdditionalSpecFns;
use crate::outside::hex_text::{hex_bytes, hex_decode, is_hex_text};
use crate::parser::error::{new_generic_error, CompileError, ErrorKind};

verus! {

/// A hexadecimal literal, held as the bytes it stands for.
#[derive(Debug, Clone, PartialEq, Eq, Hash)]
pub struct RHexLiteral(pub Vec<u8>);

/// A string literal, without its quotes.
#[derive(Debug, Clone, PartialEq, Eq, Hash)]
pub struct RStringLiteral(pub String);

/// Whether `text` is `0x` followed by an even number of hexadecimal digits.
pub open spec fn is_hex_literal(text: Seq<u8>) -> bool {
    &&& text.len() >= 2
    &&& text[0] == 0x30
    &&& text[1] == 0x78
    &&& is_hex_text(text.subrange(2, text.len() as int))
}

impl RHexLiteral {
    /// Reads a literal from its text, `0x` and pairs of digits. Text of another form is
    /// a `ParseError`.
    pub fn from_text(text: &str) -> (res: Result<Self, CompileError>)
        ensures
            res.is_ok() <==> is_hex_literal(text.spec_bytes()),
            res matches Ok(literal) ==> literal.0@ == hex_bytes(
                text.spec_bytes().subrange(2, text.spec_bytes().len() as int),
            ),
            res matches Err(e) ==> e == (CompileError {
                kind: ErrorKind::ParseError,
                location: None,
            }),
    {
        let bytes = text.as_bytes();
        if bytes.len() < 2 || bytes[0] != 0x30 || bytes[1] != 0x78 {
            return Err(new_generic_error(ErrorKind::ParseError));
        }
        match hex_decode(slice_subrange(bytes, 2, bytes.len())) {
            Ok(decoded) => Ok(RHexLiteral(decoded)),
            Err(_) => Err(new_generic_error(ErrorKind::ParseError)),
        }
    }
}

} // verus!
