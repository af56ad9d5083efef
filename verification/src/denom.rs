//! Validation of native asset denominations, performed by the outside
//! denomination checker.

use crate::error::DenomError;
use crate::error::DenomErrorV;
use vstd::prelude::*;
use vstd::utf8::encode_utf8;

verus! {

/// The length in bytes of a string's UTF-8 encoding.
pub open spec fn byte_len(s: Seq<char>) -> nat {
    encode_utf8(s).len()
}

/// Is the character an ASCII letter?
pub open spec fn is_ascii_alpha(c: char) -> bool {
    (65 <= c as u32 && c as u32 <= 90) || (97 <= c as u32 && c as u32 <= 122)
}

/// May the character occur in a native denomination (past the first
/// position)? ASCII letters and digits, and the five separators the
/// checker allows.
pub open spec fn is_denom_char(c: char) -> bool {
    ||| is_ascii_alpha(c)
    ||| (48 <= c as u32 && c as u32 <= 57)
    ||| c == '/'
    ||| c == ':'
    ||| c == '.'
    ||| c == '_'
    ||| c == '-'
}

/// The first character of the sequence that may not occur in a native
/// denomination, if any.
pub open spec fn first_bad_char(s: Seq<char>) -> Option<char>
    decreases s.len(),
{
    if s.len() == 0 {
        None
    } else if !is_denom_char(s[0]) {
        Some(s[0])
    } else {
        first_bad_char(s.drop_first())
    }
}

/// The denomination checker's verdict on a string: the byte length must
/// lie in [3, 128], the first character must be an ASCII letter, and
/// every further character must be a denomination character; the checks
/// run in that order and the first to fail is reported.
pub open spec fn denom_check(s: Seq<char>) -> Option<DenomErrorV> {
    if byte_len(s) < 3 || byte_len(s) > 128 {
        Some(DenomErrorV::NativeDenomLength { len: byte_len(s) })
    } else if s.len() == 0 || !is_ascii_alpha(s[0]) {
        Some(DenomErrorV::NonAlphabeticAscii)
    } else {
        match first_bad_char(s.drop_first()) {
            Some(c) => Some(DenomErrorV::InvalidCharacter { c }),
            None => None,
        }
    }
}

/// Relies on cw_denom::validate_native_denom: answers exactly as
/// [`denom_check`] describes, over the string alone. The checker's other
/// error variants cannot come from this call.
#[verifier::external_body]
pub(crate) fn validate_native_denom(denom: &String) -> (r: Option<DenomError>)
    ensures
        match r {
            None => denom_check(denom@) is None,
            Some(e) => denom_check(denom@) == Some(e@),
        },
{
    match cw_denom::validate_native_denom(denom.clone()) {
        Ok(_) => None,
        Err(cw_denom::DenomError::NativeDenomLength { len }) => Some(
            DenomError::NativeDenomLength { len },
        ),
        Err(cw_denom::DenomError::InvalidCharacter { c }) => Some(
            DenomError::InvalidCharacter { c },
        ),
        Err(_) => Some(DenomError::NonAlphabeticAscii),
    }
}

} // verus!
