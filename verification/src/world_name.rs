//! World-name validation: the rules a license name must meet.

use vstd::prelude::*;
use crate::reason::ReasonCode;
use crate::text::{char_alphanumeric, is_unicode_alphanumeric};

verus! {

/// The verdict on a world name: two to eight characters, no leading or
/// trailing space, alphanumeric in the Unicode sense throughout. The
/// checks apply in this order, so a short name with a bad character is
/// reported as too short. The eight-character cap is a protocol-era
/// constraint.
pub open spec fn spec_check_world_name(s: Seq<char>) -> Result<(), ReasonCode> {
    if s.len() < 2 {
        Err(ReasonCode::NameTooShort)
    } else if s.len() > 8 {
        Err(ReasonCode::NameTooLong)
    } else if s[0] == ' ' {
        Err(ReasonCode::NameContainsInvalidBlank)
    } else if s[s.len() - 1] == ' ' {
        Err(ReasonCode::NameEndsWithBlank)
    } else if exists|i: int| 0 <= i < s.len() && !is_unicode_alphanumeric(s[i]) {
        Err(ReasonCode::NameContainsNonalphanumericChar)
    } else {
        Ok(())
    }
}

/// Decides whether a world name is acceptable, reporting the first rule
/// it breaks.
#[verifier::loop_isolation(false)]
pub fn check_valid_world_name(name: &str) -> (r: Result<(), ReasonCode>)
    ensures
        r == spec_check_world_name(name@),
{
    let n = name.unicode_len();
    if n < 2 {
        return Err(ReasonCode::NameTooShort);
    }
    if n > 8 {
        return Err(ReasonCode::NameTooLong);
    }
    if name.get_char(0) == ' ' {
        return Err(ReasonCode::NameContainsInvalidBlank);
    }
    if name.get_char(n - 1) == ' ' {
        return Err(ReasonCode::NameEndsWithBlank);
    }
    let mut i: usize = 0;
    while i < n
        invariant
            i <= n,
            n == name@.len(),
            forall|j: int| 0 <= j < i ==> is_unicode_alphanumeric(name@[j]),
        decreases n - i,
    {
        if !char_alphanumeric(name.get_char(i)) {
            return Err(ReasonCode::NameContainsNonalphanumericChar);
        }
        i = i + 1;
    }
    Ok(())
}

} // verus!
