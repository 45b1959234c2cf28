//! Filename validation: the sole defense against path traversal outside
//! the storage root.  A name is valid when it contains no parent-directory
//! segment and no path separator of either convention.
//!
//! Validation works on the raw filename bytes as they travel on the wire.
//! The rejected patterns are all ASCII, and UTF-8 maps ASCII bytes to
//! themselves and never produces them while decoding anything else, so
//! validating the bytes and validating the decoded text agree.

use vstd::prelude::*;

verus! {

/// ASCII codes of the rejected characters.
pub const DOT: u8 = 0x2e;

pub const SLASH: u8 = 0x2f;

pub const BACKSLASH: u8 = 0x5c;

/// A name is valid when it holds no forward or backward slash and no two
/// adjacent dots.
pub open spec fn valid_name(s: Seq<u8>) -> bool {
    &&& forall|i: int| 0 <= i < s.len() ==> s[i] != SLASH && s[i] != BACKSLASH
    &&& forall|i: int| 0 <= i && i + 1 < s.len() ==> !(#[trigger] s[i] == DOT && s[i + 1] == DOT)
}

pub fn validate_name(name: &[u8]) -> (r: bool)
    ensures
        r == valid_name(name@),
{
    let mut i: usize = 0;
    while i < name.len()
        invariant
            i <= name@.len(),
            forall|j: int| 0 <= j < i ==> name@[j] != SLASH && name@[j] != BACKSLASH,
            forall|j: int| 0 <= j < i && j + 1 < name@.len() ==> !(#[trigger] name@[j] == DOT
                && name@[j + 1] == DOT),
        decreases name@.len() - i,
    {
        let b = name[i];
        if b == SLASH || b == BACKSLASH {
            return false;
        }
        if b == DOT && i + 1 < name.len() && name[i + 1] == DOT {
            return false;
        }
        i += 1;
    }
    true
}

} // verus!
