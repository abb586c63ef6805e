//! The recovery session's identity: the name under which the daemon tags
//! its windows and leaves its markers. Tagging and the markers themselves
//! belong to the platform layer.
use vstd::prelude::*;
use vstd::string::StringSliceAdditionalSpecFns;

verus! {

/// An ASCII hexadecimal digit.
pub open spec fn is_hex(b: u8) -> bool {
    (48 <= b <= 57) || (65 <= b <= 70) || (97 <= b <= 102)
}

/// Where a textual GUID holds its dashes.
pub open spec fn dash_at(i: int) -> bool {
    i == 8 || i == 13 || i == 18 || i == 23
}

/// A GUID in its 36-byte text form: hexadecimal digits in groups of 8, 4,
/// 4, 4 and 12, separated by dashes.
pub open spec fn spec_valid_identity(b: Seq<u8>) -> bool {
    &&& b.len() == 36
    &&& forall|i: int| 0 <= i < 36 ==> if dash_at(i) { b[i] == 45u8 } else { is_hex(#[trigger] b[i]) }
}

/// Whether `identity` may name a recovery session.
pub fn valid_identity(identity: &str) -> (r: bool)
    ensures
        r == spec_valid_identity(identity.spec_bytes()),
{
    let b = identity.as_bytes();
    if b.len() != 36 {
        return false;
    }
    let mut i: usize = 0;
    while i < 36
        invariant
            b@ == identity.spec_bytes(),
            b@.len() == 36,
            i <= 36,
            forall|j: int| 0 <= j < i ==> if dash_at(j) { b@[j] == 45u8 } else { is_hex(#[trigger] b@[j]) },
        decreases 36 - i,
    {
        let c = b[i];
        let ok = if i == 8 || i == 13 || i == 18 || i == 23 {
            c == 45
        } else {
            (48 <= c && c <= 57) || (65 <= c && c <= 70) || (97 <= c && c <= 102)
        };
        if !ok {
            assert(!(if dash_at(i as int) { b@[i as int] == 45u8 } else { is_hex(b@[i as int]) }));
            return false;
        }
        i += 1;
    }
    true
}

} // verus!
