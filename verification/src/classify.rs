//! Classification of primitive type-signature names.
//!
//! A fixed table maps the numeric signature names to the scalar kind
//! `"number"` and the text signature names to `"string"`; every other name is
//! not primitive.

use vstd::prelude::*;

verus! {

/// The scalar kind, if any, that a bare signature name denotes:
/// `"number"` for the fixed-width and platform-width numeric names,
/// `"string"` for the owned and borrowed text names, and `None` otherwise.
pub open spec fn spec_classify(name: Seq<char>) -> Option<Seq<char>> {
    if name == "usize"@ || name == "isize"@ || name == "i32"@ || name == "u32"@ || name == "i8"@
        || name == "u8"@ || name == "i16"@ || name == "u16"@ || name == "i64"@ || name == "u64"@
        || name == "f32"@ || name == "f64"@ {
        Some("number"@)
    } else if name == "String"@ || name == "str"@ {
        Some("string"@)
    } else {
        None
    }
}

/// Character-wise equality of two string slices.
pub(crate) fn str_eq(a: &str, b: &str) -> (r: bool)
    ensures
        r == (a@ == b@),
{
    let la = a.unicode_len();
    let lb = b.unicode_len();
    if la != lb {
        return false;
    }
    let mut i: usize = 0;
    while i < la
        invariant
            la == a@.len(),
            lb == b@.len(),
            la == lb,
            i <= la,
            forall|j: int| 0 <= j < i ==> a@[j] == b@[j],
        decreases la - i,
    {
        if a.get_char(i) != b.get_char(i) {
            return false;
        }
        i += 1;
    }
    proof {
        assert(a@ =~= b@);
    }
    true
}

/// Looks a bare identifier up in the primitive table: `Some("number")` or
/// `Some("string")` for a recognized primitive name, `None` for any other.
pub fn into_json_type(ty: &str) -> (r: Option<String>)
    ensures
        match r {
            Some(kind) => spec_classify(ty@) == Some(kind@),
            None => spec_classify(ty@) is None,
        },
{
    if str_eq(ty, "usize") || str_eq(ty, "isize") || str_eq(ty, "i32") || str_eq(ty, "u32")
        || str_eq(ty, "i8") || str_eq(ty, "u8") || str_eq(ty, "i16") || str_eq(ty, "u16")
        || str_eq(ty, "i64") || str_eq(ty, "u64") || str_eq(ty, "f32") || str_eq(ty, "f64") {
        Some(String::from_str("number"))
    } else if str_eq(ty, "String") || str_eq(ty, "str") {
        Some(String::from_str("string"))
    } else {
        None
    }
}

} // verus!
