//! Small utilities.
use vstd::prelude::*;

use crate::text::{all_decimal_digits, is_decimal_digit};

verus! {

/// ASCII letters and digits, `-`, `_` and `.`: the chars allowed in file system names.
pub open spec fn is_safe_char(c: char) -> bool {
    ||| ('a' <= c && c <= 'z')
    ||| ('A' <= c && c <= 'Z')
    ||| ('0' <= c && c <= '9')
    ||| c == '-'
    ||| c == '_'
    ||| c == '.'
}

/// Every char of `s` is safe in a file system path.
pub open spec fn is_safe_name(s: Seq<char>) -> bool {
    forall|i: int| 0 <= i < s.len() ==> is_safe_char(#[trigger] s[i])
}

/// The chars that are safe are exactly the ASCII letters and digits, `-`, `_` and `.`: the
/// ASCII alphanumerics are those whose code is 48 to 57, 65 to 90 or 97 to 122.
pub proof fn law_safe_chars(c: char)
    ensures
        is_safe_char(c) <==> ((48 <= c as u32 <= 57) || (65 <= c as u32 <= 90) || (97 <= c as u32
            <= 122) || c as u32 == 45 || c as u32 == 95 || c as u32 == 46),
        is_decimal_digit(c) ==> is_safe_char(c),
        is_safe_char(c) ==> (c as u32) < 128,
{
}

/// A name is safe exactly when both of its parts are; a name of digits only is safe; a
/// name holding `/`, `\` or a space is not.
pub proof fn law_safe_names(a: Seq<char>, b: Seq<char>)
    ensures
        is_safe_name(a + b) <==> is_safe_name(a) && is_safe_name(b),
        all_decimal_digits(a) ==> is_safe_name(a),
        (a.contains('/') || a.contains('\\') || a.contains(' ')) ==> !is_safe_name(a),
{
    assert forall|i: int| 0 <= i < a.len() implies (a + b)[i] == a[i] by {}
    assert forall|i: int| 0 <= i < b.len() implies (a + b)[a.len() + i] == b[i] by {}
    if is_safe_name(a) && is_safe_name(b) {
        assert forall|i: int| 0 <= i < (a + b).len() implies is_safe_char(#[trigger] (a + b)[i]) by {
            if i >= a.len() {
                assert((a + b)[i] == b[i - a.len()]);
            }
        }
    }
    if is_safe_name(a + b) {
        assert forall|i: int| 0 <= i < a.len() implies is_safe_char(#[trigger] a[i]) by {
            assert((a + b)[i] == a[i]);
        }
        assert forall|i: int| 0 <= i < b.len() implies is_safe_char(#[trigger] b[i]) by {
            assert((a + b)[a.len() + i] == b[i]);
        }
    }
    if all_decimal_digits(a) {
        assert forall|i: int| 0 <= i < a.len() implies is_safe_char(#[trigger] a[i]) by {
            assert(is_decimal_digit(a[i]));
        }
    }
}

/// Returns if the given string is safe to use in a file system path.
pub fn is_file_system_safe(s: &str) -> (r: bool)
    ensures
        r == is_safe_name(s@),
{
    broadcast use vstd::string::group_string_axioms;

    for c in it: s.chars()
        invariant
            it.seq() == s@,
            forall|j: int| 0 <= j < it.index() ==> is_safe_char(#[trigger] s@[j]),
    {
        let ok = (c >= 'a' && c <= 'z') || (c >= 'A' && c <= 'Z') || (c >= '0' && c <= '9') || c
            == '-' || c == '_' || c == '.';
        if !ok {
            assert(!is_safe_char(s@[it.index() as int]));
            return false;
        }
    }
    true
}

} // verus!
