//! Validation of bus names, interface names and member names.

use crate::text::{char_is_alnum, char_is_alpha, chars_of, contains_char, is_alnum, is_alpha};
use vstd::prelude::*;

verus! {

/// A character allowed inside an element of a dotted name.
pub open spec fn is_name_char(c: char) -> bool {
    is_alnum(c) || c == '_'
}

/// A character allowed to start an element of a dotted name.
pub open spec fn is_name_start(c: char) -> bool {
    is_alpha(c) || c == '_'
}

/// A dotted name (`org.freedesktop.DBus`): 1 to 255 characters, at least
/// one `.`, and every `.`-separated element non-empty, starting with a
/// letter or `_` and going on with letters, digits or `_`.
pub open spec fn valid_dotted_name(s: Seq<char>) -> bool {
    &&& 1 <= s.len() <= 255
    &&& s.contains('.')
    &&& forall|i: int| 0 <= i < s.len() ==> #[trigger] s[i] == '.' || is_name_char(s[i])
    &&& forall|i: int|
        0 <= i < s.len() && (i == 0 || s[i - 1] == '.') ==> is_name_start(#[trigger] s[i])
    &&& s.last() != '.'
}

/// A character allowed inside an element of a unique name.
pub open spec fn is_unique_char(c: char) -> bool {
    is_alnum(c) || c == '_' || c == '-'
}

/// A unique connection name (`:1.42`): `:` then a non-empty rest of at most
/// 254 characters whose `.`-separated elements are non-empty runs of
/// letters, digits, `_` and `-`.
pub open spec fn valid_unique_name(s: Seq<char>) -> bool {
    &&& 2 <= s.len() <= 255
    &&& s[0] == ':'
    &&& forall|i: int| 1 <= i < s.len() ==> #[trigger] s[i] == '.' || is_unique_char(s[i])
    &&& s[1] != '.'
    &&& s.last() != '.'
    &&& forall|i: int| 2 <= i < s.len() && #[trigger] s[i] == '.' ==> s[i - 1] != '.'
}

/// A bus name: a unique name where it starts with `:`, else a dotted name.
pub open spec fn valid_bus_name(s: Seq<char>) -> bool {
    if s.len() > 0 && s[0] == ':' {
        valid_unique_name(s)
    } else {
        valid_dotted_name(s)
    }
}

/// A member name: 1 to 255 characters, a letter or `_` first, then
/// letters, digits or `_`.
pub open spec fn valid_member_name(s: Seq<char>) -> bool {
    &&& 1 <= s.len() <= 255
    &&& is_name_start(s[0])
    &&& forall|i: int| 1 <= i < s.len() ==> is_name_char(#[trigger] s[i])
}

fn char_is_name_char(c: char) -> (r: bool)
    ensures
        r == is_name_char(c),
{
    char_is_alnum(c) || c == '_'
}

fn char_is_name_start(c: char) -> (r: bool)
    ensures
        r == is_name_start(c),
{
    char_is_alpha(c) || c == '_'
}

/// Whether the characters `cs` form a dotted name.
#[verifier::rlimit(30)]
pub fn dotted_name_chars(cs: &[char]) -> (r: bool)
    ensures
        r == valid_dotted_name(cs@),
{
    let n = cs.len();
    if n == 0 || n > 255 {
        return false;
    }
    if !contains_char(cs, '.') {
        return false;
    }
    if cs[n - 1] == '.' {
        return false;
    }
    let mut i: usize = 0;
    while i < n
        invariant
            n == cs@.len(),
            i <= n,
            forall|j: int| 0 <= j < i ==> #[trigger] cs@[j] == '.' || is_name_char(cs@[j]),
            forall|j: int|
                0 <= j < i && (j == 0 || cs@[j - 1] == '.') ==> is_name_start(#[trigger] cs@[j]),
        decreases n - i,
    {
        let c = cs[i];
        if i == 0 || cs[i - 1] == '.' {
            if !char_is_name_start(c) {
                assert(!is_name_start(cs@[i as int]));
                return false;
            }
        } else if !(c == '.' || char_is_name_char(c)) {
            assert(!(cs@[i as int] == '.' || is_name_char(cs@[i as int])));
            return false;
        }
        proof {
            if i == 0 || cs@[i - 1] == '.' {
                assert(is_name_start(c));
                assert(is_name_char(c));
            }
        }
        i = i + 1;
    }
    true
}

/// Validate a dotted bus, interface or error name. The flag is accepted and
/// ignored.
pub fn is_valid_dotted_name(s: &str, allow_leading_digit_after_hyphen: bool) -> (r: bool)
    ensures
        r == valid_dotted_name(s@),
{
    let cs = chars_of(s);
    dotted_name_chars(cs.as_slice())
}

/// Validate a bus name, unique (`:1.42`) or well-known.
pub fn is_valid_bus_name(s: &str) -> (r: bool)
    ensures
        r == valid_bus_name(s@),
{
    let cs = chars_of(s);
    let n = cs.len();
    if n > 0 && cs[0] == ':' {
        if n < 2 || n > 255 || cs[1] == '.' || cs[n - 1] == '.' {
            return false;
        }
        let mut i: usize = 1;
        while i < n
            invariant
                n == cs@.len(),
                cs@ == s@,
                1 <= i <= n,
                forall|j: int| 1 <= j < i ==> #[trigger] cs@[j] == '.' || is_unique_char(cs@[j]),
                forall|j: int| 2 <= j < i && #[trigger] cs@[j] == '.' ==> cs@[j - 1] != '.',
            decreases n - i,
        {
            let c = cs[i];
            if c == '.' {
                if cs[i - 1] == '.' {
                    assert(cs@[i as int] == '.' && cs@[i - 1] == '.');
                    return false;
                }
            } else if !(char_is_alnum(c) || c == '_' || c == '-') {
                assert(!(cs@[i as int] == '.' || is_unique_char(cs@[i as int])));
                return false;
            }
            i = i + 1;
        }
        return true;
    }
    dotted_name_chars(cs.as_slice())
}

/// Validate a member (method or signal) name.
pub fn is_valid_member_name(s: &str) -> (r: bool)
    ensures
        r == valid_member_name(s@),
{
    let cs = chars_of(s);
    let n = cs.len();
    if n == 0 || n > 255 {
        return false;
    }
    if !char_is_name_start(cs[0]) {
        return false;
    }
    let mut i: usize = 1;
    while i < n
        invariant
            n == cs@.len(),
            cs@ == s@,
            1 <= i <= n,
            forall|j: int| 1 <= j < i ==> is_name_char(#[trigger] cs@[j]),
        decreases n - i,
    {
        if !char_is_name_char(cs[i]) {
            assert(!is_name_char(cs@[i as int]));
            return false;
        }
        i = i + 1;
    }
    true
}

} // verus!
