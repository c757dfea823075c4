//! The shapes of user and room names.
//!
//! A user name is `@` followed by 3 to 20 characters drawn from ASCII
//! letters, digits, underscore and hyphen; a room name is the same with a
//! leading `#`.  The shapes are part of the wire contract: the parser
//! validates every name before it reaches the registry.

use vstd::prelude::*;

verus! {

/// A character allowed in the body of a user or room name: an ASCII letter,
/// a digit, `_` or `-`.
pub open spec fn is_name_char(c: char) -> bool {
    ||| ('A' as u32) <= (c as u32) && (c as u32) <= ('Z' as u32)
    ||| ('a' as u32) <= (c as u32) && (c as u32) <= ('z' as u32)
    ||| ('0' as u32) <= (c as u32) && (c as u32) <= ('9' as u32)
    ||| c == '_'
    ||| c == '-'
}

/// The body of a name after its sigil: 3 to 20 name characters.
pub open spec fn valid_name_body(s: Seq<char>) -> bool {
    &&& 3 <= s.len() <= 20
    &&& forall|i: int| 0 <= i < s.len() ==> is_name_char(#[trigger] s[i])
}

/// A user name: `@` followed by a valid name body.
pub open spec fn valid_user_name(s: Seq<char>) -> bool {
    &&& s.len() >= 1
    &&& s[0] == '@'
    &&& valid_name_body(s.skip(1))
}

/// A room name: `#` followed by a valid name body.
pub open spec fn valid_room_name(s: Seq<char>) -> bool {
    &&& s.len() >= 1
    &&& s[0] == '#'
    &&& valid_name_body(s.skip(1))
}

/// A well-shaped user or room name contains no space at all: the sigil is
/// not a space and name characters never are.  Names therefore survive
/// token splitting.
pub proof fn lemma_valid_name_no_space(s: Seq<char>)
    requires
        valid_user_name(s) || valid_room_name(s),
    ensures
        forall|i: int| 0 <= i < s.len() ==> s[i] != ' ',
{
    assert forall|i: int| 0 <= i < s.len() implies s[i] != ' ' by {
        if i == 0 {
        } else {
            assert(s.skip(1)[i - 1] == s[i]);
            assert(is_name_char(s.skip(1)[i - 1]));
        }
    }
}

fn is_name_char_exec(c: char) -> (r: bool)
    ensures
        r == is_name_char(c),
{
    let v = c as u32;
    (65 <= v && v <= 90) || (97 <= v && v <= 122) || (48 <= v && v <= 57) || c == '_' || c == '-'
}

/// Checks a candidate name against the given sigil and the body shape.
fn is_valid_with_sigil(s: &str, sigil: char) -> (r: bool)
    ensures
        r == (s@.len() >= 1 && s@[0] == sigil && valid_name_body(s@.skip(1))),
{
    let n = s.unicode_len();
    if n < 4 || n > 21 {
        return false;
    }
    if s.get_char(0) != sigil {
        return false;
    }
    let mut i: usize = 1;
    while i < n
        invariant
            1 <= i <= n,
            n == s@.len(),
            4 <= n <= 21,
            s@[0] == sigil,
            forall|k: int| 1 <= k < i ==> is_name_char(#[trigger] s@[k]),
        decreases n - i,
    {
        if !is_name_char_exec(s.get_char(i)) {
            assert(s@.skip(1)[i - 1] == s@[i as int]);
            return false;
        }
        i += 1;
    }
    assert(s@.skip(1).len() == n - 1);
    assert(forall|k: int| 0 <= k < s@.skip(1).len() ==> is_name_char(#[trigger] s@.skip(1)[k]))
        by {
        assert(forall|k: int| 0 <= k < s@.skip(1).len() ==> s@.skip(1)[k] == s@[k + 1]);
    }
    true
}

/// Whether `s` is a well-shaped user name (`@` and 3 to 20 name characters).
pub fn is_valid_user_name(s: &str) -> (r: bool)
    ensures
        r == valid_user_name(s@),
{
    is_valid_with_sigil(s, '@')
}

/// Whether `s` is a well-shaped room name (`#` and 3 to 20 name characters).
pub fn is_valid_room_name(s: &str) -> (r: bool)
    ensures
        r == valid_room_name(s@),
{
    is_valid_with_sigil(s, '#')
}

} // verus!
