//! Switches that are set from outside.

use crate::text::{ascii_lower, same_text};
use vstd::prelude::*;
use vstd::string::StrSliceExecFns;

verus! {

/// The text is "false", in capital or small letters.
pub open spec fn says_false(text: Seq<char>) -> bool {
    text.map_values(|c: char| ascii_lower(c)) == "false"@
}

fn is_letter(c: char, small: char, capital: char) -> (r: bool)
    requires
        'a' <= small <= 'z',
        capital as u32 + 32 == small as u32,
    ensures
        r == (ascii_lower(c) == small),
{
    c == small || c == capital
}

fn is_false(text: &str) -> (r: bool)
    ensures
        r == says_false(text@),
{
    proof {
        reveal_strlit("false");
    }
    if text.unicode_len() != 5 {
        assert(text@.map_values(|c: char| ascii_lower(c)).len() == text@.len());
        return false;
    }
    let r = is_letter(text.get_char(0), 'f', 'F') && is_letter(text.get_char(1), 'a', 'A')
        && is_letter(text.get_char(2), 'l', 'L') && is_letter(text.get_char(3), 's', 'S')
        && is_letter(text.get_char(4), 'e', 'E');
    proof {
        let lower = text@.map_values(|c: char| ascii_lower(c));
        if r {
            assert(lower =~= "false"@);
        } else {
            assert(lower[0] == ascii_lower(text@[0]));
            assert(lower[1] == ascii_lower(text@[1]));
            assert(lower[2] == ascii_lower(text@[2]));
            assert(lower[3] == ascii_lower(text@[3]));
            assert(lower[4] == ascii_lower(text@[4]));
        }
    }
    r
}

/// Whether a switch is on: it is where it is set to anything but zero and false, and by default
/// where it is not set.
pub fn env_flag(value: Option<&str>, default: bool) -> (r: bool)
    ensures
        r == match value {
            Some(text) => !(text@ == "0"@ || says_false(text@)),
            None => default,
        },
{
    match value {
        Some(text) => !(same_text(text, "0") || is_false(text)),
        None => default,
    }
}

/// A text turns a switch off as "false" if and only if it has five characters, each of them the letter
/// of that word in its place, capital or small.
pub proof fn law_false_is_spelled_out(text: Seq<char>)
    ensures
        says_false(text) <==> {
            &&& text.len() == 5
            &&& text[0] == 'f' || text[0] == 'F'
            &&& text[1] == 'a' || text[1] == 'A'
            &&& text[2] == 'l' || text[2] == 'L'
            &&& text[3] == 's' || text[3] == 'S'
            &&& text[4] == 'e' || text[4] == 'E'
        },
{
    reveal_strlit("false");
    let lower = text.map_values(|c: char| ascii_lower(c));
    if says_false(text) {
        assert(lower.len() == 5);
        assert(lower[0] == 'f' && lower[1] == 'a' && lower[2] == 'l' && lower[3] == 's' && lower[4]
            == 'e');
    }
    if text.len() == 5 && (text[0] == 'f' || text[0] == 'F') && (text[1] == 'a' || text[1] == 'A')
        && (text[2] == 'l' || text[2] == 'L') && (text[3] == 's' || text[3] == 'S') && (text[4]
        == 'e' || text[4] == 'E') {
        assert(lower =~= "false"@);
    }
}

} // verus!
