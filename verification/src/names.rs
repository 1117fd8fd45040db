//! The rules a profile name and a variable name have to meet before they are
//! stored or written into shell source.

use crate::text::same_text;
use vstd::prelude::*;
use vstd::std_specs::iter::IteratorSpec;

verus! {

broadcast use vstd::string::group_string_axioms;

/// The variable that holds the name of the active profile.
pub const PROFILE_MARKER: &'static str = "SETENV_PROFILE";

/// The variable that lists the names of the variables that are exported.
pub const VARS_MARKER: &'static str = "SETENV_VARS";

/// What `char::is_alphanumeric` answers for `c`: whether Unicode counts
/// the character as alphabetic or numeric.
pub uninterp spec fn unicode_alphanumeric(c: char) -> bool;

/// `char::is_alphanumeric` depends on the character alone; its answer is
/// named by `unicode_alphanumeric`.
pub assume_specification[ char::is_alphanumeric ](c: char) -> (b: bool)
    ensures
        b == unicode_alphanumeric(c),
;

pub open spec fn is_ascii_letter(c: char) -> bool {
    ('a' <= c && c <= 'z') || ('A' <= c && c <= 'Z')
}

pub open spec fn is_ascii_digit(c: char) -> bool {
    '0' <= c && c <= '9'
}

/// A character that may stand in a profile name: a letter or a digit, of
/// ASCII or of any other script, an underscore or a dash.
pub open spec fn profile_name_char(c: char) -> bool {
    is_ascii_letter(c) || is_ascii_digit(c) || unicode_alphanumeric(c) || c == '_' || c == '-'
}

/// A profile name is not empty and made of `profile_name_char`s.
pub open spec fn valid_profile_name(s: Seq<char>) -> bool {
    &&& s.len() > 0
    &&& forall|i: int| 0 <= i < s.len() ==> profile_name_char(#[trigger] s[i])
}

/// A character that may start a variable name.
pub open spec fn variable_name_start(c: char) -> bool {
    is_ascii_letter(c) || c == '_'
}

/// A character that may stand after the first in a variable name.
pub open spec fn variable_name_char(c: char) -> bool {
    is_ascii_letter(c) || is_ascii_digit(c) || c == '_'
}

/// A variable name is a shell identifier: an ASCII letter or an underscore,
/// then ASCII letters, digits and underscores.
pub open spec fn valid_variable_name(s: Seq<char>) -> bool {
    &&& s.len() > 0
    &&& variable_name_start(s[0])
    &&& forall|i: int| 1 <= i < s.len() ==> variable_name_char(#[trigger] s[i])
}

/// One of the two names that are kept for the markers.
pub open spec fn is_reserved(s: Seq<char>) -> bool {
    s == VARS_MARKER@ || s == PROFILE_MARKER@
}

/// A name that a profile may hold: a valid variable name that is no marker.
pub open spec fn storable_variable_name(s: Seq<char>) -> bool {
    valid_variable_name(s) && !is_reserved(s)
}

pub fn ascii_letter(c: char) -> (b: bool)
    ensures
        b == is_ascii_letter(c),
{
    (c >= 'a' && c <= 'z') || (c >= 'A' && c <= 'Z')
}

pub fn ascii_digit(c: char) -> (b: bool)
    ensures
        b == is_ascii_digit(c),
{
    c >= '0' && c <= '9'
}

/// Whether `c` may stand in a profile name, given in `alphanumeric` what
/// Unicode says of it.
pub fn allowed_in_profile_name(c: char, alphanumeric: bool) -> (ok: bool)
    ensures
        ok == (is_ascii_letter(c) || is_ascii_digit(c) || alphanumeric || c == '_' || c == '-'),
{
    ascii_letter(c) || ascii_digit(c) || alphanumeric || c == '_' || c == '-'
}

/// Whether `name` can name a profile.
pub fn is_valid_profile_name(name: &str) -> (ok: bool)
    ensures
        ok == valid_profile_name(name@),
{
    let mut seen: usize = 0;
    for c in it: name.chars()
        invariant
            it.seq() == name@,
            seen == if it.index() > 0 { 1usize } else { 0usize },
            forall|i: int| 0 <= i < it.index() ==> profile_name_char(#[trigger] name@[i]),
    {
        if !allowed_in_profile_name(c, c.is_alphanumeric()) {
            return false;
        }
        seen = 1;
    }
    seen > 0
}

/// Whether `name` can name an environment variable.
pub fn is_valid_env_var_name(name: &str) -> (ok: bool)
    ensures
        ok == valid_variable_name(name@),
{
    let mut first = true;
    for c in it: name.chars()
        invariant
            it.seq() == name@,
            first == (it.index() == 0),
            it.index() > 0 ==> variable_name_start(name@[0]),
            forall|i: int| 1 <= i < it.index() ==> variable_name_char(#[trigger] name@[i]),
    {
        if first {
            if !(ascii_letter(c) || c == '_') {
                return false;
            }
            first = false;
        } else if !(ascii_letter(c) || ascii_digit(c) || c == '_') {
            return false;
        }
    }
    !first
}

/// Whether `name` is one of the two marker names.
pub fn is_reserved_name(name: &str) -> (r: bool)
    ensures
        r == is_reserved(name@),
{
    same_text(name, VARS_MARKER) || same_text(name, PROFILE_MARKER)
}

/// One of the characters that every profile name may hold, whatever Unicode
/// says: an ASCII letter, an ASCII digit, an underscore or a dash.
pub open spec fn plain_name_char(c: char) -> bool {
    is_ascii_letter(c) || is_ascii_digit(c) || c == '_' || c == '-'
}

/// A name that is not empty and made of ASCII letters, ASCII digits,
/// underscores and dashes is a valid profile name.
pub proof fn lemma_plain_profile_name_is_valid(name: Seq<char>)
    requires
        name.len() >= 1,
        forall|i: int| 0 <= i < name.len() ==> plain_name_char(#[trigger] name[i]),
    ensures
        valid_profile_name(name),
{
}

/// A character that is neither plain nor counted by Unicode as a letter or
/// a number, put anywhere into a name, leaves no valid profile name.
pub proof fn lemma_other_character_spoils_profile_name(name: Seq<char>, at: int, c: char)
    requires
        0 <= at <= name.len(),
        !plain_name_char(c),
        !unicode_alphanumeric(c),
    ensures
        !valid_profile_name(name.insert(at, c)),
{
    assert(name.insert(at, c)[at] == c);
}

/// The empty name is no valid profile name.
pub proof fn lemma_empty_profile_name_is_invalid()
    ensures
        !valid_profile_name(Seq::<char>::empty()),
{
}

/// A name that starts with an ASCII letter or an underscore and goes on
/// with ASCII letters, ASCII digits and underscores is a valid variable
/// name.
pub proof fn lemma_identifier_is_valid_variable_name(name: Seq<char>)
    requires
        name.len() >= 1,
        is_ascii_letter(name[0]) || name[0] == '_',
        forall|i: int|
            1 <= i < name.len() ==> is_ascii_letter(#[trigger] name[i]) || is_ascii_digit(name[i])
                || name[i] == '_',
    ensures
        valid_variable_name(name),
{
}

/// A name that starts with a digit is no valid variable name.
pub proof fn lemma_leading_digit_spoils_variable_name(name: Seq<char>)
    requires
        name.len() >= 1,
        is_ascii_digit(name[0]),
    ensures
        !valid_variable_name(name),
{
}

/// A name that holds a space, a dot or a dash is no valid variable name.
pub proof fn lemma_space_dot_dash_spoil_variable_name(name: Seq<char>, at: int)
    requires
        0 <= at < name.len(),
        name[at] == ' ' || name[at] == '.' || name[at] == '-',
    ensures
        !valid_variable_name(name),
{
    if at >= 1 {
        assert(!variable_name_char(name[at]));
    }
}

} // verus!
