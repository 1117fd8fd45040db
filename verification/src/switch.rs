//! The switch from the variables that are exported to those of a profile:
//! which commands are written, and in what order.

use crate::config::{Config, Profile};
use crate::errors::SwitchError;
use crate::name_map::ascending;
use crate::names::{
    is_reserved_name, is_valid_env_var_name, storable_variable_name, PROFILE_MARKER, VARS_MARKER,
};
use crate::shell::{export_line, unset_line, Shell};
use crate::text::{join, joined};
use vstd::std_specs::iter::IteratorSpec;
use vstd::prelude::*;

verus! {

broadcast use vstd::string::group_string_axioms;

/// What `char::is_whitespace` answers for `c`: whether Unicode gives the
/// character the property White_Space.
pub uninterp spec fn unicode_whitespace(c: char) -> bool;

/// `char::is_whitespace` depends on the character alone; its answer is
/// named by `unicode_whitespace`.
pub assume_specification[ char::is_whitespace ](c: char) -> (b: bool)
    ensures
        b == unicode_whitespace(c),
;

/// The characters of `s`, each with the mark of whether it is whitespace.
pub open spec fn marked(s: Seq<char>) -> Seq<(char, bool)> {
    s.map_values(|c: char| (c, unicode_whitespace(c)))
}

/// The characters of a marked text.
pub open spec fn unmarked(text: Seq<(char, bool)>) -> Seq<char> {
    text.map_values(|c: (char, bool)| c.0)
}

/// The number of characters at the start of `text` before the first that
/// is marked, or the end.
pub open spec fn word_length(text: Seq<(char, bool)>) -> nat
    decreases text.len(),
{
    if text.len() == 0 || text[0].1 {
        0
    } else {
        1 + word_length(text.drop_first())
    }
}

/// The words of a marked text: its longest runs of characters without a
/// mark, from left to right.
pub open spec fn words_between(text: Seq<(char, bool)>) -> Seq<Seq<char>>
    decreases text.len(),
    via words_between_shorten
{
    if text.len() == 0 {
        Seq::empty()
    } else if text[0].1 {
        words_between(text.drop_first())
    } else {
        seq![unmarked(text.take(word_length(text) as int))] + words_between(
            text.skip(word_length(text) as int),
        )
    }
}

#[via_fn]
proof fn words_between_shorten(text: Seq<(char, bool)>) {
    lemma_word_length_bound(text);
}

/// The words of `s`: its longest runs of characters without whitespace,
/// from left to right.
pub open spec fn words(s: Seq<char>) -> Seq<Seq<char>> {
    words_between(marked(s))
}

/// Those of `words` that may name a variable of a profile: the valid
/// variable names that are no marker.
pub open spec fn storable_words(words: Seq<Seq<char>>) -> Seq<Seq<char>> {
    words.filter(|w: Seq<char>| storable_variable_name(w))
}

/// A word is no longer than the text it starts.
pub proof fn lemma_word_length_bound(text: Seq<(char, bool)>)
    ensures
        word_length(text) <= text.len(),
    decreases text.len(),
{
    if text.len() > 0 && !text[0].1 {
        lemma_word_length_bound(text.drop_first());
    }
}

/// Marks each character of `text` that is whitespace.
pub fn mark_whitespace(text: &str) -> (out: Vec<(char, bool)>)
    ensures
        out@ == marked(text@),
{
    let mut out: Vec<(char, bool)> = Vec::new();
    for c in it: text.chars()
        invariant
            it.seq() == text@,
            out@ == marked(text@.take(it.index() as int)),
    {
        out.push((c, c.is_whitespace()));
        proof {
            assert(text@.take(it.index() + 1) == text@.take(it.index() as int).push(c));
            assert(out@ =~= marked(text@.take(it.index() + 1)));
        }
    }
    proof {
        assert(text@.take(text@.len() as int) == text@);
    }
    out
}

/// Splits a marked text at the marked characters into its words.
pub fn split_marked(text: &[(char, bool)]) -> (found: Vec<String>)
    ensures
        found.deep_view() == words_between(text@),
{
    let mut found: Vec<String> = Vec::new();
    let mut i: usize = 0;
    proof {
        assert(text@.skip(0) == text@);
        assert(found.deep_view() == Seq::<Seq<char>>::empty());
    }
    while i < text.len()
        invariant
            i <= text.len(),
            words_between(text@) == found.deep_view() + words_between(text@.skip(i as int)),
        decreases text.len() - i,
    {
        let ghost rest = text@.skip(i as int);
        if text[i].1 {
            proof {
                assert(rest.drop_first() == text@.skip(i + 1));
            }
            i = i + 1;
        } else {
            let ghost start = i;
            let ghost before = found.deep_view();
            let mut word = String::new();
            while i < text.len() && !text[i].1
                invariant
                    start <= i <= text.len(),
                    rest == text@.skip(start as int),
                    word@ == unmarked(text@.subrange(start as int, i as int)),
                    word_length(rest) == (i - start) + word_length(text@.skip(i as int)),
                decreases text.len() - i,
            {
                word.push(text[i].0);
                proof {
                    assert(text@.skip(i as int).drop_first() == text@.skip(i + 1));
                    assert(word@ =~= unmarked(text@.subrange(start as int, i + 1)));
                }
                i = i + 1;
            }
            proof {
                assert(word_length(text@.skip(i as int)) == 0);
                assert(rest.take(i - start) == text@.subrange(start as int, i as int));
                assert(rest.skip(i - start) == text@.skip(i as int));
            }
            found.push(word);
            proof {
                assert(found.deep_view() == before + seq![word@]);
            }
        }
    }
    found
}

/// Splits `text` at whitespace into its words.
pub fn split_words(text: &str) -> (found: Vec<String>)
    ensures
        found.deep_view() == words(text@),
{
    let chars = mark_whitespace(text);
    split_marked(chars.as_slice())
}

/// Keeps of `words` those that may name a variable of a profile: the valid
/// variable names that are no marker.
pub fn keep_variable_names(words: Vec<String>) -> (kept: Vec<String>)
    ensures
        kept.deep_view() == storable_words(words.deep_view()),
{
    let ghost all = words.deep_view();
    let mut kept: Vec<String> = Vec::new();
    let mut i: usize = 0;
    proof {
        assert(all.take(0) == Seq::<Seq<char>>::empty());
        assert(kept.deep_view() == Seq::<Seq<char>>::empty());
        reveal(Seq::filter);
    }
    while i < words.len()
        invariant
            i <= words.len(),
            all == words.deep_view(),
            kept.deep_view() == storable_words(all.take(i as int)),
        decreases words.len() - i,
    {
        let word = &words[i];
        let ghost before = kept.deep_view();
        proof {
            assert(all.take(i + 1) == all.take(i as int).push(word@));
            all.take(i as int).lemma_filter_push(
                word@,
                |w: Seq<char>| storable_variable_name(w),
            );
        }
        if is_valid_env_var_name(word.as_str()) && !is_reserved_name(word.as_str()) {
            kept.push(word.clone());
            proof {
                assert(kept.deep_view() == before.push(word@));
            }
        }
        i = i + 1;
    }
    proof {
        assert(all.take(words.len() as int) == all);
    }
    kept
}

/// The names of the variables that were exported, as the marker lists
/// them: its words, without those that no profile could hold.
pub fn old_variable_names(marker: &str) -> (names: Vec<String>)
    ensures
        names.deep_view() == storable_words(words(marker@)),
{
    keep_variable_names(split_words(marker))
}

/// One export command for each variable, in the order of `names`.
pub open spec fn export_lines(shell: Shell, names: Seq<Seq<char>>, values: Seq<Seq<char>>) -> Seq<
    Seq<char>,
> {
    Seq::new(names.len(), |i: int| export_line(shell, names[i], values[i]))
}

/// The commands of a switch to `profile`, called `profile_name`, while the
/// variables `old_names` are exported: first what unsets the old variables,
/// if there are any; then an export for each variable of the profile, in
/// the order of the names; then the export of the marker that holds the
/// profile's name, and that of the marker that lists the names.
pub open spec fn switch_lines(
    shell: Shell,
    profile: Profile,
    profile_name: Seq<char>,
    old_names: Seq<Seq<char>>,
) -> Seq<Seq<char>> {
    (match unset_line(shell, old_names) {
        Some(line) => seq![line],
        None => Seq::empty(),
    }) + export_lines(shell, profile.names(), profile.values()) + seq![
        export_line(shell, PROFILE_MARKER@, profile_name),
        export_line(shell, VARS_MARKER@, joined(profile.names(), " "@)),
    ]
}

/// The commands that switch to the profile `profile_name` while the
/// variables `old_names` are exported. Where `config` has no such profile
/// there is no command, and the error lists the profiles that it has.
pub fn switch_commands(
    config: &Config,
    shell: Shell,
    profile_name: &str,
    old_names: &[String],
) -> (outcome: Result<Vec<String>, SwitchError>)
    ensures
        match outcome {
            Ok(lines) => {
                &&& config@.contains_key(profile_name@)
                &&& lines.deep_view() == switch_lines(
                    shell,
                    config.profiles@[profile_name@],
                    profile_name@,
                    old_names.deep_view(),
                )
            },
            Err(SwitchError::ProfileNotFound { profile, available }) => {
                &&& !config@.contains_key(profile_name@)
                &&& profile@ == profile_name@
                &&& available.deep_view() == config.names()
                &&& ascending(available.deep_view())
                &&& available.deep_view().to_set() == config@.dom()
            },
        },
{
    let profile = match config.get_profile(profile_name) {
        Some(profile) => profile,
        None => {
            let known = config.profile_names();
            let mut available: Vec<String> = Vec::new();
            let mut i: usize = 0;
            while i < known.len()
                invariant
                    i <= known.len(),
                    available@.len() == i,
                    forall|j: int| 0 <= j < i ==> (#[trigger] available@[j])@ == known@[j]@,
                decreases known.len() - i,
            {
                available.push(known[i].to_owned());
                i = i + 1;
            }
            proof {
                assert(available.deep_view() =~= known.deep_view());
            }
            return Err(
                SwitchError::ProfileNotFound { profile: profile_name.to_owned(), available },
            );
        },
    };
    let ghost wanted = switch_lines(shell, *profile, profile_name@, old_names.deep_view());
    let mut lines: Vec<String> = Vec::new();
    match shell.unset_vars(old_names) {
        Some(line) => {
            lines.push(line);
        },
        None => {},
    }
    let ghost head = lines.deep_view();
    let mut names: Vec<String> = Vec::new();
    let n = profile.env_vars.len();
    let mut i: usize = 0;
    while i < n
        invariant
            i <= n,
            n == profile.names().len(),
            n == profile.env_vars.values().len(),
            names.deep_view() == profile.names().take(i as int),
            lines.deep_view() == head + export_lines(
                shell,
                profile.names(),
                profile.values(),
            ).take(i as int),
        decreases n - i,
    {
        let name = profile.env_vars.key(i);
        let value = profile.env_vars.value(i);
        let ghost lines_before = lines.deep_view();
        let ghost names_before = names.deep_view();
        let line = shell.export_var(name.as_str(), value.as_str());
        lines.push(line);
        names.push(name.clone());
        proof {
            let all = export_lines(shell, profile.names(), profile.values());
            assert(lines.deep_view() == lines_before.push(line@));
            assert(names.deep_view() == names_before.push(name@));
            assert(all.take(i + 1) == all.take(i as int).push(line@));
            assert(profile.names().take(i + 1) == profile.names().take(i as int).push(name@));
        }
        i = i + 1;
    }
    let ghost body = lines.deep_view();
    let name_list = names.as_slice();
    proof {
        assert(name_list.deep_view() =~= names.deep_view());
    }
    let listed = join(name_list, " ");
    let first = shell.export_var(PROFILE_MARKER, profile_name);
    let second = shell.export_var(VARS_MARKER, listed.as_str());
    lines.push(first);
    lines.push(second);
    proof {
        let all = export_lines(shell, profile.names(), profile.values());
        assert(all.take(n as int) == all);
        assert(profile.names().take(n as int) == profile.names());
        assert(lines.deep_view() == body.push(first@).push(second@));
        assert(lines.deep_view() == wanted);
    }
    Ok(lines)
}

/// The commands that switch to the profile `profile_name`, given in
/// `old_marker` what the marker of the exported variables holds.
pub fn switch(config: &Config, shell: Shell, profile_name: &str, old_marker: &str) -> (outcome:
    Result<Vec<String>, SwitchError>)
    ensures
        match outcome {
            Ok(lines) => {
                &&& config@.contains_key(profile_name@)
                &&& lines.deep_view() == switch_lines(
                    shell,
                    config.profiles@[profile_name@],
                    profile_name@,
                    storable_words(words(old_marker@)),
                )
            },
            Err(SwitchError::ProfileNotFound { profile, available }) => {
                &&& !config@.contains_key(profile_name@)
                &&& profile@ == profile_name@
                &&& available.deep_view() == config.names()
                &&& ascending(available.deep_view())
                &&& available.deep_view().to_set() == config@.dom()
            },
        },
{
    let old_names = old_variable_names(old_marker);
    switch_commands(config, shell, profile_name, old_names.as_slice())
}

} // verus!
