//! What is shown of the profiles: the list of their names, with the active
//! one marked, and the line that names the active profile.

use crate::config::Config;
use crate::text::{same_text, text_of};
use vstd::prelude::*;

verus! {

/// The line of the list for the profile `name`: a star before the active
/// profile, and behind it the word `(active)` where `labelled`.
pub open spec fn listing_line(name: Seq<char>, active: bool, labelled: bool) -> Seq<char> {
    if active {
        if labelled {
            "  * "@ + name + " (active)"@
        } else {
            "  * "@ + name
        }
    } else {
        "    "@ + name
    }
}

/// One line for each of `names`; the active profile is the one called
/// `current`.
pub open spec fn listing_lines(
    names: Seq<Seq<char>>,
    current: Option<Seq<char>>,
    labelled: bool,
) -> Seq<Seq<char>> {
    Seq::new(names.len(), |i: int| listing_line(names[i], current == Some(names[i]), labelled))
}

/// What is shown for the active profile: its name, or that there is none.
pub open spec fn current_text(current: Option<Seq<char>>) -> Seq<char> {
    match current {
        Some(name) => name,
        None => "No profile active"@,
    }
}

/// The list of the profiles of `config`, a line for each in the order of
/// their names, with the profile called `current` marked as the active one.
pub fn listing(config: &Config, current: Option<&str>, labelled: bool) -> (lines: Vec<String>)
    ensures
        lines.deep_view() == listing_lines(config.names(), text_of(current), labelled),
{
    let names = config.profile_names();
    let mut lines: Vec<String> = Vec::new();
    let mut i: usize = 0;
    while i < names.len()
        invariant
            i <= names.len(),
            names.deep_view() == config.names(),
            lines@.len() == i,
            forall|j: int|
                0 <= j < i ==> (#[trigger] lines@[j])@ == listing_line(
                    config.names()[j],
                    text_of(current) == Some(config.names()[j]),
                    labelled,
                ),
        decreases names.len() - i,
    {
        let name = names[i];
        assert(name@ == names.deep_view()[i as int]);
        let active = match current {
            Some(chosen) => same_text(chosen, name),
            None => false,
        };
        let mut line = String::new();
        if active {
            line.append("  * ");
            line.append(name);
            if labelled {
                line.append(" (active)");
            }
        } else {
            line.append("    ");
            line.append(name);
        }
        lines.push(line);
        i = i + 1;
    }
    proof {
        assert(lines.deep_view() =~= listing_lines(config.names(), text_of(current), labelled));
    }
    lines
}

/// The line that names the active profile, or says that there is none.
pub fn current_line(current: Option<&str>) -> (line: String)
    ensures
        line@ == current_text(text_of(current)),
{
    match current {
        Some(name) => name.to_owned(),
        None => "No profile active".to_owned(),
    }
}

} // verus!
