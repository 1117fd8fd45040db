//! Which editor opens the configuration: the one that the environment
//! names, or the first of a fixed list that is found on the machine.

use vstd::prelude::*;

verus! {

/// How many editors are looked for.
pub const CANDIDATES: usize = 3;

/// The editor that is taken where none of the candidates is found.
pub const LAST_RESORT: &'static str = "vi";

/// The name of the candidate at place `i`: `vim`, then `vi`, then `nano`,
/// which also stands for every later place.
pub open spec fn candidate_name(i: int) -> Seq<char> {
    if i == 0 {
        "vim"@
    } else if i == 1 {
        "vi"@
    } else {
        "nano"@
    }
}

/// What is done next in the search for an editor.
#[derive(Debug, Clone, Copy)]
pub enum EditorStep {
    /// Find out whether the candidate at this place is on the machine.
    Probe { candidate: usize },
    /// Run this editor.
    Run { editor: &'static str },
}

/// The editor that the environment names: what `EDITOR` holds, else what
/// `VISUAL` holds.
pub fn editor_from_environment(editor: Option<String>, visual: Option<String>) -> (named: Option<
    String,
>)
    ensures
        named == (match editor {
            Some(e) => Some(e),
            None => visual,
        }),
{
    match editor {
        Some(e) => Some(e),
        None => visual,
    }
}

/// The name of the candidate at place `place`.
pub fn candidate(place: usize) -> (name: &'static str)
    ensures
        name@ == candidate_name(place as int),
{
    if place == 0 {
        "vim"
    } else if place == 1 {
        "vi"
    } else {
        "nano"
    }
}

/// The first step of the search.
pub fn first_step() -> (step: EditorStep)
    ensures
        step == (EditorStep::Probe { candidate: 0 }),
{
    EditorStep::Probe { candidate: 0 }
}

/// The step after the probe of `candidate` has told whether it was `found`:
/// a candidate that was found is run; else the next one is probed; after
/// the last one `vi` is run.
pub fn after_probe(candidate: usize, found: bool) -> (step: EditorStep)
    ensures
        match step {
            EditorStep::Run { editor } => if found {
                editor@ == candidate_name(candidate as int)
            } else {
                candidate + 1 >= CANDIDATES && editor@ == LAST_RESORT@
            },
            EditorStep::Probe { candidate: next } => !found && next == candidate + 1 && next
                < CANDIDATES,
        },
{
    if found {
        EditorStep::Run { editor: self::candidate(candidate) }
    } else if candidate < CANDIDATES - 1 {
        EditorStep::Probe { candidate: candidate + 1 }
    } else {
        EditorStep::Run { editor: LAST_RESORT }
    }
}

} // verus!
