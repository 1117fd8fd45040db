//! The shell dialects and the commands that are written for them.

use crate::text::{contains, has_substring, join, joined, text_of};
use vstd::prelude::*;
use vstd::std_specs::iter::IteratorSpec;

verus! {

broadcast use vstd::string::group_string_axioms;

/// A shell family whose syntax the commands are written in.
#[derive(Debug, Clone, Copy, PartialEq, Eq, Structural)]
pub enum Shell {
    Bash,
    Zsh,
    Fish,
}

/// A character that keeps a meaning inside double quotes.
pub open spec fn needs_escape(c: char) -> bool {
    c == '\\' || c == '"' || c == '$' || c == '`'
}

/// What stands for `c` inside double quotes: `c` itself, after a backslash
/// where `c` would keep a meaning there.
pub open spec fn escaped_char(c: char) -> Seq<char> {
    if needs_escape(c) {
        seq!['\\', c]
    } else {
        seq![c]
    }
}

/// `s` with each of its characters written as `escaped_char` gives it.
pub open spec fn escaped(s: Seq<char>) -> Seq<char>
    decreases s.len(),
{
    if s.len() == 0 {
        Seq::empty()
    } else {
        escaped(s.drop_last()) + escaped_char(s.last())
    }
}

/// The command that sets `name` to `value` and exports it.
pub open spec fn export_line(shell: Shell, name: Seq<char>, value: Seq<char>) -> Seq<char> {
    match shell {
        Shell::Bash | Shell::Zsh => "export "@ + name + "=\""@ + escaped(value) + "\""@,
        Shell::Fish => "set -gx "@ + name + " \""@ + escaped(value) + "\""@,
    }
}

/// The command that unsets all of `names`, if there are any.
pub open spec fn unset_line(shell: Shell, names: Seq<Seq<char>>) -> Option<Seq<char>> {
    if names.len() == 0 {
        None
    } else {
        Some(
            match shell {
                Shell::Bash | Shell::Zsh => "unset "@ + joined(names, " "@),
                Shell::Fish => "set -eg "@ + joined(names, " "@),
            },
        )
    }
}

/// The base name of a path: what stands behind its last `/`, and all of it
/// where it holds none.
pub open spec fn base_name(path: Seq<char>) -> Seq<char>
    decreases path.len(),
{
    if path.len() == 0 || path.last() == '/' {
        Seq::empty()
    } else {
        base_name(path.drop_last()).push(path.last())
    }
}

/// `path` falls at place `k` into its directories and its base name: no
/// `/` stands from `k` on, and one stands just before `k`, unless `k` is
/// the start.
pub open spec fn base_starts_at(path: Seq<char>, k: int) -> bool {
    &&& 0 <= k <= path.len()
    &&& k == 0 || path[k - 1] == '/'
    &&& forall|i: int| k <= i < path.len() ==> path[i] != '/'
}

/// The base name is the end of the path from the place behind its last `/`.
pub proof fn lemma_base_name_is_the_end(path: Seq<char>)
    ensures
        exists|k: int| base_starts_at(path, k) && base_name(path) == path.skip(k),
    decreases path.len(),
{
    if path.len() == 0 {
        assert(base_starts_at(path, 0));
        assert(base_name(path) =~= path.skip(0));
    } else if path.last() == '/' {
        let k = path.len() as int;
        assert(base_starts_at(path, k));
        assert(base_name(path) =~= path.skip(k));
    } else {
        let front = path.drop_last();
        lemma_base_name_is_the_end(front);
        let k = choose|k: int| base_starts_at(front, k) && base_name(front) == front.skip(k);
        assert forall|i: int| k <= i < path.len() implies path[i] != '/' by {
            if i < front.len() {
                assert(front[i] == path[i]);
            }
        }
        if k > 0 {
            assert(front[k - 1] == path[k - 1]);
        }
        assert(base_starts_at(path, k));
        assert(base_name(path) =~= path.skip(k));
    }
}

/// The dialect that a shell's path stands for, told from its base name:
/// `Fish` where `fish` occurs in it, else `Zsh` where `zsh` occurs in it,
/// and `Bash` for every other name and where no path is given.
pub open spec fn detected(hint: Option<Seq<char>>) -> Shell {
    match hint {
        None => Shell::Bash,
        Some(path) => if has_substring(base_name(path), "fish"@) {
            Shell::Fish
        } else if has_substring(base_name(path), "zsh"@) {
            Shell::Zsh
        } else {
            Shell::Bash
        },
    }
}

/// The base name of `path`: what stands behind its last `/`.
pub fn base_name_of(path: &str) -> (name: String)
    ensures
        name@ == base_name(path@),
{
    let mut name = String::new();
    for c in it: path.chars()
        invariant
            it.seq() == path@,
            name@ == base_name(path@.take(it.index() as int)),
    {
        proof {
            let done = path@.take(it.index() + 1);
            assert(done.drop_last() == path@.take(it.index() as int));
            assert(done.last() == c);
        }
        if c == '/' {
            name = String::new();
        } else {
            name.push(c);
        }
    }
    proof {
        assert(path@.take(path@.len() as int) == path@);
    }
    name
}

/// Appends to `out` what stands for `value` inside double quotes.
pub fn push_escaped(out: &mut String, value: &str)
    ensures
        final(out)@ == old(out)@ + escaped(value@),
{
    let ghost before = out@;
    for c in it: value.chars()
        invariant
            it.seq() == value@,
            out@ == before + escaped(value@.take(it.index() as int)),
    {
        if c == '\\' || c == '"' || c == '$' || c == '`' {
            out.push('\\');
        }
        out.push(c);
        proof {
            let done = value@.take(it.index() + 1);
            assert(done.drop_last() == value@.take(it.index() as int));
            assert(done.last() == c);
            assert(out@ == before + escaped(done));
        }
    }
    proof {
        assert(value@.take(value@.len() as int) == value@);
    }
}

/// `value` as it can stand inside double quotes: a backslash before each
/// backslash, double quote, dollar sign and backtick.
pub fn shell_escape(value: &str) -> (out: String)
    ensures
        out@ == escaped(value@),
{
    let mut out = String::new();
    push_escaped(&mut out, value);
    out
}

impl Shell {
    /// Tells the dialect from the base name of the path of the user's
    /// shell.
    pub fn detect(shell_path: Option<&str>) -> (shell: Shell)
        ensures
            shell == detected(text_of(shell_path)),
    {
        match shell_path {
            None => Shell::Bash,
            Some(path) => {
                let name = base_name_of(path);
                if contains(name.as_str(), "fish") {
                    Shell::Fish
                } else if contains(name.as_str(), "zsh") {
                    Shell::Zsh
                } else {
                    Shell::Bash
                }
            },
        }
    }

    /// The command that sets `name` to `value` and exports it.
    pub fn export_var(&self, name: &str, value: &str) -> (line: String)
        ensures
            line@ == export_line(*self, name@, value@),
    {
        let mut line = String::new();
        match self {
            Shell::Bash | Shell::Zsh => {
                line.append("export ");
                line.append(name);
                line.append("=\"");
            },
            Shell::Fish => {
                line.append("set -gx ");
                line.append(name);
                line.append(" \"");
            },
        }
        push_escaped(&mut line, value);
        line.append("\"");
        line
    }

    /// The command that unsets all of `names`, or nothing where there is
    /// no name.
    pub fn unset_vars(&self, names: &[String]) -> (line: Option<String>)
        ensures
            match line {
                Some(text) => unset_line(*self, names.deep_view()) == Some(text@),
                None => unset_line(*self, names.deep_view()).is_none(),
            },
    {
        if names.len() == 0 {
            return None;
        }
        let mut text = String::new();
        match self {
            Shell::Bash | Shell::Zsh => {
                text.append("unset ");
            },
            Shell::Fish => {
                text.append("set -eg ");
            },
        }
        let list = join(names, " ");
        text.append(list.as_str());
        Some(text)
    }
}

} // verus!
