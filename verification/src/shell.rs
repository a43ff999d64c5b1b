use vstd::prelude::*;

use crate::error::CondError;
use crate::paths::{join_path, joined};
use crate::text::{chars_of, contains_chars, contains_seq, trim, trimmed};

verus! {

/// The shell function that `cond shell-setup` prints: it runs `cond` and changes
/// into the directory it prints, so that `cond cd` works.
pub const SHELL_FUNCTION: &'static str = "cond() {
  local out rc
  out=\"$(command cond \"$@\")\"
  rc=$?
  if [ $rc -eq 0 ] && [ -n \"$out\" ] && [ -d \"$out\" ]; then
    cd \"$out\"
  elif [ -n \"$out\" ]; then
    printf '%s\\n' \"$out\"
  fi
  return $rc
}
export COND_SHELL=1
";

/// The rc file for a shell, from the shell's path and whether `~/.bash_profile` exists.
pub open spec fn rc_path_spec(home: Seq<char>, shell: Seq<char>, bash_profile_exists: bool) -> Option<Seq<char>> {
    if contains_seq(shell, "zsh"@) {
        Some(joined(home, ".zshrc"@))
    } else if contains_seq(shell, "bash"@) {
        if bash_profile_exists {
            Some(joined(home, ".bash_profile"@))
        } else {
            Some(joined(home, ".bashrc"@))
        }
    } else {
        None
    }
}

/// The rc file to add shell integration to: `~/.zshrc` for zsh; for bash
/// `~/.bash_profile` when it exists, else `~/.bashrc`; other shells are refused.
pub fn rc_path_inner(home: &str, shell: &str, bash_profile_exists: bool) -> (r: Result<String, CondError>)
    ensures
        rc_path_spec(home@, shell@, bash_profile_exists) matches Some(p) ==> (r matches Ok(q) && q@ == p),
        rc_path_spec(home@, shell@, bash_profile_exists) is None ==> (r matches Err(e) && (e matches CondError::UnsupportedShell { shell: s } && s@ == shell@)),
{
    let sv = chars_of(shell);
    if contains_chars(&sv, &chars_of("zsh")) {
        Ok(join_path(home, ".zshrc"))
    } else if contains_chars(&sv, &chars_of("bash")) {
        if bash_profile_exists {
            Ok(join_path(home, ".bash_profile"))
        } else {
            Ok(join_path(home, ".bashrc"))
        }
    } else {
        Err(CondError::UnsupportedShell { shell: shell.to_owned() })
    }
}

/// The rc file already runs the shell setup: it mentions `cond shell-setup`.
pub fn rc_has_setup_line(contents: &str) -> (r: bool)
    ensures
        r == contains_seq(contents@, "cond shell-setup"@),
{
    contains_chars(&chars_of(contents), &chars_of("cond shell-setup"))
}

/// `c` with ASCII upper case letters lowered (`char::to_ascii_lowercase`).
pub open spec fn ascii_lower(c: char) -> char {
    if 'A' <= c && c <= 'Z' {
        ((c as u32) + 32) as char
    } else {
        c
    }
}

/// `str::eq_ignore_ascii_case`: equal once ASCII letters are lowered.
pub open spec fn eq_ignore_ascii_case_spec(a: Seq<char>, b: Seq<char>) -> bool {
    a.len() == b.len() && forall|i: int| 0 <= i < a.len() ==> ascii_lower(#[trigger] a[i]) == ascii_lower(b[i])
}

fn ascii_lower_char(c: char) -> (r: char)
    ensures
        r == ascii_lower(c),
{
    if 'A' <= c && c <= 'Z' {
        proof {
            assert(('A' as u32) == 65 && ('Z' as u32) == 90);
        }
        ((c as u32 + 32) as u8) as char
    } else {
        c
    }
}

/// `str::eq_ignore_ascii_case`.
pub fn eq_ignore_ascii_case(a: &str, b: &str) -> (r: bool)
    ensures
        r == eq_ignore_ascii_case_spec(a@, b@),
{
    let av = chars_of(a);
    let bv = chars_of(b);
    if av.len() != bv.len() {
        return false;
    }
    for i in 0..av.len()
        invariant
            av@ == a@,
            bv@ == b@,
            av.len() == bv.len(),
            forall|k: int| 0 <= k < i ==> ascii_lower(#[trigger] a@[k]) == ascii_lower(b@[k]),
    {
        if ascii_lower_char(av[i]) != ascii_lower_char(bv[i]) {
            return false;
        }
    }
    true
}

/// The answer to "set up shell integration?" accepts: `y` or `Y`, surrounding
/// whitespace ignored.
pub fn is_yes_answer(answer: &str) -> (r: bool)
    ensures
        r == eq_ignore_ascii_case_spec(trimmed(answer@), "y"@),
{
    eq_ignore_ascii_case(trim(answer), "y")
}

} // verus!
