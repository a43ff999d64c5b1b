use vstd::prelude::*;

use crate::text::{append_chars, append_str, decimal, decimal_chars, string_from_chars};

verus! {

/// What can go wrong in cond's own logic.
#[derive(Debug)]
pub enum CondError {
    /// No task has the queried ID and no task name matches the query.
    TaskNotFound { query: String },
    /// More than one task name matches the query: their IDs and descriptions.
    AmbiguousTask { query: String, matches: Vec<(u32, String)> },
    /// The task has no pull request yet.
    NoPr { id: u32 },
    /// The login shell is neither zsh nor bash.
    UnsupportedShell { shell: String },
    /// Neither the remote HEAD nor a local `main`/`master` branch was found.
    NoDefaultBranch,
}

/// One entry of the list of ambiguous matches: `"{id} ({description})"`.
pub open spec fn match_entry(m: (u32, String)) -> Seq<char> {
    decimal(m.0 as nat) + " ("@ + m.1@ + ")"@
}

/// The ambiguous matches joined with `", "`.
pub open spec fn matches_text(ms: Seq<(u32, String)>) -> Seq<char>
    decreases ms.len(),
{
    if ms.len() == 0 {
        Seq::empty()
    } else if ms.len() == 1 {
        match_entry(ms[0])
    } else {
        matches_text(ms.drop_last()) + ", "@ + match_entry(ms.last())
    }
}

/// The message shown for an error.
pub open spec fn error_message(e: CondError) -> Seq<char> {
    match e {
        CondError::TaskNotFound { query } => "task '"@ + query@ + "' not found"@,
        CondError::AmbiguousTask { query, matches } => "ambiguous task name '"@ + query@
            + "', matches: "@ + matches_text(matches@),
        CondError::NoPr { id } => "task "@ + decimal(id as nat) + " has no PR — run `cond pr "@
            + decimal(id as nat) + "` first"@,
        CondError::UnsupportedShell { shell } => "unsupported shell: "@ + shell@
            + " — add `eval \"$(cond shell-setup)\"` to your shell rc manually"@,
        CondError::NoDefaultBranch =>
            "could not detect default branch — set origin HEAD with: git remote set-head origin --auto"@,
    }
}

fn append_entry(v: &mut Vec<char>, m: &(u32, String))
    ensures
        final(v)@ == old(v)@ + match_entry(*m),
{
    let d = decimal_chars(m.0);
    append_chars(v, &d);
    append_str(v, " (");
    append_str(v, m.1.as_str());
    append_str(v, ")");
    assert(final(v)@ =~= old(v)@ + match_entry(*m));
}

fn append_matches(v: &mut Vec<char>, ms: &Vec<(u32, String)>)
    ensures
        final(v)@ == old(v)@ + matches_text(ms@),
{
    let ghost start = v@;
    assert(ms@.take(0) =~= Seq::<(u32, String)>::empty());
    for i in 0..ms.len()
        invariant
            v@ == start + matches_text(ms@.take(i as int)),
    {
        let ghost pre = v@;
        assert(ms@.take(i + 1).drop_last() =~= ms@.take(i as int));
        if i > 0 {
            append_str(v, ", ");
        }
        append_entry(v, &ms[i]);
        if i == 0 {
            assert(matches_text(ms@.take(1)) == match_entry(ms@[0]));
            assert(matches_text(ms@.take(0)) =~= Seq::<char>::empty());
        }
        assert(v@ =~= start + matches_text(ms@.take(i + 1)));
    }
    assert(ms@.take(ms.len() as int) =~= ms@);
}

impl CondError {
    /// The message shown for this error.
    pub fn to_string(&self) -> (r: String)
        ensures
            r@ == error_message(*self),
    {
        let mut v: Vec<char> = Vec::new();
        match self {
            CondError::TaskNotFound { query } => {
                append_str(&mut v, "task '");
                append_str(&mut v, query.as_str());
                append_str(&mut v, "' not found");
            },
            CondError::AmbiguousTask { query, matches } => {
                append_str(&mut v, "ambiguous task name '");
                append_str(&mut v, query.as_str());
                append_str(&mut v, "', matches: ");
                append_matches(&mut v, matches);
            },
            CondError::NoPr { id } => {
                let d = decimal_chars(*id);
                append_str(&mut v, "task ");
                append_chars(&mut v, &d);
                append_str(&mut v, " has no PR — run `cond pr ");
                append_chars(&mut v, &d);
                append_str(&mut v, "` first");
            },
            CondError::UnsupportedShell { shell } => {
                append_str(&mut v, "unsupported shell: ");
                append_str(&mut v, shell.as_str());
                append_str(&mut v, " — add `eval \"$(cond shell-setup)\"` to your shell rc manually");
            },
            CondError::NoDefaultBranch => {
                append_str(
                    &mut v,
                    "could not detect default branch — set origin HEAD with: git remote set-head origin --auto",
                );
            },
        }
        assert(v@ =~= error_message(*self));
        string_from_chars(&v)
    }
}

} // verus!
