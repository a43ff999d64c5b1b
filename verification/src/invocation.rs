use vstd::prelude::*;

verus! {

/// A program to run, with its arguments and working directory.
#[derive(Debug)]
pub struct Invocation {
    pub program: String,
    pub args: Vec<String>,
    pub cwd: String,
}

/// The arguments of an invocation, as text.
pub open spec fn args_of(args: Seq<String>) -> Seq<Seq<char>> {
    args.map_values(|a: String| a@)
}

/// `inv` runs `program` with `args` in `cwd`.
pub open spec fn runs(inv: Invocation, program: Seq<char>, args: Seq<Seq<char>>, cwd: Seq<char>) -> bool {
    inv.program@ == program && args_of(inv.args@) == args && inv.cwd@ == cwd
}

/// An invocation of `program` with `args` in `cwd`.
pub fn invocation(program: &str, args: Vec<String>, cwd: &str) -> (r: Invocation)
    ensures
        r.program@ == program@,
        r.args@ == args@,
        r.cwd@ == cwd@,
{
    Invocation { program: program.to_owned(), args, cwd: cwd.to_owned() }
}

} // verus!
