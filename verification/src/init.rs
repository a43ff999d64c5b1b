use vstd::prelude::*;

use crate::state::CondState;
use crate::text::{append_str, chars_equal, chars_of, string_from_chars, trim, trimmed};

verus! {

impl CondState {
    /// The state of a freshly initialized repository: version 1, no tasks, IDs from 1.
    pub fn new(repo_root: &str) -> (r: CondState)
        ensures
            r.version == 1,
            r.next_id == 1,
            r.repo_root@ == repo_root@,
            r.tasks@.len() == 0,
            r.ids_ok(),
    {
        CondState { version: 1, next_id: 1, repo_root: repo_root.to_owned(), tasks: Vec::new() }
    }
}

/// `l` without one trailing carriage return.
pub open spec fn strip_cr(l: Seq<char>) -> Seq<char> {
    if l.len() > 0 && l.last() == '\r' {
        l.drop_last()
    } else {
        l
    }
}

/// The lines of `s`, given that the current line so far is `cur`.
pub open spec fn lines_from(s: Seq<char>, cur: Seq<char>) -> Seq<Seq<char>>
    decreases s.len(),
{
    if s.len() == 0 {
        if cur.len() == 0 {
            Seq::empty()
        } else {
            seq![cur]
        }
    } else if s[0] == '\n' {
        seq![strip_cr(cur)] + lines_from(s.drop_first(), Seq::empty())
    } else {
        lines_from(s.drop_first(), cur.push(s[0]))
    }
}

/// What `str::lines` yields: the text split at `\n` (a `\r` right before the `\n` is
/// dropped), with no empty last line after a final `\n`.
pub open spec fn lines_of(s: Seq<char>) -> Seq<Seq<char>> {
    lines_from(s, Seq::empty())
}

/// Some line of `contents`, trimmed, is `entry`.
pub open spec fn has_line(contents: Seq<char>, entry: Seq<char>) -> bool {
    exists|j: int| 0 <= j < lines_of(contents).len() && trimmed(#[trigger] lines_of(contents)[j]) == entry
}

/// What `.gitignore` becomes when `entry` is added: `None` when a line already
/// holds it; else the old contents, a newline if they do not end in one, the entry
/// and a newline (or just the entry and a newline when there was no file).
pub open spec fn gitignore_update_spec(existing: Option<Seq<char>>, entry: Seq<char>) -> Option<Seq<char>> {
    match existing {
        None => Some(entry + "\n"@),
        Some(c) => if has_line(c, entry) {
            None
        } else if c.len() > 0 && c.last() == '\n' {
            Some(c + entry + "\n"@)
        } else {
            Some(c + "\n"@ + entry + "\n"@)
        },
    }
}

/// The text of an optional string slice.
pub open spec fn text_of(o: Option<&str>) -> Option<Seq<char>> {
    match o {
        Some(c) => Some(c@),
        None => None,
    }
}

/// The lines of a text, as `str::lines` gives them.
pub fn lines_of_chars(s: &Vec<char>) -> (r: Vec<Vec<char>>)
    ensures
        r@.map_values(|l: Vec<char>| l@) == lines_of(s@),
{
    let mut done: Vec<Vec<char>> = Vec::new();
    let mut cur: Vec<char> = Vec::new();
    assert(s@.skip(0) =~= s@);
    assert(done@.map_values(|l: Vec<char>| l@) + lines_from(s@.skip(0), cur@) =~= lines_of(s@));
    for i in 0..s.len()
        invariant
            done@.map_values(|l: Vec<char>| l@) + lines_from(s@.skip(i as int), cur@) == lines_of(s@),
    {
        let c = s[i];
        let ghost rest = s@.skip(i as int);
        let ghost cur0 = cur@;
        let ghost before = done@.map_values(|l: Vec<char>| l@);
        assert(rest.drop_first() =~= s@.skip(i + 1));
        assert(rest[0] == c);
        if c == '\n' {
            let mut line = cur;
            if line.len() > 0 && line[line.len() - 1] == '\r' {
                line.pop();
            }
            assert(line@ =~= strip_cr(cur0));
            done.push(line);
            cur = Vec::new();
            assert(done@.map_values(|l: Vec<char>| l@) =~= before.push(strip_cr(cur0)));
            assert(lines_from(rest, cur0) == seq![strip_cr(cur0)] + lines_from(s@.skip(i + 1), Seq::empty()));
            assert(before + (seq![strip_cr(cur0)] + lines_from(s@.skip(i + 1), Seq::empty())) =~= before.push(
                strip_cr(cur0),
            ) + lines_from(s@.skip(i + 1), cur@));
        } else {
            cur.push(c);
            assert(lines_from(rest, cur0) == lines_from(s@.skip(i + 1), cur0.push(c)));
        }
    }
    assert(s@.skip(s.len() as int) =~= Seq::<char>::empty());
    let ghost before = done@.map_values(|l: Vec<char>| l@);
    if cur.len() > 0 {
        let ghost last = cur@;
        done.push(cur);
        assert(done@.map_values(|l: Vec<char>| l@) =~= before + seq![last]);
    } else {
        assert(before + Seq::<Seq<char>>::empty() =~= before);
    }
    done
}

/// Whether some line of `contents`, trimmed, is `entry`.
pub fn has_line_exec(contents: &str, entry: &str) -> (r: bool)
    ensures
        r == has_line(contents@, entry@),
{
    let lines = lines_of_chars(&chars_of(contents));
    let ghost ls = lines_of(contents@);
    let ev = chars_of(entry);
    for j in 0..lines.len()
        invariant
            lines@.map_values(|l: Vec<char>| l@) == ls,
            ls == lines_of(contents@),
            ev@ == entry@,
            forall|k: int| 0 <= k < j ==> trimmed(#[trigger] ls[k]) != entry@,
    {
        assert(lines@.map_values(|l: Vec<char>| l@)[j as int] == lines@[j as int]@);
        let line = string_from_chars(&lines[j]);
        let t = trim(line.as_str());
        if chars_equal(&chars_of(t), &ev) {
            return true;
        }
    }
    false
}

/// What `.gitignore` becomes when `entry` is added (see `gitignore_update_spec`);
/// `None` when no write is needed.
pub fn gitignore_update(existing: Option<&str>, entry: &str) -> (r: Option<String>)
    ensures
        r matches Some(s) ==> gitignore_update_spec(text_of(existing), entry@) == Some(s@),
        r is None ==> gitignore_update_spec(text_of(existing), entry@) is None,
{
    match existing {
        None => {
            let mut v: Vec<char> = Vec::new();
            append_str(&mut v, entry);
            append_str(&mut v, "\n");
            Some(string_from_chars(&v))
        },
        Some(c) => {
            if has_line_exec(c, entry) {
                return None;
            }
            let cv = chars_of(c);
            let mut v = chars_of(c);
            if !(cv.len() > 0 && cv[cv.len() - 1] == '\n') {
                append_str(&mut v, "\n");
            }
            append_str(&mut v, entry);
            append_str(&mut v, "\n");
            Some(string_from_chars(&v))
        },
    }
}

} // verus!

verus! {

proof fn lemma_lines_no_newline(x: Seq<char>, y: Seq<char>, cur: Seq<char>)
    requires
        !x.contains('\n'),
    ensures
        lines_from(x + y, cur) == lines_from(y, cur + x),
    decreases x.len(),
{
    if x.len() == 0 {
        assert(x + y =~= y);
        assert(cur + x =~= cur);
    } else {
        assert((x + y)[0] == x[0]);
        assert((x + y).drop_first() =~= x.drop_first() + y);
        assert(x[0] != '\n') by {
            if x[0] == '\n' {
                assert(x.contains('\n'));
            }
        }
        assert(!x.drop_first().contains('\n')) by {
            if x.drop_first().contains('\n') {
                let k = choose|k: int| 0 <= k < x.drop_first().len() && x.drop_first()[k] == '\n';
                assert(x[k + 1] == '\n');
            }
        }
        lemma_lines_no_newline(x.drop_first(), y, cur.push(x[0]));
        assert(cur.push(x[0]) + x.drop_first() =~= cur + x);
    }
}

proof fn lemma_lines_split_after_newline(x: Seq<char>, y: Seq<char>, cur: Seq<char>)
    requires
        x.len() > 0,
        x.last() == '\n',
    ensures
        lines_from(x + y, cur) == lines_from(x, cur) + lines_from(y, Seq::empty()),
    decreases x.len(),
{
    let d = x.drop_first();
    assert((x + y)[0] == x[0]);
    assert((x + y).drop_first() =~= d + y);
    if x[0] == '\n' {
        if d.len() == 0 {
            assert(d + y =~= y);
            assert(lines_from(d, Seq::empty()) =~= Seq::<Seq<char>>::empty());
            assert(lines_from(x, cur) =~= seq![strip_cr(cur)]);
        } else {
            assert(d.last() == '\n');
            lemma_lines_split_after_newline(d, y, Seq::empty());
        }
        assert(seq![strip_cr(cur)] + (lines_from(d, Seq::empty()) + lines_from(y, Seq::empty())) =~= (seq![
            strip_cr(cur),
        ] + lines_from(d, Seq::empty())) + lines_from(y, Seq::empty()));
    } else {
        assert(d.len() > 0);
        assert(d.last() == '\n');
        lemma_lines_split_after_newline(d, y, cur.push(x[0]));
    }
}

proof fn lemma_last_line(prefix: Seq<char>, entry: Seq<char>)
    requires
        prefix.len() == 0 || prefix.last() == '\n',
        !entry.contains('\n'),
        !(entry.len() > 0 && entry.last() == '\r'),
    ensures
        lines_of(prefix + entry + "\n"@).len() > 0,
        lines_of(prefix + entry + "\n"@).last() == entry,
{
    reveal_strlit("\n");
    let tail = entry + "\n"@;
    lemma_lines_no_newline(entry, "\n"@, Seq::empty());
    assert(Seq::<char>::empty() + entry =~= entry);
    assert("\n"@.drop_first() =~= Seq::<char>::empty());
    assert("\n"@.len() == 1 && "\n"@[0] == '\n');
    assert(lines_from(Seq::<char>::empty(), Seq::<char>::empty()) =~= Seq::<Seq<char>>::empty());
    assert(lines_from("\n"@, entry) =~= seq![strip_cr(entry)] + Seq::<Seq<char>>::empty());
    assert(strip_cr(entry) == entry);
    assert(lines_from(tail, Seq::empty()) =~= seq![entry]);
    assert(prefix + entry + "\n"@ =~= prefix + tail);
    if prefix.len() == 0 {
        assert(prefix + tail =~= tail);
    } else {
        lemma_lines_split_after_newline(prefix, tail, Seq::empty());
    }
}

/// Adding an entry to `.gitignore` a second time changes nothing: the file it
/// wrote already has the entry on a line of its own. (For an entry that is one
/// trimmed line not ending in a carriage return.)
pub proof fn lemma_gitignore_update_idempotent(existing: Option<Seq<char>>, entry: Seq<char>)
    requires
        !entry.contains('\n'),
        !(entry.len() > 0 && entry.last() == '\r'),
        trimmed(entry) == entry,
        gitignore_update_spec(existing, entry) is Some,
    ensures
        gitignore_update_spec(Some(gitignore_update_spec(existing, entry)->Some_0), entry) is None,
{
    reveal_strlit("\n");
    let new = gitignore_update_spec(existing, entry)->Some_0;
    match existing {
        None => {
            lemma_last_line(Seq::empty(), entry);
            assert(Seq::<char>::empty() + entry + "\n"@ =~= new);
        },
        Some(c) => {
            if c.len() > 0 && c.last() == '\n' {
                lemma_last_line(c, entry);
            } else {
                let p = c + "\n"@;
                assert(p.last() == '\n');
                lemma_last_line(p, entry);
            }
        },
    }
    let ls = lines_of(new);
    assert(trimmed(ls[ls.len() - 1]) == entry);
    assert(has_line(new, entry));
}

} // verus!

verus! {

/// A last line with no newline after it is still a line (as `str::lines` yields it):
/// after a `prefix` that is empty or ends in a newline, a non-empty `last` without
/// newlines adds exactly the line `last`.
pub proof fn lemma_lines_unterminated_last(prefix: Seq<char>, last: Seq<char>)
    requires
        prefix.len() == 0 || prefix.last() == '\n',
        last.len() > 0,
        !last.contains('\n'),
    ensures
        lines_of(prefix + last) == lines_of(prefix) + seq![last],
{
    lemma_lines_no_newline(last, Seq::empty(), Seq::empty());
    assert(last + Seq::<char>::empty() =~= last);
    assert(Seq::<char>::empty() + last =~= last);
    assert(lines_from(last, Seq::empty()) =~= seq![last]);
    if prefix.len() == 0 {
        assert(prefix + last =~= last);
        assert(lines_of(prefix) =~= Seq::<Seq<char>>::empty());
        assert(Seq::<Seq<char>>::empty() + seq![last] =~= seq![last]);
    } else {
        lemma_lines_split_after_newline(prefix, last, Seq::empty());
    }
}

/// A line ended by a newline: after a `prefix` that is empty or ends in a newline,
/// `line` (without newlines) and a newline add the line `line` (less a carriage
/// return right before the newline), and the lines of `rest` follow.
pub proof fn lemma_lines_terminated(prefix: Seq<char>, line: Seq<char>, rest: Seq<char>)
    requires
        prefix.len() == 0 || prefix.last() == '\n',
        !line.contains('\n'),
    ensures
        lines_of(prefix + line + "\n"@ + rest) == lines_of(prefix) + seq![strip_cr(line)] + lines_of(rest),
{
    reveal_strlit("\n");
    let tail = "\n"@ + rest;
    lemma_lines_no_newline(line, tail, Seq::empty());
    assert(Seq::<char>::empty() + line =~= line);
    assert(tail[0] == '\n');
    assert(tail.drop_first() =~= rest);
    assert(lines_from(line + tail, Seq::empty()) == seq![strip_cr(line)] + lines_of(rest));
    assert(prefix + line + "\n"@ + rest =~= prefix + (line + tail));
    if prefix.len() == 0 {
        assert(prefix + (line + tail) =~= line + tail);
        assert(lines_of(prefix) =~= Seq::<Seq<char>>::empty());
        assert(Seq::<Seq<char>>::empty() + seq![strip_cr(line)] + lines_of(rest) =~= seq![strip_cr(line)]
            + lines_of(rest));
    } else {
        lemma_lines_split_after_newline(prefix, line + tail, Seq::empty());
        assert(lines_of(prefix) + (seq![strip_cr(line)] + lines_of(rest)) =~= lines_of(prefix) + seq![
            strip_cr(line),
        ] + lines_of(rest));
    }
}

/// `.gitignore` is left alone when its last line, with no newline after it, is the
/// entry once trimmed.
pub proof fn lemma_gitignore_sees_unterminated_last_line(prefix: Seq<char>, last: Seq<char>, entry: Seq<char>)
    requires
        prefix.len() == 0 || prefix.last() == '\n',
        last.len() > 0,
        !last.contains('\n'),
        trimmed(last) == entry,
    ensures
        gitignore_update_spec(Some(prefix + last), entry) is None,
{
    lemma_lines_unterminated_last(prefix, last);
    let ls = lines_of(prefix + last);
    assert(ls[ls.len() - 1] == last);
    assert(has_line(prefix + last, entry));
}

/// `.gitignore` is left alone when one of its newline-ended lines (less a carriage
/// return before the newline) is the entry once trimmed.
pub proof fn lemma_gitignore_sees_terminated_line(prefix: Seq<char>, line: Seq<char>, rest: Seq<char>, entry: Seq<char>)
    requires
        prefix.len() == 0 || prefix.last() == '\n',
        !line.contains('\n'),
        trimmed(strip_cr(line)) == entry,
    ensures
        gitignore_update_spec(Some(prefix + line + "\n"@ + rest), entry) is None,
{
    lemma_lines_terminated(prefix, line, rest);
    let c = prefix + line + "\n"@ + rest;
    let ls = lines_of(c);
    let j = lines_of(prefix).len() as int;
    assert(ls[j] == strip_cr(line));
    assert(has_line(c, entry));
}

} // verus!
