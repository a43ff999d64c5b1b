use vstd::prelude::*;

use crate::error::CondError;
use crate::invocation::{args_of, invocation, runs, Invocation};
use crate::state::{CondState, Task, TaskStatus, Timestamp};
use crate::task::{moved_to, task_worktree};
use crate::text::{
    after_last, after_last_char, append_chars, append_str, chars_of, decimal, decimal_chars, parse_u32,
    parse_u32_spec, string_from_chars, trim, trimmed,
};

verus! {

// ---------------------------------------------------------------------------
// review
// ---------------------------------------------------------------------------

/// The prompt handed to the review assistant for a task's diff.
pub open spec fn review_prompt_spec(description: Seq<char>, diff: Seq<char>) -> Seq<char> {
    "You are reviewing code for task: \""@ + description + "\"\n\n<diff>\n"@ + diff
        + "\n</diff>\n\nReview for correctness, bugs, style, and security. If changes are needed, make them directly. If the code is good, say so."@
}

/// The prompt handed to the review assistant for a task's diff.
pub fn review_prompt(description: &str, diff: &str) -> (r: String)
    ensures
        r@ == review_prompt_spec(description@, diff@),
{
    let mut v: Vec<char> = Vec::new();
    append_str(&mut v, "You are reviewing code for task: \"");
    append_str(&mut v, description);
    append_str(&mut v, "\"\n\n<diff>\n");
    append_str(&mut v, diff);
    append_str(
        &mut v,
        "\n</diff>\n\nReview for correctness, bugs, style, and security. If changes are needed, make them directly. If the code is good, say so.",
    );
    assert(v@ =~= review_prompt_spec(description@, diff@));
    string_from_chars(&v)
}

/// What reviewing a task starts with: the diff of its branch against `main`,
/// taken in its worktree.
#[derive(Debug)]
pub struct ReviewPlan {
    pub id: u32,
    pub worktree_abs: String,
    pub description: String,
    pub diff: Invocation,
}

/// What reviewing does once the diff is known.
#[derive(Debug)]
pub enum ReviewStep {
    /// The diff is empty: nothing to review.
    NothingToReview,
    /// Run the review assistant on the prompt, in the worktree.
    Review(Invocation),
}

impl CondState {
    /// Plans reviewing task `idx`: `git diff main..<branch>` in its worktree.
    pub fn plan_review(&self, repo_root: &str, idx: usize) -> (r: ReviewPlan)
        requires
            idx < self.tasks@.len(),
        ensures
            r.id == self.tasks@[idx as int].id,
            r.worktree_abs@ == task_worktree(*self, repo_root@, idx as int),
            r.description@ == self.tasks@[idx as int].description@,
            runs(r.diff, "git"@, seq!["diff"@, "main.."@ + self.tasks@[idx as int].branch@], r.worktree_abs@),
    {
        let t = &self.tasks[idx];
        let abs = self.worktree_of(repo_root, idx);
        let mut range: Vec<char> = Vec::new();
        append_str(&mut range, "main..");
        append_str(&mut range, t.branch.as_str());
        let range = string_from_chars(&range);
        let diff = invocation("git", vec!["diff".to_owned(), range], abs.as_str());
        assert(args_of(diff.args@) =~= seq!["diff"@, "main.."@ + t.branch@]);
        ReviewPlan { id: t.id, worktree_abs: abs, description: t.description.clone(), diff }
    }
}

/// Decides the review once the diff is known: nothing to do for an empty diff,
/// else the assistant command, given the review text, run in the
/// worktree.
pub fn review_step(plan: &ReviewPlan, diff: &str, assistant: &str) -> (r: ReviewStep)
    ensures
        diff@.len() == 0 ==> r is NothingToReview,
        diff@.len() > 0 ==> (r matches ReviewStep::Review(inv) && runs(
            inv,
            assistant@,
            seq!["--prompt"@, review_prompt_spec(plan.description@, diff@)],
            plan.worktree_abs@,
        )),
{
    if diff.is_empty() {
        ReviewStep::NothingToReview
    } else {
        let prompt = review_prompt(plan.description.as_str(), diff);
        let inv = invocation(assistant, vec!["--prompt".to_owned(), prompt], plan.worktree_abs.as_str());
        assert(args_of(inv.args@) =~= seq!["--prompt"@, review_prompt_spec(plan.description@, diff@)]);
        ReviewStep::Review(inv)
    }
}

// ---------------------------------------------------------------------------
// pr
// ---------------------------------------------------------------------------

/// The body of a task's pull request: `Task #<id>: <description>` and a footer.
pub open spec fn pr_body_spec(id: u32, description: Seq<char>) -> Seq<char> {
    "Task #"@ + decimal(id as nat) + ": "@ + description + "\n\nCreated by cond."@
}

/// The arguments of `gh` that create a task's pull request.
pub open spec fn pr_create_args(branch: Seq<char>, title: Seq<char>, body: Seq<char>, draft: bool) -> Seq<Seq<char>> {
    let base = seq![
        "pr"@,
        "create"@,
        "--base"@,
        "main"@,
        "--head"@,
        branch,
        "--title"@,
        title,
        "--body"@,
        body,
    ];
    if draft {
        base.push("--draft"@)
    } else {
        base
    }
}

/// What opening a pull request does: push the branch, then create the PR.
#[derive(Debug)]
pub struct PrPlan {
    pub id: u32,
    pub worktree_abs: String,
    pub push: Invocation,
    pub create: Invocation,
}

/// The title of the pull request: the one given, else the task's description.
pub open spec fn pr_title(t: Task, title: Option<&str>) -> Seq<char> {
    match title {
        Some(s) => s@,
        None => t.description@,
    }
}

/// The number of a pull request, read from the last path segment of its URL.
pub open spec fn pr_number_of(url: Seq<char>) -> Option<u32> {
    parse_u32_spec(after_last(url, '/'))
}

impl CondState {
    /// Plans opening a pull request for task `idx`: `git push -u origin <branch>`, then
    /// `gh pr create --base main --head <branch> --title <title> --body <body>`
    /// (and `--draft` when asked), both in the task's worktree.
    pub fn plan_pr(&self, repo_root: &str, idx: usize, title: Option<&str>, draft: bool) -> (r: PrPlan)
        requires
            idx < self.tasks@.len(),
        ensures
            r.id == self.tasks@[idx as int].id,
            r.worktree_abs@ == task_worktree(*self, repo_root@, idx as int),
            runs(r.push, "git"@, seq!["push"@, "-u"@, "origin"@, self.tasks@[idx as int].branch@], r.worktree_abs@),
            runs(
                r.create,
                "gh"@,
                pr_create_args(
                    self.tasks@[idx as int].branch@,
                    pr_title(self.tasks@[idx as int], title),
                    pr_body_spec(self.tasks@[idx as int].id, self.tasks@[idx as int].description@),
                    draft,
                ),
                r.worktree_abs@,
            ),
    {
        let t = &self.tasks[idx];
        let abs = self.worktree_of(repo_root, idx);
        let pr_title_text: String = match title {
            Some(s) => s.to_owned(),
            None => t.description.clone(),
        };
        let mut b: Vec<char> = Vec::new();
        append_str(&mut b, "Task #");
        append_chars(&mut b, &decimal_chars(t.id));
        append_str(&mut b, ": ");
        append_str(&mut b, t.description.as_str());
        append_str(&mut b, "\n\nCreated by cond.");
        let body = string_from_chars(&b);
        assert(body@ =~= pr_body_spec(t.id, t.description@));
        let push = invocation(
            "git",
            vec!["push".to_owned(), "-u".to_owned(), "origin".to_owned(), t.branch.clone()],
            abs.as_str(),
        );
        assert(args_of(push.args@) =~= seq!["push"@, "-u"@, "origin"@, t.branch@]);
        let mut args = vec![
            "pr".to_owned(),
            "create".to_owned(),
            "--base".to_owned(),
            "main".to_owned(),
            "--head".to_owned(),
            t.branch.clone(),
            "--title".to_owned(),
            pr_title_text,
            "--body".to_owned(),
            body,
        ];
        if draft {
            args.push("--draft".to_owned());
        }
        let create = invocation("gh", args, abs.as_str());
        assert(args_of(create.args@) =~= pr_create_args(t.branch@, pr_title(*t, title), pr_body_spec(t.id, t.description@), draft));
        PrPlan { id: t.id, worktree_abs: abs, push, create }
    }

    /// Records the pull request `gh` reported for task `idx`: its URL is the trimmed
    /// output, its number the URL's last path segment read as a number; the task
    /// moves to `PrCreated`, updated at `now`. Returns the number.
    pub fn record_pr(&mut self, idx: usize, output: &str, now: Timestamp) -> (r: Option<u32>)
        requires
            idx < old(self).tasks@.len(),
        ensures
            r == pr_number_of(trimmed(output@)),
            final(self).version == old(self).version,
            final(self).next_id == old(self).next_id,
            final(self).repo_root == old(self).repo_root,
            final(self).tasks@.len() == old(self).tasks@.len(),
            pr_recorded(old(self).tasks@[idx as int], final(self).tasks@[idx as int], trimmed(output@), now),
            forall|j: int| 0 <= j < old(self).tasks@.len() && j != idx ==> #[trigger] final(self).tasks@[j] == old(self).tasks@[j],
            old(self).ids_ok() ==> final(self).ids_ok(),
    {
        let url = trim(output);
        let uv = chars_of(url);
        let last = after_last_char(&uv, '/');
        let number = parse_u32(&last);
        let t = &mut self.tasks[idx];
        t.pr_url = Some(url.to_owned());
        t.pr_number = number;
        t.status = TaskStatus::PrCreated;
        t.updated_at = now;
        number
    }
}

/// Task `b` is task `a` with its pull request recorded from `url` at `now`.
pub open spec fn pr_recorded(a: Task, b: Task, url: Seq<char>, now: Timestamp) -> bool {
    &&& b.id == a.id
    &&& b.description == a.description
    &&& b.branch == a.branch
    &&& b.worktree_path == a.worktree_path
    &&& b.status == TaskStatus::PrCreated
    &&& b.updated_at == now
    &&& b.created_at == a.created_at
    &&& b.pr_number == pr_number_of(url)
    &&& b.pr_url matches Some(u) && u@ == url
}

// ---------------------------------------------------------------------------
// merge
// ---------------------------------------------------------------------------

/// The arguments of `gh` that merge pull request `number`.
pub open spec fn merge_args(number: u32, squash: bool, delete_branch: bool) -> Seq<Seq<char>> {
    let base = seq!["pr"@, "merge"@, decimal(number as nat)];
    let with_squash = if squash { base.push("--squash"@) } else { base };
    if delete_branch { with_squash.push("--delete-branch"@) } else { with_squash }
}

/// What merging a task does: merge its pull request with `gh`, in the repository root.
#[derive(Debug)]
pub struct MergePlan {
    pub id: u32,
    pub pr_number: u32,
    pub merge: Invocation,
}

impl CondState {
    /// Plans merging the pull request of task `idx`; an error when the task has none.
    pub fn plan_merge(
        &self,
        repo_root: &str,
        idx: usize,
        squash: bool,
        delete_branch: bool,
    ) -> (r: Result<MergePlan, CondError>)
        requires
            idx < self.tasks@.len(),
        ensures
            self.tasks@[idx as int].pr_number is None <==> r is Err,
            r matches Err(e) ==> (e == (CondError::NoPr { id: self.tasks@[idx as int].id })),
            r matches Ok(p) ==> p.id == self.tasks@[idx as int].id
                && Some(p.pr_number) == self.tasks@[idx as int].pr_number
                && runs(p.merge, "gh"@, merge_args(p.pr_number, squash, delete_branch), repo_root@),
    {
        let t = &self.tasks[idx];
        let number = match t.pr_number {
            Some(n) => n,
            None => {
                return Err(CondError::NoPr { id: t.id });
            },
        };
        let digits = string_from_chars(&decimal_chars(number));
        let mut args = vec!["pr".to_owned(), "merge".to_owned(), digits];
        if squash {
            args.push("--squash".to_owned());
        }
        if delete_branch {
            args.push("--delete-branch".to_owned());
        }
        let merge = invocation("gh", args, repo_root);
        assert(args_of(merge.args@) =~= merge_args(number, squash, delete_branch));
        Ok(MergePlan { id: t.id, pr_number: number, merge })
    }
}

} // verus!
