use vstd::prelude::*;

use crate::invocation::{args_of, invocation, runs, Invocation};
use crate::paths::{join_path, joined};
use crate::state::{
    first_with_id, has_id, lemma_first_with_id_unique, resolvable, resolve_spec, status_name, CondState,
    Resolution, Task, TaskStatus, Timestamp,
};
use crate::text::{
    append_chars, append_str, boundary_chars, chars_in_bytes, chars_of, copy_prefix, decimal, decimal_chars,
    is_boundary, lemma_parse_decimal, lemma_utf8_len_concat, pad_right, pad_right_chars, string_from_chars, utf8_len,
};
use crate::util::{fits_in_bytes, slug_cut_ok, slug_fits, slugify, slugify_spec};

verus! {

/// The branch of task `id` with slug `slug`: `cond/task-<id>-<slug>`.
pub open spec fn branch_name(id: u32, slug: Seq<char>) -> Seq<char> {
    "cond/task-"@ + decimal(id as nat) + "-"@ + slug
}

/// The worktree of task `id`, relative to the repository root: `.cond-worktrees/task-<id>`.
pub open spec fn worktree_rel_name(id: u32) -> Seq<char> {
    ".cond-worktrees/task-"@ + decimal(id as nat)
}

impl CondState {
    /// Task IDs are distinct and all below `next_id`.
    pub open spec fn ids_ok(&self) -> bool {
        &&& forall|i: int| 0 <= i < self.tasks@.len() ==> #[trigger] self.tasks@[i].id < self.next_id
        &&& forall|i: int, j: int|
            0 <= i < j < self.tasks@.len() ==> #[trigger] self.tasks@[i].id != #[trigger] self.tasks@[j].id
    }
}

/// What spawning a task does: the names it gets and the two git commands that
/// create its branch and worktree.
#[derive(Debug)]
pub struct SpawnPlan {
    pub id: u32,
    pub branch: String,
    pub worktree_rel: String,
    pub worktree_abs: String,
    pub create_branch: Invocation,
    pub add_worktree: Invocation,
}

/// `plan` is what spawning a task for `description` in `state` plans.
pub open spec fn spawn_planned(state: CondState, repo_root: Seq<char>, description: Seq<char>, plan: SpawnPlan) -> bool {
    let branch = branch_name(state.next_id, slugify_spec(description));
    let rel = worktree_rel_name(state.next_id);
    let abs = joined(repo_root, rel);
    &&& plan.id == state.next_id
    &&& plan.branch@ == branch
    &&& plan.worktree_rel@ == rel
    &&& plan.worktree_abs@ == abs
    &&& runs(plan.create_branch, "git"@, seq!["branch"@, branch], repo_root)
    &&& runs(plan.add_worktree, "git"@, seq!["worktree"@, "add"@, abs, branch], repo_root)
}

/// Task `t` is the new, active task of `plan` for `description`, created at `now`.
pub open spec fn spawned_task(plan: SpawnPlan, description: Seq<char>, now: Timestamp, t: Task) -> bool {
    &&& t.id == plan.id
    &&& t.description@ == description
    &&& t.branch@ == plan.branch@
    &&& t.worktree_path@ == plan.worktree_rel@
    &&& t.status == TaskStatus::Active
    &&& t.created_at == now
    &&& t.updated_at == now
    &&& t.pr_number is None
    &&& t.pr_url is None
}

impl CondState {
    /// Plans a new task for `description`: its ID is `next_id`, its branch
    /// `cond/task-<id>-<slug>` and its worktree `.cond-worktrees/task-<id>`.
    pub fn plan_spawn(&self, repo_root: &str, description: &str) -> (r: SpawnPlan)
        requires
            slug_cut_ok(description@),
        ensures
            spawn_planned(*self, repo_root@, description@, r),
    {
        let id = self.next_id;
        let slug = slugify(description);
        let digits = decimal_chars(id);
        let mut b: Vec<char> = Vec::new();
        append_str(&mut b, "cond/task-");
        append_chars(&mut b, &digits);
        append_str(&mut b, "-");
        append_str(&mut b, slug.as_str());
        let branch = string_from_chars(&b);
        let mut w: Vec<char> = Vec::new();
        append_str(&mut w, ".cond-worktrees/task-");
        append_chars(&mut w, &digits);
        let worktree_rel = string_from_chars(&w);
        let worktree_abs = join_path(repo_root, worktree_rel.as_str());
        let create_branch = invocation("git", vec!["branch".to_owned(), branch.clone()], repo_root);
        let add_worktree = invocation(
            "git",
            vec!["worktree".to_owned(), "add".to_owned(), worktree_abs.clone(), branch.clone()],
            repo_root,
        );
        assert(args_of(create_branch.args@) =~= seq!["branch"@, branch@]);
        assert(args_of(add_worktree.args@) =~= seq!["worktree"@, "add"@, worktree_abs@, branch@]);
        assert(branch@ =~= branch_name(id, slugify_spec(description@)));
        assert(worktree_rel@ =~= worktree_rel_name(id));
        SpawnPlan { id, branch, worktree_rel, worktree_abs, create_branch, add_worktree }
    }

    /// `plan_spawn` where the description's slug can be cut; `None` where it cannot.
    pub fn try_plan_spawn(&self, repo_root: &str, description: &str) -> (r: Option<SpawnPlan>)
        ensures
            r is Some <==> slug_cut_ok(description@),
            r matches Some(p) ==> spawn_planned(*self, repo_root@, description@, p),
    {
        if slug_fits(description) {
            Some(self.plan_spawn(repo_root, description))
        } else {
            None
        }
    }

    /// Records a spawned task: takes its ID from `next_id` and adds it, active,
    /// created and updated at `now` (the current time, read by the caller).
    pub fn record_spawn(&mut self, plan: &SpawnPlan, description: &str, now: Timestamp)
        requires
            old(self).next_id == plan.id,
            plan.id < u32::MAX,
        ensures
            final(self).version == old(self).version,
            final(self).repo_root == old(self).repo_root,
            final(self).next_id == old(self).next_id + 1,
            final(self).tasks@.len() == old(self).tasks@.len() + 1,
            final(self).tasks@.drop_last() == old(self).tasks@,
            spawned_task(*plan, description@, now, final(self).tasks@.last()),
            old(self).ids_ok() ==> final(self).ids_ok(),
    {
        self.next_id = self.next_id + 1;
        let task = Task {
            id: plan.id,
            description: description.to_owned(),
            branch: plan.branch.clone(),
            worktree_path: plan.worktree_rel.clone(),
            status: TaskStatus::Active,
            created_at: now,
            updated_at: now,
            pr_number: None,
            pr_url: None,
        };
        self.tasks.push(task);
        assert(self.tasks@.drop_last() =~= old(self).tasks@);
    }
}

} // verus!

verus! {

/// Task `b` is task `a` moved to `status`, updated at `now`; nothing else differs.
pub open spec fn moved_to(a: Task, b: Task, status: TaskStatus, now: Timestamp) -> bool {
    &&& b.id == a.id
    &&& b.description == a.description
    &&& b.branch == a.branch
    &&& b.worktree_path == a.worktree_path
    &&& b.status == status
    &&& b.updated_at == now
    &&& b.created_at == a.created_at
    &&& b.pr_number == a.pr_number
    &&& b.pr_url == a.pr_url
}

/// `b` is `a` with task `i` moved to `status` at `now`, and nothing else changed.
pub open spec fn state_moved(a: CondState, b: CondState, i: int, status: TaskStatus, now: Timestamp) -> bool {
    &&& b.version == a.version
    &&& b.next_id == a.next_id
    &&& b.repo_root == a.repo_root
    &&& b.tasks@.len() == a.tasks@.len()
    &&& moved_to(a.tasks@[i], b.tasks@[i], status, now)
    &&& forall|j: int| 0 <= j < a.tasks@.len() && j != i ==> #[trigger] b.tasks@[j] == a.tasks@[j]
}

impl CondState {
    /// Moves task `idx` to `status`, updated at `now`.
    fn set_status(&mut self, idx: usize, status: TaskStatus, now: Timestamp)
        requires
            idx < old(self).tasks@.len(),
        ensures
            state_moved(*old(self), *final(self), idx as int, status, now),
            old(self).ids_ok() ==> final(self).ids_ok(),
    {
        let t = &mut self.tasks[idx];
        t.status = status;
        t.updated_at = now;
    }

    /// Records that task `idx` was merged, at `now`.
    pub fn record_merged(&mut self, idx: usize, now: Timestamp)
        requires
            idx < old(self).tasks@.len(),
        ensures
            state_moved(*old(self), *final(self), idx as int, TaskStatus::Merged, now),
            old(self).ids_ok() ==> final(self).ids_ok(),
    {
        self.set_status(idx, TaskStatus::Merged, now);
    }

    /// Records that task `idx` was killed at `now`: its worktree and branch are gone.
    pub fn mark_cleaned(&mut self, idx: usize, now: Timestamp)
        requires
            idx < old(self).tasks@.len(),
        ensures
            state_moved(*old(self), *final(self), idx as int, TaskStatus::Cleaned, now),
            old(self).ids_ok() ==> final(self).ids_ok(),
    {
        self.set_status(idx, TaskStatus::Cleaned, now);
    }
}

} // verus!

verus! {

// ---------------------------------------------------------------------------
// prune
// ---------------------------------------------------------------------------

/// The tasks that are not cleaned, in order.
pub open spec fn uncleaned(s: Seq<Task>) -> Seq<Task>
    decreases s.len(),
{
    if s.len() == 0 {
        s
    } else if s[0].status == TaskStatus::Cleaned {
        uncleaned(s.drop_first())
    } else {
        seq![s[0]] + uncleaned(s.drop_first())
    }
}

impl CondState {
    /// Removes cleaned tasks from the state and returns how many were removed.
    pub fn prune(&mut self) -> (removed: usize)
        ensures
            same_header_after_prune(*old(self), *final(self)),
            final(self).tasks@ == uncleaned(old(self).tasks@),
            removed == old(self).tasks@.len() - final(self).tasks@.len(),
    {
        let ghost orig = self.tasks@;
        let before = self.tasks.len();
        let mut i = self.tasks.len();
        assert(orig.skip(orig.len() as int) =~= Seq::<Task>::empty());
        assert(orig.take(orig.len() as int) + Seq::<Task>::empty() =~= orig);
        while i > 0
            invariant
                i <= orig.len(),
                self.version == old(self).version,
                self.next_id == old(self).next_id,
                self.repo_root == old(self).repo_root,
                self.tasks@ == orig.take(i as int) + uncleaned(orig.skip(i as int)),
                orig == old(self).tasks@,
            decreases i,
        {
            i = i - 1;
            let ghost rest = uncleaned(orig.skip(i + 1));
            assert(orig.skip(i as int).drop_first() =~= orig.skip(i + 1));
            assert(orig.skip(i as int)[0] == orig[i as int]);
            if self.tasks[i].status == TaskStatus::Cleaned {
                self.tasks.remove(i);
                assert(self.tasks@ =~= orig.take(i as int) + rest);
            } else {
                assert(orig.take(i + 1) + rest =~= orig.take(i as int) + (seq![orig[i as int]] + rest));
            }
        }
        assert(orig.take(0) + uncleaned(orig.skip(0)) =~= uncleaned(orig)) by {
            assert(orig.skip(0) =~= orig);
        }
        proof {
            lemma_uncleaned_len(orig);
        }
        before - self.tasks.len()
    }
}

/// Pruning changes nothing but the task list.
pub open spec fn same_header_after_prune(a: CondState, b: CondState) -> bool {
    a.version == b.version && a.next_id == b.next_id && a.repo_root == b.repo_root
}

proof fn lemma_uncleaned_len(s: Seq<Task>)
    ensures
        uncleaned(s).len() <= s.len(),
    decreases s.len(),
{
    if s.len() > 0 {
        lemma_uncleaned_len(s.drop_first());
    }
}

/// Every task that pruning keeps was in the list and is not cleaned; every task of
/// the list that is not cleaned is kept.
pub proof fn lemma_uncleaned_members(s: Seq<Task>, t: Task)
    ensures
        uncleaned(s).contains(t) <==> (s.contains(t) && t.status != TaskStatus::Cleaned),
    decreases s.len(),
{
    if s.len() > 0 {
        lemma_uncleaned_members(s.drop_first(), t);
        let r = uncleaned(s.drop_first());
        assert(s =~= seq![s[0]] + s.drop_first());
        if s.contains(t) && t != s[0] {
            let k = choose|k: int| 0 <= k < s.len() && s[k] == t;
            assert(s.drop_first()[k - 1] == t);
        }
        if s.drop_first().contains(t) {
            let k = choose|k: int| 0 <= k < s.drop_first().len() && s.drop_first()[k] == t;
            assert(s[k + 1] == t);
        }
        if s[0].status != TaskStatus::Cleaned {
            let u = seq![s[0]] + r;
            if u.contains(t) && t != s[0] {
                let k = choose|k: int| 0 <= k < u.len() && u[k] == t;
                assert(r[k - 1] == t);
            }
            if r.contains(t) {
                let k = choose|k: int| 0 <= k < r.len() && r[k] == t;
                assert(u[k + 1] == t);
            }
            assert(u[0] == s[0]);
        }
    } else {
        assert(!s.contains(t));
    }
}

/// Pruning twice is pruning once.
pub proof fn lemma_prune_idempotent(s: Seq<Task>)
    ensures
        uncleaned(uncleaned(s)) == uncleaned(s),
    decreases s.len(),
{
    if s.len() > 0 {
        lemma_prune_idempotent(s.drop_first());
        let r = uncleaned(s.drop_first());
        if s[0].status != TaskStatus::Cleaned {
            let u = seq![s[0]] + r;
            assert(u.drop_first() =~= r);
            assert(u[0] == s[0]);
        }
    }
}

/// After pruning no task is cleaned.
pub proof fn lemma_pruned_has_no_cleaned(s: Seq<Task>)
    ensures
        forall|i: int| 0 <= i < uncleaned(s).len() ==> #[trigger] uncleaned(s)[i].status != TaskStatus::Cleaned,
{
    assert forall|i: int| 0 <= i < uncleaned(s).len() implies #[trigger] uncleaned(s)[i].status != TaskStatus::Cleaned by {
        lemma_uncleaned_members(s, uncleaned(s)[i]);
        assert(uncleaned(s).contains(uncleaned(s)[i]));
    }
}

/// Pruning keeps task IDs distinct and below `next_id`.
pub proof fn lemma_prune_keeps_ids_ok(a: CondState, b: CondState)
    requires
        a.ids_ok(),
        same_header_after_prune(a, b),
        b.tasks@ == uncleaned(a.tasks@),
    ensures
        b.ids_ok(),
{
    lemma_uncleaned_ids(a.tasks@, a.next_id);
}

/// Distinct IDs below `bound` stay so after pruning.
proof fn lemma_uncleaned_ids(s: Seq<Task>, bound: u32)
    requires
        forall|i: int| 0 <= i < s.len() ==> #[trigger] s[i].id < bound,
        forall|i: int, j: int| 0 <= i < j < s.len() ==> #[trigger] s[i].id != #[trigger] s[j].id,
    ensures
        forall|i: int| 0 <= i < uncleaned(s).len() ==> #[trigger] uncleaned(s)[i].id < bound,
        forall|i: int, j: int|
            0 <= i < j < uncleaned(s).len() ==> #[trigger] uncleaned(s)[i].id != #[trigger] uncleaned(s)[j].id,
    decreases s.len(),
{
    if s.len() > 0 {
        let d = s.drop_first();
        assert forall|i: int, j: int| 0 <= i < j < d.len() implies #[trigger] d[i].id != #[trigger] d[j].id by {
            assert(d[i] == s[i + 1] && d[j] == s[j + 1]);
        }
        assert forall|i: int| 0 <= i < d.len() implies #[trigger] d[i].id < bound by {
            assert(d[i] == s[i + 1]);
        }
        lemma_uncleaned_ids(d, bound);
        let r = uncleaned(d);
        if s[0].status != TaskStatus::Cleaned {
            let u = seq![s[0]] + r;
            assert forall|j: int| 0 <= j < r.len() implies r[j].id != s[0].id by {
                lemma_uncleaned_members(d, r[j]);
                assert(r.contains(r[j]));
                let k = choose|k: int| 0 <= k < d.len() && d[k] == r[j];
                assert(s[k + 1] == r[j]);
            }
            assert forall|i: int, j: int| 0 <= i < j < u.len() implies #[trigger] u[i].id != #[trigger] u[j].id by {
                if i == 0 {
                    assert(u[j] == r[j - 1]);
                } else {
                    assert(u[i] == r[i - 1] && u[j] == r[j - 1]);
                }
            }
            assert forall|i: int| 0 <= i < u.len() implies #[trigger] u[i].id < bound by {
                if i > 0 {
                    assert(u[i] == r[i - 1]);
                }
            }
        }
    }
}

// ---------------------------------------------------------------------------
// nuke
// ---------------------------------------------------------------------------

/// The task is still live: neither merged nor cleaned.
pub open spec fn is_live(t: Task) -> bool {
    t.status != TaskStatus::Cleaned && t.status != TaskStatus::Merged
}

/// The IDs of the live tasks, in order.
pub open spec fn live_ids(s: Seq<Task>) -> Seq<u32>
    decreases s.len(),
{
    if s.len() == 0 {
        Seq::empty()
    } else if is_live(s.last()) {
        live_ids(s.drop_last()).push(s.last().id)
    } else {
        live_ids(s.drop_last())
    }
}

impl CondState {
    /// The IDs of the tasks `nuke` kills: those neither cleaned nor merged, in order.
    pub fn nuke_targets(&self) -> (r: Vec<u32>)
        ensures
            r@ == live_ids(self.tasks@),
    {
        let mut out: Vec<u32> = Vec::new();
        assert(self.tasks@.take(0) =~= Seq::<Task>::empty());
        for i in 0..self.tasks.len()
            invariant
                out@ == live_ids(self.tasks@.take(i as int)),
        {
            assert(self.tasks@.take(i + 1).drop_last() =~= self.tasks@.take(i as int));
            let t = &self.tasks[i];
            if t.status != TaskStatus::Cleaned && t.status != TaskStatus::Merged {
                out.push(t.id);
            }
        }
        assert(self.tasks@.take(self.tasks.len() as int) =~= self.tasks@);
        out
    }
}

/// An ID is a nuke target exactly when some live task has it.
pub proof fn lemma_live_ids_members(s: Seq<Task>, id: u32)
    ensures
        live_ids(s).contains(id) <==> exists|i: int| 0 <= i < s.len() && is_live(#[trigger] s[i]) && s[i].id == id,
    decreases s.len(),
{
    if s.len() > 0 {
        let d = s.drop_last();
        lemma_live_ids_members(d, id);
        let r = live_ids(d);
        if exists|i: int| 0 <= i < d.len() && is_live(#[trigger] d[i]) && d[i].id == id {
            let i = choose|i: int| 0 <= i < d.len() && is_live(#[trigger] d[i]) && d[i].id == id;
            assert(s[i] == d[i]);
        }
        if exists|i: int| 0 <= i < s.len() && is_live(#[trigger] s[i]) && s[i].id == id {
            let i = choose|i: int| 0 <= i < s.len() && is_live(#[trigger] s[i]) && s[i].id == id;
            if i < d.len() {
                assert(d[i] == s[i]);
            }
        }
        if is_live(s.last()) {
            let u = r.push(s.last().id);
            if u.contains(id) && id != s.last().id {
                let k = choose|k: int| 0 <= k < u.len() && u[k] == id;
                assert(r[k] == id);
            }
            if r.contains(id) {
                let k = choose|k: int| 0 <= k < r.len() && r[k] == id;
                assert(u[k] == id);
            }
            assert(u[u.len() - 1] == s.last().id);
        }
    }
}

} // verus!

verus! {

// ---------------------------------------------------------------------------
// kill, diff
// ---------------------------------------------------------------------------

/// What killing a task does: remove its worktree (where it exists) and, unless the
/// task was merged, force-delete its branch.
#[derive(Debug)]
pub struct KillPlan {
    pub id: u32,
    pub worktree_abs: String,
    pub remove_worktree: Invocation,
    pub delete_branch: Option<Invocation>,
}

/// `plan` is what killing task `i` of `state` plans.
pub open spec fn kill_planned(state: CondState, repo_root: Seq<char>, i: int, plan: KillPlan) -> bool {
    let t = state.tasks@[i];
    let abs = joined(repo_root, t.worktree_path@);
    &&& plan.id == t.id
    &&& plan.worktree_abs@ == abs
    &&& runs(plan.remove_worktree, "git"@, seq!["worktree"@, "remove"@, abs, "--force"@], repo_root)
    &&& (t.status == TaskStatus::Merged <==> plan.delete_branch is None)
    &&& plan.delete_branch matches Some(d) ==> runs(d, "git"@, seq!["branch"@, "-D"@, t.branch@], repo_root)
}

/// The worktree of task `i`, as an absolute path.
pub open spec fn task_worktree(state: CondState, repo_root: Seq<char>, i: int) -> Seq<char> {
    joined(repo_root, state.tasks@[i].worktree_path@)
}

impl CondState {
    /// The worktree of task `idx`: `repo_root` joined with its relative path.
    pub fn worktree_of(&self, repo_root: &str, idx: usize) -> (r: String)
        requires
            idx < self.tasks@.len(),
        ensures
            r@ == task_worktree(*self, repo_root@, idx as int),
    {
        join_path(repo_root, self.tasks[idx].worktree_path.as_str())
    }

    /// Plans killing task `idx`.
    pub fn plan_kill(&self, repo_root: &str, idx: usize) -> (r: KillPlan)
        requires
            idx < self.tasks@.len(),
        ensures
            kill_planned(*self, repo_root@, idx as int, r),
    {
        let t = &self.tasks[idx];
        let abs = self.worktree_of(repo_root, idx);
        let remove_worktree = invocation(
            "git",
            vec!["worktree".to_owned(), "remove".to_owned(), abs.clone(), "--force".to_owned()],
            repo_root,
        );
        assert(args_of(remove_worktree.args@) =~= seq!["worktree"@, "remove"@, abs@, "--force"@]);
        let delete_branch = if t.status == TaskStatus::Merged {
            None
        } else {
            let d = invocation("git", vec!["branch".to_owned(), "-D".to_owned(), t.branch.clone()], repo_root);
            assert(args_of(d.args@) =~= seq!["branch"@, "-D"@, t.branch@]);
            Some(d)
        };
        KillPlan { id: t.id, worktree_abs: abs, remove_worktree, delete_branch }
    }

    /// The diff of task `idx`'s worktree against `main`: `git diff main..HEAD` there.
    pub fn plan_diff(&self, repo_root: &str, idx: usize) -> (r: Invocation)
        requires
            idx < self.tasks@.len(),
        ensures
            runs(r, "git"@, seq!["diff"@, "main..HEAD"@], task_worktree(*self, repo_root@, idx as int)),
    {
        let abs = self.worktree_of(repo_root, idx);
        let r = invocation("git", vec!["diff".to_owned(), "main..HEAD".to_owned()], abs.as_str());
        assert(args_of(r.args@) =~= seq!["diff"@, "main..HEAD"@]);
        r
    }
}

} // verus!

verus! {

// ---------------------------------------------------------------------------
// status
// ---------------------------------------------------------------------------

/// `truncate(s, max)` can cut `s`: it fits in `max` bytes, or `max - 3` bytes end on a
/// character boundary (where neither holds, the byte slice panics).
pub open spec fn truncatable(s: Seq<char>, max: nat) -> bool {
    utf8_len(s) <= max || (max >= 3 && is_boundary(s, (max - 3) as nat))
}

/// `s` when it fits in `max` bytes; else its first `max - 3` bytes followed by `...`.
pub open spec fn truncate_spec(s: Seq<char>, max: nat) -> Seq<char> {
    if utf8_len(s) <= max {
        s
    } else {
        s.take(chars_in_bytes(s, (max - 3) as nat)) + "..."@
    }
}

/// Shortens `s` to at most `max` bytes, marking a cut with `...`.
pub fn truncate(s: &str, max: usize) -> (r: String)
    requires
        truncatable(s@, max as nat),
    ensures
        r@ == truncate_spec(s@, max as nat),
        utf8_len(r@) <= max,
{
    let v = chars_of(s);
    if fits_in_bytes(&v, max) {
        s.to_owned()
    } else {
        let k = match boundary_chars(&v, max - 3) {
            Some(k) => k,
            None => {
                proof {
                    assert(false);
                }
                0
            },
        };
        let mut out = copy_prefix(&v, k);
        append_str(&mut out, "...");
        proof {
            reveal_strlit("...");
            lemma_utf8_len_concat(v@.take(k as int), "..."@);
            assert("..."@.drop_first().drop_first().drop_first() =~= Seq::<char>::empty());
            assert(utf8_len("..."@) == 3) by {
                reveal_with_fuel(utf8_len, 4);
                assert("..."@.drop_first() =~= seq!['.', '.']);
                assert("..."@.drop_first().drop_first() =~= seq!['.']);
            }
        }
        string_from_chars(&out)
    }
}

/// Width of the ID column.
pub const ID_WIDTH: usize = 4;

/// Width of the status column.
pub const STATUS_WIDTH: usize = 11;

/// Width of the branch column; longer branches are truncated to it.
pub const BRANCH_WIDTH: usize = 42;

/// The header line of the status table.
pub open spec fn status_header() -> Seq<char> {
    pad_right("ID"@, ID_WIDTH as nat) + " "@ + pad_right("STATUS"@, STATUS_WIDTH as nat) + " "@
        + pad_right("BRANCH"@, BRANCH_WIDTH as nat) + " "@ + "DESCRIPTION"@
}

/// The line of the status table for one task.
pub open spec fn status_row(t: Task) -> Seq<char> {
    pad_right(decimal(t.id as nat), ID_WIDTH as nat) + " "@ + pad_right(status_name(t.status), STATUS_WIDTH as nat)
        + " "@ + pad_right(truncate_spec(t.branch@, BRANCH_WIDTH as nat), BRANCH_WIDTH as nat) + " "@
        + t.description@
}

/// Every branch can be cut to the branch column.
pub open spec fn branches_truncatable(tasks: Seq<Task>) -> bool {
    forall|i: int| 0 <= i < tasks.len() ==> truncatable(#[trigger] tasks[i].branch@, BRANCH_WIDTH as nat)
}

/// The lines `status` prints.
pub open spec fn status_lines(tasks: Seq<Task>) -> Seq<Seq<char>> {
    if tasks.len() == 0 {
        seq!["no tasks"@]
    } else {
        seq![status_header()] + tasks.map_values(|t: Task| status_row(t))
    }
}

fn column(v: &mut Vec<char>, cell: &Vec<char>, width: usize)
    ensures
        final(v)@ == old(v)@ + pad_right(cell@, width as nat) + " "@,
{
    let padded = pad_right_chars(cell, width);
    append_chars(v, &padded);
    append_str(v, " ");
    assert(final(v)@ =~= old(v)@ + pad_right(cell@, width as nat) + " "@);
}

impl CondState {
    /// The lines of the status table: a header and one row per task
    /// (`ID`, `STATUS`, `BRANCH` truncated to its column, `DESCRIPTION`),
    /// or `no tasks`.
    pub fn status_report(&self) -> (r: Vec<String>)
        requires
            branches_truncatable(self.tasks@),
        ensures
            r@.map_values(|l: String| l@) == status_lines(self.tasks@),
    {
        let mut lines: Vec<String> = Vec::new();
        if self.tasks.len() == 0 {
            lines.push("no tasks".to_owned());
            assert(lines@.map_values(|l: String| l@) =~= status_lines(self.tasks@));
            return lines;
        }
        let mut h: Vec<char> = Vec::new();
        column(&mut h, &chars_of("ID"), ID_WIDTH);
        column(&mut h, &chars_of("STATUS"), STATUS_WIDTH);
        column(&mut h, &chars_of("BRANCH"), BRANCH_WIDTH);
        append_str(&mut h, "DESCRIPTION");
        assert(h@ =~= status_header());
        lines.push(string_from_chars(&h));
        let ghost rows = self.tasks@.map_values(|t: Task| status_row(t));
        for i in 0..self.tasks.len()
            invariant
                branches_truncatable(self.tasks@),
                rows == self.tasks@.map_values(|t: Task| status_row(t)),
                lines@.map_values(|l: String| l@) == seq![status_header()] + rows.take(i as int),
        {
            let t = &self.tasks[i];
            assert(truncatable(self.tasks@[i as int].branch@, BRANCH_WIDTH as nat));
            let mut row: Vec<char> = Vec::new();
            column(&mut row, &decimal_chars(t.id), ID_WIDTH);
            let name = t.status.to_string();
            column(&mut row, &chars_of(name.as_str()), STATUS_WIDTH);
            let short = truncate(t.branch.as_str(), BRANCH_WIDTH);
            column(&mut row, &chars_of(short.as_str()), BRANCH_WIDTH);
            append_str(&mut row, t.description.as_str());
            assert(row@ =~= status_row(self.tasks@[i as int]));
            let ghost before = lines@;
            lines.push(string_from_chars(&row));
            assert(rows.take(i + 1) =~= rows.take(i as int).push(rows[i as int]));
            assert(lines@.map_values(|l: String| l@) =~= before.map_values(|l: String| l@).push(row@));
        }
        assert(rows.take(self.tasks.len() as int) =~= rows);
        lines
    }

    /// `status_report` where every branch can be cut; `None` where one cannot.
    pub fn try_status_report(&self) -> (r: Option<Vec<String>>)
        ensures
            r is Some <==> branches_truncatable(self.tasks@),
            r matches Some(lines) ==> lines@.map_values(|l: String| l@) == status_lines(self.tasks@),
    {
        for i in 0..self.tasks.len()
            invariant
                forall|j: int| 0 <= j < i ==> truncatable(#[trigger] self.tasks@[j].branch@, BRANCH_WIDTH as nat),
        {
            let v = chars_of(self.tasks[i].branch.as_str());
            if !fits_in_bytes(&v, BRANCH_WIDTH) && boundary_chars(&v, BRANCH_WIDTH - 3).is_none() {
                return None;
            }
        }
        Some(self.status_report())
    }
}

} // verus!

verus! {

/// With distinct IDs, a task's ID written in decimal finds that task.
pub proof fn lemma_find_by_id(state: CondState, i: int)
    requires
        state.ids_ok(),
        0 <= i < state.tasks@.len(),
    ensures
        resolve_spec(state.tasks@, decimal(state.tasks@[i].id as nat)) == Resolution::At(i),
        resolvable(state.tasks@, decimal(state.tasks@[i].id as nat)),
{
    let tasks = state.tasks@;
    let id = tasks[i].id;
    lemma_parse_decimal(id);
    assert(has_id(tasks, id));
    assert(first_with_id(tasks, id, i)) by {
        assert forall|j: int| 0 <= j < i implies #[trigger] tasks[j].id != id by {
            assert(tasks[j].id != tasks[i].id);
        }
    }
    lemma_first_with_id_unique(tasks, id, i);
}

/// Killing a task and then pruning removes it: no task with its ID is left, and
/// every other task that was not cleaned stays.
pub proof fn lemma_kill_then_prune(a: CondState, b: CondState, i: int, now: Timestamp)
    requires
        a.ids_ok(),
        0 <= i < a.tasks@.len(),
        state_moved(a, b, i, TaskStatus::Cleaned, now),
    ensures
        forall|k: int| 0 <= k < uncleaned(b.tasks@).len() ==> #[trigger] uncleaned(b.tasks@)[k].id != a.tasks@[i].id,
        forall|j: int|
            0 <= j < a.tasks@.len() && j != i && a.tasks@[j].status != TaskStatus::Cleaned ==> uncleaned(
                b.tasks@,
            ).contains(#[trigger] a.tasks@[j]),
{
    let id = a.tasks@[i].id;
    assert forall|k: int| 0 <= k < uncleaned(b.tasks@).len() implies #[trigger] uncleaned(b.tasks@)[k].id != id by {
        let t = uncleaned(b.tasks@)[k];
        lemma_uncleaned_members(b.tasks@, t);
        assert(uncleaned(b.tasks@).contains(t));
        let m = choose|m: int| 0 <= m < b.tasks@.len() && b.tasks@[m] == t;
        if m != i {
            assert(b.tasks@[m] == a.tasks@[m]);
            if m < i {
                assert(a.tasks@[m].id != a.tasks@[i].id);
            } else {
                assert(a.tasks@[i].id != a.tasks@[m].id);
            }
        }
    }
    assert forall|j: int|
        0 <= j < a.tasks@.len() && j != i && a.tasks@[j].status != TaskStatus::Cleaned implies uncleaned(
            b.tasks@,
        ).contains(#[trigger] a.tasks@[j]) by {
        assert(b.tasks@[j] == a.tasks@[j]);
        assert(b.tasks@.contains(a.tasks@[j]));
        lemma_uncleaned_members(b.tasks@, a.tasks@[j]);
    }
}

} // verus!

verus! {

/// A spawned task is named by its own ID, which is `next_id`: its branch is
/// `cond/task-<id>-<slug of the description>` and its worktree
/// `.cond-worktrees/task-<id>` under the repository root, created by
/// `git branch <branch>` and `git worktree add <worktree> <branch>` in the root.
pub proof fn lemma_spawn_names_follow_id(state: CondState, repo_root: Seq<char>, description: Seq<char>, plan: SpawnPlan)
    requires
        spawn_planned(state, repo_root, description, plan),
    ensures
        plan.id == state.next_id,
        plan.branch@ == "cond/task-"@ + decimal(plan.id as nat) + "-"@ + slugify_spec(description),
        plan.worktree_rel@ == ".cond-worktrees/task-"@ + decimal(plan.id as nat),
        plan.worktree_abs@ == joined(repo_root, plan.worktree_rel@),
        plan.create_branch.program@ == "git"@ && plan.create_branch.cwd@ == repo_root,
        plan.create_branch.args@.len() == 2,
        plan.create_branch.args@[0]@ == "branch"@ && plan.create_branch.args@[1]@ == plan.branch@,
        plan.add_worktree.program@ == "git"@ && plan.add_worktree.cwd@ == repo_root,
        plan.add_worktree.args@.len() == 4,
        plan.add_worktree.args@[0]@ == "worktree"@ && plan.add_worktree.args@[1]@ == "add"@,
        plan.add_worktree.args@[2]@ == plan.worktree_abs@ && plan.add_worktree.args@[3]@ == plan.branch@,
{
    assert(args_of(plan.create_branch.args@).len() == plan.create_branch.args@.len());
    assert(args_of(plan.add_worktree.args@).len() == plan.add_worktree.args@.len());
    assert(args_of(plan.create_branch.args@)[0] == plan.create_branch.args@[0]@);
    assert(args_of(plan.create_branch.args@)[1] == plan.create_branch.args@[1]@);
    assert(args_of(plan.add_worktree.args@)[0] == plan.add_worktree.args@[0]@);
    assert(args_of(plan.add_worktree.args@)[1] == plan.add_worktree.args@[1]@);
    assert(args_of(plan.add_worktree.args@)[2] == plan.add_worktree.args@[2]@);
    assert(args_of(plan.add_worktree.args@)[3] == plan.add_worktree.args@[3]@);
}

/// The names a spawn plans depend on `next_id` and the description alone, not on
/// how many tasks there are: two states with the same `next_id` plan the same ID,
/// branch and worktree.
pub proof fn lemma_spawn_names_ignore_task_count(
    a: CondState,
    b: CondState,
    repo_root: Seq<char>,
    description: Seq<char>,
    pa: SpawnPlan,
    pb: SpawnPlan,
)
    requires
        spawn_planned(a, repo_root, description, pa),
        spawn_planned(b, repo_root, description, pb),
        a.next_id == b.next_id,
    ensures
        pa.id == pb.id,
        pa.branch@ == pb.branch@,
        pa.worktree_rel@ == pb.worktree_rel@,
        pa.worktree_abs@ == pb.worktree_abs@,
{
}

/// Killing a task always removes its worktree (`git worktree remove <worktree>
/// --force` in the root), and force-deletes its branch (`git branch -D <branch>` in
/// the root) exactly when the task is not merged: active, PR-created and cleaned
/// tasks lose their branch, a merged task keeps it.
pub proof fn lemma_kill_deletes_branch_unless_merged(state: CondState, repo_root: Seq<char>, i: int, plan: KillPlan)
    requires
        0 <= i < state.tasks@.len(),
        kill_planned(state, repo_root, i, plan),
    ensures
        plan.id == state.tasks@[i].id,
        plan.remove_worktree.program@ == "git"@ && plan.remove_worktree.cwd@ == repo_root,
        plan.remove_worktree.args@.len() == 4,
        plan.remove_worktree.args@[0]@ == "worktree"@ && plan.remove_worktree.args@[1]@ == "remove"@,
        plan.remove_worktree.args@[2]@ == joined(repo_root, state.tasks@[i].worktree_path@),
        plan.remove_worktree.args@[3]@ == "--force"@,
        plan.delete_branch is None <==> state.tasks@[i].status == TaskStatus::Merged,
        state.tasks@[i].status != TaskStatus::Merged ==> (plan.delete_branch matches Some(d)
            && d.program@ == "git"@ && d.cwd@ == repo_root && d.args@.len() == 3 && d.args@[0]@ == "branch"@
            && d.args@[1]@ == "-D"@ && d.args@[2]@ == state.tasks@[i].branch@),
{
    let rw = plan.remove_worktree.args@;
    assert(args_of(rw).len() == rw.len());
    assert(args_of(rw)[0] == rw[0]@ && args_of(rw)[1] == rw[1]@);
    assert(args_of(rw)[2] == rw[2]@ && args_of(rw)[3] == rw[3]@);
    if let Some(d) = plan.delete_branch {
        assert(args_of(d.args@).len() == d.args@.len());
        assert(args_of(d.args@)[0] == d.args@[0]@);
        assert(args_of(d.args@)[1] == d.args@[1]@);
        assert(args_of(d.args@)[2] == d.args@[2]@);
    }
}

/// In the status table, the row of every task is that task's own: it starts with the
/// task's ID, ends with its description, and the STATUS column right after the ID
/// holds the task's own status, `active`, `pr_created`, `merged` or `cleaned`,
/// padded to the column's width.
pub proof fn lemma_status_column_shows_own_status(tasks: Seq<Task>, k: int)
    requires
        0 <= k < tasks.len(),
    ensures
        status_lines(tasks).len() == tasks.len() + 1,
        ({
            let row = status_lines(tasks)[k + 1];
            let a = pad_right(decimal(tasks[k].id as nat), ID_WIDTH as nat).len() + 1;
            let word = match tasks[k].status {
                TaskStatus::Active => "active"@,
                TaskStatus::PrCreated => "pr_created"@,
                TaskStatus::Merged => "merged"@,
                TaskStatus::Cleaned => "cleaned"@,
            };
            &&& a + STATUS_WIDTH <= row.len()
            &&& row.subrange(a as int, a + STATUS_WIDTH) == pad_right(word, STATUS_WIDTH as nat)
            &&& row.subrange(0, decimal(tasks[k].id as nat).len() as int) == decimal(tasks[k].id as nat)
            &&& row.subrange(row.len() - tasks[k].description@.len(), row.len() as int) == tasks[k].description@
        }),
{
    reveal_strlit("active");
    reveal_strlit("pr_created");
    reveal_strlit("merged");
    reveal_strlit("cleaned");
    reveal_strlit(" ");
    let t = tasks[k];
    let lines = status_lines(tasks);
    assert(lines[k + 1] == status_row(t));
    let id_cell = pad_right(decimal(t.id as nat), ID_WIDTH as nat);
    let cell = pad_right(status_name(t.status), STATUS_WIDTH as nat);
    assert(status_name(t.status).len() < STATUS_WIDTH);
    assert(cell.len() == STATUS_WIDTH);
    let rest = " "@ + pad_right(truncate_spec(t.branch@, BRANCH_WIDTH as nat), BRANCH_WIDTH as nat) + " "@
        + t.description@;
    assert(status_row(t) =~= id_cell + " "@ + cell + rest);
    let a = id_cell.len() + 1;
    assert((id_cell + " "@ + cell + rest).subrange(a as int, a + STATUS_WIDTH) =~= cell);
    let row = id_cell + " "@ + cell + rest;
    assert(row.subrange(0, decimal(t.id as nat).len() as int) =~= decimal(t.id as nat));
    assert(row.subrange(row.len() - t.description@.len(), row.len() as int) =~= t.description@);
}

} // verus!
