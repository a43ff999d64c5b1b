use vstd::prelude::*;

use crate::error::{error_message, matches_text, CondError};
use crate::paths::{join_path, joined};
use crate::text::{chars_equal, chars_of, contains_chars, contains_seq, parse_u32, parse_u32_spec};
use crate::util::{slug_cut_ok, slug_fits, slugify, slugify_spec};

verus! {

/// A point in time, in UTC.
///
/// The value is carried through the library unread; Verus sees nothing inside it.
#[verifier::external_body]
#[derive(Copy, Debug)]
pub struct Timestamp(pub chrono::DateTime<chrono::Utc>);

impl Clone for Timestamp {
    /// A `Timestamp` is `Copy`: its clone is the same value.
    fn clone(&self) -> (r: Self)
        ensures
            r == *self,
    {
        *self
    }
}

/// Where a task is in its lifecycle.
#[derive(Debug, Clone, Copy, PartialEq, Eq, Structural)]
pub enum TaskStatus {
    Active,
    PrCreated,
    Merged,
    Cleaned,
}

/// The name under which a status is shown and stored.
pub open spec fn status_name(s: TaskStatus) -> Seq<char> {
    match s {
        TaskStatus::Active => "active"@,
        TaskStatus::PrCreated => "pr_created"@,
        TaskStatus::Merged => "merged"@,
        TaskStatus::Cleaned => "cleaned"@,
    }
}

impl TaskStatus {
    /// The name under which the status is shown (`active`, `pr_created`, ...).
    pub fn to_string(&self) -> (r: String)
        ensures
            r@ == status_name(*self),
    {
        match self {
            TaskStatus::Active => "active".to_owned(),
            TaskStatus::PrCreated => "pr_created".to_owned(),
            TaskStatus::Merged => "merged".to_owned(),
            TaskStatus::Cleaned => "cleaned".to_owned(),
        }
    }
}

/// One unit of work: a branch with its own worktree.
#[derive(Debug, Clone)]
pub struct Task {
    pub id: u32,
    pub description: String,
    pub branch: String,
    pub worktree_path: String,
    pub status: TaskStatus,
    pub created_at: Timestamp,
    pub updated_at: Timestamp,
    pub pr_number: Option<u32>,
    pub pr_url: Option<String>,
}

/// All of cond's state for one repository.
#[derive(Debug)]
pub struct CondState {
    pub version: u32,
    pub next_id: u32,
    pub repo_root: String,
    pub tasks: Vec<Task>,
}

/// Where the state file of a repository lives: `<root>/.cond/state.json`.
pub open spec fn state_path_spec(repo_root: Seq<char>) -> Seq<char> {
    joined(joined(repo_root, ".cond"@), "state.json"@)
}

/// Some task has this ID.
pub open spec fn has_id(tasks: Seq<Task>, id: u32) -> bool {
    exists|i: int| 0 <= i < tasks.len() && #[trigger] tasks[i].id == id
}

/// `i` is the first position of a task with this ID.
pub open spec fn first_with_id(tasks: Seq<Task>, id: u32, i: int) -> bool {
    &&& 0 <= i < tasks.len()
    &&& tasks[i].id == id
    &&& forall|j: int| 0 <= j < i ==> #[trigger] tasks[j].id != id
}

/// The first position of a task with this ID (meaningful when `has_id`).
pub open spec fn id_position(tasks: Seq<Task>, id: u32) -> int {
    choose|i: int| first_with_id(tasks, id, i)
}

/// A query picks a task by ID: it reads as a `u32` that some task has.
pub open spec fn query_hits_id(tasks: Seq<Task>, query: Seq<char>) -> bool {
    parse_u32_spec(query) matches Some(id) && has_id(tasks, id)
}

/// The task's slug is the query's slug or contains it.
pub open spec fn name_hit(t: Task, qslug: Seq<char>) -> bool {
    contains_seq(slugify_spec(t.description@), qslug)
}

/// The positions, in order, of the tasks whose slug contains `qslug`.
pub open spec fn name_matches(tasks: Seq<Task>, qslug: Seq<char>) -> Seq<int>
    decreases tasks.len(),
{
    if tasks.len() == 0 {
        Seq::empty()
    } else {
        let r = name_matches(tasks.drop_last(), qslug);
        if name_hit(tasks.last(), qslug) {
            r.push(tasks.len() - 1)
        } else {
            r
        }
    }
}

/// How a query is resolved against the tasks.
pub enum Resolution {
    /// The task at this position.
    At(int),
    /// No task matches.
    NoMatch,
    /// Several tasks match by name, at these positions.
    Several(Seq<int>),
}

/// Resolution of a query: by ID first; then by name, matched against slugs.
pub open spec fn resolve_spec(tasks: Seq<Task>, query: Seq<char>) -> Resolution {
    if query_hits_id(tasks, query) {
        Resolution::At(id_position(tasks, parse_u32_spec(query)->Some_0))
    } else {
        let m = name_matches(tasks, slugify_spec(query));
        if m.len() == 0 {
            Resolution::NoMatch
        } else if m.len() == 1 {
            Resolution::At(m[0])
        } else {
            Resolution::Several(m)
        }
    }
}

/// Resolving the query never needs to cut a slug that cannot be cut: it hits an ID,
/// or the query and every description can be slugified.
pub open spec fn resolvable(tasks: Seq<Task>, query: Seq<char>) -> bool {
    query_hits_id(tasks, query) || (slug_cut_ok(query) && forall|i: int|
        0 <= i < tasks.len() ==> slug_cut_ok(#[trigger] tasks[i].description@))
}

/// `e` is the error reported for a query that resolved as `res`.
pub open spec fn resolution_error(tasks: Seq<Task>, query: Seq<char>, res: Resolution, e: CondError) -> bool {
    match res {
        Resolution::At(_) => false,
        Resolution::NoMatch => e matches CondError::TaskNotFound { query: q } && q@ == query,
        Resolution::Several(m) => e matches CondError::AmbiguousTask { query: q, matches: ms } && q@ == query
            && ms@.len() == m.len() && forall|k: int| 0 <= k < m.len() ==> (#[trigger] ms@[k]).0 == tasks[m[k]].id
            && ms@[k].1@ == tasks[m[k]].description@,
    }
}

/// `r` is what resolving `query` against `tasks` returns.
pub open spec fn resolved_as(tasks: Seq<Task>, query: Seq<char>, r: Result<usize, CondError>) -> bool {
    match r {
        Ok(i) => resolve_spec(tasks, query) == Resolution::At(i as int),
        Err(e) => resolution_error(tasks, query, resolve_spec(tasks, query), e),
    }
}

} // verus!

verus! {

impl CondState {
    /// Where the state file of a repository lives: `<repo_root>/.cond/state.json`.
    pub fn state_path(repo_root: &str) -> (r: String)
        ensures
            r@ == state_path_spec(repo_root@),
    {
        let dir = join_path(repo_root, ".cond");
        join_path(dir.as_str(), "state.json")
    }

    /// The first position of a task with this ID.
    fn position_of_id(&self, id: u32) -> (r: Option<usize>)
        ensures
            r is Some <==> has_id(self.tasks@, id),
            r matches Some(i) ==> first_with_id(self.tasks@, id, i as int)
                && i as int == id_position(self.tasks@, id),
    {
        for i in 0..self.tasks.len()
            invariant
                forall|j: int| 0 <= j < i ==> #[trigger] self.tasks@[j].id != id,
        {
            if self.tasks[i].id == id {
                proof {
                    lemma_first_with_id_unique(self.tasks@, id, i as int);
                }
                return Some(i);
            }
        }
        None
    }

    /// Whether the slug of task `i` is `qslug` or contains it.
    fn task_name_hit(&self, i: usize, qslug: &Vec<char>) -> (r: bool)
        requires
            i < self.tasks@.len(),
            slug_cut_ok(self.tasks@[i as int].description@),
        ensures
            r == name_hit(self.tasks@[i as int], qslug@),
    {
        let task_slug = slugify(self.tasks[i].description.as_str());
        let tv = chars_of(task_slug.as_str());
        let same = chars_equal(&tv, qslug);
        let inside = contains_chars(&tv, qslug);
        proof {
            if same {
                assert(tv@.subrange(0, 0 + qslug@.len() as int) =~= qslug@);
                assert(contains_seq(tv@, qslug@));
            }
        }
        same || inside
    }

    /// The positions of the tasks whose slug contains `qslug`.
    fn name_match_positions(&self, qslug: &Vec<char>) -> (r: Vec<usize>)
        requires
            forall|i: int| 0 <= i < self.tasks@.len() ==> slug_cut_ok(#[trigger] self.tasks@[i].description@),
        ensures
            r@.map_values(|x: usize| x as int) == name_matches(self.tasks@, qslug@),
            forall|k: int| 0 <= k < r@.len() ==> r@[k] < self.tasks@.len(),
    {
        let mut out: Vec<usize> = Vec::new();
        assert(self.tasks@.take(0) =~= Seq::<Task>::empty());
        assert(out@.map_values(|x: usize| x as int) =~= Seq::<int>::empty());
        for i in 0..self.tasks.len()
            invariant
                forall|j: int| 0 <= j < self.tasks@.len() ==> slug_cut_ok(#[trigger] self.tasks@[j].description@),
                out@.map_values(|x: usize| x as int) == name_matches(self.tasks@.take(i as int), qslug@),
                forall|k: int| 0 <= k < out@.len() ==> out@[k] < i,
        {
            let ghost pre = self.tasks@.take(i as int);
            let ghost next = self.tasks@.take(i + 1);
            assert(next.drop_last() =~= pre);
            assert(next.last() == self.tasks@[i as int]);
            let ghost before = out@;
            if self.task_name_hit(i, qslug) {
                out.push(i);
                assert(out@.map_values(|x: usize| x as int) =~= before.map_values(|x: usize| x as int).push(i as int));
            }
        }
        assert(self.tasks@.take(self.tasks.len() as int) =~= self.tasks@);
        out
    }

    /// Resolve a query to a single task index: by ID (numeric) first, then by name
    /// (matched against slugified descriptions).
    fn resolve_task_index(&self, query: &str) -> (r: Result<usize, CondError>)
        requires
            resolvable(self.tasks@, query@),
        ensures
            resolved_as(self.tasks@, query@, r),
            r matches Ok(i) ==> i < self.tasks@.len(),
    {
        let qv = chars_of(query);
        if let Some(id) = parse_u32(&qv) {
            if let Some(idx) = self.position_of_id(id) {
                return Ok(idx);
            }
        }
        let slug = slugify(query);
        let sv = chars_of(slug.as_str());
        let indices = self.name_match_positions(&sv);
        let ghost m = name_matches(self.tasks@, slugify_spec(query@));
        assert(forall|k: int| 0 <= k < indices@.len() ==> indices@[k] as int == #[trigger] m[k]) by {
            assert forall|k: int| 0 <= k < indices@.len() implies indices@[k] as int == #[trigger] m[k] by {
                assert(indices@.map_values(|x: usize| x as int)[k] == indices@[k] as int);
            }
        }
        if indices.len() == 0 {
            Err(CondError::TaskNotFound { query: query.to_owned() })
        } else if indices.len() == 1 {
            Ok(indices[0])
        } else {
            let mut names: Vec<(u32, String)> = Vec::new();
            for k in 0..indices.len()
                invariant
                    indices@.map_values(|x: usize| x as int) == m,
                    forall|k: int| 0 <= k < indices@.len() ==> indices@[k] as int == #[trigger] m[k],
                    forall|k: int| 0 <= k < indices@.len() ==> indices@[k] < self.tasks@.len(),
                    names@.len() == k,
                    forall|j: int| 0 <= j < k ==> (#[trigger] names@[j]).0 == self.tasks@[m[j]].id
                        && names@[j].1@ == self.tasks@[m[j]].description@,
            {
                let t = &self.tasks[indices[k]];
                names.push((t.id, t.description.clone()));
            }
            Err(CondError::AmbiguousTask { query: query.to_owned(), matches: names })
        }
    }
}

/// The first position of an ID is the one `id_position` names.
pub proof fn lemma_first_with_id_unique(tasks: Seq<Task>, id: u32, i: int)
    requires
        first_with_id(tasks, id, i),
    ensures
        id_position(tasks, id) == i,
{
    let c = id_position(tasks, id);
    assert(first_with_id(tasks, id, c));
    if c < i {
        assert(tasks[c].id != id);
    } else if i < c {
        assert(tasks[i].id != id);
    }
}

} // verus!

verus! {

/// `r` is what finding the task for `query` among `tasks` returns.
pub open spec fn found_as(tasks: Seq<Task>, query: Seq<char>, r: Result<&Task, CondError>) -> bool {
    match r {
        Ok(t) => resolve_spec(tasks, query) is At && *t == tasks[resolve_spec(tasks, query)->At_0],
        Err(e) => resolution_error(tasks, query, resolve_spec(tasks, query), e),
    }
}

/// The fields other than the task list are the same.
pub open spec fn same_header(a: CondState, b: CondState) -> bool {
    a.version == b.version && a.next_id == b.next_id && a.repo_root == b.repo_root
}

impl CondState {
    /// Whether resolving `query` can be done without cutting a slug that cannot be cut.
    pub fn is_resolvable(&self, query: &str) -> (r: bool)
        ensures
            r == resolvable(self.tasks@, query@),
    {
        let qv = chars_of(query);
        if let Some(id) = parse_u32(&qv) {
            if self.position_of_id(id).is_some() {
                return true;
            }
        }
        if !slug_fits(query) {
            return false;
        }
        for i in 0..self.tasks.len()
            invariant
                forall|j: int| 0 <= j < i ==> slug_cut_ok(#[trigger] self.tasks@[j].description@),
                !query_hits_id(self.tasks@, query@),
        {
            if !slug_fits(self.tasks[i].description.as_str()) {
                return false;
            }
        }
        true
    }

    /// The position of the task a query names, by ID or name; `None` where the
    /// query or a description has a slug that cannot be cut (see `slug_cut_ok`).
    pub fn lookup_task_index(&self, query: &str) -> (r: Option<Result<usize, CondError>>)
        ensures
            r is Some <==> resolvable(self.tasks@, query@),
            r matches Some(x) ==> resolved_as(self.tasks@, query@, x)
                && (x matches Ok(i) ==> i < self.tasks@.len()),
    {
        if self.is_resolvable(query) {
            Some(self.resolve_task_index(query))
        } else {
            None
        }
    }

    /// Find a task by ID (numeric) or by name (matched against slugified description).
    pub fn find_task(&self, query: &str) -> (r: Result<&Task, CondError>)
        requires
            resolvable(self.tasks@, query@),
        ensures
            found_as(self.tasks@, query@, r),
            r matches Ok(t) ==> parse_u32_spec(query@) == Some(t.id) || name_hit(*t, slugify_spec(query@)),
    {
        let idx = self.resolve_task_index(query)?;
        proof {
            lemma_resolved_task_matches(self.tasks@, query@);
        }
        Ok(&self.tasks[idx])
    }

    /// Find a task mutably by ID (numeric) or by name.
    pub fn find_task_mut(&mut self, query: &str) -> (r: Result<&mut Task, CondError>)
        requires
            resolvable(old(self).tasks@, query@),
        ensures
            same_header(*old(self), *final(self)),
            r is Ok <==> resolve_spec(old(self).tasks@, query@) is At,
            r matches Ok(t) ==> 0 <= resolve_spec(old(self).tasks@, query@)->At_0 < old(self).tasks@.len()
                && (parse_u32_spec(query@) == Some(t.id) || name_hit(*t, slugify_spec(query@)))
                && *t == old(self).tasks@[resolve_spec(old(self).tasks@, query@)->At_0]
                && final(self).tasks@ == old(self).tasks@.update(
                resolve_spec(old(self).tasks@, query@)->At_0,
                *final(r->Ok_0),
            ),
            r matches Ok(t) ==> (*final(t) == *t ==> final(self).tasks@ == old(self).tasks@),
            r matches Err(e) ==> resolution_error(old(self).tasks@, query@, resolve_spec(old(self).tasks@, query@), e)
                && *final(self) == *old(self),
    {
        let idx = self.resolve_task_index(query)?;
        proof {
            lemma_resolved_task_matches(self.tasks@, query@);
        }
        Ok(&mut self.tasks[idx])
    }

    /// `find_task` where it can resolve the query; `None` where a slug cannot be cut.
    pub fn lookup_task(&self, query: &str) -> (r: Option<Result<&Task, CondError>>)
        ensures
            r is Some <==> resolvable(self.tasks@, query@),
            r matches Some(x) ==> found_as(self.tasks@, query@, x),
    {
        if self.is_resolvable(query) {
            Some(self.find_task(query))
        } else {
            None
        }
    }

    /// `find_task_mut` where it can resolve the query; `None` (and no change) where
    /// a slug cannot be cut.
    pub fn lookup_task_mut(&mut self, query: &str) -> (r: Option<Result<&mut Task, CondError>>)
        ensures
            same_header(*old(self), *final(self)),
            r is Some <==> resolvable(old(self).tasks@, query@),
            r is None ==> *final(self) == *old(self),
            r matches Some(Ok(t)) ==> resolve_spec(old(self).tasks@, query@) is At
                && *t == old(self).tasks@[resolve_spec(old(self).tasks@, query@)->At_0]
                && final(self).tasks@ == old(self).tasks@.update(
                resolve_spec(old(self).tasks@, query@)->At_0,
                *final(r->Some_0->Ok_0),
            ),
            r matches Some(Err(e)) ==> resolution_error(old(self).tasks@, query@, resolve_spec(old(self).tasks@, query@), e)
                && *final(self) == *old(self),
    {
        if self.is_resolvable(query) {
            Some(self.find_task_mut(query))
        } else {
            None
        }
    }
}

} // verus!

verus! {

/// A task's own description, used as a name query, matches that task: it is among
/// the name matches of the query's slug.
pub proof fn lemma_own_description_matches(tasks: Seq<Task>, i: int)
    requires
        0 <= i < tasks.len(),
    ensures
        name_matches(tasks, slugify_spec(tasks[i].description@)).contains(i),
    decreases tasks.len(),
{
    let q = slugify_spec(tasks[i].description@);
    assert(q.subrange(0, 0 + q.len() as int) =~= q);
    assert(name_hit(tasks[i], q));
    if i == tasks.len() - 1 {
        let r = name_matches(tasks.drop_last(), q);
        assert(name_matches(tasks, q) == r.push(i));
        assert(r.push(i)[r.len() as int] == i);
    } else {
        let d = tasks.drop_last();
        assert(d[i] == tasks[i]);
        lemma_own_description_matches(d, i);
        let r = name_matches(d, q);
        let k = choose|k: int| 0 <= k < r.len() && r[k] == i;
        if name_hit(tasks.last(), q) {
            assert(r.push(tasks.len() - 1)[k] == i);
        }
    }
}

} // verus!

verus! {

/// Some task has the ID, so some position is the first with it.
proof fn lemma_first_with_id_exists(tasks: Seq<Task>, id: u32) -> (i: int)
    requires
        has_id(tasks, id),
    ensures
        first_with_id(tasks, id, i),
    decreases tasks.len(),
{
    let d = tasks.drop_last();
    if has_id(d, id) {
        let i = lemma_first_with_id_exists(d, id);
        assert forall|j: int| 0 <= j < i implies #[trigger] tasks[j].id != id by {
            assert(tasks[j] == d[j]);
        }
        i
    } else {
        let w = choose|w: int| 0 <= w < tasks.len() && #[trigger] tasks[w].id == id;
        if w < d.len() {
            assert(d[w] == tasks[w]);
        }
        assert forall|j: int| 0 <= j < tasks.len() - 1 implies #[trigger] tasks[j].id != id by {
            assert(tasks[j] == d[j]);
            if tasks[j].id == id {
                assert(has_id(d, id));
            }
        }
        tasks.len() - 1
    }
}

/// Every name match is a position in range whose task's slug contains the query's.
pub proof fn lemma_name_matches_hit(tasks: Seq<Task>, qslug: Seq<char>, k: int)
    requires
        0 <= k < name_matches(tasks, qslug).len(),
    ensures
        0 <= name_matches(tasks, qslug)[k] < tasks.len(),
        name_hit(tasks[name_matches(tasks, qslug)[k]], qslug),
    decreases tasks.len(),
{
    let d = tasks.drop_last();
    let r = name_matches(d, qslug);
    if k < r.len() {
        lemma_name_matches_hit(d, qslug, k);
        assert(d[r[k]] == tasks[r[k]]);
        if name_hit(tasks.last(), qslug) {
            assert(r.push(tasks.len() - 1)[k] == r[k]);
        }
    } else {
        assert(name_hit(tasks.last(), qslug));
        assert(r.push(tasks.len() - 1)[k] == tasks.len() - 1);
    }
}

/// A query resolves to a position in range, and the task there matches the query:
/// the query reads as its ID, or its slug contains the query's slug.
pub proof fn lemma_resolved_task_matches(tasks: Seq<Task>, query: Seq<char>)
    requires
        resolve_spec(tasks, query) is At,
    ensures
        0 <= resolve_spec(tasks, query)->At_0 < tasks.len(),
        parse_u32_spec(query) == Some(tasks[resolve_spec(tasks, query)->At_0].id) || name_hit(
            tasks[resolve_spec(tasks, query)->At_0],
            slugify_spec(query),
        ),
{
    if query_hits_id(tasks, query) {
        let id = parse_u32_spec(query)->Some_0;
        let i = lemma_first_with_id_exists(tasks, id);
        lemma_first_with_id_unique(tasks, id, i);
    } else {
        lemma_name_matches_hit(tasks, slugify_spec(query), 0);
    }
}

} // verus!

verus! {

/// Two lists of ambiguous matches with the same IDs and descriptions read the same.
proof fn lemma_matches_text_same(a: Seq<(u32, String)>, b: Seq<(u32, String)>)
    requires
        a.len() == b.len(),
        forall|k: int| 0 <= k < a.len() ==> (#[trigger] a[k]).0 == b[k].0 && a[k].1@ == b[k].1@,
    ensures
        matches_text(a) == matches_text(b),
    decreases a.len(),
{
    if a.len() > 1 {
        lemma_matches_text_same(a.drop_last(), b.drop_last());
    }
}

/// Finding a task agrees with resolving the query to a position: `find_task` gives
/// the task at position `i` exactly where resolving gives `i`, and fails exactly where
/// resolving fails, with an error of the same kind and the same message.
pub proof fn lemma_find_task_agrees_with_resolution(
    tasks: Seq<Task>,
    query: Seq<char>,
    ri: Result<usize, CondError>,
    rf: Result<&Task, CondError>,
)
    requires
        resolved_as(tasks, query, ri),
        found_as(tasks, query, rf),
    ensures
        rf is Ok <==> ri is Ok,
        ri matches Ok(i) ==> i < tasks.len() && (rf matches Ok(t) && *t == tasks[i as int]),
        ri matches Err(e) ==> (rf matches Err(f) && error_message(f) == error_message(e)
            && (f is TaskNotFound <==> e is TaskNotFound)
            && (f is AmbiguousTask <==> e is AmbiguousTask)),
{
    let res = resolve_spec(tasks, query);
    if res is At {
        lemma_resolved_task_matches(tasks, query);
    }
    if let Err(e) = ri {
        if let Err(f) = rf {
            if let (
                CondError::AmbiguousTask { query: _, matches: me },
                CondError::AmbiguousTask { query: _, matches: mf },
            ) = (e, f) {
                lemma_matches_text_same(mf@, me@);
            }
        }
    }
}

} // verus!

verus! {

/// The task at position `i` is marked as holding the current directory.
pub open spec fn holds_at(holds_cwd: Seq<bool>, i: int) -> bool {
    0 <= i < holds_cwd.len() && holds_cwd[i]
}

/// `i` is the first position, among `n` tasks, marked as holding the current directory.
pub open spec fn first_holding(holds_cwd: Seq<bool>, n: int, i: int) -> bool {
    &&& 0 <= i < n
    &&& holds_at(holds_cwd, i)
    &&& forall|j: int| 0 <= j < i ==> !#[trigger] holds_at(holds_cwd, j)
}

impl CondState {
    /// The ID of the first task whose worktree holds the current directory.
    ///
    /// `holds_cwd[i]` says whether the worktree of the `i`-th task holds it (a task
    /// without an entry does not); `None` where no task's does.
    pub fn task_holding_cwd(&self, holds_cwd: &Vec<bool>) -> (r: Option<u32>)
        ensures
            r matches Some(id) ==> exists|i: int|
                first_holding(holds_cwd@, self.tasks@.len() as int, i) && #[trigger] self.tasks@[i].id == id,
            r is None ==> forall|i: int| 0 <= i < self.tasks@.len() ==> !#[trigger] holds_at(holds_cwd@, i),
    {
        for i in 0..self.tasks.len()
            invariant
                forall|j: int| 0 <= j < i ==> !#[trigger] holds_at(holds_cwd@, j),
        {
            if i < holds_cwd.len() && holds_cwd[i] {
                assert(first_holding(holds_cwd@, self.tasks@.len() as int, i as int));
                return Some(self.tasks[i].id);
            }
        }
        None
    }
}

} // verus!

verus! {

/// No task's slug contains `q`: no task matches by name.
proof fn lemma_name_matches_none(tasks: Seq<Task>, q: Seq<char>)
    requires
        forall|j: int| 0 <= j < tasks.len() ==> !#[trigger] name_hit(tasks[j], q),
    ensures
        name_matches(tasks, q) == Seq::<int>::empty(),
    decreases tasks.len(),
{
    if tasks.len() > 0 {
        let d = tasks.drop_last();
        assert forall|j: int| 0 <= j < d.len() implies !#[trigger] name_hit(d[j], q) by {
            assert(d[j] == tasks[j]);
        }
        lemma_name_matches_none(d, q);
        assert(!name_hit(tasks[tasks.len() - 1], q));
    }
}

/// Only task `k`'s slug contains `q`: `k` is the only name match.
proof fn lemma_name_matches_single(tasks: Seq<Task>, q: Seq<char>, k: int)
    requires
        0 <= k < tasks.len(),
        name_hit(tasks[k], q),
        forall|j: int| 0 <= j < tasks.len() && j != k ==> !#[trigger] name_hit(tasks[j], q),
    ensures
        name_matches(tasks, q) == seq![k],
    decreases tasks.len(),
{
    let d = tasks.drop_last();
    if k == tasks.len() - 1 {
        assert forall|j: int| 0 <= j < d.len() implies !#[trigger] name_hit(d[j], q) by {
            assert(d[j] == tasks[j]);
        }
        lemma_name_matches_none(d, q);
        assert(Seq::<int>::empty().push(k) =~= seq![k]);
    } else {
        assert forall|j: int| 0 <= j < d.len() && j != k implies !#[trigger] name_hit(d[j], q) by {
            assert(d[j] == tasks[j]);
        }
        assert(d[k] == tasks[k]);
        lemma_name_matches_single(d, q, k);
        assert(!name_hit(tasks[tasks.len() - 1], q));
    }
}

/// A name query finds the one task whose slug holds the query's slug as a run of
/// consecutive characters (anywhere in it, not only at word boundaries), when the
/// query names no task's ID.
pub proof fn lemma_name_query_finds_containing_task(
    tasks: Seq<Task>,
    query: Seq<char>,
    k: int,
    r: Result<&Task, CondError>,
)
    requires
        parse_u32_spec(query) matches Some(id) ==> forall|j: int| 0 <= j < tasks.len() ==> #[trigger] tasks[j].id != id,
        0 <= k < tasks.len(),
        exists|p: int|
            0 <= p && p + slugify_spec(query).len() <= slugify_spec(tasks[k].description@).len()
                && #[trigger] slugify_spec(tasks[k].description@).subrange(p, p + slugify_spec(query).len())
                == slugify_spec(query),
        forall|j: int, p: int|
            0 <= j < tasks.len() && j != k && 0 <= p && p + slugify_spec(query).len() <= slugify_spec(
                tasks[j].description@,
            ).len() ==> #[trigger] slugify_spec(tasks[j].description@).subrange(p, p + slugify_spec(query).len())
                != slugify_spec(query),
        found_as(tasks, query, r),
    ensures
        r matches Ok(t) && *t == tasks[k],
{
    let q = slugify_spec(query);
    assert(!query_hits_id(tasks, query));
    let p = choose|p: int|
        0 <= p && p + q.len() <= slugify_spec(tasks[k].description@).len()
            && #[trigger] slugify_spec(tasks[k].description@).subrange(p, p + q.len()) == q;
    assert(name_hit(tasks[k], q)) by {
        assert(slugify_spec(tasks[k].description@).subrange(p, p + q.len()) == q);
    }
    assert forall|j: int| 0 <= j < tasks.len() && j != k implies !#[trigger] name_hit(tasks[j], q) by {
        if name_hit(tasks[j], q) {
            let i = choose|i: int|
                0 <= i && i + q.len() <= slugify_spec(tasks[j].description@).len()
                    && #[trigger] slugify_spec(tasks[j].description@).subrange(i, i + q.len()) == q;
            assert(slugify_spec(tasks[j].description@).subrange(i, i + q.len()) != q);
        }
    }
    lemma_name_matches_single(tasks, q, k);
}

/// A name query that no task's slug holds as a run of consecutive characters, and
/// that names no task's ID, fails with "not found" for that query.
pub proof fn lemma_name_query_without_match_fails(tasks: Seq<Task>, query: Seq<char>, r: Result<&Task, CondError>)
    requires
        parse_u32_spec(query) matches Some(id) ==> forall|j: int| 0 <= j < tasks.len() ==> #[trigger] tasks[j].id != id,
        forall|j: int, p: int|
            0 <= j < tasks.len() && 0 <= p && p + slugify_spec(query).len() <= slugify_spec(
                tasks[j].description@,
            ).len() ==> #[trigger] slugify_spec(tasks[j].description@).subrange(p, p + slugify_spec(query).len())
                != slugify_spec(query),
        found_as(tasks, query, r),
    ensures
        r matches Err(e) && (e matches CondError::TaskNotFound { query: q } && q@ == query),
{
    let q = slugify_spec(query);
    assert(!query_hits_id(tasks, query));
    assert forall|j: int| 0 <= j < tasks.len() implies !#[trigger] name_hit(tasks[j], q) by {
        if name_hit(tasks[j], q) {
            let i = choose|i: int|
                0 <= i && i + q.len() <= slugify_spec(tasks[j].description@).len()
                    && #[trigger] slugify_spec(tasks[j].description@).subrange(i, i + q.len()) == q;
            assert(slugify_spec(tasks[j].description@).subrange(i, i + q.len()) != q);
        }
    }
    lemma_name_matches_none(tasks, q);
}

} // verus!

verus! {

/// A query that reads as a task's ID finds that task (the first one with the ID),
/// whatever the names of the tasks.
pub proof fn lemma_id_query_finds_task(tasks: Seq<Task>, query: Seq<char>, k: int, r: Result<&Task, CondError>)
    requires
        0 <= k < tasks.len(),
        parse_u32_spec(query) == Some(tasks[k].id),
        forall|j: int| 0 <= j < k ==> #[trigger] tasks[j].id != tasks[k].id,
        found_as(tasks, query, r),
    ensures
        r matches Ok(t) && *t == tasks[k],
{
    assert(first_with_id(tasks, tasks[k].id, k));
    lemma_first_with_id_unique(tasks, tasks[k].id, k);
}

} // verus!
