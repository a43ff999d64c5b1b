use chrono::Utc;
use cond::error::CondError;
use cond::init::gitignore_update;
use cond::review::{review_prompt, review_step, ReviewStep};
use cond::state::{CondState, Task, TaskStatus, Timestamp};
use cond::task::truncate;
use cond::text::{decimal_chars, parse_u32};

fn task(id: u32, description: &str, status: TaskStatus) -> Task {
    let now = Timestamp(Utc::now());
    Task {
        id,
        description: description.to_string(),
        branch: format!("cond/task-{id}-{}", cond::util::slugify(description)),
        worktree_path: format!(".cond-worktrees/task-{id}"),
        status,
        created_at: now,
        updated_at: now,
        pr_number: None,
        pr_url: None,
    }
}

fn state(tasks: Vec<Task>) -> CondState {
    CondState { version: 1, next_id: tasks.len() as u32 + 1, repo_root: "/repo".to_string(), tasks }
}

#[test]
fn spawn_plans_names_and_git_commands() {
    let mut s = state(vec![task(1, "first", TaskStatus::Active)]);
    let plan = s.plan_spawn("/repo", "Add auth feature");
    assert_eq!(plan.id, 2);
    assert_eq!(plan.branch, "cond/task-2-add-auth-feature");
    assert_eq!(plan.worktree_rel, ".cond-worktrees/task-2");
    assert_eq!(plan.worktree_abs, "/repo/.cond-worktrees/task-2");
    assert_eq!(plan.create_branch.program, "git");
    assert_eq!(plan.create_branch.args, vec!["branch", "cond/task-2-add-auth-feature"]);
    assert_eq!(plan.create_branch.cwd, "/repo");
    assert_eq!(
        plan.add_worktree.args,
        vec!["worktree", "add", "/repo/.cond-worktrees/task-2", "cond/task-2-add-auth-feature"]
    );
    s.record_spawn(&plan, "Add auth feature", Timestamp(Utc::now()));
    assert_eq!(s.next_id, 3);
    assert_eq!(s.tasks.len(), 2);
    let t = &s.tasks[1];
    assert_eq!(t.id, 2);
    assert_eq!(t.description, "Add auth feature");
    assert_eq!(t.status, TaskStatus::Active);
    assert_eq!(t.pr_number, None);
    // The new task is found by its ID and by its name.
    assert_eq!(s.find_task("2").unwrap().id, 2);
    assert_eq!(s.find_task("auth").unwrap().id, 2);
}

#[test]
fn try_plan_spawn_refuses_uncuttable_slug() {
    let s = state(vec![]);
    assert!(s.try_plan_spawn("/repo", &format!("{}éé", "a".repeat(39))).is_none());
    assert!(s.try_plan_spawn("/repo", "ok").is_some());
}

#[test]
fn prune_removes_only_cleaned_tasks() {
    let mut s = state(vec![
        task(1, "a", TaskStatus::Cleaned),
        task(2, "b", TaskStatus::Active),
        task(3, "c", TaskStatus::Cleaned),
        task(4, "d", TaskStatus::Merged),
    ]);
    assert_eq!(s.prune(), 2);
    let ids: Vec<u32> = s.tasks.iter().map(|t| t.id).collect();
    assert_eq!(ids, vec![2, 4]);
    // Pruning again removes nothing.
    assert_eq!(s.prune(), 0);
    assert_eq!(s.tasks.len(), 2);
}

#[test]
fn nuke_targets_are_live_tasks() {
    let s = state(vec![
        task(1, "a", TaskStatus::Cleaned),
        task(2, "b", TaskStatus::Active),
        task(3, "c", TaskStatus::PrCreated),
        task(4, "d", TaskStatus::Merged),
    ]);
    assert_eq!(s.nuke_targets(), vec![2, 3]);
}

#[test]
fn kill_plan_and_mark_cleaned() {
    let mut s = state(vec![task(1, "fix login", TaskStatus::Active), task(2, "done", TaskStatus::Merged)]);
    let plan = s.plan_kill("/repo", 0);
    assert_eq!(plan.id, 1);
    assert_eq!(plan.worktree_abs, "/repo/.cond-worktrees/task-1");
    assert_eq!(plan.remove_worktree.args, vec!["worktree", "remove", "/repo/.cond-worktrees/task-1", "--force"]);
    assert_eq!(plan.delete_branch.as_ref().unwrap().args, vec!["branch", "-D", "cond/task-1-fix-login"]);
    // A merged task keeps its branch.
    assert!(s.plan_kill("/repo", 1).delete_branch.is_none());
    s.mark_cleaned(0, Timestamp(Utc::now()));
    assert_eq!(s.tasks[0].status, TaskStatus::Cleaned);
    assert_eq!(s.tasks[1].status, TaskStatus::Merged);
    // Killed and pruned: gone.
    s.prune();
    assert!(s.find_task("1").is_err());
}

#[test]
fn diff_plan() {
    let s = state(vec![task(5, "x", TaskStatus::Active)]);
    let inv = s.plan_diff("/repo", 0);
    assert_eq!(inv.program, "git");
    assert_eq!(inv.args, vec!["diff", "main..HEAD"]);
    assert_eq!(inv.cwd, "/repo/.cond-worktrees/task-5");
}

#[test]
fn truncate_keeps_short_and_cuts_long() {
    assert_eq!(truncate("abc", 42), "abc");
    assert_eq!(truncate(&"b".repeat(42), 42), "b".repeat(42));
    let long = "c".repeat(50);
    let cut = truncate(&long, 42);
    assert_eq!(cut, format!("{}...", "c".repeat(39)));
    assert_eq!(cut.len(), 42);
}

#[test]
fn status_report_lines() {
    let empty = state(vec![]);
    assert_eq!(empty.status_report(), vec!["no tasks"]);
    let s = state(vec![task(1, "fix login", TaskStatus::Active)]);
    let lines = s.status_report();
    assert_eq!(lines.len(), 2);
    assert_eq!(lines[0], format!("{:<4} {:<11} {:<42} {}", "ID", "STATUS", "BRANCH", "DESCRIPTION"));
    assert_eq!(lines[1], format!("{:<4} {:<11} {:<42} {}", 1, "active", "cond/task-1-fix-login", "fix login"));
    let long = state(vec![task(12, &"word ".repeat(12), TaskStatus::PrCreated)]);
    let lines = long.try_status_report().unwrap();
    let branch = &long.tasks[0].branch;
    assert_eq!(lines[1], format!("{:<4} {:<11} {:<42} {}", 12, "pr_created", format!("{}...", &branch[..39]), long.tasks[0].description));
}

#[test]
fn pr_plan_and_record() {
    let mut s = state(vec![task(1, "fix login", TaskStatus::Active)]);
    let plan = s.plan_pr("/repo", 0, None, true);
    assert_eq!(plan.push.args, vec!["push", "-u", "origin", "cond/task-1-fix-login"]);
    assert_eq!(plan.push.cwd, "/repo/.cond-worktrees/task-1");
    assert_eq!(plan.create.program, "gh");
    assert_eq!(
        plan.create.args,
        vec![
            "pr",
            "create",
            "--base",
            "main",
            "--head",
            "cond/task-1-fix-login",
            "--title",
            "fix login",
            "--body",
            "Task #1: fix login\n\nCreated by cond.",
            "--draft",
        ]
    );
    let titled = s.plan_pr("/repo", 0, Some("Login fix"), false);
    assert_eq!(titled.create.args[7], "Login fix");
    assert_eq!(titled.create.args.len(), 10);
    let n = s.record_pr(0, "https://github.com/o/r/pull/42\n", Timestamp(Utc::now()));
    assert_eq!(n, Some(42));
    assert_eq!(s.tasks[0].pr_number, Some(42));
    assert_eq!(s.tasks[0].pr_url.as_deref(), Some("https://github.com/o/r/pull/42"));
    assert_eq!(s.tasks[0].status, TaskStatus::PrCreated);
    assert_eq!(s.record_pr(0, "created, see logs", Timestamp(Utc::now())), None);
}

#[test]
fn merge_plan_needs_a_pr() {
    let mut s = state(vec![task(1, "fix login", TaskStatus::Active)]);
    match s.plan_merge("/repo", 0, true, true) {
        Err(e) => {
            assert!(matches!(e, CondError::NoPr { id: 1 }));
            assert_eq!(e.to_string(), "task 1 has no PR — run `cond pr 1` first");
        }
        Ok(_) => panic!("expected an error"),
    }
    s.tasks[0].pr_number = Some(17);
    let plan = s.plan_merge("/repo", 0, true, true).unwrap();
    assert_eq!(plan.merge.args, vec!["pr", "merge", "17", "--squash", "--delete-branch"]);
    assert_eq!(plan.merge.cwd, "/repo");
    let plain = s.plan_merge("/repo", 0, false, false).unwrap();
    assert_eq!(plain.merge.args, vec!["pr", "merge", "17"]);
    s.record_merged(0, Timestamp(Utc::now()));
    assert_eq!(s.tasks[0].status, TaskStatus::Merged);
}

#[test]
fn review_prompt_and_step() {
    let p = review_prompt("fix login", "+a\n-b");
    assert_eq!(
        p,
        "You are reviewing code for task: \"fix login\"\n\n<diff>\n+a\n-b\n</diff>\n\nReview for correctness, bugs, style, and security. If changes are needed, make them directly. If the code is good, say so."
    );
    let s = state(vec![task(3, "fix login", TaskStatus::Active)]);
    let plan = s.plan_review("/repo", 0);
    assert_eq!(plan.diff.args, vec!["diff", "main..cond/task-3-fix-login"]);
    assert_eq!(plan.diff.cwd, "/repo/.cond-worktrees/task-3");
    assert!(matches!(review_step(&plan, "", "assistant"), ReviewStep::NothingToReview));
    match review_step(&plan, "+x", "assistant") {
        ReviewStep::Review(inv) => {
            assert_eq!(inv.program, "assistant");
            assert_eq!(inv.args[0], "--prompt");
            assert_eq!(inv.args[1], review_prompt("fix login", "+x"));
            assert_eq!(inv.cwd, "/repo/.cond-worktrees/task-3");
        }
        other => panic!("unexpected {:?}", other),
    }
}

#[test]
fn gitignore_update_cases() {
    assert_eq!(gitignore_update(None, ".cond-worktrees/"), Some(".cond-worktrees/\n".to_string()));
    assert_eq!(gitignore_update(Some("target\n"), ".cond-worktrees/"), Some("target\n.cond-worktrees/\n".to_string()));
    assert_eq!(gitignore_update(Some("target"), ".cond-worktrees/"), Some("target\n.cond-worktrees/\n".to_string()));
    assert_eq!(gitignore_update(Some(""), ".cond-worktrees/"), Some("\n.cond-worktrees/\n".to_string()));
    assert_eq!(gitignore_update(Some("a\n  .cond-worktrees/  \r\nb"), ".cond-worktrees/"), None);
    // Adding twice writes once.
    let once = gitignore_update(Some("target"), ".cond-worktrees/").unwrap();
    assert_eq!(gitignore_update(Some(&once), ".cond-worktrees/"), None);
}

#[test]
fn decimal_round_trip() {
    for n in [0u32, 7, 10, 4096, u32::MAX] {
        let digits = decimal_chars(n);
        assert_eq!(digits.iter().collect::<String>(), n.to_string());
        assert_eq!(parse_u32(&digits), Some(n));
    }
    let chars = |s: &str| s.chars().collect::<Vec<char>>();
    assert_eq!(parse_u32(&chars("4294967296")), None);
    assert_eq!(parse_u32(&chars("+")), None);
    assert_eq!(parse_u32(&chars("-1")), None);
    assert_eq!(parse_u32(&chars(" 1")), None);
    assert_eq!(parse_u32(&chars("")), None);
    assert_eq!(parse_u32(&chars("+15")), Some(15));
}

#[test]
fn readme_spawn_example() {
    // `cond spawn "Add auth feature"` creates branch cond/task-1-add-auth-feature
    // and worktree .cond-worktrees/task-1.
    let mut s = CondState::new("/repo");
    let plan = s.plan_spawn("/repo", "Add auth feature");
    assert_eq!(plan.branch, "cond/task-1-add-auth-feature");
    assert_eq!(plan.worktree_rel, ".cond-worktrees/task-1");
    s.record_spawn(&plan, "Add auth feature", Timestamp(Utc::now()));
    // `cond cd 1` and `cond cd auth` both find it.
    assert_eq!(s.find_task("1").unwrap().worktree_path, ".cond-worktrees/task-1");
    assert_eq!(s.find_task("auth").unwrap().id, 1);
}

#[test]
fn spawned_ids_are_distinct_and_increasing() {
    let mut s = CondState::new("/repo");
    for d in ["one", "two", "three"] {
        let plan = s.plan_spawn("/repo", d);
        s.record_spawn(&plan, d, Timestamp(Utc::now()));
    }
    let ids: Vec<u32> = s.tasks.iter().map(|t| t.id).collect();
    assert_eq!(ids, vec![1, 2, 3]);
    assert_eq!(s.next_id, 4);
    for t in &s.tasks {
        assert_eq!(s.find_task(&t.id.to_string()).unwrap().id, t.id);
    }
}

#[test]
fn lifecycle_statuses() {
    let mut s = CondState::new("/repo");
    let plan = s.plan_spawn("/repo", "feature");
    s.record_spawn(&plan, "feature", Timestamp(Utc::now()));
    assert_eq!(s.tasks[0].status, TaskStatus::Active);
    s.record_pr(0, "https://example.com/pull/3", Timestamp(Utc::now()));
    assert_eq!(s.tasks[0].status, TaskStatus::PrCreated);
    s.record_merged(0, Timestamp(Utc::now()));
    assert_eq!(s.tasks[0].status, TaskStatus::Merged);
    assert!(s.nuke_targets().is_empty());
    s.mark_cleaned(0, Timestamp(Utc::now()));
    assert_eq!(s.tasks[0].status, TaskStatus::Cleaned);
    assert_eq!(s.tasks[0].pr_number, Some(3));
    assert_eq!(s.prune(), 1);
}

#[test]
fn recorded_time_is_the_given_time() {
    let mut s = CondState::new("/repo");
    let t0 = Timestamp(Utc::now());
    let plan = s.plan_spawn("/repo", "timed");
    s.record_spawn(&plan, "timed", t0);
    assert_eq!(s.tasks[0].created_at.0, t0.0);
    assert_eq!(s.tasks[0].updated_at.0, t0.0);
    let t1 = Timestamp(t0.0 + chrono::Duration::seconds(5));
    s.record_merged(0, t1);
    assert_eq!(s.tasks[0].created_at.0, t0.0);
    assert_eq!(s.tasks[0].updated_at.0, t1.0);
}
