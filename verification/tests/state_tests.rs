use std::path::PathBuf;

use chrono::Utc;
use cond::error::CondError;
use cond::state::{CondState, Task, TaskStatus, Timestamp};
use cond::util::slugify;

fn make_task(id: u32, description: &str, status: TaskStatus) -> Task {
    let now = Timestamp(Utc::now());
    Task {
        id,
        description: description.to_string(),
        branch: format!("cond/task-{id}-{}", slugify(description)),
        worktree_path: format!(".cond-worktrees/task-{id}"),
        status,
        created_at: now,
        updated_at: now,
        pr_number: None,
        pr_url: None,
    }
}

fn make_state(tasks: Vec<Task>) -> CondState {
    CondState {
        version: 1,
        next_id: tasks.len() as u32 + 1,
        repo_root: "/tmp/repo".to_string(),
        tasks,
    }
}

// --- TaskStatus names ---

#[test]
fn task_status_display() {
    assert_eq!(TaskStatus::Active.to_string(), "active");
    assert_eq!(TaskStatus::PrCreated.to_string(), "pr_created");
    assert_eq!(TaskStatus::Merged.to_string(), "merged");
    assert_eq!(TaskStatus::Cleaned.to_string(), "cleaned");
}

// --- find_task ---

#[test]
fn find_task_by_id() {
    let state = make_state(vec![
        make_task(1, "fix login", TaskStatus::Active),
        make_task(2, "add search", TaskStatus::Active),
    ]);

    let task = state.find_task("2").unwrap();
    assert_eq!(task.id, 2);
    assert_eq!(task.description, "add search");
}

#[test]
fn find_task_by_name_exact() {
    let state = make_state(vec![
        make_task(1, "fix login bug", TaskStatus::Active),
        make_task(2, "add search feature", TaskStatus::Active),
    ]);

    let task = state.find_task("add search feature").unwrap();
    assert_eq!(task.id, 2);
}

#[test]
fn find_task_by_name_substring() {
    let state = make_state(vec![
        make_task(1, "fix login bug", TaskStatus::Active),
        make_task(2, "add search feature", TaskStatus::Active),
    ]);

    let task = state.find_task("search").unwrap();
    assert_eq!(task.id, 2);
}

#[test]
fn find_task_not_found() {
    let state = make_state(vec![make_task(1, "fix login", TaskStatus::Active)]);

    let result = state.find_task("nonexistent");
    assert!(result.is_err());
    assert!(result.unwrap_err().to_string().contains("not found"));
}

#[test]
fn find_task_ambiguous() {
    let state = make_state(vec![
        make_task(1, "fix login bug", TaskStatus::Active),
        make_task(2, "fix login error", TaskStatus::Active),
    ]);

    let result = state.find_task("fix login");
    assert!(result.is_err());
    assert!(result.unwrap_err().to_string().contains("ambiguous"));
}

#[test]
fn find_task_id_not_found_falls_through_to_name() {
    let state = make_state(vec![make_task(1, "task 99", TaskStatus::Active)]);

    // "99" doesn't match any ID, but it matches the name slug "task-99"
    let task = state.find_task("99").unwrap();
    assert_eq!(task.id, 1);
}

#[test]
fn find_task_mut_modifies() {
    let mut state = make_state(vec![make_task(1, "fix login", TaskStatus::Active)]);

    let task = state.find_task_mut("1").unwrap();
    task.status = TaskStatus::PrCreated;
    task.pr_number = Some(42);

    assert_eq!(state.tasks[0].status, TaskStatus::PrCreated);
    assert_eq!(state.tasks[0].pr_number, Some(42));
}

#[test]
fn state_path_is_correct() {
    let path = CondState::state_path("/foo/bar");
    assert_eq!(PathBuf::from(path), PathBuf::from("/foo/bar/.cond/state.json"));
}

// --- more on resolving queries ---

#[test]
fn find_task_error_messages_are_exact() {
    let state = make_state(vec![
        make_task(1, "fix login bug", TaskStatus::Active),
        make_task(2, "fix login error", TaskStatus::Active),
    ]);
    assert_eq!(
        state.find_task("fix login").unwrap_err().to_string(),
        "ambiguous task name 'fix login', matches: 1 (fix login bug), 2 (fix login error)"
    );
    assert_eq!(state.find_task("deploy").unwrap_err().to_string(), "task 'deploy' not found");
    match state.find_task("login").unwrap_err() {
        CondError::AmbiguousTask { query, matches } => {
            assert_eq!(query, "login");
            assert_eq!(matches, vec![(1, "fix login bug".to_string()), (2, "fix login error".to_string())]);
        }
        other => panic!("unexpected {:?}", other),
    }
}

#[test]
fn find_task_id_with_plus_sign_and_leading_zeros() {
    let state = make_state(vec![
        make_task(1, "fix login", TaskStatus::Active),
        make_task(2, "add search", TaskStatus::Active),
    ]);
    assert_eq!(state.find_task("+2").unwrap().id, 2);
    assert_eq!(state.find_task("002").unwrap().id, 2);
}

#[test]
fn find_task_id_wins_over_name() {
    // Task 2's name contains "1", but the ID 1 is looked up first.
    let state = make_state(vec![
        make_task(1, "fix login", TaskStatus::Active),
        make_task(2, "release 1", TaskStatus::Active),
    ]);
    assert_eq!(state.find_task("1").unwrap().id, 1);
}

#[test]
fn find_task_query_is_slugified() {
    let state = make_state(vec![make_task(7, "Add OAuth2 Login", TaskStatus::Active)]);
    assert_eq!(state.find_task("OAUTH2 login").unwrap().id, 7);
    assert_eq!(state.find_task("oauth2-login").unwrap().id, 7);
}

#[test]
fn lookup_task_index_reports_unresolvable_queries() {
    let state = make_state(vec![make_task(1, "fix login", TaskStatus::Active)]);
    let bad = format!("{}éé", "a".repeat(39));
    assert!(state.lookup_task_index(&bad).is_none());
    assert!(!state.is_resolvable(&bad));
    // An ID hit needs no slug at all.
    assert!(matches!(state.lookup_task_index("1"), Some(Ok(0))));
    assert!(matches!(state.lookup_task_index("login"), Some(Ok(0))));
    assert!(matches!(state.lookup_task_index("zzz"), Some(Err(CondError::TaskNotFound { .. }))));
}

#[test]
fn lookup_task_and_lookup_task_mut() {
    let mut state = make_state(vec![make_task(1, "fix login", TaskStatus::Active)]);
    assert_eq!(state.lookup_task("login").unwrap().unwrap().id, 1);
    if let Some(Ok(t)) = state.lookup_task_mut("1") {
        t.pr_url = Some("u".to_string());
    }
    assert_eq!(state.tasks[0].pr_url.as_deref(), Some("u"));
}

#[test]
fn new_state_is_empty() {
    let state = CondState::new("/repo");
    assert_eq!(state.version, 1);
    assert_eq!(state.next_id, 1);
    assert_eq!(state.repo_root, "/repo");
    assert!(state.tasks.is_empty());
}

#[test]
fn error_messages() {
    assert_eq!(CondError::NoPr { id: 3 }.to_string(), "task 3 has no PR — run `cond pr 3` first");
    assert_eq!(
        CondError::NoDefaultBranch.to_string(),
        "could not detect default branch — set origin HEAD with: git remote set-head origin --auto"
    );
}

#[test]
fn find_task_agrees_with_lookup_task_index() {
    let state = make_state(vec![
        make_task(1, "fix login bug", TaskStatus::Active),
        make_task(2, "fix logout bug", TaskStatus::Active),
        make_task(3, "add search", TaskStatus::Active),
    ]);
    for query in ["3", "search", "fix", "nothing", "2"] {
        match (state.find_task(query), state.lookup_task_index(query).unwrap()) {
            (Ok(t), Ok(i)) => assert_eq!(t.id, state.tasks[i].id),
            (Err(a), Err(b)) => assert_eq!(a.to_string(), b.to_string()),
            _ => panic!("find_task and lookup_task_index disagree on {query}"),
        }
    }
}

#[test]
fn find_task_mut_error_leaves_state_unchanged() {
    let mut state = make_state(vec![
        make_task(1, "fix login bug", TaskStatus::Active),
        make_task(2, "fix logout bug", TaskStatus::Active),
    ]);
    assert!(matches!(state.find_task_mut("fix"), Err(CondError::AmbiguousTask { .. })));
    assert!(matches!(state.find_task_mut("zzz"), Err(CondError::TaskNotFound { .. })));
    assert_eq!(state.tasks.len(), 2);
    assert_eq!(state.tasks[0].description, "fix login bug");
    assert_eq!(state.tasks[1].description, "fix logout bug");
    assert_eq!(state.next_id, 3);
}

#[test]
fn task_holding_cwd_picks_first_marked_task() {
    let state = make_state(vec![
        make_task(4, "one", TaskStatus::Active),
        make_task(7, "two", TaskStatus::Active),
        make_task(9, "three", TaskStatus::Active),
    ]);
    assert_eq!(state.task_holding_cwd(&vec![false, true, true]), Some(7));
    assert_eq!(state.task_holding_cwd(&vec![true, false, false]), Some(4));
    assert_eq!(state.task_holding_cwd(&vec![false, false, false]), None);
    assert_eq!(state.task_holding_cwd(&vec![false]), None);
    assert_eq!(make_state(vec![]).task_holding_cwd(&vec![]), None);
}
