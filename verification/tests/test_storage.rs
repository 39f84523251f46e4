//! Tests of the store in memory, of merging and of the sync types.

use rustodo::cli::SyncCommands;
use rustodo::commands::sync::SyncCommand;
use rustodo::date::Date;
use rustodo::error::TodoError;
use rustodo::models::{Priority, Recurrence, Task};
use rustodo::storage::{backfill_ids, round_trip, InMemoryStorage, Storage};
use rustodo::sync::config::{require, SyncConfig};
use rustodo::sync::git::status;
use rustodo::sync::merge::merge;
use rustodo::sync::message::{build_commit_message, describe_changes, summarize, Summary};

fn task(text: &str) -> Task {
    Task::new(text.to_string(), Priority::Medium, vec![], None, None, None)
}

#[test]
fn test_sync_command_variants_exist() {
    let _ = SyncCommand::Push;
    let _ = SyncCommand::Pull;
    let _ = SyncCommand::Status;
    let _ = SyncCommand::Init { remote: "git@github.com:user/tasks.git".to_string() };
}

#[test]
fn test_build_commit_message_no_changes() {
    let tasks = vec![task("A")];
    let msg = build_commit_message(&tasks, None);
    assert!(msg.contains("1 tasks"));
}

#[test]
fn test_memory_storage_starts_empty() {
    let storage = InMemoryStorage::default();

    assert_eq!(storage.len(), 0);
    assert!(storage.is_empty());
    assert_eq!(storage.load().unwrap().len(), 0);
}

#[test]
fn test_memory_storage_save_and_load() {
    let mut storage = InMemoryStorage::default();

    // Save
    let tasks = vec![
        Task::new("Task 1".to_string(), Priority::High, vec![], None, None, None),
        Task::new("Task 2".to_string(), Priority::Low, vec![], None, None, None),
    ];
    storage.save(&tasks).unwrap();

    // Load
    let loaded = storage.load().unwrap();
    assert_eq!(loaded.len(), 2);
    assert_eq!(loaded[0].text, "Task 1");
    assert_eq!(loaded[1].text, "Task 2");
}

#[test]
fn test_memory_storage_with_tasks() {
    let tasks = vec![Task::new("Existing".to_string(), Priority::Medium, vec![], None, None, None)];

    let storage = InMemoryStorage::with_tasks(tasks);

    assert_eq!(storage.len(), 1);
    assert!(!storage.is_empty());

    let loaded = storage.load().unwrap();
    assert_eq!(loaded[0].text, "Existing");
}

#[test]
fn test_memory_storage_overwrite() {
    let mut storage = InMemoryStorage::default();

    // Save first batch
    let tasks1 = vec![Task::new("Task 1".to_string(), Priority::Medium, vec![], None, None, None)];
    storage.save(&tasks1).unwrap();
    assert_eq!(storage.len(), 1);

    // Save second batch (overwrites)
    let tasks2 = vec![
        Task::new("Task 2".to_string(), Priority::High, vec![], None, None, None),
        Task::new("Task 3".to_string(), Priority::Low, vec![], None, None, None),
    ];
    storage.save(&tasks2).unwrap();

    // Should have new tasks only
    assert_eq!(storage.len(), 2);
    let loaded = storage.load().unwrap();
    assert_eq!(loaded[0].text, "Task 2");
    assert_eq!(loaded[1].text, "Task 3");
}

#[test]
fn test_memory_storage_location() {
    let storage = InMemoryStorage::default();
    assert_eq!(storage.location(), "memory");
}

#[test]
fn test_merge_placeholder_returns_local() {
    let local = vec![task("A"), task("B")];
    let remote = vec![task("C")];

    let result = merge(local, remote);

    assert_eq!(result.tasks.len(), 2);
    assert_eq!(result.tasks[0].text, "A");
    assert_eq!(result.kept, 2);
    assert_eq!(result.added, 0);
    assert_eq!(result.updated, 0);
}

#[test]
fn test_merge_empty_local() {
    let result = merge(vec![], vec![task("remote-only")]);
    assert_eq!(result.tasks.len(), 0);
    assert_eq!(result.kept, 0);
}

#[test]
fn sync_commands_of_the_command_line_exist() {
    let _ = SyncCommands::Push;
    let _ = SyncCommands::Pull;
    let _ = SyncCommands::Status;
    let _ = SyncCommands::Init { remote: "git@github.com:user/tasks.git".to_string() };
}

#[test]
fn saved_list_comes_back_equal_in_all_fields() {
    let mut full = Task::new(
        "Weekly review".to_string(),
        Priority::High,
        vec!["work".to_string(), "rust".to_string()],
        Some("Backend".to_string()),
        Date::from_ymd_opt(2030, 6, 1),
        Some(Recurrence::Weekly),
    );
    full.parent_id = Some(77);
    full.depends_on = vec![5, 6];
    full.mark_done_on(Date::from_ymd_opt(2030, 5, 30).unwrap());
    let tasks = vec![task("A"), full, task("C")];

    let mut storage = InMemoryStorage::default();
    let loaded = round_trip(&mut storage, &tasks).unwrap();
    assert_eq!(loaded, tasks);
    assert_eq!(storage.load().unwrap(), tasks);
}

#[test]
fn records_without_an_identifier_get_one_and_the_others_keep_theirs() {
    let mut old_record = task("old");
    old_record.uuid = 0;
    let kept = task("new");
    let mut tasks = vec![old_record.clone(), kept.clone()];

    assert_eq!(backfill_ids(&mut tasks), Ok(true));
    assert_ne!(tasks[0].uuid, 0);
    assert_eq!(tasks[0].text, "old");
    assert_eq!(tasks[1], kept);

    // A second pass finds nothing to do and changes nothing.
    let after_first = tasks.clone();
    assert_eq!(backfill_ids(&mut tasks), Ok(false));
    assert_eq!(tasks, after_first);
}

#[test]
fn configuration_is_required() {
    let config = SyncConfig { remote: "git@github.com:user/tasks.git".to_string() };
    assert_eq!(require(Some(config.clone())), Ok(config));
    assert_eq!(require(None), Err(TodoError::SyncNotConfigured));
}

#[test]
fn first_commit_message_counts_pending_and_done() {
    let mut done = task("B");
    done.completed = true;
    let tasks = vec![task("A"), done, task("C")];
    assert_eq!(build_commit_message(&tasks, None), "sync: 3 tasks (2 pending, 1 done)");
    assert_eq!(build_commit_message(&[], None), "sync: 0 tasks (0 pending, 0 done)");
}

#[test]
fn commit_message_tells_what_changed_since_the_last_commit() {
    let a = task("A");
    let b = task("B");
    let mut c = task("C");
    c.completed = true;
    let previous = vec![a.clone(), b.clone(), c.clone()];

    let mut a_done = a.clone();
    a_done.completed = true;
    let mut c_reopened = c.clone();
    c_reopened.completed = false;
    let current = vec![a_done, c_reopened, task("D"), task("E")];

    let summary = summarize(&current, &previous);
    assert_eq!(summary, Summary { added: 2, removed: 1, completed: 1, reopened: 1 });
    assert_eq!(
        build_commit_message(&current, Some(previous.as_slice())),
        "sync: +2 added, -1 removed, 1 completed, 1 reopened"
    );
}

#[test]
fn commit_message_without_counted_changes() {
    let a = task("A");
    let mut renamed = a.clone();
    renamed.text = "A, renamed".to_string();
    let earlier = vec![a];
    assert_eq!(
        build_commit_message(&[renamed], Some(earlier.as_slice())),
        "sync: metadata updated"
    );
    assert_eq!(
        describe_changes(Summary { added: 0, removed: 12, completed: 0, reopened: 0 }),
        "sync: -12 removed"
    );
    assert_eq!(
        describe_changes(Summary { added: 100, removed: 0, completed: 0, reopened: 7 }),
        "sync: +100 added, 7 reopened"
    );
}

#[test]
fn backfilled_identifiers_differ_from_each_other_and_from_those_in_use() {
    let mut tasks: Vec<Task> = Vec::new();
    for i in 0..50 {
        let mut t = task("record");
        if i % 2 == 0 {
            t.uuid = 0;
        }
        tasks.push(t);
    }
    let before = tasks.clone();
    assert_eq!(backfill_ids(&mut tasks), Ok(true));
    for i in 0..50 {
        assert_ne!(tasks[i].uuid, 0);
        if before[i].uuid != 0 {
            assert_eq!(tasks[i], before[i]);
        }
        for j in 0..i {
            assert_ne!(tasks[i].uuid, tasks[j].uuid);
        }
    }
}

#[test]
fn status_tells_branch_commit_and_whether_the_list_changed() {
    assert_eq!(
        status("main", "abc1234 sync: +1 added (2 hours ago)", ""),
        "Branch:      main\nLast commit: abc1234 sync: +1 added (2 hours ago)\ntodos.json:  clean"
    );
    assert_eq!(
        status("main", "no commits yet", " M notes.txt\n M todos.json\n"),
        "Branch:      main\nLast commit: no commits yet\ntodos.json:  modified (not yet committed)"
    );
    assert_eq!(
        status("unknown", "x", "?? sync.toml\n"),
        "Branch:      unknown\nLast commit: x\ntodos.json:  clean"
    );
}
