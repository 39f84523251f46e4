#![allow(dead_code)]
//! Integration tests for the `remove` command
//!
//! Covers:
//! - Remove existing task
//! - Remove with --yes flag (skip confirmation)
//! - Invalid ID (zero, out of range, empty storage)
//! - Task order after removal (IDs shift)
//! - Remove first, middle, last task


use rustodo::cli::AddArgs;
use rustodo::commands::{add, remove};
use rustodo::models::Priority;
use rustodo::date::Date;
use rustodo::error::TodoError;
use rustodo::models::Task;
use rustodo::storage::{InMemoryStorage, Storage};

struct TestEnv {
    storage: InMemoryStorage,
}

impl TestEnv {
    fn new() -> Self {
        Self { storage: InMemoryStorage::default() }
    }

    fn with_tasks(tasks: Vec<Task>) -> Self {
        Self { storage: InMemoryStorage::with_tasks(tasks) }
    }

    fn storage(&mut self) -> &mut InMemoryStorage {
        &mut self.storage
    }

    fn load_tasks(&self) -> Vec<Task> {
        self.storage.load().expect("Failed to load tasks in test")
    }

    fn save_tasks(&mut self, tasks: &[Task]) {
        self.storage.save(tasks).expect("Failed to save tasks in test")
    }

    fn task_count(&self) -> usize {
        self.storage.len()
    }

    fn is_empty(&self) -> bool {
        self.storage.is_empty()
    }
}

fn today() -> Date {
    Date::today()
}

fn days_from_now(days: i64) -> Date {
    if days >= 0 {
        today().checked_plus_days(days as u32).unwrap()
    } else {
        today().checked_minus_days((-days) as u32).unwrap()
    }
}

fn days_ago(days: i64) -> Date {
    days_from_now(-days)
}

// --- helpers -----------------------------------------------------------------

fn add_simple(env: &mut TestEnv, text: &str) -> usize {
    add::execute(
        env.storage(),
        AddArgs {
            text: text.to_string(),
            priority: Priority::Medium,
            tag: vec![],
            project: None,
            due: None,
            recurrence: None,
            depends_on: vec![],
        },
    )
    .unwrap();
    env.task_count()
}

// --- happy path ---------------------------------------------------------------

#[test]
fn test_remove_single_task() {
    let mut env = TestEnv::new();
    add_simple(&mut env, "Task to remove");

    let result = remove::execute(env.storage(), 1, true);
    assert!(result.is_ok());
    assert_eq!(env.task_count(), 0);
}

#[test]
fn test_remove_reduces_task_count() {
    let mut env = TestEnv::new();
    add_simple(&mut env, "Task A");
    add_simple(&mut env, "Task B");
    add_simple(&mut env, "Task C");

    remove::execute(env.storage(), 2, true).unwrap();

    assert_eq!(env.task_count(), 2);
}

#[test]
fn test_remove_first_task() {
    let mut env = TestEnv::new();
    add_simple(&mut env, "First");
    add_simple(&mut env, "Second");
    add_simple(&mut env, "Third");

    remove::execute(env.storage(), 1, true).unwrap();

    let tasks = env.load_tasks();
    assert_eq!(tasks.len(), 2);
    assert_eq!(tasks[0].text, "Second");
    assert_eq!(tasks[1].text, "Third");
}

#[test]
fn test_remove_middle_task() {
    let mut env = TestEnv::new();
    add_simple(&mut env, "First");
    add_simple(&mut env, "Middle");
    add_simple(&mut env, "Last");

    remove::execute(env.storage(), 2, true).unwrap();

    let tasks = env.load_tasks();
    assert_eq!(tasks.len(), 2);
    assert_eq!(tasks[0].text, "First");
    assert_eq!(tasks[1].text, "Last");
}

#[test]
fn test_remove_last_task() {
    let mut env = TestEnv::new();
    add_simple(&mut env, "First");
    add_simple(&mut env, "Last");

    remove::execute(env.storage(), 2, true).unwrap();

    let tasks = env.load_tasks();
    assert_eq!(tasks.len(), 1);
    assert_eq!(tasks[0].text, "First");
}

#[test]
fn test_remove_correct_task_by_text() {
    let mut env = TestEnv::new();
    add_simple(&mut env, "Keep me");
    add_simple(&mut env, "Remove me");
    add_simple(&mut env, "Keep me too");

    remove::execute(env.storage(), 2, true).unwrap();

    let tasks = env.load_tasks();
    assert_eq!(tasks.len(), 2);
    assert!(tasks.iter().all(|t| t.text != "Remove me"));
    assert!(tasks.iter().any(|t| t.text == "Keep me"));
    assert!(tasks.iter().any(|t| t.text == "Keep me too"));
}

#[test]
fn test_remove_with_yes_flag_skips_confirmation() {
    let mut env = TestEnv::new();
    add_simple(&mut env, "Task");

    // yes=true should not prompt and just remove
    let result = remove::execute(env.storage(), 1, true);
    assert!(result.is_ok());
    assert_eq!(env.task_count(), 0);
}

// --- invalid IDs -------------------------------------------------------------

#[test]
fn test_remove_id_zero_fails() {
    let mut env = TestEnv::new();
    add_simple(&mut env, "Task");

    let result = remove::execute(env.storage(), 0, true);
    assert!(result.is_err());
    assert!(matches!(result.unwrap_err(), TodoError::InvalidTaskId { .. }));
}

#[test]
fn test_remove_id_out_of_range_fails() {
    let mut env = TestEnv::new();
    add_simple(&mut env, "Task");

    let result = remove::execute(env.storage(), 99, true);
    assert!(result.is_err());
    assert!(matches!(result.unwrap_err(), TodoError::InvalidTaskId { .. }));
}

#[test]
fn test_remove_from_empty_storage_fails() {
    let mut env = TestEnv::new();

    let result = remove::execute(env.storage(), 1, true);
    assert!(result.is_err());
}

// --- remove all one by one ----------------------------------------------------

#[test]
fn test_remove_all_tasks_one_by_one() {
    let mut env = TestEnv::new();
    add_simple(&mut env, "A");
    add_simple(&mut env, "B");
    add_simple(&mut env, "C");

    // Always remove ID 1 since list shifts after each removal
    remove::execute(env.storage(), 1, true).unwrap();
    remove::execute(env.storage(), 1, true).unwrap();
    remove::execute(env.storage(), 1, true).unwrap();

    assert_eq!(env.task_count(), 0);
}

#[test]
fn test_remove_preserves_task_metadata() {
    let mut env = TestEnv::new();
    add_simple(&mut env, "Keep this");
    add::execute(
        env.storage(),
        AddArgs {
            text: "Remove this".to_string(),
            priority: Priority::High,
            tag: vec!["work".to_string()],
            project: None,
            due: None,
            recurrence: None,
            depends_on: vec![],
        },
    )
    .unwrap();

    remove::execute(env.storage(), 2, true).unwrap();

    let tasks = env.load_tasks();
    assert_eq!(tasks.len(), 1);
    assert_eq!(tasks[0].text, "Keep this");
    assert_eq!(tasks[0].priority, Priority::Medium);
}
