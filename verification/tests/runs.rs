use std::time::Duration;

use taskkit::application::runs::{plan_run, should_cache, RunPlan};
use taskkit::domain::errors::TaskError;
use taskkit::domain::tasks::{Task, TaskId, TaskResult};

fn result(id: &str, success: bool) -> TaskResult {
    TaskResult {
        task_id: TaskId(id.to_string()),
        success,
        output: None,
        error: None,
        duration: Duration::from_millis(5),
        timestamp: "then".to_string(),
    }
}

#[test]
fn a_cached_result_stands_for_a_real_run() {
    let id = TaskId("t".to_string());
    match plan_run(&id, false, Some(result("t", true)), None, "now".to_string()) {
        RunPlan::Cached(r) => assert_eq!(r.timestamp, "then"),
        other => panic!("unexpected: {:?}", other),
    }
}

#[test]
fn a_missing_task_is_not_found() {
    let id = TaskId("gone".to_string());
    match plan_run(&id, false, None, None, "now".to_string()) {
        RunPlan::Failed(TaskError::NotFound(x)) => assert_eq!(x, "gone"),
        other => panic!("unexpected: {:?}", other),
    }
}

#[test]
fn a_dry_run_reports_and_ignores_the_cache() {
    let task = Task::new("build".to_string()).with_command("make all".to_string());
    let id = task.id.clone();
    match plan_run(&id, true, Some(result("x", false)), Some(task), "now".to_string()) {
        RunPlan::DryRun { lines, result } => {
            assert_eq!(lines[0], format!("[dry-run] would run task '{}'", id.0));
            assert_eq!(lines[1], "[dry-run]   command: make all");
            assert!(result.success);
            assert!(result.output.is_none() && result.error.is_none());
            assert_eq!(result.duration, Duration::ZERO);
            assert_eq!(result.timestamp, "now");
            assert_eq!(result.task_id, id);
        }
        other => panic!("unexpected: {:?}", other),
    }
}

#[test]
fn a_real_run_without_cache_executes() {
    let task = Task::new("build".to_string());
    let id = task.id.clone();
    match plan_run(&id, false, None, Some(task), "now".to_string()) {
        RunPlan::Execute(t) => assert_eq!(t.id, id),
        other => panic!("unexpected: {:?}", other),
    }
    assert!(should_cache(&result("a", true)));
    assert!(!should_cache(&result("a", false)));
}
