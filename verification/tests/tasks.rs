use std::time::Duration;

use taskkit::domain::runners::ShellRunner;
use taskkit::domain::tasks::{Priority, RetryPolicy, Task, TaskState};
use taskkit::domain::workflows::{WaveAction, Workflow, WorkflowState, WorkflowStep};

#[test]
fn test_task_creation() {
    let task = Task::new("test-task".to_string());
    assert_eq!(task.name, "test-task");
    assert_eq!(task.state, TaskState::Pending);
}

#[test]
fn test_state_transitions() {
    let mut task = Task::new("test".to_string());
    assert!(task.transition_to(TaskState::Running).is_ok());
    assert_eq!(task.state, TaskState::Running);
    assert!(task.started_at.is_some());
    assert!(task.transition_to(TaskState::Completed).is_ok());
    assert_eq!(task.state, TaskState::Completed);
    assert!(task.completed_at.is_some());
}

#[test]
fn test_invalid_transition() {
    let mut task = Task::new("test".to_string());
    assert!(task.transition_to(TaskState::Completed).is_err());
}

#[test]
fn test_retry_policy() {
    let policy = RetryPolicy::default();
    assert_eq!(policy.max_attempts, 3);
}

#[test]
fn test_can_retry() {
    let mut task = Task::new("retry-test".to_string()).with_retry_policy(RetryPolicy::default());
    assert!(task.can_retry());
    task.retry_count = 3;
    assert!(!task.can_retry());
}

#[test]
fn test_can_retry_no_policy() {
    let task = Task::new("no-retry".to_string());
    assert!(!task.can_retry());
}

#[test]
fn test_with_tag() {
    let task = Task::new("tag-test".to_string()).with_tag("dev".to_string()).with_tag("rust".to_string());
    assert_eq!(task.tags, vec!["dev", "rust"]);
}

#[test]
fn test_with_command() {
    let task = Task::new("cmd-test".to_string()).with_command("echo hello".to_string());
    let mut expected = serde_json::Map::new();
    expected.insert("command".to_string(), serde_json::Value::String("echo hello".to_string()));
    assert_eq!(task.data, serde_json::Value::Object(expected));
}

#[test]
fn test_success_result() {
    let task = Task::new("result-test".to_string());
    let result = task.success_result(serde_json::Value::Null, Duration::from_secs(1));
    assert!(result.success);
    assert_eq!(result.task_id, task.id);
    assert!(result.error.is_none());
}

#[test]
fn test_failure_result() {
    let task = Task::new("result-test".to_string());
    let result = task.failure_result("it broke".to_string(), Duration::from_secs(1));
    assert!(!result.success);
    assert_eq!(result.error, Some("it broke".to_string()));
}

#[test]
fn test_terminal_state_no_transition() {
    let mut task = Task::new("terminal".to_string());
    task.transition_to(TaskState::Running).unwrap();
    task.transition_to(TaskState::Completed).unwrap();
    assert!(task.transition_to(TaskState::Failed).is_err());
}

#[test]
fn test_workflow_creation() {
    let workflow = Workflow::new("test-workflow".to_string());
    assert_eq!(workflow.name, "test-workflow");
    assert_eq!(workflow.state, WorkflowState::Draft);
}

#[test]
fn test_workflow_with_steps() {
    let workflow = Workflow::new("test".to_string())
        .with_step(WorkflowStep::new("step-1".to_string()).with_dependency("step-0".to_string()))
        .with_step(WorkflowStep::new("step-0".to_string()));
    assert_eq!(workflow.steps.len(), 2);
}

// ---------------------------------------------------------------------------
// Further cases
// ---------------------------------------------------------------------------

#[test]
fn terminal_states_accept_no_transition() {
    for terminal in [TaskState::Completed, TaskState::Failed, TaskState::Cancelled] {
        let mut task = Task::new("t".to_string());
        task.state = terminal;
        for next in [
            TaskState::Pending,
            TaskState::Scheduled,
            TaskState::Running,
            TaskState::Completed,
            TaskState::Failed,
            TaskState::Cancelled,
            TaskState::Retrying,
        ] {
            assert!(!task.can_transition_to(&next));
            assert!(task.transition_to(next).is_err());
            assert_eq!(task.state, terminal);
        }
    }
}

#[test]
fn running_task_can_retry_then_run_again() {
    let mut task = Task::new("t".to_string());
    task.transition_to(TaskState::Running).unwrap();
    task.transition_to(TaskState::Retrying).unwrap();
    task.transition_to(TaskState::Running).unwrap();
    assert_eq!(task.state, TaskState::Running);
    task.transition_to(TaskState::Failed).unwrap();
    assert!(task.transition_to(TaskState::Retrying).is_err());
}

#[test]
fn priority_weights() {
    assert_eq!(Priority::Low.weight(), 0);
    assert_eq!(Priority::Normal.weight(), 5);
    assert_eq!(Priority::High.weight(), 8);
    assert_eq!(Priority::Critical.weight(), 10);
    assert_eq!(Priority::default(), Priority::Normal);
}

#[test]
fn build_dag_rejects_cycles() {
    let mut wf = Workflow::new("w".to_string())
        .with_step(WorkflowStep::new("a".to_string()).with_dependency("b".to_string()))
        .with_step(WorkflowStep::new("b".to_string()).with_dependency("a".to_string()));
    assert_eq!(wf.build_dag(), Err("Workflow contains cycles".to_string()));
}

#[test]
fn ready_steps_follow_completed() {
    let wf = Workflow::new("w".to_string())
        .with_step(WorkflowStep::new("a".to_string()))
        .with_step(WorkflowStep::new("b".to_string()).with_dependency("a".to_string()));
    let ready: Vec<&str> = wf.ready_steps(&[]).iter().map(|s| s.id.as_str()).collect();
    assert_eq!(ready, vec!["a"]);
    let ready: Vec<&str> = wf.ready_steps(&["a".to_string()]).iter().map(|s| s.id.as_str()).collect();
    assert_eq!(ready, vec!["b"]);
}

#[test]
fn test_execution_order() {
    let mut workflow = Workflow::new("test".to_string())
        .with_step(WorkflowStep::new("step-0".to_string()))
        .with_step(WorkflowStep::new("step-1".to_string()).with_dependency("step-0".to_string()));

    workflow.build_dag().unwrap();
    let order = workflow.execution_order().unwrap();

    assert_eq!(order[0].name, "step-0");
    assert_eq!(order[1].name, "step-1");
}

#[test]
fn execution_order_puts_dependencies_first_whatever_the_step_order() {
    let workflow = Workflow::new("w".to_string())
        .with_step(WorkflowStep::new("c".to_string()).with_dependency("b".to_string()))
        .with_step(WorkflowStep::new("b".to_string()).with_dependency("a".to_string()))
        .with_step(WorkflowStep::new("a".to_string()));
    let order = workflow.execution_order().unwrap();
    let names: Vec<&str> = order.iter().map(|s| s.name.as_str()).collect();
    assert_eq!(names, vec!["a", "b", "c"]);
}

#[test]
fn execution_order_lists_a_shared_dependency_once() {
    let workflow = Workflow::new("w".to_string())
        .with_step(WorkflowStep::new("root".to_string()))
        .with_step(WorkflowStep::new("left".to_string()).with_dependency("root".to_string()))
        .with_step(WorkflowStep::new("right".to_string()).with_dependency("root".to_string()))
        .with_step(
            WorkflowStep::new("join".to_string())
                .with_dependency("left".to_string())
                .with_dependency("right".to_string()),
        );
    let order = workflow.execution_order().unwrap();
    let names: Vec<&str> = order.iter().map(|s| s.name.as_str()).collect();
    assert_eq!(names, vec!["root", "left", "right", "join"]);
}

#[test]
fn execution_order_reports_a_missing_dependency() {
    let workflow = Workflow::new("w".to_string())
        .with_step(WorkflowStep::new("a".to_string()).with_dependency("ghost".to_string()));
    assert_eq!(workflow.execution_order().unwrap_err(), "Step not found: ghost");
}

#[test]
fn execution_order_does_not_loop_on_a_cycle() {
    let workflow = Workflow::new("w".to_string())
        .with_step(WorkflowStep::new("a".to_string()).with_dependency("b".to_string()))
        .with_step(WorkflowStep::new("b".to_string()).with_dependency("a".to_string()));
    let order = workflow.execution_order().unwrap();
    let names: Vec<&str> = order.iter().map(|s| s.name.as_str()).collect();
    assert_eq!(names, vec!["b", "a"]);
}

#[test]
fn execution_order_of_an_empty_workflow_is_empty() {
    let workflow = Workflow::new("w".to_string());
    assert!(workflow.execution_order().unwrap().is_empty());
}

#[test]
fn test_retry_delay() {
    let mut task = Task::new("delay-test".to_string()).with_retry_policy(RetryPolicy::default());
    assert_eq!(task.retry_delay(), Duration::from_secs(1));
    task.retry_count = 1;
    assert_eq!(task.retry_delay(), Duration::from_secs(2));
    task.retry_count = 2;
    assert_eq!(task.retry_delay(), Duration::from_secs(4));
}

#[test]
fn test_retry_delay_max_cap() {
    let mut task = Task::new("delay-cap".to_string()).with_retry_policy(RetryPolicy {
        max_attempts: 10,
        base_delay: Duration::from_secs(30),
        max_delay: Duration::from_secs(60),
        jitter_bits: 0.0f64.to_bits(),
    });
    task.retry_count = 5;
    // 30 * 2^5 = 960, but capped at 60
    assert_eq!(task.retry_delay(), Duration::from_secs(60));
}

#[test]
fn retry_delay_without_policy_is_one_second() {
    let task = Task::new("plain".to_string());
    assert_eq!(task.retry_delay(), Duration::from_secs(1));
    assert_eq!(task.checked_retry_delay(), Some(Duration::from_secs(1)));
}

#[test]
fn retry_delay_keeps_sub_second_precision() {
    let mut task = Task::new("ms".to_string()).with_retry_policy(RetryPolicy {
        max_attempts: 5,
        base_delay: Duration::from_millis(250),
        max_delay: Duration::from_secs(10),
        jitter_bits: 0,
    });
    task.retry_count = 3;
    assert_eq!(task.retry_delay(), Duration::from_millis(2000));
}

#[test]
fn checked_retry_delay_refuses_what_would_overflow() {
    let mut task = Task::new("big".to_string()).with_retry_policy(RetryPolicy::default());
    task.retry_count = 32;
    assert_eq!(task.checked_retry_delay(), None);
    let mut huge = Task::new("huge".to_string()).with_retry_policy(RetryPolicy {
        max_attempts: 5,
        base_delay: Duration::from_secs(u64::MAX / 2 + 1),
        max_delay: Duration::from_secs(60),
        jitter_bits: 0,
    });
    huge.retry_count = 1;
    assert_eq!(huge.checked_retry_delay(), None);
    huge.retry_count = 0;
    assert_eq!(huge.checked_retry_delay(), Some(Duration::from_secs(60)));
}

#[test]
fn next_wave_runs_ready_steps_then_finishes() {
    let workflow = Workflow::new("w".to_string())
        .with_step(WorkflowStep::new("a".to_string()))
        .with_step(WorkflowStep::new("b".to_string()).with_dependency("a".to_string()))
        .with_step(WorkflowStep::new("c".to_string()));
    let mut completed: Vec<String> = Vec::new();
    match workflow.next_wave(&completed) {
        WaveAction::Run(wave) => {
            let ids: Vec<&str> = wave.iter().map(|s| s.id.as_str()).collect();
            assert_eq!(ids, vec!["a", "c"]);
            for s in &wave {
                completed.push(s.id.clone());
            }
        }
        other => panic!("expected a wave, got {:?}", other),
    }
    match workflow.next_wave(&completed) {
        WaveAction::Run(wave) => {
            assert_eq!(wave.len(), 1);
            assert_eq!(wave[0].id, "b");
            completed.push(wave[0].id.clone());
        }
        other => panic!("expected a wave, got {:?}", other),
    }
    assert!(matches!(workflow.next_wave(&completed), WaveAction::Finished));
}

#[test]
fn next_wave_stalls_on_a_missing_dependency() {
    let workflow = Workflow::new("w".to_string())
        .with_step(WorkflowStep::new("a".to_string()).with_dependency("nowhere".to_string()));
    assert!(matches!(workflow.next_wave(&[]), WaveAction::Stalled));
}

#[test]
fn shell_runner_reads_the_task_command() {

    let task = Task::new("cmd".to_string()).with_command("echo hi".to_string());
    assert_eq!(ShellRunner::extract_command(&task).unwrap(), "echo hi");
}

#[test]
fn shell_runner_refuses_a_task_without_command() {

    let task = Task::new("bare".to_string());
    let err = ShellRunner::extract_command(&task).unwrap_err();
    match err {
        taskkit::TaskError::InvalidOperation(m) => assert_eq!(m, "No command in task.data['command']"),
        other => panic!("unexpected error {:?}", other),
    }
}

#[test]
fn begin_retry_keeps_the_other_fields() {
    let mut t = Task::new("again".to_string())
        .with_description("keep me".to_string())
        .with_priority(Priority::High)
        .with_retry_policy(RetryPolicy::default());
    t.transition_to(TaskState::Running).unwrap();
    t.transition_to(TaskState::Failed).unwrap();
    let before = t.clone();
    t.begin_retry().unwrap();
    assert_eq!(t.state, TaskState::Pending);
    assert_eq!(t.retry_count, before.retry_count + 1);
    assert!(t.error.is_none());
    assert_eq!(t.id, before.id);
    assert_eq!(t.description, before.description);
    assert_eq!(t.priority, Priority::High);
    assert_eq!(t.started_at, before.started_at);
    assert_eq!(t.completed_at, before.completed_at);
}
