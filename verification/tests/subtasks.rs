use tyclaw::subtasks::protocol::{
    plan_id, ExecutionRecord, FailurePolicy, NodeStatus, PlanError, PlanMetadata, TaskNode,
    TaskPlan,
};
use tyclaw::subtasks::scheduler::{timeout_record, DagScheduler, Schedule, ScheduleAction};

fn node(id: &str, deps: &[&str]) -> TaskNode {
    TaskNode {
        id: id.into(),
        node_type: "coding".into(),
        prompt: "do".into(),
        dependencies: deps.iter().map(|s| s.to_string()).collect(),
        model_override: None,
        timeout_ms: None,
        max_retries: None,
        acceptance_criteria: None,
    }
}

fn plan(nodes: Vec<TaskNode>, edges: &[(&str, &str)], policy: FailurePolicy) -> TaskPlan {
    TaskPlan {
        id: "p".into(),
        nodes,
        edges: edges.iter().map(|(a, b)| (a.to_string(), b.to_string())).collect(),
        failure_policy: policy,
        metadata: PlanMetadata::default(),
    }
}

fn record(id: &str, status: NodeStatus, output: Option<&str>) -> ExecutionRecord {
    ExecutionRecord {
        status,
        output: output.map(|o| o.to_string()),
        error: None,
        ..timeout_record(id, 5)
    }
}

#[test]
fn plans_are_validated() {
    let ok = plan(vec![node("a", &[]), node("b", &["a"])], &[("a", "b")], FailurePolicy::FailFast);
    assert!(ok.validate().is_ok());
    let none = plan(vec![], &[], FailurePolicy::FailFast);
    assert!(matches!(none.validate(), Err(PlanError::NoNodes)));
    let twice = plan(vec![node("a", &[]), node("a", &[])], &[], FailurePolicy::FailFast);
    assert_eq!(twice.validate().unwrap_err().message(), "duplicate node id: a");
    let edge = plan(vec![node("a", &[])], &[("a", "x")], FailurePolicy::FailFast);
    assert_eq!(edge.validate().unwrap_err().message(), "edge references unknown node: x");
    let dep = plan(vec![node("a", &["y"])], &[], FailurePolicy::FailFast);
    assert_eq!(
        dep.validate().unwrap_err().message(),
        "node a references unknown dependency: y"
    );
    let cycle = plan(
        vec![node("a", &["b"]), node("b", &[])],
        &[("a", "b")],
        FailurePolicy::FailFast,
    );
    assert_eq!(cycle.validate().unwrap_err().message(), "TaskPlan contains a cycle");
    let fallback = TaskPlan::single_node_fallback("p".into(), "prompt".into());
    assert!(fallback.validate().is_ok());
    assert_eq!(fallback.nodes.len(), 1);
    assert!(plan_id(0xabc).contains("abc"));
    assert_eq!(ok.index_of("b"), Some(1));
    assert_eq!(ok.index_of("z"), None);
}

fn launched(a: ScheduleAction) -> Vec<usize> {
    match a {
        ScheduleAction::Launch(v) => v,
        _ => panic!("nothing was started"),
    }
}

#[test]
fn tasks_start_after_what_they_wait_for() {
    let p = plan(
        vec![node("a", &[]), node("b", &["a"]), node("c", &["a"]), node("d", &["b", "c"])],
        &[],
        FailurePolicy::FailFast,
    );
    let mut s = Schedule::new(&p);
    assert_eq!(launched(s.step(&p, false)), vec![0]);
    assert!(matches!(s.step(&p, true), ScheduleAction::Wait));
    s.complete(&p, 0, record("a", NodeStatus::Success, Some("out a")));
    assert_eq!(launched(s.step(&p, false)), vec![1, 2]);
    s.complete(&p, 2, record("c", NodeStatus::Success, Some("out c")));
    s.complete(&p, 1, record("b", NodeStatus::Success, Some("out b")));
    assert_eq!(
        s.upstream(&p, 3),
        vec![("b".to_string(), "out b".to_string()), ("c".to_string(), "out c".to_string())]
    );
    assert_eq!(launched(s.step(&p, false)), vec![3]);
    s.complete(&p, 3, record("d", NodeStatus::Success, None));
    assert!(matches!(s.step(&p, false), ScheduleAction::Finished));
    assert_eq!(s.records.len(), 4);
}

#[test]
fn a_failure_stops_the_rest() {
    let p = plan(
        vec![node("a", &[]), node("b", &["a"]), node("c", &[])],
        &[],
        FailurePolicy::FailFast,
    );
    let mut s = Schedule::new(&p);
    assert_eq!(launched(s.step(&p, false)), vec![0, 2]);
    s.complete(&p, 0, record("a", NodeStatus::Failed, None));
    s.complete(&p, 2, record("c", NodeStatus::Success, Some("c")));
    assert!(matches!(s.step(&p, false), ScheduleAction::Abort));
    assert!(matches!(s.statuses[1], NodeStatus::Skipped));
    assert_eq!(s.records.len(), 3);
}

#[test]
fn best_effort_goes_on() {
    let p = plan(
        vec![node("a", &[]), node("b", &["a"]), node("c", &[]), node("d", &["c"])],
        &[],
        FailurePolicy::BestEffort,
    );
    let mut s = Schedule::new(&p);
    assert_eq!(launched(s.step(&p, false)), vec![0, 2]);
    s.complete(&p, 0, record("a", NodeStatus::Failed, None));
    s.complete(&p, 2, record("c", NodeStatus::Success, Some("c")));
    assert_eq!(launched(s.step(&p, false)), vec![3]);
    assert!(matches!(s.statuses[1], NodeStatus::Skipped));
}

#[test]
fn every_node_of_a_chain_gets_a_record() {
    let p = plan(
        vec![node("a", &[]), node("b", &["a"]), node("c", &["b"]), node("d", &["c"])],
        &[],
        FailurePolicy::BestEffort,
    );
    let mut s = Schedule::new(&p);
    assert_eq!(launched(s.step(&p, false)), vec![0]);
    assert!(matches!(s.step(&p, true), ScheduleAction::Wait));
    s.complete(&p, 0, record("a", NodeStatus::Failed, None));
    for left_out in 1..4 {
        assert!(matches!(s.step(&p, false), ScheduleAction::Again));
        assert!(matches!(s.statuses[left_out], NodeStatus::Skipped));
    }
    assert!(matches!(s.step(&p, false), ScheduleAction::Finished));
    assert_eq!(s.records.len(), 4);
    assert_eq!(s.records[3].error.as_deref(), Some("skipped: upstream dependency failed"));
}

#[test]
fn schedulers_have_limits() {
    let s = DagScheduler::new((), None, None);
    assert_eq!(s.max_concurrency(), 4);
    let mut p = plan(vec![node("a", &[])], &[], FailurePolicy::FailFast);
    assert_eq!(s.timeout_ms(&p, 0), 120_000);
    p.nodes[0].timeout_ms = Some(7);
    assert_eq!(s.timeout_ms(&p, 0), 7);
    let r = timeout_record("a", 7);
    assert_eq!(r.error.as_deref(), Some("timeout"));
    assert_eq!(r.duration_ms, 7);
}
