use hephaestus::model::{StepStatus, StepType};
use hephaestus::parser::collect_steps;
use hephaestus::scheduler::Scheduler;

fn plan_text(steps: &[(&str, &str, Option<&str>, &str)]) -> Vec<String> {
    let mut out = vec!["<plan id=\"test\" >".to_string(), "</plan>".to_string()];
    for (tag, name, parent, cmd) in steps {
        let parent = match parent {
            Some(p) => format!(" parent=\"{}\"", p),
            None => String::new(),
        };
        out.push(format!("<{} name=\"{}\"{} desc=\"step {}\" >", tag, name, parent, name));
        out.push(cmd.to_string());
        out.push(format!("</{}>", tag));
    }
    out
}

/// Runs the scheduler with `/bin/false` ending `Nok` and anything else `Success`.
fn run(lines: Vec<String>) -> (Vec<StepStatus>, StepStatus) {
    let plan = collect_steps(&lines).unwrap();
    let mut sched = Scheduler::new(plan);
    while !sched.is_finished() {
        if sched.should_run() {
            let cmd = sched.current().action.as_ref().unwrap().cmd.join(" ");
            let status = if cmd == "/bin/false" { StepStatus::Nok } else { StepStatus::Success };
            sched.record(status);
        } else {
            sched.skip();
        }
    }
    let plan = sched.plan();
    (plan.steps.iter().map(|s| s.status).collect(), plan.status)
}

#[test]
fn linear_success() {
    let lines = plan_text(&[
        ("step", "A", None, "/bin/true"),
        ("step", "B", Some("A"), "/bin/true"),
        ("step", "C", Some("B"), "/bin/echo hi"),
    ]);
    let (statuses, aggregate) = run(lines);
    assert_eq!(statuses, vec![StepStatus::Success, StepStatus::Success, StepStatus::Success]);
    assert_eq!(aggregate, StepStatus::Success);
}

#[test]
fn failure_without_recovery() {
    let lines = plan_text(&[
        ("step", "A", None, "/bin/true"),
        ("step", "B", Some("A"), "/bin/false"),
        ("step", "C", Some("B"), "/bin/true"),
    ]);
    let (statuses, aggregate) = run(lines);
    assert_eq!(statuses, vec![StepStatus::Success, StepStatus::Nok, StepStatus::NotRun]);
    assert_eq!(aggregate, StepStatus::Nok);
}

#[test]
fn recovery_fires() {
    let lines = plan_text(&[
        ("step", "A", None, "/bin/false"),
        ("recovery", "R", Some("A"), "/bin/true"),
        ("step", "D", Some("R"), "/bin/true"),
    ]);
    let plan = collect_steps(&lines).unwrap();
    assert_eq!(plan.steps[1].step_type, StepType::Recovery);
    let (statuses, aggregate) = run(lines);
    assert_eq!(statuses, vec![StepStatus::Nok, StepStatus::Success, StepStatus::Success]);
    assert_eq!(aggregate, StepStatus::Nok);
}

#[test]
fn recovery_skipped_on_success() {
    let lines = plan_text(&[("step", "A", None, "/bin/true"), ("recovery", "R", Some("A"), "/bin/true")]);
    let (statuses, aggregate) = run(lines);
    assert_eq!(statuses, vec![StepStatus::Success, StepStatus::NotRun]);
    assert_eq!(aggregate, StepStatus::Success);
}

#[test]
fn later_bad_status_overwrites_earlier() {
    let plan = collect_steps(&plan_text(&[
        ("step", "A", None, "/bin/false"),
        ("step", "B", None, "/bin/true"),
        ("step", "C", None, "/bin/true"),
    ]))
    .unwrap();
    let mut sched = Scheduler::new(plan);
    sched.record(StepStatus::Nok);
    sched.record(StepStatus::Success);
    assert_eq!(sched.plan().status, StepStatus::Nok);
    sched.record(StepStatus::Failed);
    assert!(sched.is_finished());
    assert_eq!(sched.plan().status, StepStatus::Failed);
}

#[test]
fn new_run_starts_successful() {
    let plan = collect_steps(&plan_text(&[("step", "A", None, "/bin/true")])).unwrap();
    let sched = Scheduler::new(plan);
    assert_eq!(sched.plan().status, StepStatus::Success);
    assert!(!sched.is_finished());
    assert_eq!(sched.current().step_name, "A");
    assert!(sched.should_run());
}

#[test]
fn failed_parent_enables_recovery_only() {
    let plan = collect_steps(&plan_text(&[
        ("step", "A", None, "/bin/true"),
        ("step", "B", Some("A"), "/bin/true"),
        ("recovery", "R", Some("A"), "/bin/true"),
    ]))
    .unwrap();
    let mut sched = Scheduler::new(plan);
    sched.record(StepStatus::Failed);
    assert!(!sched.should_run());
    sched.skip();
    assert!(sched.should_run());
    sched.record(StepStatus::Success);
    let statuses: Vec<StepStatus> = sched.plan().steps.iter().map(|s| s.status).collect();
    assert_eq!(statuses, vec![StepStatus::Failed, StepStatus::NotRun, StepStatus::Success]);
    assert_eq!(sched.plan().status, StepStatus::Failed);
}
