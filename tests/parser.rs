use hephaestus::model::{StepStatus, StepType};
use hephaestus::parser::collect_steps;

fn lines(text: &str) -> Vec<String> {
    text.lines().map(|l| l.to_string()).collect()
}

const EXAMPLE: &str = r#"<plan id="daily-etl" >
</plan>

<step name="fetch" desc="download the file"
      cwd="/var/work" setenv="TOKEN abc123" >
  curl -O https://example.org/data.csv
</step>

<recovery name="cleanup" parent="fetch" desc="remove partial" >
  rm -f /var/work/data.csv
</recovery>
"#;

#[test]
fn parses_example_plan() {
    let plan = collect_steps(&lines(EXAMPLE)).unwrap();
    assert_eq!(plan.id, "daily-etl");
    assert_eq!(plan.status, StepStatus::NotRun);
    assert_eq!(plan.steps.len(), 2);
    let fetch = &plan.steps[0];
    assert_eq!(fetch.step_name, "fetch");
    assert_eq!(fetch.description, "download the file");
    assert_eq!(fetch.step_type, StepType::Action);
    assert_eq!(fetch.parent, None);
    assert_eq!(fetch.envvars, vec![("TOKEN".to_string(), "abc123".to_string())]);
    let action = fetch.action.as_ref().unwrap();
    assert_eq!(action.cmd, vec!["curl", "-O", "https://example.org/data.csv"]);
    assert_eq!(action.cwd, Some("/var/work".to_string()));
    let cleanup = &plan.steps[1];
    assert_eq!(cleanup.step_name, "cleanup");
    assert_eq!(cleanup.description, "remove partial");
    assert_eq!(cleanup.step_type, StepType::Recovery);
    assert_eq!(cleanup.parent, Some("fetch".to_string()));
    assert_eq!(cleanup.action.as_ref().unwrap().cmd, vec!["rm", "-f", "/var/work/data.csv"]);
    assert_eq!(cleanup.action.as_ref().unwrap().cwd, None);
}

#[test]
fn parse_is_deterministic() {
    let a = collect_steps(&lines(EXAMPLE)).unwrap();
    let b = collect_steps(&lines(EXAMPLE)).unwrap();
    assert_eq!(a.id, b.id);
    assert_eq!(a.steps.len(), b.steps.len());
    for (x, y) in a.steps.iter().zip(b.steps.iter()) {
        assert_eq!(x.step_name, y.step_name);
        assert_eq!(x.description, y.description);
        assert_eq!(x.parent, y.parent);
        assert_eq!(x.envvars, y.envvars);
        assert_eq!(x.action.as_ref().unwrap().cmd, y.action.as_ref().unwrap().cmd);
    }
}

#[test]
fn missing_plan_id_is_an_error() {
    let text = "<step name=\"a\" desc=\"step a\" >\n/bin/true\n</step>\n";
    assert_eq!(collect_steps(&lines(text)).err().unwrap(), "Plan ID is missing");
}

#[test]
fn unknown_parent_is_an_error() {
    let text = "<plan id=\"p\" >\n</plan>\n<step name=\"b\" parent=\"a\" desc=\"step b\" >\n/bin/true\n</step>\n";
    assert_eq!(
        collect_steps(&lines(text)).err().unwrap(),
        "Reference as parent for a but does not exist yet!"
    );
}

#[test]
fn parent_must_come_earlier() {
    let text = "<plan id=\"p\" >\n</plan>\n<step name=\"b\" parent=\"b\" desc=\"self parent\" >\n/bin/true\n</step>\n";
    assert!(collect_steps(&lines(text)).is_err());
}

#[test]
fn validation_errors_are_reported() {
    let text = "<plan id=\"p\" >\n</plan>\n<recovery name=\"r\" >\n</recovery>\n";
    assert_eq!(
        collect_steps(&lines(text)).err().unwrap(),
        "Description cannot be empty!\nAction must be specified!\nRecovery step must have parent!\n"
    );
}

#[test]
fn setenv_without_value_is_an_error() {
    let text = "<plan id=\"p\" >\n</plan>\n<step name=\"a\" desc=\"x y\" setenv=\"K\" >\n/bin/true\n</step>\n";
    assert_eq!(
        collect_steps(&lines(text)).err().unwrap(),
        "Key and/or value is missing in setenv option"
    );
}

#[test]
fn comments_blank_lines_and_multiword_values() {
    let text = "# a comment\n\n<plan id=\"multi\" >\n</plan>\n<step name=\"a\" desc=\"one two three\" user=\"ops\" setenv=\"GREETING hello big world\" >\n  echo hi > /tmp/out\n</step>\n";
    let plan = collect_steps(&lines(text)).unwrap();
    assert_eq!(plan.id, "multi");
    let s = &plan.steps[0];
    assert_eq!(s.description, "one two three");
    assert_eq!(s.user, Some("ops".to_string()));
    assert_eq!(s.envvars, vec![("GREETING".to_string(), "hello big world".to_string())]);
    assert_eq!(s.action.as_ref().unwrap().cmd, vec!["echo", "hi", ">", "/tmp/out"]);
}

#[test]
fn linear_plan_parents_precede_children() {
    let text = "<plan id=\"linear\" >\n</plan>\n<step name=\"A\" desc=\"first step\" >\n/bin/true\n</step>\n<step name=\"B\" parent=\"A\" desc=\"second step\" >\n/bin/true\n</step>\n<step name=\"C\" parent=\"B\" desc=\"third step\" >\n/bin/echo hi\n</step>\n";
    let plan = collect_steps(&lines(text)).unwrap();
    let names: Vec<&str> = plan.steps.iter().map(|s| s.step_name.as_str()).collect();
    assert_eq!(names, vec!["A", "B", "C"]);
    for (i, s) in plan.steps.iter().enumerate() {
        if let Some(p) = &s.parent {
            assert!(plan.steps[..i].iter().any(|e| &e.step_name == p));
        }
    }
}

#[test]
fn steps_render_as_records() {
    let plan = collect_steps(&lines(EXAMPLE)).unwrap();
    let fetch = hephaestus::service::step_record(&plan.steps[0]);
    assert_eq!(fetch.name, "fetch");
    assert_eq!(fetch.desc, "download the file");
    assert_eq!(fetch.kind, "step");
    assert_eq!(fetch.user, "");
    assert_eq!(fetch.action, "cd /var/work && curl -O https://example.org/data.csv");
    assert_eq!(fetch.parent, "");
    assert_eq!(fetch.envvars, vec![("TOKEN".to_string(), "abc123".to_string())]);
    let cleanup = hephaestus::service::step_record(&plan.steps[1]);
    assert_eq!(cleanup.kind, "recovery");
    assert_eq!(cleanup.parent, "fetch");
    assert_eq!(cleanup.action, "rm -f /var/work/data.csv");
}

#[test]
fn plan_without_steps() {
    let plan = collect_steps(&lines("<plan id=\"empty\" >\n</plan>\n")).unwrap();
    assert_eq!(plan.id, "empty");
    assert!(plan.steps.is_empty());
    assert_eq!(collect_steps(&Vec::new()).err().unwrap(), "Plan ID is missing");
}

#[test]
fn repeated_env_key_keeps_last_value() {
    let text = "<plan id=\"p\" >\n</plan>\n<step name=\"a\" desc=\"env twice\" setenv=\"K one\" setenv=\"K two\" setenv=\"L x\" >\n/bin/true\n</step>\n";
    let plan = collect_steps(&lines(text)).unwrap();
    assert_eq!(
        plan.steps[0].envvars,
        vec![("K".to_string(), "two".to_string()), ("L".to_string(), "x".to_string())]
    );
}

#[test]
fn recovery_needs_a_parent_in_the_file() {
    let text = "<plan id=\"p\" >\n</plan>\n<recovery name=\"r\" desc=\"fix it\" >\n/bin/true\n</recovery>\n";
    assert_eq!(collect_steps(&lines(text)).err().unwrap(), "Recovery step must have parent!\n");
}

#[test]
fn multiword_name_is_refused() {
    let text = "<plan id=\"p\" >\n</plan>\n<step name=\"my step\" desc=\"two words\" >\n/bin/true\n</step>\n";
    assert_eq!(
        collect_steps(&lines(text)).err().unwrap(),
        "Only desc and setenv values may contain spaces: name=\"my"
    );
    let text = "<plan id=\"p\" >\n</plan>\n<step name=\"a\" user=\"the ops\" desc=\"x\" >\n/bin/true\n</step>\n";
    assert_eq!(
        collect_steps(&lines(text)).err().unwrap(),
        "Only desc and setenv values may contain spaces: user=\"the"
    );
}

#[test]
fn multiword_plan_id_is_refused() {
    let text = "<plan id=\"daily etl\" >\n</plan>\n";
    assert_eq!(
        collect_steps(&lines(text)).err().unwrap(),
        "Only desc and setenv values may contain spaces: id=\"daily"
    );
}
