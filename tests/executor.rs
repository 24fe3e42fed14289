use hephaestus::clock::{format_log_line, format_timestamp, msg_with_time_stamp, time_is_now, LocalTime};
use hephaestus::executor::{exit_outcome, merge_outputs, missing_workdir, strip_newlines, wait_failure, Launch};
use hephaestus::model::{Action, Step, StepOutput, StepOutputType, StepStatus, StepType};
use hephaestus::service::output_lines;

fn out(time: &str, text: &str, t: StepOutputType) -> StepOutput {
    StepOutput { time: time.to_string(), text: text.to_string(), out_type: t }
}

fn step_with(cmd: Vec<&str>, user: Option<&str>) -> Step {
    let mut s = Step::new_empty();
    s.step_name = "s".to_string();
    s.description = "d".to_string();
    s.step_type = StepType::Action;
    s.user = user.map(|u| u.to_string());
    s.action = Some(Action { cmd: cmd.into_iter().map(|c| c.to_string()).collect(), cwd: None });
    s
}

#[test]
fn launch_through_bash() {
    match step_with(vec!["/bin/echo", "hi"], None).launch() {
        Launch::Spawn { program, args } => {
            assert_eq!(program, "bash");
            assert_eq!(args, vec!["-c", "/bin/echo hi"]);
        }
        Launch::Refuse { .. } => panic!("expected a spawn"),
    }
}

#[test]
fn launch_under_user() {
    match step_with(vec!["id"], Some("ops")).launch() {
        Launch::Spawn { program, args } => {
            assert_eq!(program, "/usr/bin/sudo");
            assert_eq!(args, vec!["-u", "ops", "bash", "-c", "id"]);
        }
        Launch::Refuse { .. } => panic!("expected a spawn"),
    }
}

#[test]
fn empty_command_fails() {
    match step_with(vec![], None).launch() {
        Launch::Refuse { status, message } => {
            assert_eq!(status, StepStatus::Failed);
            assert_eq!(message, Some("Command is not specified".to_string()));
        }
        Launch::Spawn { .. } => panic!("expected a refusal"),
    }
    match Step::new_empty().launch() {
        Launch::Refuse { status, message } => {
            assert_eq!(status, StepStatus::Nok);
            assert_eq!(message, None);
        }
        Launch::Spawn { .. } => panic!("expected a refusal"),
    }
}

#[test]
fn missing_workdir_message() {
    let outcome = missing_workdir("/does/not/exist");
    assert_eq!(outcome.status, StepStatus::Failed);
    assert_eq!(outcome.out_type, StepOutputType::Error);
    assert_eq!(outcome.text, "Work directory does not exist: /does/not/exist");
}

#[test]
fn exit_codes_are_classified() {
    let ok = exit_outcome(Some(0));
    assert_eq!(ok.status, StepStatus::Success);
    assert_eq!(ok.out_type, StepOutputType::Info);
    assert_eq!(ok.text, "----> Step is ended with exit code 0");
    let nok = exit_outcome(Some(1));
    assert_eq!(nok.status, StepStatus::Nok);
    assert_eq!(nok.out_type, StepOutputType::Error);
    assert_eq!(nok.text, "----> Step is ended with exit code 1");
    assert_eq!(exit_outcome(Some(-3)).text, "----> Step is ended with exit code -3");
    assert_eq!(exit_outcome(Some(127)).text, "----> Step is ended with exit code 127");
    let killed = exit_outcome(None);
    assert_eq!(killed.status, StepStatus::Nok);
    assert_eq!(killed.text, "----> Step is ended without exit code");
    let failed = wait_failure("no child");
    assert_eq!(failed.status, StepStatus::Failed);
    assert_eq!(failed.text, "----> Step is failed: no child");
}

#[test]
fn outputs_merge_in_time_order() {
    let stdout = vec![
        out("2024-01-01 10:00:00", "a\n", StepOutputType::Info),
        out("2024-01-01 10:00:02", "c\n", StepOutputType::Info),
    ];
    let stderr = vec![
        out("2024-01-01 10:00:01", "b\n", StepOutputType::Error),
        out("2024-01-01 10:00:02", "d\n", StepOutputType::Error),
    ];
    let merged = merge_outputs(stdout, stderr);
    let texts: Vec<&str> = merged.iter().map(|o| o.text.as_str()).collect();
    assert_eq!(texts, vec!["a", "b", "c", "d"]);
    for w in merged.windows(2) {
        assert!(w[0].time <= w[1].time);
    }
    assert_eq!(merged[1].out_type, StepOutputType::Error);
}

#[test]
fn merge_sorts_unordered_input_stably() {
    let stdout = vec![
        out("2024-01-01 10:00:05", "late", StepOutputType::Info),
        out("2024-01-01 10:00:01", "early", StepOutputType::Info),
        out("2024-01-01 10:00:05", "late too", StepOutputType::Info),
    ];
    let merged = merge_outputs(stdout, Vec::new());
    let texts: Vec<&str> = merged.iter().map(|o| o.text.as_str()).collect();
    assert_eq!(texts, vec!["early", "late", "late too"]);
    assert!(merge_outputs(Vec::new(), Vec::new()).is_empty());
}

#[test]
fn newlines_are_stripped() {
    assert_eq!(strip_newlines("hi\n"), "hi");
    assert_eq!(strip_newlines("a\nb\n\n"), "ab");
    assert_eq!(strip_newlines("plain"), "plain");
}

#[test]
fn step_output_becomes_log_lines() {
    let lines = output_lines(&vec![
        out("2024-01-01 10:00:00", "hi", StepOutputType::Info),
        out("2024-01-01 10:00:01", "oops", StepOutputType::Error),
    ]);
    assert_eq!(lines, vec!["2024-01-01 10:00:00 I hi", "2024-01-01 10:00:01 E oops"]);
}

#[test]
fn timestamps_are_zero_padded() {
    let t = LocalTime { year: 2024, month: 3, day: 7, hour: 4, minute: 5, second: 9 };
    assert_eq!(format_timestamp(&t), "2024-03-07 04:05:09");
    let t = LocalTime { year: 1999, month: 12, day: 31, hour: 23, minute: 59, second: 58 };
    assert_eq!(format_timestamp(&t), "1999-12-31 23:59:58");
    let t = LocalTime { year: -44, month: 1, day: 1, hour: 0, minute: 0, second: 0 };
    assert_eq!(format_timestamp(&t), "-44-01-01 00:00:00");
}

#[test]
fn log_lines_have_time_channel_and_text() {
    assert_eq!(format_log_line("2024-01-01 00:00:00", StepOutputType::Error, "bad"), "2024-01-01 00:00:00 E bad");
    let now = time_is_now();
    assert_eq!(now.len(), 19);
    assert_eq!(&now[4..5], "-");
    let line = msg_with_time_stamp("----> A => Pending", StepOutputType::Info);
    assert!(line.ends_with(" I ----> A => Pending"));
    assert_eq!(line.len(), 19 + 3 + "----> A => Pending".len());
}

#[test]
fn action_renders_with_cwd() {
    let a = Action { cmd: vec!["ls".to_string(), "-l".to_string()], cwd: Some("/tmp".to_string()) };
    assert_eq!(a.render(), "cd /tmp && ls -l");
    let b = Action::new("uptime".to_string(), None);
    assert_eq!(b.render(), "uptime");
    assert_eq!(b.cmd, vec!["uptime"]);
}

#[test]
fn linear_success_log_holds_echo_output() {
    let merged = merge_outputs(vec![out("2024-01-01 10:00:00", "hi\n", StepOutputType::Info)], Vec::new());
    let lines = output_lines(&merged);
    assert_eq!(lines, vec!["2024-01-01 10:00:00 I hi"]);
}

#[test]
fn decided_step_adds_output_then_status() {
    let lines = hephaestus::service::decided_step_lines(
        &vec![out("2024-01-01 10:00:00", "hi", StepOutputType::Info)],
        "C",
        StepStatus::Success,
    );
    assert_eq!(lines.len(), 2);
    assert_eq!(lines[0], "2024-01-01 10:00:00 I hi");
    assert!(lines[1].ends_with(" I ----> C => OK"));
    let skipped = hephaestus::service::decided_step_lines(&Vec::new(), "R", StepStatus::NotRun);
    assert_eq!(skipped.len(), 1);
    assert!(skipped[0].ends_with(" I ----> R => Did not run"));
    assert!(hephaestus::service::pending_entry("A").ends_with(" I ----> A => Pending"));
    assert!(hephaestus::service::end_entry(StepStatus::Nok).ends_with(" I ----> Plan is ended, overall status: NOK"));
}
