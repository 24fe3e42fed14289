use hephaestus::cli::check_hostname;
use hephaestus::commands::{command_coordinator, help, list_ids, split_command, status, Command};
use hephaestus::history::History;
use hephaestus::model::{Step, StepStatus, StepType};
use hephaestus::service::{conf_stem, end_line, pending_line, status_line};
use hephaestus::text::{parse_u32, parse_u64};

#[test]
fn verbs_pick_commands() {
    assert_eq!(command_coordinator("list"), Ok(Command::List));
    assert_eq!(command_coordinator("exec"), Ok(Command::Exec));
    assert_eq!(command_coordinator("status"), Ok(Command::Status));
    assert_eq!(command_coordinator("help"), Ok(Command::Help));
    assert_eq!(command_coordinator("plans"), Ok(Command::Plans));
    assert_eq!(command_coordinator("dump"), Ok(Command::Dump));
    assert_eq!(command_coordinator("nope"), Err("Invalid command verb".to_string()));
}

#[test]
fn requests_split_into_verb_and_options() {
    let (verb, options) = split_command("  exec  daily   etl ");
    assert_eq!(verb, "exec");
    assert_eq!(options, vec!["daily", "etl"]);
    let (verb, options) = split_command("   ");
    assert_eq!(verb, "");
    assert!(options.is_empty());
}

#[test]
fn help_lists_requests() {
    let text = help(&Vec::new()).unwrap();
    assert!(text.starts_with("Possible actions:\n"));
    assert!(text.contains("status <plan-id>"));
}

#[test]
fn status_of_runs() {
    let mut h = History::new();
    let k = h.allocate("s".to_string(), "p".to_string()).unwrap();
    h.append(&k, vec!["x".to_string(), "y".to_string()]);
    assert_eq!(status(&vec!["1".to_string()], &h), Ok("x\ny\n".to_string()));
    assert_eq!(status(&Vec::new(), &h), Err("Plan ID is not specified".to_string()));
    assert_eq!(status(&vec!["abc".to_string()], &h), Err("Wrong plan ID is specified: abc".to_string()));
    assert_eq!(status(&vec!["7".to_string()], &h), Err("No status was found for this ID: 7".to_string()));
    assert_eq!(
        status(&vec!["4294967296".to_string()], &h),
        Err("No status was found for this ID: 4294967296".to_string())
    );
    assert_eq!(
        status(&vec!["18446744073709551616".to_string()], &h),
        Err("Wrong plan ID is specified: 18446744073709551616".to_string())
    );
}

#[test]
fn ids_are_listed() {
    let mut h = History::new();
    assert_eq!(list_ids(&Vec::new(), &h), Ok(String::new()));
    h.allocate("s".to_string(), "p".to_string()).unwrap();
    h.allocate("s".to_string(), "p".to_string()).unwrap();
    assert_eq!(list_ids(&Vec::new(), &h), Ok("1\n2\n".to_string()));
}

#[test]
fn numbers_parse() {
    assert_eq!(parse_u32("3041"), Some(3041));
    assert_eq!(parse_u32("+7"), Some(7));
    assert_eq!(parse_u32("4294967295"), Some(u32::MAX));
    assert_eq!(parse_u32("4294967296"), None);
    assert_eq!(parse_u32(""), None);
    assert_eq!(parse_u32("+"), None);
    assert_eq!(parse_u32("12a"), None);
    assert_eq!(parse_u64("4294967296"), Some(4294967296));
    assert_eq!(parse_u64("18446744073709551615"), Some(u64::MAX));
    assert_eq!(parse_u64("18446744073709551616"), None);
}

#[test]
fn hostnames_are_checked() {
    assert_eq!(check_hostname("http://127.0.0.1:3041"), Ok("http://127.0.0.1:3041".to_string()));
    assert_eq!(check_hostname("https://host:443"), Ok("https://host:443".to_string()));
    assert_eq!(check_hostname("cfg://atihome"), Ok("cfg://atihome".to_string()));
    assert_eq!(
        check_hostname("ftp://host:21"),
        Err("Protocol for hostname can be http:// or https:// or cfg://. ".to_string())
    );
    assert_eq!(
        check_hostname("http://host"),
        Err("Port number is not specified after the hostname. ".to_string())
    );
    assert_eq!(check_hostname("http://host:abc"), Err("Failed to convert port number to numbers".to_string()));
    assert_eq!(check_hostname("http://host:70000"), Err("Port number can be between 0..65535".to_string()));
}

#[test]
fn plan_files_are_named_by_stem() {
    assert_eq!(conf_stem("daily.conf"), Some("daily".to_string()));
    assert_eq!(conf_stem("a.b.conf"), Some("a.b".to_string()));
    assert_eq!(conf_stem("notes.txt"), None);
    assert_eq!(conf_stem("conf"), None);
}

#[test]
fn run_log_messages() {
    assert_eq!(pending_line("A"), "----> A => Pending");
    assert_eq!(status_line("A", StepStatus::Success), "----> A => OK");
    assert_eq!(status_line("B", StepStatus::NotRun), "----> B => Did not run");
    assert_eq!(end_line(StepStatus::Nok), "----> Plan is ended, overall status: NOK");
    assert_eq!(StepStatus::Failed.label(), "Failed");
    assert_eq!(StepType::Recovery.label(), "recovery");
    assert_eq!(StepType::Action.label(), "step");
}

#[test]
fn validate_reports_every_missing_field() {
    let s = Step::new_empty();
    assert_eq!(
        s.validate(),
        Err("Step name cannot be empty!\nDescription cannot be empty!\nStep type must be specified!\nAction must be specified!\n".to_string())
    );
}
