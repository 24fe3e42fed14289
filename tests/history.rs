use hephaestus::history::{archive_path, archive_text, History, HistoryKey};
use hephaestus::model::StepOutputType;
use hephaestus::service::submit;

fn key(id: u32) -> HistoryKey {
    HistoryKey { id, set: String::new(), plan: String::new() }
}

#[test]
fn ids_start_at_one_and_grow() {
    let mut h = History::new();
    let a = h.allocate("set".to_string(), "plan".to_string()).unwrap();
    let b = h.allocate("set".to_string(), "plan".to_string()).unwrap();
    let c = h.allocate("other".to_string(), "x".to_string()).unwrap();
    assert_eq!((a.id, b.id, c.id), (1, 2, 3));
    assert_eq!(c.set, "other");
    assert_eq!(h.read(2), Some(Vec::new()));
}

#[test]
fn ids_follow_the_largest_held() {
    let mut h = History::new();
    h.allocate("s".to_string(), "p".to_string()).unwrap();
    h.allocate("s".to_string(), "p".to_string()).unwrap();
    assert!(h.remove(1));
    let k = h.allocate("s".to_string(), "p".to_string()).unwrap();
    assert_eq!(k.id, 3);
}

#[test]
fn allocation_fails_when_ids_are_exhausted() {
    let mut h = History::new();
    h.append(&key(u32::MAX), vec!["x".to_string()]);
    assert!(h.allocate("s".to_string(), "p".to_string()).is_none());
    assert_eq!(h.list_ids().len(), 1);
}

#[test]
fn append_and_read() {
    let mut h = History::new();
    let k = h.allocate("s".to_string(), "p".to_string()).unwrap();
    h.append(&k, vec!["one".to_string(), "two".to_string()]);
    h.append(&key(k.id), vec!["three".to_string()]);
    assert_eq!(h.read(k.id).unwrap(), vec!["one", "two", "three"]);
    assert_eq!(h.read(k.id + 1), None);
}

#[test]
fn keys_compare_by_id() {
    let a = HistoryKey { id: 4, set: "s".to_string(), plan: "p".to_string() };
    assert!(a == key(4));
    assert!(a != key(5));
    assert_eq!(a.label(), "s.p(4)");
}

#[test]
fn archive_evicts_and_append_recreates() {
    let mut h = History::new();
    let k = h.allocate("s".to_string(), "p".to_string()).unwrap();
    h.append(&k, vec!["a".to_string(), "b".to_string(), "c".to_string()]);
    let (snap_key, snap_lines) = h.snapshot(k.id).unwrap();
    assert_eq!(snap_key.set, "s");
    assert_eq!(snap_lines, h.read(k.id).unwrap());
    assert!(h.remove(k.id));
    assert_eq!(h.read(k.id), None);
    assert!(!h.remove(k.id));
    h.append(&k, vec!["late".to_string()]);
    assert_eq!(h.read(k.id).unwrap(), vec!["late"]);
}

#[test]
fn archive_file_round_trip() {
    let lines = vec!["first".to_string(), "second".to_string(), "third".to_string()];
    let text = archive_text(&lines);
    assert_eq!(text, "first\nsecond\nthird\n");
    let back: Vec<&str> = text.lines().collect();
    assert_eq!(back, vec!["first", "second", "third"]);
    assert_eq!(archive_text(&Vec::new()), "");
}

#[test]
fn archive_file_name() {
    let k = HistoryKey { id: 12, set: "daily".to_string(), plan: "etl".to_string() };
    assert_eq!(archive_path("/var/log/plans", &k, 1700000000), "/var/log/plans/daily.etl(12)_1700000000.log");
}

#[test]
fn list_keeps_submission_order() {
    let mut h = History::new();
    h.allocate("a".to_string(), "x".to_string()).unwrap();
    h.allocate("b".to_string(), "y".to_string()).unwrap();
    let ids: Vec<u32> = h.list_ids().iter().map(|k| k.id).collect();
    assert_eq!(ids, vec![1, 2]);
    assert_eq!(h.list_ids()[1].plan, "y");
}

#[test]
fn parse_error_is_logged_on_submit() {
    let mut h = History::new();
    let lines = vec!["<step name=\"a\" desc=\"step a\" >".to_string(), "/bin/true".to_string(), "</step>".to_string()];
    let r = submit(&mut h, "set", "plan", Ok(lines));
    assert_eq!(r.err().unwrap(), "Plan ID is missing");
    let log = h.read(1).unwrap();
    assert_eq!(log.len(), 1);
    assert!(log[0].contains(" E ----> set/plan => Failed to parse the plan: Plan ID is missing"));
}

#[test]
fn unreadable_file_is_logged_on_submit() {
    let mut h = History::new();
    let r = submit(&mut h, "set", "gone", Err("cannot open".to_string()));
    assert_eq!(r.err().unwrap(), "cannot open");
    let log = h.read(1).unwrap();
    assert!(log[0].ends_with("E ----> set/gone => Failed to parse the plan: cannot open"));
}

#[test]
fn successful_submit_returns_plan() {
    let mut h = History::new();
    let lines: Vec<String> = "<plan id=\"p\" >\n</plan>\n<step name=\"a\" desc=\"step a\" >\n/bin/true\n</step>"
        .lines()
        .map(|l| l.to_string())
        .collect();
    let (k, plan) = submit(&mut h, "set", "plan", Ok(lines)).unwrap();
    assert_eq!(k.id, 1);
    assert_eq!(plan.id, "p");
    let log = h.read(1).unwrap();
    assert_eq!(log.len(), 1);
    assert!(log[0].ends_with(&format!(" {} ----> set/plan => Plan has initialized", StepOutputType::Info.label())));
}

#[test]
fn submissions_get_growing_ids() {
    let mut h = History::new();
    let first = submit(&mut h, "s", "p", Err("x".to_string()));
    assert!(first.is_err());
    let ok_lines: Vec<String> = vec!["<plan id=\"p\" ></plan>".to_string()];
    let (k, _) = submit(&mut h, "s", "p", Ok(ok_lines)).unwrap();
    assert_eq!(k.id, 2);
}
