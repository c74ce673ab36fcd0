use chrono::{Datelike, NaiveDate};
use todome::cache::DocumentCache;
use todome::diagnostics::{check_dates, DiagKind, Finding, Severity};
use todome::document::Document;
use todome::model::{ParseError, RawNode};
use todome::position::{Position, Range};
use todome::syntax::{Date, TextRange};

fn day(y: i32, m: u32, d: u32) -> Date {
    Date { days: NaiveDate::from_ymd_opt(y, m, d).unwrap().num_days_from_ce() }
}

fn node(kind: &str, src: &str, start: usize, end: usize, children: Vec<RawNode>) -> RawNode {
    RawNode {
        kind: kind.to_string(),
        start,
        end,
        text: src[start..end].to_string(),
        is_error: false,
        children,
    }
}

fn status(src: &str, at: usize, kind: &str) -> RawNode {
    node("status", src, at, at + 1, vec![node(kind, src, at, at + 1, vec![])])
}

/// A date node over `[start, end)` whose bounds are the given literal slices.
fn date(src: &str, start: usize, end: usize, bounds: Vec<(&str, usize, usize)>) -> RawNode {
    let children = bounds.into_iter().map(|(k, s, e)| node(k, src, s, e, vec![])).collect();
    node("date", src, start, end, children)
}

fn diag_range(l0: u32, c0: u32, l1: u32, c1: u32) -> Range {
    Range { start: Position { line: l0, character: c0 }, end: Position { line: l1, character: c1 } }
}

#[test]
fn syntax_error_is_reported() {
    let src = "+ (A (2024-01-01) broken";
    let mut err = node("ERROR", src, 2, src.len(), vec![]);
    err.is_error = true;
    let root = node("source_file", src, 0, src.len(), vec![err]);
    let d = Document::parse(src.to_string(), Some(&root)).unwrap();
    let diags = d.diagnostics_on(day(2024, 1, 1));
    let errors: Vec<_> = diags.iter().filter(|g| g.severity == Severity::Error && g.message == "Syntax error").collect();
    assert!(!errors.is_empty());
    assert_eq!(errors[0].range, diag_range(0, 2, 0, 24));
    assert_eq!(errors[0].source, "todome");
}

#[test]
fn overdue_deadline_underlines_the_text() {
    let src = "+ task (2024-05-01!) important";
    let task = node(
        "task",
        src,
        0,
        src.len(),
        vec![
            status(src, 0, "status_todo"),
            date(src, 7, 20, vec![("deadline", 8, 18)]),
            node("text", src, 21, 30, vec![]),
        ],
    );
    let root = node("source_file", src, 0, src.len(), vec![task]);
    let d = Document::parse(src.to_string(), Some(&root)).unwrap();
    let diags = d.diagnostics_on(day(2024, 6, 1));
    assert_eq!(diags.len(), 1);
    assert_eq!(diags[0].severity, Severity::Error);
    assert_eq!(diags[0].message, format!("this{}", " task is OVERDUE!"));
    assert_eq!(diags[0].range, diag_range(0, 21, 0, 30));
    assert!(!diags[0].unnecessary);
}

fn one_task_with_dates(src: &str, bounds: Vec<(&str, usize, usize)>, date_end: usize) -> Document {
    let task = node(
        "task",
        src,
        0,
        src.len(),
        vec![date(src, 2, date_end, bounds), node("text", src, date_end + 1, src.len(), vec![])],
    );
    let root = node("source_file", src, 0, src.len(), vec![task]);
    Document::parse(src.to_string(), Some(&root)).unwrap()
}

#[test]
fn start_after_deadline_reported_once() {
    let src = "+ (2024-02-01~2024-01-01!) job";
    let d = one_task_with_dates(src, vec![("start", 3, 13), ("deadline", 14, 24)], 26);
    let diags = d.diagnostics_on(day(2023, 1, 1));
    let hits: Vec<_> = diags.iter().filter(|g| g.message == "start date must be earlier than deadline.").collect();
    assert_eq!(hits.len(), 1);
    assert_eq!(hits[0].severity, Severity::Error);
    assert_eq!(hits[0].range, diag_range(0, 2, 0, 26));
    // the start date lies ahead, so the task is not started yet either
    assert!(diags.iter().any(|g| g.message == format!("this{}", " task is not started yet.") && g.severity == Severity::Hint && g.unnecessary));
}

#[test]
fn task_under_done_header_is_silent() {
    let src = "- # done\n\t+ (2024-05-01!) late";
    let inner = node(
        "task",
        src,
        10,
        src.len(),
        vec![date(src, 12, 25, vec![("deadline", 13, 23)]), node("text", src, 26, src.len(), vec![])],
    );
    let header = node("header", src, 0, src.len(), vec![status(src, 0, "status_done"), inner]);
    let root = node("source_file", src, 0, src.len(), vec![header]);
    let d = Document::parse(src.to_string(), Some(&root)).unwrap();
    assert!(d.diagnostics_on(day(2024, 6, 1)).is_empty());
}

#[test]
fn own_status_overrides_done_ancestor() {
    let src = "- # done\n\t+ (2024-05-01!) late";
    let inner = node(
        "task",
        src,
        10,
        src.len(),
        vec![
            status(src, 10, "status_todo"),
            date(src, 12, 25, vec![("deadline", 13, 23)]),
            node("text", src, 26, src.len(), vec![]),
        ],
    );
    let header = node("header", src, 0, src.len(), vec![status(src, 0, "status_done"), inner]);
    let root = node("source_file", src, 0, src.len(), vec![header]);
    let d = Document::parse(src.to_string(), Some(&root)).unwrap();
    let diags = d.diagnostics_on(day(2024, 6, 1));
    assert_eq!(diags.len(), 1);
    assert_eq!(diags[0].message, format!("this{}", " task is OVERDUE!"));
    assert_eq!(diags[0].range, diag_range(1, 17, 1, 21));
}

#[test]
fn cancelled_task_is_silent() {
    let src = "= (2024-05-01!) late";
    let task = node(
        "task",
        src,
        0,
        src.len(),
        vec![status(src, 0, "status_cancel"), date(src, 2, 15, vec![("deadline", 3, 13)]), node("text", src, 16, 20, vec![])],
    );
    let root = node("source_file", src, 0, src.len(), vec![task]);
    let d = Document::parse(src.to_string(), Some(&root)).unwrap();
    assert!(d.diagnostics_on(day(2024, 6, 1)).is_empty());
}

#[test]
fn date_rules_table() {
    let dr = TextRange { start: 1, end: 2 };
    let lr = TextRange { start: 3, end: 4 };
    let t = day(2024, 6, 10);
    let f = |kind| Finding { kind, range: lr };
    // deadline today, target today
    assert_eq!(
        check_dates(None, Some(t), Some(t), dr, lr, t),
        vec![f(DiagKind::TargetToday), f(DiagKind::DueToday)]
    );
    // deadline in 7 days is coming up; in 8 days it is not
    assert_eq!(check_dates(None, None, Some(day(2024, 6, 17)), dr, lr, t), vec![f(DiagKind::DeadlineSoon)]);
    assert!(check_dates(None, None, Some(day(2024, 6, 18)), dr, lr, t).is_empty());
    // target passed
    assert_eq!(check_dates(None, Some(day(2024, 6, 9)), None, dr, lr, t), vec![f(DiagKind::TargetOver)]);
    // every ordering conflict
    let got = check_dates(Some(day(2024, 6, 30)), Some(day(2024, 6, 20)), Some(day(2024, 6, 15)), dr, lr, t);
    assert_eq!(
        got,
        vec![
            Finding { kind: DiagKind::StartAfterTarget, range: dr },
            Finding { kind: DiagKind::TargetAfterDeadline, range: dr },
            Finding { kind: DiagKind::StartAfterDeadline, range: dr },
            f(DiagKind::NotStarted),
            f(DiagKind::DeadlineSoon),
        ]
    );
    assert_eq!(DiagKind::TargetAfterDeadline.message(), "target date must be earlier than deadline.");
    assert_eq!(DiagKind::StartAfterTarget.message(), "start date must be earlier than target date.");
    assert_eq!(DiagKind::NotStarted.severity(), Severity::Hint);
    assert_eq!(DiagKind::TargetOver.severity(), Severity::Warning);
    assert_eq!(DiagKind::DeadlineSoon.severity(), Severity::Information);
}

#[test]
fn reregistering_gives_the_same_diagnostics() {
    let src = "+ task (2024-05-01!) important";
    let tree = || {
        let task = node(
            "task",
            src,
            0,
            src.len(),
            vec![date(src, 7, 20, vec![("deadline", 8, 18)]), node("text", src, 21, 30, vec![])],
        );
        node("source_file", src, 0, src.len(), vec![task])
    };
    let id = "file:///a.todome".to_string();
    let mut once = DocumentCache::new();
    once.register_or_update(&id, src.to_string(), Some(&tree())).unwrap();
    let mut twice = DocumentCache::new();
    twice.register_or_update(&id, src.to_string(), Some(&tree())).unwrap();
    twice.register_or_update(&id, src.to_string(), Some(&tree())).unwrap();
    let today = day(2024, 6, 1);
    let a = once.get(&id).unwrap().diagnostics_on(today);
    let b = twice.get(&id).unwrap().diagnostics_on(today);
    assert_eq!(a.len(), b.len());
    for (x, y) in a.iter().zip(b.iter()) {
        assert_eq!(x.range, y.range);
        assert_eq!(x.message, y.message);
        assert_eq!(x.severity, y.severity);
    }
    assert!(twice.get(&"file:///other".to_string()).is_none());
}

#[test]
fn failed_registration_keeps_previous_document() {
    let src = "+ a";
    let good = node("source_file", src, 0, 3, vec![node("task", src, 0, 3, vec![node("text", src, 2, 3, vec![])])]);
    let id = "doc".to_string();
    let mut cache = DocumentCache::new();
    cache.register_or_update(&id, src.to_string(), Some(&good)).unwrap();
    let r = cache.register_or_update(&id, "+ b c".to_string(), None);
    assert_eq!(r.err(), Some(ParseError::ParserFailed));
    assert_eq!(cache.get(&id).unwrap().text(), "+ a");
}

#[test]
fn parse_errors() {
    let src = "+ (2024-13-45!) x";
    let bad_date = node(
        "source_file",
        src,
        0,
        src.len(),
        vec![node("task", src, 0, src.len(), vec![date(src, 2, 15, vec![("deadline", 3, 13)]), node("text", src, 16, 17, vec![])])],
    );
    assert_eq!(Document::parse(src.to_string(), Some(&bad_date)).err(), Some(ParseError::BadDate));
    let no_text = node("source_file", src, 0, src.len(), vec![node("task", src, 0, 1, vec![])]);
    assert_eq!(Document::parse(src.to_string(), Some(&no_text)).err(), Some(ParseError::MissingText));
    let mut past_end = node("source_file", src, 0, src.len(), vec![]);
    past_end.end = src.len() + 1;
    assert_eq!(Document::parse(src.to_string(), Some(&past_end)).err(), Some(ParseError::BadRange));
    assert_eq!(Document::parse(src.to_string(), None).err(), Some(ParseError::ParserFailed));
}

#[test]
fn current_date_diagnostics_run() {
    let src = "+ a";
    let root = node("source_file", src, 0, 3, vec![node("task", src, 0, 3, vec![node("text", src, 2, 3, vec![])])]);
    let d = Document::parse(src.to_string(), Some(&root)).unwrap();
    assert!(d.get_diagnostics().is_empty());
}

#[test]
fn closing_removes_only_that_document() {
    let src = "+ a";
    let tree = || node("source_file", src, 0, 3, vec![node("task", src, 0, 3, vec![node("text", src, 2, 3, vec![])])]);
    let a = "a".to_string();
    let b = "b".to_string();
    let mut cache = DocumentCache::new();
    cache.register_or_update(&a, src.to_string(), Some(&tree())).unwrap();
    cache.register_or_update(&b, src.to_string(), Some(&tree())).unwrap();
    cache.remove(&a);
    assert!(cache.get(&a).is_none());
    assert_eq!(cache.get(&b).unwrap().text(), "+ a");
    cache.remove(&a);
    assert!(cache.get(&b).is_some());
}
