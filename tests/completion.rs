use chrono::{Datelike, NaiveDate};
use todome::completion::CompletionItem;
use todome::document::Document;
use todome::model::RawNode;
use todome::position::{Position, Range};
use todome::syntax::Date;

fn day(y: i32, m: u32, d: u32) -> Date {
    Date { days: NaiveDate::from_ymd_opt(y, m, d).unwrap().num_days_from_ce() }
}

fn node(kind: &str, src: &str, start: usize, end: usize, children: Vec<RawNode>) -> RawNode {
    RawNode {
        kind: kind.to_string(),
        start,
        end,
        text: src[start..end].to_string(),
        is_error: false,
        children,
    }
}

fn error(src: &str, start: usize, end: usize) -> RawNode {
    let mut n = node("ERROR", src, start, end, vec![]);
    n.is_error = true;
    n
}

fn labels(items: &[CompletionItem]) -> Vec<String> {
    items.iter().map(|i| i.label.clone()).collect()
}

#[test]
fn category_completion_offers_other_categories() {
    let src = "+ a [work]\n+ b [";
    let t1 = node("task", src, 0, 10, vec![node("text", src, 2, 3, vec![]), node("category", src, 4, 10, vec![])]);
    let t2 = node("task", src, 11, 16, vec![node("text", src, 13, 14, vec![]), error(src, 15, 16)]);
    let root = node("source_file", src, 0, src.len(), vec![t1, t2]);
    let d = Document::parse(src.to_string(), Some(&root)).unwrap();
    let items = d.completions_at(Position { line: 1, character: 5 }, Some('['), day(2024, 1, 1));
    assert_eq!(labels(&items), vec!["[work]".to_string()]);
    assert_eq!(items[0].new_text, "[work]");
    assert_eq!(
        items[0].range,
        Range { start: Position { line: 1, character: 4 }, end: Position { line: 1, character: 5 } }
    );
    assert!(items[0].detail.is_none());
}

#[test]
fn category_completion_swallows_closing_bracket_and_dedups() {
    let src = "+ a [x] [y]\n+ b [x]\n+ c []";
    let t1 = node(
        "task",
        src,
        0,
        11,
        vec![node("text", src, 2, 3, vec![]), node("category", src, 4, 7, vec![]), node("category", src, 8, 11, vec![])],
    );
    let t2 = node("task", src, 12, 19, vec![node("text", src, 14, 15, vec![]), node("category", src, 16, 19, vec![])]);
    let t3 = node("task", src, 20, 26, vec![node("text", src, 22, 23, vec![]), node("category", src, 24, 26, vec![])]);
    let root = node("source_file", src, 0, src.len(), vec![t1, t2, t3]);
    let d = Document::parse(src.to_string(), Some(&root)).unwrap();
    // cursor between the brackets of the third line: innermost node is the category
    let items = d.completions_at(Position { line: 2, character: 5 }, None, day(2024, 1, 1));
    assert_eq!(labels(&items), vec!["[x]".to_string(), "[y]".to_string()]);
    assert_eq!(
        items[0].range,
        Range { start: Position { line: 2, character: 4 }, end: Position { line: 2, character: 6 } }
    );
}

#[test]
fn tag_completion_excludes_the_tag_being_typed() {
    let src = "+ a @home\n+ b @ho";
    let t1 = node("task", src, 0, 9, vec![node("text", src, 2, 9, vec![node("tag", src, 4, 9, vec![])])]);
    let t2 = node("task", src, 10, 17, vec![node("text", src, 12, 17, vec![node("tag", src, 14, 17, vec![])])]);
    let root = node("source_file", src, 0, src.len(), vec![t1, t2]);
    let d = Document::parse(src.to_string(), Some(&root)).unwrap();
    let items = d.completions_at(Position { line: 1, character: 7 }, Some('@'), day(2024, 1, 1));
    assert_eq!(labels(&items), vec!["@home".to_string()]);
    assert_eq!(
        items[0].range,
        Range { start: Position { line: 1, character: 4 }, end: Position { line: 1, character: 7 } }
    );
}

#[test]
fn date_completion_offers_four_days() {
    let src = "+ a (";
    let t = node("task", src, 0, 5, vec![node("text", src, 2, 3, vec![]), error(src, 4, 5)]);
    let root = node("source_file", src, 0, src.len(), vec![t]);
    let d = Document::parse(src.to_string(), Some(&root)).unwrap();
    let items = d.completions_at(Position { line: 0, character: 5 }, Some('('), day(2024, 2, 27));
    assert_eq!(
        labels(&items),
        vec!["(2024-02-27)", "(2024-02-28)", "(2024-02-29)", "(2024-03-05)"]
    );
    let details: Vec<String> = items.iter().map(|i| i.detail.clone().unwrap()).collect();
    assert_eq!(details, vec!["today", "tomorrow", "2 days later", "1 week later"]);
    assert_eq!(
        items[3].range,
        Range { start: Position { line: 0, character: 4 }, end: Position { line: 0, character: 5 } }
    );
}

#[test]
fn no_completion_inside_free_text() {
    let src = "+ abc";
    let t = node("task", src, 0, 5, vec![node("text", src, 2, 5, vec![])]);
    let root = node("source_file", src, 0, src.len(), vec![t]);
    let d = Document::parse(src.to_string(), Some(&root)).unwrap();
    assert!(d.completions_at(Position { line: 0, character: 4 }, Some('['), day(2024, 1, 1)).is_empty());
    // a position past the last line maps to no offset
    assert!(d.completions_at(Position { line: 3, character: 0 }, Some('['), day(2024, 1, 1)).is_empty());
    assert!(d.get_completion(Position { line: 0, character: 4 }, None).is_empty());
}

#[test]
fn span_skips_closed_brackets() {
    let src = "+ t [b][a]";
    let t = node(
        "task",
        src,
        0,
        10,
        vec![node("text", src, 2, 3, vec![]), node("category", src, 4, 7, vec![]), node("category", src, 7, 10, vec![])],
    );
    let root = node("source_file", src, 0, src.len(), vec![t]);
    let d = Document::parse(src.to_string(), Some(&root)).unwrap();
    let items = d.completions_at(Position { line: 0, character: 10 }, None, day(2024, 1, 1));
    assert_eq!(labels(&items), vec!["[b]".to_string()]);
    assert_eq!(
        items[0].range,
        Range { start: Position { line: 0, character: 10 }, end: Position { line: 0, character: 10 } }
    );
}

#[test]
fn span_after_closed_priority_starts_at_cursor() {
    let src = "+ (A) t";
    let t = node("task", src, 0, 7, vec![node("priority", src, 2, 5, vec![]), node("text", src, 6, 7, vec![])]);
    let root = node("source_file", src, 0, src.len(), vec![t]);
    let d = Document::parse(src.to_string(), Some(&root)).unwrap();
    let items = d.completions_at(Position { line: 0, character: 5 }, None, day(2024, 1, 1));
    assert_eq!(items.len(), 4);
    assert_eq!(
        items[0].range,
        Range { start: Position { line: 0, character: 5 }, end: Position { line: 0, character: 5 } }
    );
}

#[test]
fn span_reaches_an_open_bracket_past_a_closed_one() {
    let src = "+ t [a [b] ";
    let t = node("task", src, 0, 11, vec![node("text", src, 2, 3, vec![]), node("category", src, 7, 10, vec![])]);
    let root = node("source_file", src, 0, src.len(), vec![t]);
    let d = Document::parse(src.to_string(), Some(&root)).unwrap();
    let items = d.completions_at(Position { line: 0, character: 11 }, Some('['), day(2024, 1, 1));
    assert_eq!(labels(&items), vec!["[b]".to_string()]);
    assert_eq!(items[0].range.start, Position { line: 0, character: 4 });
}

#[test]
fn no_completion_inside_a_comment() {
    let src = "+ a # note [";
    let t = node("task", src, 0, 12, vec![node("text", src, 2, 3, vec![]), node("comment", src, 4, 12, vec![])]);
    let root = node("source_file", src, 0, src.len(), vec![t]);
    let d = Document::parse(src.to_string(), Some(&root)).unwrap();
    assert!(d.completions_at(Position { line: 0, character: 12 }, Some('['), day(2024, 1, 1)).is_empty());
}
