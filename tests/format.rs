use todome::format::{format_lines, line_sources};
use todome::model::{ParseError, RawNode};

fn node(kind: &str, src: &str, start: usize, end: usize, children: Vec<RawNode>) -> RawNode {
    RawNode {
        kind: kind.to_string(),
        start,
        end,
        text: src[start..end].to_string(),
        is_error: false,
        children,
    }
}

#[test]
fn formats_meta_in_canonical_order() {
    let text = "\t+ (A) [b]   (2024-01-02) task # note  \r\n- x\n";
    let sources = line_sources(text);
    assert_eq!(sources, vec!["+ (A) [b]   (2024-01-02) task # note".to_string(), "- x".to_string()]);
    let l0 = sources[0].as_str();
    let task = node(
        "task",
        l0,
        0,
        l0.len(),
        vec![
            node("status", l0, 0, 1, vec![node("status_todo", l0, 0, 1, vec![])]),
            node("priority", l0, 2, 5, vec![]),
            node("category", l0, 6, 9, vec![]),
            node("date", l0, 12, 24, vec![node("target", l0, 13, 23, vec![])]),
            node("text", l0, 25, 29, vec![]),
            node("comment", l0, 30, 36, vec![]),
        ],
    );
    let t0 = node("source_file", l0, 0, l0.len(), vec![task]);
    let l1 = sources[1].as_str();
    let t1 = node(
        "source_file",
        l1,
        0,
        3,
        vec![node(
            "task",
            l1,
            0,
            3,
            vec![node("status", l1, 0, 1, vec![node("status_done", l1, 0, 1, vec![])]), node("text", l1, 2, 3, vec![])],
        )],
    );
    let out = format_lines(text, &vec![t0, t1]).unwrap();
    assert_eq!(out, "\t+ (A) (2024-01-02) [b] task # note\n- x\n");
}

#[test]
fn merges_date_bounds_and_keeps_comment_lines() {
    let text = "(2024-01-05!) (2024-01-01~) job\n# hello";
    let sources = line_sources(text);
    let l0 = sources[0].as_str();
    let task = node(
        "task",
        l0,
        0,
        l0.len(),
        vec![
            node("date", l0, 0, 13, vec![node("deadline", l0, 1, 11, vec![])]),
            node("date", l0, 14, 27, vec![node("start", l0, 15, 25, vec![])]),
            node("keyval", l0, 14, 14, vec![]),
            node("text", l0, 28, 31, vec![]),
        ],
    );
    let t0 = node("source_file", l0, 0, l0.len(), vec![task]);
    let l1 = sources[1].as_str();
    let t1 = node("source_file", l1, 0, l1.len(), vec![node("comment", l1, 0, l1.len(), vec![])]);
    let out = format_lines(text, &vec![t0, t1]).unwrap();
    assert_eq!(out, "(2024-01-01~2024-01-05!) job\n# hello\n");
}

#[test]
fn one_tree_per_line_is_required() {
    assert_eq!(format_lines("a\nb", &vec![]).err(), Some(ParseError::ParserFailed));
    assert_eq!(format_lines("", &vec![]).unwrap(), "");
}
