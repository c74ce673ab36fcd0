use todome::document::Document;
use todome::model::{build_node, ParseError, RawNode};
use todome::position::Point;
use todome::syntax::{Cst, NodeKind, Rule, StatusKind, TextRange};

fn node(kind: &str, src: &str, start: usize, end: usize, children: Vec<RawNode>) -> RawNode {
    RawNode {
        kind: kind.to_string(),
        start,
        end,
        text: src[start..end].to_string(),
        is_error: false,
        children,
    }
}

/// The parser's tree of `- (A) test`.
fn sample() -> (String, RawNode) {
    let src = "- (A) test";
    let task = node(
        "task",
        src,
        0,
        10,
        vec![
            node("status", src, 0, 1, vec![node("status_done", src, 0, 1, vec![])]),
            node("priority", src, 2, 5, vec![]),
            node("text", src, 6, 10, vec![]),
        ],
    );
    (src.to_string(), node("source_file", src, 0, 10, vec![task]))
}

#[test]
fn parse_source_file() {
    let (src, tree) = sample();
    let cst = Cst::parse_source_file(src, Some(&tree)).unwrap();
    println!("{:#?}", cst);
    assert_eq!(cst.rule_name(), "source_file");
    assert_eq!(cst.kind(), NodeKind::SourceFile);
    let task = &cst.children[0];
    assert!(matches!(task.children[0].rule, Rule::Status { kind: StatusKind::Done }));
    match &task.children[1].rule {
        Rule::Priority { value } => assert_eq!(value, "A"),
        _ => panic!("expected a priority"),
    }
}

#[test]
fn get_children() {
    let src = "\n- (A) test\n\t[cattest] foo # a comment\n\tbar\n            ";
    let inner = node(
        "task",
        src,
        13,
        38,
        vec![
            node("category", src, 13, 22, vec![]),
            node("text", src, 23, 26, vec![]),
            node("comment", src, 27, 38, vec![]),
        ],
    );
    let bar = node("task", src, 40, 43, vec![node("text", src, 40, 43, vec![])]);
    let top = node(
        "task",
        src,
        1,
        43,
        vec![node("priority", src, 3, 6, vec![]), node("text", src, 7, 11, vec![]), inner, bar],
    );
    let tree = node("source_file", src, 0, src.len(), vec![top]);
    let d = Document::parse(src.to_string(), Some(&tree)).unwrap();
    let at = Point { row: 2, column: 4 }.try_into_bytes(&d).unwrap();
    let csts = d.root().get_csts_on_point(at);
    for cst in &csts {
        println!("{:?}", cst.kind());
    }
    let kinds: Vec<NodeKind> = csts.iter().map(|c| c.kind()).collect();
    assert_eq!(kinds, vec![NodeKind::SourceFile, NodeKind::Task, NodeKind::Task, NodeKind::Category]);
    let inner = csts[2];
    assert_eq!(inner.comments.len(), 1);
    assert_eq!(inner.children(false, true).len(), 3);
    assert_eq!(inner.children(false, false).len(), 2);
}

#[test]
fn search_finds_nodes_in_source_order() {
    let (src, tree) = sample();
    let d = Document::parse(src, Some(&tree)).unwrap();
    let texts = d.root().search_cst(NodeKind::Text, false, false);
    assert_eq!(texts.len(), 1);
    assert_eq!(texts[0].range, TextRange { start: 6, end: 10 });
    let found = d.root().nodes_on_range(TextRange { start: 2, end: 5 });
    assert_eq!(found.len(), 1);
    assert_eq!(found[0].kind(), NodeKind::Priority);
}

#[test]
fn payloads_are_stripped_of_delimiters() {
    let src = "{due:tomorrow} [cat] @tag";
    let tree = node(
        "text",
        src,
        0,
        src.len(),
        vec![node("keyval", src, 0, 14, vec![]), node("category", src, 15, 20, vec![]), node("tag", src, 21, 25, vec![])],
    );
    let cst = build_node(&tree, src.len()).unwrap();
    match &cst.children[0].rule {
        Rule::KeyVal { key, value } => {
            assert_eq!(key, "due");
            assert_eq!(value, "tomorrow");
        },
        _ => panic!("expected a key-value"),
    }
    assert!(matches!(&cst.children[1].rule, Rule::Category { name } if name == "cat"));
    assert!(matches!(&cst.children[2].rule, Rule::Tag { name } if name == "tag"));
    let unknown = node("mystery", src, 0, 1, vec![]);
    assert_eq!(build_node(&unknown, src.len()).unwrap().kind(), NodeKind::Error);
}

#[test]
fn search_by_predicate() {
    let (src, tree) = sample();
    let d = Document::parse(src, Some(&tree)).unwrap();
    let late = d.root().search_where(&|c: &Cst| c.range.start >= 2, false, false);
    let kinds: Vec<NodeKind> = late.iter().map(|c| c.kind()).collect();
    assert_eq!(kinds, vec![NodeKind::Priority, NodeKind::Text]);
}

#[test]
fn structural_invariants_are_enforced() {
    let src = "+ a b";
    let two_texts = node(
        "source_file",
        src,
        0,
        5,
        vec![node("task", src, 0, 5, vec![node("text", src, 2, 3, vec![]), node("text", src, 4, 5, vec![])])],
    );
    assert_eq!(Document::parse(src.to_string(), Some(&two_texts)).err(), Some(ParseError::BadShape));
    let outside = node(
        "source_file",
        src,
        0,
        5,
        vec![node("task", src, 0, 3, vec![node("text", src, 2, 5, vec![])])],
    );
    assert_eq!(Document::parse(src.to_string(), Some(&outside)).err(), Some(ParseError::BadShape));
    let overlapping = node(
        "source_file",
        src,
        0,
        5,
        vec![node("task", src, 0, 5, vec![node("priority", src, 1, 4, vec![]), node("text", src, 2, 5, vec![])])],
    );
    assert_eq!(Document::parse(src.to_string(), Some(&overlapping)).err(), Some(ParseError::BadShape));
}
