use todome::document::Document;
use todome::model::RawNode;
use todome::position::{Point, Position, Range};
use todome::version;

fn leaf(kind: &str, text: &str, start: usize, end: usize) -> RawNode {
    RawNode {
        kind: kind.to_string(),
        start,
        end,
        text: text[start..end].to_string(),
        is_error: false,
        children: vec![],
    }
}

fn doc(text: &str) -> Document {
    let root = leaf("source_file", text, 0, text.len());
    Document::parse(text.to_string(), Some(&root)).unwrap()
}

#[test]
fn line_starts_follow_newlines() {
    let d = doc("ab\ncd\n\nx");
    assert_eq!(d.lines(), &[0, 3, 6, 7]);
    assert_eq!(d.text(), "ab\ncd\n\nx");
}

#[test]
fn byte_to_point_and_back() {
    let d = doc("ab\ncd\n\nx");
    assert_eq!(Point::try_from_bytes(4, &d), Some(Point { row: 1, column: 1 }));
    assert_eq!(Point::try_from_bytes(3, &d), Some(Point { row: 1, column: 0 }));
    assert_eq!(Point::try_from_bytes(8, &d), Some(Point { row: 3, column: 1 }));
    assert_eq!(Point::try_from_bytes(9, &d), None);
    for b in 0..8 {
        let p = Point::try_from_bytes(b, &d).unwrap();
        assert_eq!(p.try_into_bytes(&d), Some(b));
    }
}

#[test]
fn point_column_must_stay_inside_its_line() {
    let d = doc("ab\ncd");
    assert_eq!(Point { row: 0, column: 2 }.try_into_bytes(&d), Some(2));
    assert_eq!(Point { row: 0, column: 3 }.try_into_bytes(&d), None);
    assert_eq!(Point { row: 1, column: 2 }.try_into_bytes(&d), None);
    assert_eq!(Point { row: 2, column: 0 }.try_into_bytes(&d), None);
}

#[test]
fn rows_never_decrease() {
    let d = doc("a\nbb\n\nccc\n");
    let mut last = 0;
    for b in 0..=d.text().len() {
        let row = Point::try_from_bytes(b, &d).unwrap().row;
        assert!(row >= last);
        last = row;
    }
    assert_eq!(last, 4);
}

#[test]
fn editor_positions_count_utf16_units() {
    // 'é' is two bytes and one unit; '😀' is four bytes and two units.
    let text = "aé😀b\nz";
    let d = doc(text);
    assert_eq!(Position::try_from_bytes(1, &d), Some(Position { line: 0, character: 1 }));
    assert_eq!(Position::try_from_bytes(3, &d), Some(Position { line: 0, character: 2 }));
    assert_eq!(Position::try_from_bytes(7, &d), Some(Position { line: 0, character: 4 }));
    assert_eq!(Position::try_from_bytes(8, &d), Some(Position { line: 0, character: 5 }));
    assert_eq!(Position::try_from_bytes(10, &d), Some(Position { line: 1, character: 1 }));
    assert_eq!(Position::try_from_bytes(11, &d), None);
    assert_eq!(Position { line: 0, character: 4 }.try_into_bytes(&d), Some(7));
    assert_eq!(Position { line: 1, character: 0 }.try_into_bytes(&d), Some(9));
    assert_eq!(Position { line: 2, character: 0 }.try_into_bytes(&d), None);
}

#[test]
fn editor_position_round_trip_on_boundaries() {
    let text = "x😀y\nαβ\n";
    let d = doc(text);
    for b in 0..=text.len() {
        if text.is_char_boundary(b) {
            let p = Position::try_from_bytes(b, &d).unwrap();
            assert_eq!(p.try_into_bytes(&d), Some(b));
        }
    }
}

#[test]
fn editor_position_past_line_end_stops_at_next_line() {
    let d = doc("ab\ncd");
    assert_eq!(Position { line: 0, character: 10 }.try_into_bytes(&d), Some(3));
    assert_eq!(Position { line: 1, character: 10 }.try_into_bytes(&d), Some(5));
}

#[test]
fn half_surrogate_pair_becomes_replacement_character() {
    // One unit into '😀' decodes to a lone surrogate, re-encoded as three bytes.
    let d = doc("a😀b");
    assert_eq!(Position { line: 0, character: 2 }.try_into_bytes(&d), Some(4));
    assert_eq!(Position { line: 0, character: 3 }.try_into_bytes(&d), Some(5));
}

#[test]
fn byte_range_to_editor_range() {
    let d = doc("ab\ncd");
    assert_eq!(
        Range::try_from_bytes(1, 4, &d),
        Some(Range { start: Position { line: 0, character: 1 }, end: Position { line: 1, character: 1 } })
    );
    assert_eq!(Range::try_from_bytes(1, 9, &d), None);
}

#[test]
fn version_is_the_package_version() {
    assert_eq!(version(), "0.1.0");
}

#[test]
fn point_and_editor_position_convert_through_bytes() {
    let d = doc("é\naé😀b");
    assert_eq!(Point { row: 1, column: 7 }.to_position(&d), Some(Position { line: 1, character: 4 }));
    assert_eq!(Position { line: 1, character: 4 }.to_point(&d), Some(Point { row: 1, column: 7 }));
    assert_eq!(Point { row: 1, column: 9 }.to_position(&d), None);
    assert_eq!(Position { line: 5, character: 0 }.to_point(&d), None);
}
