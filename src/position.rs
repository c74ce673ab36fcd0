//! Conversions among byte offsets, (row, byte column) points and
//! (row, UTF-16 column) editor positions.
use vstd::prelude::*;
use crate::document::Document;
use crate::text_index::{find_row, line_end, row_of, lemma_row_of_in_line};

verus! {

/// A (row, byte column) location.
#[derive(Clone, Copy, Debug, PartialEq, Eq, Structural)]
pub struct Point {
    pub row: usize,
    pub column: usize,
}

/// A (row, UTF-16 code unit column) location, as editors address text.
#[derive(Clone, Copy, Debug, PartialEq, Eq, Structural)]
pub struct Position {
    pub line: u32,
    pub character: u32,
}

/// A pair of editor positions.
#[derive(Clone, Copy, Debug, PartialEq, Eq, Structural)]
pub struct Range {
    pub start: Position,
    pub end: Position,
}

/// A UTF-8 continuation byte.
pub open spec fn is_continuation(x: u8) -> bool {
    0x80 <= x < 0xC0
}

/// UTF-16 code units that a byte contributes: none for a continuation byte,
/// two for the lead byte of a four-byte sequence, one otherwise.
pub open spec fn utf16_weight(x: u8) -> int {
    if is_continuation(x) {
        0
    } else if x >= 0xF0 {
        2
    } else {
        1
    }
}

/// Number of UTF-16 code units that encode the UTF-8 bytes `s`.
pub open spec fn utf16_len(s: Seq<u8>) -> int
    decreases s.len(),
{
    if s.len() == 0 {
        0
    } else {
        utf16_weight(s[0]) + utf16_len(s.drop_first())
    }
}

/// Number of UTF-8 bytes that result from taking the first `k` UTF-16 code
/// units of the line `s` and re-encoding them, a lone surrogate becoming
/// the three-byte replacement character.
pub open spec fn utf16_take(s: Seq<u8>, k: int) -> int
    decreases s.len(),
{
    if s.len() == 0 {
        0
    } else if is_continuation(s[0]) {
        1 + utf16_take(s.drop_first(), k)
    } else if utf16_weight(s[0]) <= k {
        1 + utf16_take(s.drop_first(), k - utf16_weight(s[0]))
    } else if k > 0 {
        3
    } else {
        0
    }
}

/// `b` starts a character of `s`, or is its end.
pub open spec fn is_char_boundary(s: Seq<u8>, b: int) -> bool {
    0 <= b <= s.len() && (b == s.len() || !is_continuation(s[b]))
}

/// The point of byte offset `b`.
pub open spec fn point_of(lines: Seq<usize>, b: int) -> (int, int) {
    (row_of(lines, b), b - lines[row_of(lines, b)])
}

/// The byte offset of a point, if its column lies inside its row's span.
pub open spec fn byte_of_point(lines: Seq<usize>, len: int, row: int, column: int) -> Option<int> {
    if 0 <= row < lines.len() && lines[row] + column < line_end(lines, len, row) {
        Some(lines[row] + column)
    } else {
        None
    }
}

/// The editor position of byte offset `b`, as a (row, UTF-16 column) pair.
pub open spec fn editor_pos_of(bytes: Seq<u8>, lines: Seq<usize>, b: int) -> (int, int) {
    let r = row_of(lines, b);
    (r, utf16_len(bytes.subrange(lines[r] as int, b)))
}

/// The byte offset of an editor position, if its row exists.
pub open spec fn byte_of_editor_pos(bytes: Seq<u8>, lines: Seq<usize>, row: int, col: int) -> Option<int> {
    if 0 <= row < lines.len() {
        let start = lines[row] as int;
        let end = line_end(lines, bytes.len() as int, row);
        Some(start + utf16_take(bytes.subrange(start, end), col))
    } else {
        None
    }
}

proof fn lemma_utf16_take_bound(s: Seq<u8>, k: int)
    ensures
        0 <= utf16_take(s, k) <= s.len() + 3,
    decreases s.len(),
{
    if s.len() > 0 {
        lemma_utf16_take_bound(s.drop_first(), k);
        if !is_continuation(s[0]) && utf16_weight(s[0]) <= k {
            lemma_utf16_take_bound(s.drop_first(), k - utf16_weight(s[0]));
        }
    }
}

proof fn lemma_utf16_len_nonneg(s: Seq<u8>)
    ensures
        0 <= utf16_len(s) <= 2 * s.len(),
    decreases s.len(),
{
    if s.len() > 0 {
        lemma_utf16_len_nonneg(s.drop_first());
    }
}

/// Taking as many code units as the first `j` bytes hold gives back `j` bytes,
/// when `j` is a character boundary.
proof fn lemma_take_of_len(s: Seq<u8>, j: int)
    requires
        is_char_boundary(s, j),
    ensures
        utf16_take(s, utf16_len(s.subrange(0, j))) == j,
    decreases s.len(),
{
    if j == 0 {
        assert(s.subrange(0, 0).len() == 0);
    } else {
        let t = s.drop_first();
        assert(s.subrange(0, j).drop_first() =~= t.subrange(0, j - 1));
        lemma_take_of_len(t, j - 1);
        lemma_utf16_len_nonneg(t.subrange(0, j - 1));
    }
}

/// Round trip of the byte/editor-position pair: for every character boundary
/// `b` of the text, converting `b` to an editor position and back yields `b`.
pub proof fn lemma_editor_position_round_trip(d: &Document, b: int)
    requires
        d.wf(),
        is_char_boundary(d.bytes_view(), b),
    ensures
        byte_of_editor_pos(
            d.bytes_view(),
            d.lines_view(),
            editor_pos_of(d.bytes_view(), d.lines_view(), b).0,
            editor_pos_of(d.bytes_view(), d.lines_view(), b).1,
        ) == Some(b),
{
    let bytes = d.bytes_view();
    let lines = d.lines_view();
    d.lemma_wf();
    lemma_row_of_in_line(lines, bytes.len() as int, b);
    let r = row_of(lines, b);
    let start = lines[r] as int;
    let end = line_end(lines, bytes.len() as int, r);
    let line = bytes.subrange(start, end);
    assert(line.subrange(0, b - start) =~= bytes.subrange(start, b));
    lemma_take_of_len(line, b - start);
}

/// Round trip of the byte/point pair: for every offset `b` before the end of
/// the text, converting `b` to a point and back yields `b`.
pub proof fn lemma_point_round_trip(d: &Document, b: int)
    requires
        d.wf(),
        0 <= b < d.bytes_view().len(),
    ensures
        byte_of_point(
            d.lines_view(),
            d.bytes_view().len() as int,
            point_of(d.lines_view(), b).0,
            point_of(d.lines_view(), b).1,
        ) == Some(b),
{
    d.lemma_wf();
    lemma_row_of_in_line(d.lines_view(), d.bytes_view().len() as int, b);
}

/// The row of an offset never decreases as the offset grows.
pub proof fn lemma_row_monotone(d: &Document, b1: int, b2: int)
    requires
        d.wf(),
        0 <= b1 <= b2 <= d.bytes_view().len(),
    ensures
        point_of(d.lines_view(), b1).0 <= point_of(d.lines_view(), b2).0,
{
    crate::text_index::lemma_count_le_monotone(d.lines_view(), b1, b2, d.lines_view().len() as int);
}

proof fn lemma_utf16_len_suffix(s: Seq<u8>, k: int)
    requires
        0 <= k <= s.len(),
    ensures
        utf16_len(s.subrange(k, s.len() as int)) <= utf16_len(s),
    decreases k,
{
    if k > 0 {
        assert(s.drop_first().subrange(k - 1, s.len() - 1) =~= s.subrange(k, s.len() as int));
        lemma_utf16_len_suffix(s.drop_first(), k - 1);
    } else {
        assert(s.subrange(0, s.len() as int) =~= s);
    }
}

/// Number of UTF-16 code units that encode `bytes[from..to]`, when it fits in 32 bits.
fn utf16_count(bytes: &[u8], from: usize, to: usize) -> (n: Option<u32>)
    requires
        from <= to <= bytes@.len(),
    ensures
        n.is_some() <==> utf16_len(bytes@.subrange(from as int, to as int)) <= u32::MAX,
        n matches Some(v) ==> v == utf16_len(bytes@.subrange(from as int, to as int)),
{
    let mut n: u64 = 0;
    let mut i: usize = to;
    proof {
        assert(bytes@.subrange(to as int, to as int).len() == 0);
    }
    while i > from
        invariant
            from <= i <= to <= bytes@.len(),
            n == utf16_len(bytes@.subrange(i as int, to as int)),
            n <= u32::MAX,
        decreases i - from,
    {
        i = i - 1;
        let x = bytes[i];
        proof {
            assert(bytes@.subrange(i as int, to as int).drop_first()
                =~= bytes@.subrange(i as int + 1, to as int));
        }
        if x >= 0x80 && x < 0xC0 {
        } else if x >= 0xF0 {
            n = n + 2;
        } else {
            n = n + 1;
        }
        if n > u32::MAX as u64 {
            proof {
                let whole = bytes@.subrange(from as int, to as int);
                assert(whole.subrange(i - from, whole.len() as int) =~= bytes@.subrange(i as int, to as int));
                lemma_utf16_len_suffix(whole, i - from);
            }
            return None;
        }
    }
    Some(n as u32)
}

/// Byte length of the re-encoding of the first `k` UTF-16 code units of `bytes[from..to]`.
fn utf16_prefix_bytes(bytes: &[u8], from: usize, to: usize, k: usize) -> (n: usize)
    requires
        from <= to <= bytes@.len(),
        bytes@.len() + 3 <= usize::MAX,
    ensures
        n == utf16_take(bytes@.subrange(from as int, to as int), k as int),
{
    let mut i: usize = from;
    let mut rem: usize = k;
    let mut extra: usize = 0;
    while i < to
        invariant
            from <= i <= to <= bytes@.len(),
            bytes@.len() + 3 <= usize::MAX,
            extra == 0,
            utf16_take(bytes@.subrange(from as int, to as int), k as int)
                == (i - from) + utf16_take(bytes@.subrange(i as int, to as int), rem as int),
        decreases to - i,
    {
        let x = bytes[i];
        let ghost rest = bytes@.subrange(i as int, to as int);
        proof {
            assert(rest.drop_first() =~= bytes@.subrange(i as int + 1, to as int));
        }
        if x >= 0x80 && x < 0xC0 {
            i = i + 1;
        } else {
            let w: usize = if x >= 0xF0 { 2 } else { 1 };
            if w <= rem {
                rem = rem - w;
                i = i + 1;
            } else {
                if rem > 0 {
                    extra = 3;
                }
                proof {
                    assert(utf16_take(rest, rem as int) == extra);
                }
                return (i - from) + extra;
            }
        }
    }
    proof {
        assert(bytes@.subrange(i as int, to as int).len() == 0);
    }
    i - from
}

impl Point {
    /// The point of byte offset `b`; none past the end of the text.
    pub fn try_from_bytes(b: usize, d: &Document) -> (r: Option<Point>)
        requires
            d.wf(),
        ensures
            r.is_some() <==> b <= d.bytes_view().len(),
            r.is_some() ==> r.unwrap().row == point_of(d.lines_view(), b as int).0
                && r.unwrap().column == point_of(d.lines_view(), b as int).1,
    {
        proof {
            d.lemma_wf();
        }
        let bytes = d.bytes();
        let lines = d.lines();
        if b > bytes.len() {
            return None;
        }
        let row = find_row(lines, bytes.len(), b);
        Some(Point { row, column: b - lines[row] })
    }

    /// The byte offset of this point; none when its row does not exist or its
    /// column does not fall inside the row's span.
    pub fn try_into_bytes(self, d: &Document) -> (r: Option<usize>)
        requires
            d.wf(),
        ensures
            r matches Some(v) ==> byte_of_point(
                d.lines_view(),
                d.bytes_view().len() as int,
                self.row as int,
                self.column as int,
            ) == Some(v as int),
            r.is_none() ==> byte_of_point(
                d.lines_view(),
                d.bytes_view().len() as int,
                self.row as int,
                self.column as int,
            ).is_none(),
    {
        proof {
            d.lemma_wf();
        }
        let bytes = d.bytes();
        let lines = d.lines();
        if self.row >= lines.len() {
            return None;
        }
        let start = lines[self.row];
        let end = if self.row + 1 < lines.len() { lines[self.row + 1] } else { bytes.len() };
        if self.column < end - start {
            Some(start + self.column)
        } else {
            None
        }
    }
}

impl Position {
    /// The editor position of byte offset `b`; none past the end of the text,
    /// or when its row or column does not fit in 32 bits.
    pub fn try_from_bytes(b: usize, d: &Document) -> (r: Option<Position>)
        requires
            d.wf(),
        ensures
            r.is_some() <==> b <= d.bytes_view().len()
                && editor_pos_of(d.bytes_view(), d.lines_view(), b as int).0 <= u32::MAX
                && editor_pos_of(d.bytes_view(), d.lines_view(), b as int).1 <= u32::MAX,
            r.is_some() ==> r.unwrap().line == editor_pos_of(d.bytes_view(), d.lines_view(), b as int).0
                && r.unwrap().character == editor_pos_of(d.bytes_view(), d.lines_view(), b as int).1,
    {
        proof {
            d.lemma_wf();
        }
        let bytes = d.bytes();
        let lines = d.lines();
        if b > bytes.len() {
            return None;
        }
        let row = find_row(lines, bytes.len(), b);
        if row > u32::MAX as usize {
            return None;
        }
        match utf16_count(bytes, lines[row], b) {
            Some(n) => Some(Position { line: row as u32, character: n }),
            None => None,
        }
    }

    /// The byte offset of this editor position; none when its row does not exist.
    pub fn try_into_bytes(self, d: &Document) -> (r: Option<usize>)
        requires
            d.wf(),
        ensures
            r.is_some() <==> byte_of_editor_pos(
                d.bytes_view(),
                d.lines_view(),
                self.line as int,
                self.character as int,
            ).is_some(),
            r matches Some(v) ==> byte_of_editor_pos(
                d.bytes_view(),
                d.lines_view(),
                self.line as int,
                self.character as int,
            ) == Some(v as int),
    {
        proof {
            d.lemma_wf();
        }
        let bytes = d.bytes();
        let lines = d.lines();
        let row = self.line as usize;
        if row >= lines.len() {
            return None;
        }
        let start = lines[row];
        let end = if row + 1 < lines.len() { lines[row + 1] } else { bytes.len() };
        let n = utf16_prefix_bytes(bytes, start, end, self.character as usize);
        proof {
            lemma_utf16_take_bound(bytes@.subrange(start as int, end as int), self.character as int);
        }
        Some(start + n)
    }
}

impl Point {
    /// The editor position of this point, through its byte offset.
    pub fn to_position(self, d: &Document) -> (r: Option<Position>)
        requires
            d.wf(),
        ensures
            r.is_some() <==> (byte_of_point(d.lines_view(), d.bytes_view().len() as int, self.row as int, self.column as int) matches Some(b)
                && Position::try_from_bytes_ok(b, d)),
            r matches Some(p) ==> p == Position::spec_from_bytes(
                byte_of_point(d.lines_view(), d.bytes_view().len() as int, self.row as int, self.column as int).unwrap(),
                d,
            ),
    {
        match self.try_into_bytes(d) {
            Some(b) => Position::try_from_bytes(b, d),
            None => None,
        }
    }
}

impl Position {
    /// The point of this editor position, through its byte offset.
    pub fn to_point(self, d: &Document) -> (r: Option<Point>)
        requires
            d.wf(),
        ensures
            r.is_some() <==> (byte_of_editor_pos(d.bytes_view(), d.lines_view(), self.line as int, self.character as int) matches Some(b)
                && b <= d.bytes_view().len()),
            r matches Some(p) ==> (p.row as int, p.column as int) == point_of(
                d.lines_view(),
                byte_of_editor_pos(d.bytes_view(), d.lines_view(), self.line as int, self.character as int).unwrap(),
            ),
    {
        match self.try_into_bytes(d) {
            Some(b) => Point::try_from_bytes(b, d),
            None => None,
        }
    }
}

impl Range {
    /// The editor range of the byte range `[start, end]`.
    pub fn try_from_bytes(start: usize, end: usize, d: &Document) -> (r: Option<Range>)
        requires
            d.wf(),
        ensures
            r.is_some() <==> Position::try_from_bytes_ok(start as int, d) && Position::try_from_bytes_ok(end as int, d),
            r matches Some(rg) ==> rg.start == Position::spec_from_bytes(start as int, d)
                && rg.end == Position::spec_from_bytes(end as int, d),
    {
        let s = Position::try_from_bytes(start, d);
        let e = Position::try_from_bytes(end, d);
        match (s, e) {
            (Some(s), Some(e)) => Some(Range { start: s, end: e }),
            _ => None,
        }
    }
}

impl Position {
    /// Whether `b` has an editor position (it lies in the text and fits in 32 bits).
    pub open spec fn try_from_bytes_ok(b: int, d: &Document) -> bool {
        &&& 0 <= b <= d.bytes_view().len()
        &&& editor_pos_of(d.bytes_view(), d.lines_view(), b).0 <= u32::MAX
        &&& editor_pos_of(d.bytes_view(), d.lines_view(), b).1 <= u32::MAX
    }

    /// The editor position of `b`.
    pub open spec fn spec_from_bytes(b: int, d: &Document) -> Position {
        Position {
            line: editor_pos_of(d.bytes_view(), d.lines_view(), b).0 as u32,
            character: editor_pos_of(d.bytes_view(), d.lines_view(), b).1 as u32,
        }
    }
}

} // verus!
