//! The table of line-start byte offsets of a text.
use vstd::prelude::*;

verus! {

/// The byte of a line feed.
pub const NEWLINE: u8 = 10;

/// Line-start offsets of `b`: 0, then one past every line feed, in order.
pub open spec fn line_starts_of(b: Seq<u8>) -> Seq<usize>
    decreases b.len(),
{
    if b.len() == 0 {
        seq![0usize]
    } else {
        let prev = line_starts_of(b.drop_last());
        if b.last() == NEWLINE {
            prev.push(b.len() as usize)
        } else {
            prev
        }
    }
}

/// `lines` is a well-formed line table for a text of `len` bytes:
/// it starts at 0, increases strictly and stays within the text.
pub open spec fn lines_wf(lines: Seq<usize>, len: int) -> bool {
    &&& lines.len() >= 1
    &&& lines[0] == 0
    &&& forall|i: int, j: int| 0 <= i < j < lines.len() ==> lines[i] < lines[j]
    &&& forall|i: int| 0 <= i < lines.len() ==> lines[i] <= len
}

/// Number of entries among the first `n` of `lines` that are at most `b`.
pub open spec fn count_le(lines: Seq<usize>, b: int, n: int) -> int
    decreases n,
{
    if n <= 0 {
        0
    } else {
        count_le(lines, b, n - 1) + if lines[n - 1] <= b { 1int } else { 0int }
    }
}

/// The row of byte offset `b`: the greatest index whose line start is at most `b`.
pub open spec fn row_of(lines: Seq<usize>, b: int) -> int {
    count_le(lines, b, lines.len() as int) - 1
}

/// The byte offset one past the end of row `r` (the next line's start, or the text length).
pub open spec fn line_end(lines: Seq<usize>, len: int, r: int) -> int {
    if r + 1 < lines.len() {
        lines[r + 1] as int
    } else {
        len
    }
}

pub proof fn lemma_line_starts_wf(b: Seq<u8>)
    requires
        b.len() <= usize::MAX,
    ensures
        lines_wf(line_starts_of(b), b.len() as int),
        line_starts_of(b).len() <= b.len() + 1,
    decreases b.len(),
{
    if b.len() > 0 {
        let prev = line_starts_of(b.drop_last());
        lemma_line_starts_wf(b.drop_last());
        if b.last() == NEWLINE {
            let cur = prev.push(b.len() as usize);
            assert forall|i: int, j: int| 0 <= i < j < cur.len() implies cur[i] < cur[j] by {
                if j == cur.len() - 1 {
                    assert(prev[i] <= b.len() - 1);
                } else {
                    assert(cur[i] == prev[i] && cur[j] == prev[j]);
                }
            }
        }
    }
}

/// For a well-formed table, a row `r` with `lines[r] <= b < line_end(r)` is `row_of(b)`.
pub proof fn lemma_row_of_char(lines: Seq<usize>, len: int, b: int, r: int)
    requires
        lines_wf(lines, len),
        0 <= r < lines.len(),
        lines[r] <= b,
        r + 1 < lines.len() ==> b < lines[r + 1],
    ensures
        row_of(lines, b) == r,
{
    lemma_count_le_prefix(lines, len, b, r, lines.len() as int);
}

proof fn lemma_count_le_prefix(lines: Seq<usize>, len: int, b: int, r: int, n: int)
    requires
        lines_wf(lines, len),
        0 <= r < lines.len(),
        lines[r] <= b,
        r + 1 < lines.len() ==> b < lines[r + 1],
        0 <= n <= lines.len(),
    ensures
        count_le(lines, b, n) == if n <= r + 1 { n } else { r + 1 },
    decreases n,
{
    if n > 0 {
        lemma_count_le_prefix(lines, len, b, r, n - 1);
        if n - 1 > r + 1 {
            assert(lines[r + 1] < lines[n - 1]);
        }
        if n - 1 < r {
            assert(lines[n - 1] < lines[r]);
        }
    }
}

/// The row of any offset within the text is a valid row whose span holds the offset.
pub proof fn lemma_row_of_in_line(lines: Seq<usize>, len: int, b: int)
    requires
        lines_wf(lines, len),
        0 <= b <= len,
    ensures
        0 <= row_of(lines, b) < lines.len(),
        lines[row_of(lines, b)] <= b,
        b < line_end(lines, len, row_of(lines, b)) || (b == len && row_of(lines, b) == lines.len() - 1),
{
    let r = choose_row(lines, len, b, 0);
    lemma_row_of_char(lines, len, b, r);
}

/// Finds, from row `r` on, the row whose span holds `b`.
proof fn choose_row(lines: Seq<usize>, len: int, b: int, r: int) -> (row: int)
    requires
        lines_wf(lines, len),
        0 <= b <= len,
        0 <= r < lines.len(),
        lines[r] <= b,
    ensures
        r <= row < lines.len(),
        lines[row] <= b,
        row + 1 < lines.len() ==> b < lines[row + 1],
    decreases lines.len() - r,
{
    if r + 1 < lines.len() && lines[r + 1] <= b {
        choose_row(lines, len, b, r + 1)
    } else {
        r
    }
}

/// The row is monotone in the offset.
pub proof fn lemma_count_le_monotone(lines: Seq<usize>, b1: int, b2: int, n: int)
    requires
        b1 <= b2,
        0 <= n <= lines.len(),
    ensures
        count_le(lines, b1, n) <= count_le(lines, b2, n),
    decreases n,
{
    if n > 0 {
        lemma_count_le_monotone(lines, b1, b2, n - 1);
    }
}

/// Builds the line table of `bytes`.
pub fn build_line_starts(bytes: &Vec<u8>) -> (lines: Vec<usize>)
    ensures
        lines@ == line_starts_of(bytes@),
{
    let mut lines: Vec<usize> = vec![0usize];
    let mut i: usize = 0;
    while i < bytes.len()
        invariant
            i <= bytes@.len(),
            lines@ == line_starts_of(bytes@.subrange(0, i as int)),
        decreases bytes@.len() - i,
    {
        let ghost prefix = bytes@.subrange(0, i as int + 1);
        assert(prefix.drop_last() =~= bytes@.subrange(0, i as int));
        if bytes[i] == NEWLINE {
            lines.push(i + 1);
        }
        i = i + 1;
    }
    assert(bytes@.subrange(0, i as int) =~= bytes@);
    lines
}

/// Finds the row of `b` by binary search: the greatest index whose line start is at most `b`.
pub fn find_row(lines: &[usize], len: usize, b: usize) -> (r: usize)
    requires
        lines_wf(lines@, len as int),
        b <= len,
    ensures
        r == row_of(lines@, b as int),
        r < lines@.len(),
        lines@[r as int] <= b,
        r + 1 < lines@.len() ==> b < lines@[r + 1],
{
    let mut lo: usize = 0;
    let mut hi: usize = lines.len();
    while lo + 1 < hi
        invariant
            lines_wf(lines@, len as int),
            0 <= lo < hi <= lines@.len(),
            lines@[lo as int] <= b,
            hi < lines@.len() ==> b < lines@[hi as int],
        decreases hi - lo,
    {
        let mid = lo + (hi - lo) / 2;
        if lines[mid] <= b {
            lo = mid;
        } else {
            hi = mid;
        }
    }
    proof {
        if lo + 1 < lines@.len() {
            assert(hi == lo + 1);
        }
        lemma_row_of_char(lines@, len as int, b as int, lo as int);
    }
    lo
}

} // verus!
