//! Cursor resolution and completion of categories, tags and dates.
use vstd::prelude::*;
use crate::calendar::{date_text, format_date, local_today};
use crate::document::Document;
use crate::position::{byte_of_editor_pos, Position, Range};
use crate::syntax::{deref_all, path_spec, search_spec, Cst, Date, NodeKind, Rule};
use crate::text_index::{find_row, row_of};

verus! {

/// What is being completed.
#[derive(Clone, Copy, Debug, PartialEq, Eq, Structural)]
pub enum Branch {
    Category,
    Date,
    Tag,
}

/// A completion proposal: the token that replaces `range`.
#[derive(Debug)]
pub struct CompletionItem {
    pub label: String,
    pub range: Range,
    pub new_text: String,
    pub detail: Option<String>,
}

/// The abstract content of a proposal.
pub struct Proposal {
    pub label: Seq<char>,
    pub range: Range,
    pub detail: Option<Seq<char>>,
}

impl CompletionItem {
    /// The item carries the proposal `p`: its label and replacement text are
    /// both `p.label`.
    pub open spec fn shows(&self, p: Proposal) -> bool {
        &&& self.label@ == p.label
        &&& self.new_text@ == p.label
        &&& self.range == p.range
        &&& match (self.detail, p.detail) {
            (Some(a), Some(b)) => a@ == b,
            (None, None) => true,
            _ => false,
        }
    }
}

/// The branch chosen for a trigger character and the path of nodes under
/// the cursor: none inside free text or a comment; else an explicit
/// trigger decides; else the innermost node's kind.
pub open spec fn branch_of(path: Seq<Cst>, trigger: Option<char>) -> Option<Branch> {
    let inner = if path.len() > 0 { Some(path.last().rule.spec_kind()) } else { None };
    if inner == Some(NodeKind::Text) || inner == Some(NodeKind::Comment) {
        None
    } else if trigger == Some('[') {
        Some(Branch::Category)
    } else if trigger == Some('(') {
        Some(Branch::Date)
    } else if trigger == Some('@') {
        Some(Branch::Tag)
    } else if inner == Some(NodeKind::Category) {
        Some(Branch::Category)
    } else if inner == Some(NodeKind::Date) || inner == Some(NodeKind::Priority) {
        Some(Branch::Date)
    } else if inner == Some(NodeKind::Tag) {
        Some(Branch::Tag)
    } else {
        None
    }
}

/// The nearest offset in `[from, to)` holding an `open` that is not matched
/// by a `close` between it and `to`, with `depth` closes already passed when
/// scanning back from `to`; -1 when there is none.
pub open spec fn unmatched_open(bytes: Seq<u8>, from: int, to: int, open: u8, close: Option<u8>, depth: nat) -> int
    decreases to - from,
{
    if to <= from {
        -1
    } else if close == Some(bytes[to - 1]) {
        unmatched_open(bytes, from, to - 1, open, close, depth + 1)
    } else if bytes[to - 1] == open {
        if depth == 0 {
            to - 1
        } else {
            unmatched_open(bytes, from, to - 1, open, close, (depth - 1) as nat)
        }
    } else {
        unmatched_open(bytes, from, to - 1, open, close, depth)
    }
}

/// The byte range that a proposal replaces: from the nearest unmatched
/// `open` before the cursor on its line (the cursor itself when there is
/// none), to the cursor, stretched over a `close` that directly follows it.
pub open spec fn replace_span(bytes: Seq<u8>, lines: Seq<usize>, cursor: int, open: u8, close: Option<u8>) -> (int, int) {
    let ls = lines[row_of(lines, cursor)] as int;
    let end = if close is Some && cursor < bytes.len() && bytes[cursor] == close.unwrap() {
        cursor + 1
    } else {
        cursor
    };
    let i = unmatched_open(bytes, ls, cursor, open, close, 0);
    (if i >= 0 { i } else { cursor }, end)
}

/// Names with repeats removed, each kept where it first occurs.
pub open spec fn dedup(ns: Seq<Seq<char>>) -> Seq<Seq<char>>
    decreases ns.len(),
{
    if ns.len() == 0 {
        Seq::empty()
    } else {
        let d = dedup(ns.drop_last());
        if d.contains(ns.last()) { d } else { d.push(ns.last()) }
    }
}

/// The name of a category or tag node.
pub open spec fn name_of(c: Cst) -> Seq<char> {
    match c.rule {
        Rule::Category { name } => name@,
        Rule::Tag { name } => name@,
        _ => Seq::empty(),
    }
}

/// The names of the nodes whose range does not hold `excluded`.
pub open spec fn names_outside(cs: Seq<Cst>, excluded: int) -> Seq<Seq<char>>
    decreases cs.len(),
{
    if cs.len() == 0 {
        Seq::empty()
    } else {
        names_outside(cs.drop_last(), excluded) + if cs.last().range.spec_contains(excluded) {
            Seq::empty()
        } else {
            seq![name_of(cs.last())]
        }
    }
}

/// Labels of the name completions: each name wrapped by `pre` and `post`.
pub open spec fn wrapped(ns: Seq<Seq<char>>, pre: Seq<char>, post: Seq<char>) -> Seq<Seq<char>> {
    ns.map_values(|n: Seq<char>| pre + n + post)
}

/// Day offsets of the date proposals, with their descriptions.
pub open spec fn date_offsets() -> Seq<(int, Seq<char>)> {
    seq![(0int, "today"@), (1int, "tomorrow"@), (2int, "2 days later"@), (7int, "1 week later"@)]
}

/// The date proposals that chrono can write, in order: `(YYYY-MM-DD)` with
/// their descriptions.
pub open spec fn date_labels(today: Date, n: int) -> Seq<(Seq<char>, Seq<char>)>
    decreases n,
{
    if n <= 0 {
        Seq::empty()
    } else {
        let (off, desc) = date_offsets()[n - 1];
        let day = today.days + off;
        date_labels(today, n - 1) + if day <= i32::MAX && date_text(day) is Some {
            seq![("("@ + date_text(day).unwrap() + ")"@, desc)]
        } else {
            Seq::empty()
        }
    }
}

/// The view of a list of strings.
pub open spec fn views(v: Seq<String>) -> Seq<Seq<char>> {
    v.map_values(|s: String| s@)
}

/// The proposals of one kind of name, over the replacement range `range`.
pub open spec fn name_proposals(labels: Seq<Seq<char>>, range: Range) -> Seq<Proposal> {
    labels.map_values(|l: Seq<char>| Proposal { label: l, range, detail: None })
}

/// The date proposals over the replacement range `range`.
pub open spec fn date_proposals(today: Date, n: int, range: Range) -> Seq<Proposal> {
    date_labels(today, n).map_values(|p: (Seq<char>, Seq<char>)| Proposal { label: p.0, range, detail: Some(p.1) })
}

/// The proposals for the cursor `cursor` in the branch `b`.
pub open spec fn branch_proposals(d: &Document, cursor: int, b: Branch, today: Date) -> Seq<Proposal> {
    let bytes = d.bytes_view();
    let lines = d.lines_view();
    let root = d.root_view();
    let (open, close) = match b {
        Branch::Category => (0x5Bu8, Some(0x5Du8)),
        Branch::Date => (0x28u8, Some(0x29u8)),
        Branch::Tag => (0x40u8, None::<u8>),
    };
    let (s, e) = replace_span(bytes, lines, cursor, open, close);
    if !(Position::try_from_bytes_ok(s, d) && Position::try_from_bytes_ok(e, d)) {
        Seq::empty()
    } else {
        let range = Range { start: Position::spec_from_bytes(s, d), end: Position::spec_from_bytes(e, d) };
        match b {
            Branch::Category => name_proposals(
                wrapped(dedup(names_outside(search_spec(root, NodeKind::Category, false, false), cursor)), "["@, "]"@),
                range,
            ),
            Branch::Tag => name_proposals(
                wrapped(dedup(names_outside(search_spec(root, NodeKind::Tag, false, false), cursor - 1)), "@"@, Seq::empty()),
                range,
            ),
            Branch::Date => date_proposals(today, 4, range),
        }
    }
}

/// The proposals at the editor position `pos`: none when it does not map to
/// an offset of the text, or when no branch applies there.
pub open spec fn proposals_spec(d: &Document, pos: Position, trigger: Option<char>, today: Date) -> Seq<Proposal> {
    match byte_of_editor_pos(d.bytes_view(), d.lines_view(), pos.line as int, pos.character as int) {
        Some(cursor) => if cursor <= d.bytes_view().len() {
            match branch_of(path_spec(d.root_view(), cursor), trigger) {
                Some(b) => branch_proposals(d, cursor, b, today),
                None => Seq::empty(),
            }
        } else {
            Seq::empty()
        },
        None => Seq::empty(),
    }
}

/// The branch for the nodes under the cursor.
fn choose_branch(path: &Vec<&Cst>, trigger: Option<char>) -> (r: Option<Branch>)
    ensures
        r == branch_of(deref_all(path@), trigger),
{
    let inner = if path.len() > 0 { Some(path[path.len() - 1].kind()) } else { None };
    if inner == Some(NodeKind::Text) || inner == Some(NodeKind::Comment) {
        None
    } else if trigger == Some('[') {
        Some(Branch::Category)
    } else if trigger == Some('(') {
        Some(Branch::Date)
    } else if trigger == Some('@') {
        Some(Branch::Tag)
    } else if inner == Some(NodeKind::Category) {
        Some(Branch::Category)
    } else if inner == Some(NodeKind::Date) || inner == Some(NodeKind::Priority) {
        Some(Branch::Date)
    } else if inner == Some(NodeKind::Tag) {
        Some(Branch::Tag)
    } else {
        None
    }
}

/// The nearest offset in `[from, to)` holding an `open` that no `close`
/// after it and before `to` matches.
fn find_unmatched(bytes: &[u8], from: usize, to: usize, open: u8, close: Option<u8>) -> (r: Option<usize>)
    requires
        from <= to <= bytes@.len(),
    ensures
        r matches Some(i) ==> i == unmatched_open(bytes@, from as int, to as int, open, close, 0),
        r.is_none() ==> unmatched_open(bytes@, from as int, to as int, open, close, 0) == -1,
{
    let mut i: usize = to;
    let mut depth: usize = 0;
    while i > from
        invariant
            from <= i <= to <= bytes@.len(),
            depth <= to - i,
            unmatched_open(bytes@, from as int, to as int, open, close, 0)
                == unmatched_open(bytes@, from as int, i as int, open, close, depth as nat),
        decreases i - from,
    {
        let x = bytes[i - 1];
        if close == Some(x) {
            depth = depth + 1;
        } else if x == open {
            if depth == 0 {
                return Some(i - 1);
            }
            depth = depth - 1;
        }
        i = i - 1;
    }
    None
}

/// The names of the nodes whose range does not hold `excluded` (nothing is
/// excluded when it is none).
fn collect_names(cs: &Vec<&Cst>, excluded: Option<usize>) -> (r: Vec<String>)
    ensures
        views(r@) == names_outside(
            deref_all(cs@),
            match excluded { Some(x) => x as int, None => -1 },
        ),
{
    let ghost ex: int = match excluded { Some(x) => x as int, None => -1 };
    let mut r: Vec<String> = Vec::new();
    let mut i: usize = 0;
    while i < cs.len()
        invariant
            i <= cs@.len(),
            ex == match excluded { Some(x) => x as int, None => -1 },
            views(r@) == names_outside(deref_all(cs@).subrange(0, i as int), ex),
        decreases cs@.len() - i,
    {
        let c = cs[i];
        let ghost pre = deref_all(cs@).subrange(0, i as int + 1);
        assert(pre.drop_last() =~= deref_all(cs@).subrange(0, i as int));
        let inside = match excluded {
            Some(x) => c.range.contains(x),
            None => false,
        };
        if !inside {
            let name = match &c.rule {
                Rule::Category { name } => name.clone(),
                Rule::Tag { name } => name.clone(),
                _ => String::new(),
            };
            r.push(name);
        }
        i = i + 1;
        proof {
            assert(views(r@) =~= names_outside(deref_all(cs@).subrange(0, i as int), ex));
        }
    }
    assert(deref_all(cs@).subrange(0, i as int) =~= deref_all(cs@));
    r
}

/// Whether `v` holds a string that reads `s`.
fn holds(v: &Vec<String>, s: &String) -> (r: bool)
    ensures
        r == views(v@).contains(s@),
{
    let mut i: usize = 0;
    while i < v.len()
        invariant
            i <= v@.len(),
            forall|j: int| 0 <= j < i ==> v@[j]@ != s@,
        decreases v@.len() - i,
    {
        if v[i] == *s {
            assert(views(v@)[i as int] == s@);
            return true;
        }
        i = i + 1;
    }
    assert(!views(v@).contains(s@)) by {
        if views(v@).contains(s@) {
            let j = choose|j: int| 0 <= j < views(v@).len() && views(v@)[j] == s@;
            assert(v@[j]@ == s@);
        }
    }
    false
}

/// Removes repeated names, keeping each where it first occurs.
fn dedup_names(ns: Vec<String>) -> (r: Vec<String>)
    ensures
        views(r@) == dedup(views(ns@)),
{
    let mut r: Vec<String> = Vec::new();
    let mut i: usize = 0;
    while i < ns.len()
        invariant
            i <= ns@.len(),
            views(r@) == dedup(views(ns@).subrange(0, i as int)),
        decreases ns@.len() - i,
    {
        let ghost pre = views(ns@).subrange(0, i as int + 1);
        assert(pre.drop_last() =~= views(ns@).subrange(0, i as int));
        assert(pre.last() == ns@[i as int]@);
        if !holds(&r, &ns[i]) {
            r.push(ns[i].clone());
        }
        i = i + 1;
        proof {
            assert(views(r@) =~= dedup(views(ns@).subrange(0, i as int)));
        }
    }
    assert(views(ns@).subrange(0, i as int) =~= views(ns@));
    r
}

/// Items for the names `ns`, each wrapped by `pre` and `post`.
fn name_items(ns: &Vec<String>, pre: &str, post: &str, range: Range) -> (r: Vec<CompletionItem>)
    ensures
        r@.len() == ns@.len(),
        forall|i: int| 0 <= i < r@.len() ==> #[trigger] r@[i].shows(
            name_proposals(wrapped(views(ns@), pre@, post@), range)[i],
        ),
{
    let mut r: Vec<CompletionItem> = Vec::new();
    let mut i: usize = 0;
    while i < ns.len()
        invariant
            i <= ns@.len(),
            r@.len() == i,
            forall|j: int| 0 <= j < i ==> #[trigger] r@[j].shows(
                name_proposals(wrapped(views(ns@), pre@, post@), range)[j],
            ),
        decreases ns@.len() - i,
    {
        let label = String::from_str(pre).concat(ns[i].as_str()).concat(post);
        let new_text = label.clone();
        r.push(CompletionItem { label, range, new_text, detail: None });
        i = i + 1;
    }
    r
}

/// Appends the date proposal at `off` days from `today`, when chrono can write that day.
fn push_date(r: &mut Vec<CompletionItem>, today: Date, k: usize, off: i32, desc: &str, range: Range)
    requires
        k < 4,
        off as int == date_offsets()[k as int].0,
        desc@ == date_offsets()[k as int].1,
        0 <= off,
        old(r)@.len() == date_labels(today, k as int).len(),
        forall|i: int| 0 <= i < old(r)@.len() ==> #[trigger] old(r)@[i].shows(date_proposals(today, k as int, range)[i]),
    ensures
        final(r)@.len() == date_labels(today, k as int + 1).len(),
        forall|i: int| 0 <= i < final(r)@.len() ==> #[trigger] final(r)@[i].shows(date_proposals(today, k as int + 1, range)[i]),
{
    let ghost prev = date_labels(today, k as int);
    let ghost next = date_labels(today, k as int + 1);
    if today.days <= i32::MAX - off {
        let day = Date { days: today.days + off };
        match format_date(day) {
            Some(text) => {
                let label = String::from_str("(").concat(text.as_str()).concat(")");
                let new_text = label.clone();
                let ghost entry = (label@, desc@);
                r.push(CompletionItem { label, range, new_text, detail: Some(String::from_str(desc)) });
                proof {
                    assert(next == prev + seq![entry]);
                    assert forall|i: int| 0 <= i < r@.len() implies #[trigger] r@[i].shows(
                        date_proposals(today, k as int + 1, range)[i],
                    ) by {
                        if i < r@.len() - 1 {
                            assert(next[i] == prev[i]);
                            assert(date_proposals(today, k as int + 1, range)[i] == date_proposals(today, k as int, range)[i]);
                        } else {
                            assert(next[i] == entry);
                        }
                    }
                }
            },
            None => {
                proof {
                    assert(next =~= prev);
                    assert(date_proposals(today, k as int + 1, range) =~= date_proposals(today, k as int, range));
                }
            },
        }
    } else {
        proof {
            assert(next =~= prev);
            assert(date_proposals(today, k as int + 1, range) =~= date_proposals(today, k as int, range));
        }
    }
}

/// Items for the dates around `today`: today, tomorrow, two days and one week later.
fn date_items(today: Date, range: Range) -> (r: Vec<CompletionItem>)
    ensures
        r@.len() == date_labels(today, 4).len(),
        forall|i: int| 0 <= i < r@.len() ==> #[trigger] r@[i].shows(date_proposals(today, 4, range)[i]),
{
    let mut r: Vec<CompletionItem> = Vec::new();
    push_date(&mut r, today, 0, 0, "today", range);
    push_date(&mut r, today, 1, 1, "tomorrow", range);
    push_date(&mut r, today, 2, 2, "2 days later", range);
    push_date(&mut r, today, 3, 7, "1 week later", range);
    r
}

impl Document {
    /// The completion proposals at the editor position `pos`, with an
    /// optional trigger character, on the day `today`.
    pub fn completions_at(&self, pos: Position, trigger: Option<char>, today: Date) -> (r: Vec<CompletionItem>)
        requires
            self.wf(),
        ensures
            r@.len() == proposals_spec(self, pos, trigger, today).len(),
            forall|i: int| 0 <= i < r@.len() ==> #[trigger] r@[i].shows(proposals_spec(self, pos, trigger, today)[i]),
    {
        proof {
            self.lemma_wf();
        }
        let cursor = match pos.try_into_bytes(self) {
            Some(c) => c,
            None => return Vec::new(),
        };
        let bytes = self.bytes();
        if cursor > bytes.len() {
            return Vec::new();
        }
        let root = self.root();
        let path = root.get_csts_on_point(cursor);
        let b = match choose_branch(&path, trigger) {
            Some(b) => b,
            None => return Vec::new(),
        };
        let (open, close): (u8, Option<u8>) = match b {
            Branch::Category => (0x5B, Some(0x5D)),
            Branch::Date => (0x28, Some(0x29)),
            Branch::Tag => (0x40, None),
        };
        let lines = self.lines();
        let row = find_row(lines, bytes.len(), cursor);
        let ls = lines[row];
        let start = match find_unmatched(bytes, ls, cursor, open, close) {
            Some(i) => i,
            None => cursor,
        };
        let end = match close {
            Some(x) => if cursor < bytes.len() && bytes[cursor] == x { cursor + 1 } else { cursor },
            None => cursor,
        };
        let range = match Range::try_from_bytes(start, end, self) {
            Some(rg) => rg,
            None => return Vec::new(),
        };
        match b {
            Branch::Category => {
                let nodes = root.search_cst(NodeKind::Category, false, false);
                let names = dedup_names(collect_names(&nodes, Some(cursor)));
                proof {
                    assert(proposals_spec(self, pos, trigger, today)
                        == name_proposals(wrapped(views(names@), "["@, "]"@), range));
                }
                name_items(&names, "[", "]", range)
            },
            Branch::Tag => {
                let nodes = root.search_cst(NodeKind::Tag, false, false);
                let excluded = if cursor > 0 { Some(cursor - 1) } else { None };
                let names = dedup_names(collect_names(&nodes, excluded));
                proof {
                    reveal_strlit("");
                    assert(""@ =~= Seq::<char>::empty());
                    assert(wrapped(views(names@), "@"@, ""@) =~= wrapped(views(names@), "@"@, Seq::empty()));
                    assert(proposals_spec(self, pos, trigger, today)
                        == name_proposals(wrapped(views(names@), "@"@, ""@), range));
                }
                name_items(&names, "@", "", range)
            },
            Branch::Date => date_items(today, range),
        }
    }

    /// The completion proposals at `pos` on the current local date.
    pub fn get_completion(&self, pos: Position, trigger: Option<char>) -> (r: Vec<CompletionItem>)
        requires
            self.wf(),
        ensures
            exists|today: Date|
                r@.len() == proposals_spec(self, pos, trigger, today).len()
                && forall|i: int| 0 <= i < r@.len() ==> #[trigger] r@[i].shows(proposals_spec(self, pos, trigger, today)[i]),
    {
        let today = local_today();
        self.completions_at(pos, trigger, today)
    }
}

} // verus!
