//! Canonical formatting of a document, line by line: indentation, status
//! marker, merged meta entries in a fixed order, text and comment.
use vstd::prelude::*;
use crate::calendar::{date_text, format_date};
use crate::model::{build_node, mirrors, raw_ok, ParseError, RawNode};
use crate::syntax::{Cst, Date, NodeKind, Rule, StatusKind};
use crate::diagnostics::{find_kind, find_status, first_of_kind, first_status};
use crate::model::strip_prefix_spec;
use crate::equivalence::lemma_formatted_equiv;

verus! {

/// A character with the Unicode White_Space property.
pub open spec fn is_white_space(c: char) -> bool {
    let u = c as u32;
    (0x09 <= u <= 0x0D) || u == 0x20 || u == 0x85 || u == 0xA0 || u == 0x1680
        || (0x2000 <= u <= 0x200A) || u == 0x2028 || u == 0x2029 || u == 0x202F
        || u == 0x205F || u == 0x3000
}

/// `s` without its leading white space.
pub open spec fn trim_start(s: Seq<char>) -> Seq<char>
    decreases s.len(),
{
    if s.len() > 0 && is_white_space(s[0]) { trim_start(s.drop_first()) } else { s }
}

/// `s` without its trailing white space.
pub open spec fn trim_end(s: Seq<char>) -> Seq<char>
    decreases s.len(),
{
    if s.len() > 0 && is_white_space(s.last()) { trim_end(s.drop_last()) } else { s }
}

/// The text with leading and trailing white space removed.
pub open spec fn trimmed(s: Seq<char>) -> Seq<char> {
    trim_end(trim_start(s))
}

/// `s` without a final carriage return.
pub open spec fn strip_cr(s: Seq<char>) -> Seq<char> {
    if s.len() > 0 && s.last() == '\r' { s.drop_last() } else { s }
}

/// Index of the first line feed of `s`, or -1.
pub open spec fn first_newline(s: Seq<char>) -> int
    decreases s.len(),
{
    if s.len() == 0 {
        -1
    } else if s[0] == '\n' {
        0
    } else {
        let i = first_newline(s.drop_first());
        if i >= 0 { i + 1 } else { -1 }
    }
}

/// The lines of `s` as `str::lines` gives them: split at each line feed,
/// a carriage return before it dropped, no line after a final line feed.
pub open spec fn lines_spec(s: Seq<char>) -> Seq<Seq<char>>
    decreases s.len(),
{
    if s.len() == 0 {
        Seq::empty()
    } else {
        let i = first_newline(s);
        if 0 <= i < s.len() {
            seq![strip_cr(s.subrange(0, i))] + lines_spec(s.subrange(i + 1, s.len() as int))
        } else {
            seq![s]
        }
    }
}

/// Relies on `str::lines`: lines end at `\n`, a `\r` right before it is
/// dropped, and a final line ending opens no further line.
#[verifier::external_body]
fn split_lines(s: &str) -> (r: Vec<String>)
    ensures
        r@.map_values(|l: String| l@) == lines_spec(s@),
{
    s.lines().map(|l| l.to_string()).collect()
}

/// Relies on `str::trim`: leading and trailing characters with the Unicode
/// White_Space property removed.
#[verifier::external_body]
fn trim(s: &str) -> (r: String)
    ensures
        r@ == trimmed(s@),
{
    s.trim().to_string()
}

/// Number of tabs that `s` starts with.
pub open spec fn indent_of(s: Seq<char>) -> nat
    decreases s.len(),
{
    if s.len() > 0 && s[0] == '\t' { 1 + indent_of(s.drop_first()) } else { 0 }
}

/// The meta entries of one line, merged: the last priority, for each date
/// bound the last one given, and the categories in order.
pub struct MetaData {
    pub priority: Option<String>,
    pub start: Option<Date>,
    pub target: Option<Date>,
    pub deadline: Option<Date>,
    pub categories: Vec<String>,
}

/// The abstract content of merged meta entries.
pub struct MetaView {
    pub priority: Option<Seq<char>>,
    pub start: Option<Date>,
    pub target: Option<Date>,
    pub deadline: Option<Date>,
    pub categories: Seq<Seq<char>>,
}

impl MetaData {
    pub open spec fn view(&self) -> MetaView {
        MetaView {
            priority: match self.priority { Some(p) => Some(p@), None => None },
            start: self.start,
            target: self.target,
            deadline: self.deadline,
            categories: self.categories@.map_values(|c: String| c@),
        }
    }
}

/// `new` when it is given, else `old`.
pub open spec fn or_keep(new: Option<Date>, old: Option<Date>) -> Option<Date> {
    if new is Some { new } else { old }
}

/// The meta entries among `cs`, merged in order.
pub open spec fn merge_spec(cs: Seq<Cst>) -> MetaView
    decreases cs.len(),
{
    if cs.len() == 0 {
        MetaView { priority: None, start: None, target: None, deadline: None, categories: Seq::empty() }
    } else {
        let m = merge_spec(cs.drop_last());
        match cs.last().rule {
            Rule::Priority { value } => MetaView { priority: Some(value@), ..m },
            Rule::Date { start, target, deadline } => MetaView {
                start: or_keep(start, m.start),
                target: or_keep(target, m.target),
                deadline: or_keep(deadline, m.deadline),
                ..m
            },
            Rule::Category { name } => MetaView { categories: m.categories.push(name@), ..m },
            _ => m,
        }
    }
}

/// The text chrono writes for a date, or nothing when it cannot.
pub open spec fn date_str(d: Date) -> Seq<char> {
    match date_text(d.days as int) {
        Some(t) => t,
        None => Seq::empty(),
    }
}

/// The date bounds written back in their notation, with a trailing space.
pub open spec fn dates_text(s: Option<Date>, t: Option<Date>, d: Option<Date>) -> Seq<char> {
    match (s, t, d) {
        (Some(s), Some(t), Some(d)) => "("@ + date_str(s) + "~"@ + date_str(t) + " "@ + date_str(d) + "!) "@,
        (None, Some(t), Some(d)) => "("@ + date_str(t) + " "@ + date_str(d) + "!) "@,
        (Some(s), None, Some(d)) => "("@ + date_str(s) + "~"@ + date_str(d) + "!) "@,
        (Some(s), Some(t), None) => "("@ + date_str(s) + "~"@ + date_str(t) + ") "@,
        (Some(s), None, None) => "("@ + date_str(s) + "~) "@,
        (None, Some(t), None) => "("@ + date_str(t) + ") "@,
        (None, None, Some(d)) => "("@ + date_str(d) + "!) "@,
        (None, None, None) => Seq::empty(),
    }
}

/// Categories written back, each followed by a space.
pub open spec fn cats_text(cs: Seq<Seq<char>>) -> Seq<char>
    decreases cs.len(),
{
    if cs.len() == 0 {
        Seq::empty()
    } else {
        cats_text(cs.drop_last()) + "["@ + cs.last() + "] "@
    }
}

/// Merged meta entries written back: priority, dates, categories, with the
/// final space removed.
pub open spec fn meta_text(m: MetaView) -> Seq<char> {
    let full = (match m.priority { Some(p) => "("@ + p + ") "@, None => Seq::empty() })
        + dates_text(m.start, m.target, m.deadline) + cats_text(m.categories);
    if full.len() > 0 { full.drop_last() } else { full }
}

/// The marker of a status.
pub open spec fn marker(s: Option<StatusKind>) -> Seq<char> {
    match s {
        Some(StatusKind::Todo) => "+ "@,
        Some(StatusKind::Doing) => "* "@,
        Some(StatusKind::Done) => "- "@,
        Some(StatusKind::Cancelled) => "= "@,
        None => Seq::empty(),
    }
}

/// The non-empty parts joined by single spaces.
pub open spec fn join_nonempty(parts: Seq<Seq<char>>) -> Seq<char>
    decreases parts.len(),
{
    if parts.len() == 0 {
        Seq::empty()
    } else {
        let j = join_nonempty(parts.drop_last());
        let p = parts.last();
        if p.len() == 0 {
            j
        } else if j.len() == 0 {
            p
        } else {
            j + " "@ + p
        }
    }
}

/// `n` tabs.
pub open spec fn tabs(n: nat) -> Seq<char> {
    Seq::new(n, |i: int| '\t')
}

/// The comment of a line written back: `# ` and its trimmed body.
pub open spec fn memo_text(cs: Seq<Cst>) -> Seq<char> {
    if cs.len() > 0 {
        match cs[0].rule {
            Rule::Comment { content } => "# "@ + trimmed(strip_prefix_spec(content@, '#')),
            _ => Seq::empty(),
        }
    } else {
        Seq::empty()
    }
}

/// The text of a task written back, trimmed.
pub open spec fn label_text(item: Cst) -> Seq<char> {
    let i = first_of_kind(item.children@, NodeKind::Text);
    if item.rule is Task && i < item.children@.len() {
        match item.children@[i].rule {
            Rule::Text { content } => trimmed(content@),
            _ => Seq::empty(),
        }
    } else {
        Seq::empty()
    }
}

/// The formatted form of one line, from its indentation and the model of
/// its trimmed text.
pub open spec fn line_text(indent: nat, root: Cst) -> Seq<char> {
    let body = if root.children@.len() > 0 {
        let item = root.children@[0];
        marker(first_status(item.children@)) + join_nonempty(
            seq![meta_text(merge_spec(item.children@)), label_text(item), memo_text(item.comments@)],
        )
    } else {
        join_nonempty(seq![memo_text(root.comments@)])
    };
    tabs(indent) + body + "\n"@
}

/// Merges the meta entries among `cs`.
fn merge_meta(cs: &Vec<Cst>) -> (m: MetaData)
    ensures
        m.view() == merge_spec(cs@),
{
    let mut m = MetaData { priority: None, start: None, target: None, deadline: None, categories: Vec::new() };
    let mut i: usize = 0;
    assert(m.view().categories =~= Seq::<Seq<char>>::empty());
    while i < cs.len()
        invariant
            i <= cs@.len(),
            m.view() == merge_spec(cs@.subrange(0, i as int)),
        decreases cs@.len() - i,
    {
        let ghost pre = cs@.subrange(0, i as int + 1);
        assert(pre.drop_last() =~= cs@.subrange(0, i as int));
        let ghost cats0 = m.categories@;
        match &cs[i].rule {
            Rule::Priority { value } => {
                m.priority = Some(value.clone());
            },
            Rule::Date { start, target, deadline } => {
                if start.is_some() {
                    m.start = *start;
                }
                if target.is_some() {
                    m.target = *target;
                }
                if deadline.is_some() {
                    m.deadline = *deadline;
                }
            },
            Rule::Category { name } => {
                m.categories.push(name.clone());
                assert(m.categories@.map_values(|c: String| c@) =~= cats0.map_values(|c: String| c@).push(name@));
            },
            _ => {},
        }
        i = i + 1;
    }
    assert(cs@.subrange(0, i as int) =~= cs@);
    m
}

/// Writes a date, or nothing when chrono cannot.
fn date_string(d: Date) -> (r: String)
    ensures
        r@ == date_str(d),
{
    match format_date(d) {
        Some(t) => t,
        None => String::new(),
    }
}

/// Writes merged meta entries back.
fn write_meta(m: &MetaData) -> (r: String)
    ensures
        r@ == meta_text(m.view()),
{
    let mut full = String::new();
    match &m.priority {
        Some(p) => {
            full.append("(");
            full.append(p.as_str());
            full.append(") ");
        },
        None => {},
    }
    let ghost after_priority = full@;
    match (m.start, m.target, m.deadline) {
        (Some(s), Some(t), Some(d)) => {
            full.append("(");
            full.append(date_string(s).as_str());
            full.append("~");
            full.append(date_string(t).as_str());
            full.append(" ");
            full.append(date_string(d).as_str());
            full.append("!) ");
        },
        (None, Some(t), Some(d)) => {
            full.append("(");
            full.append(date_string(t).as_str());
            full.append(" ");
            full.append(date_string(d).as_str());
            full.append("!) ");
        },
        (Some(s), None, Some(d)) => {
            full.append("(");
            full.append(date_string(s).as_str());
            full.append("~");
            full.append(date_string(d).as_str());
            full.append("!) ");
        },
        (Some(s), Some(t), None) => {
            full.append("(");
            full.append(date_string(s).as_str());
            full.append("~");
            full.append(date_string(t).as_str());
            full.append(") ");
        },
        (Some(s), None, None) => {
            full.append("(");
            full.append(date_string(s).as_str());
            full.append("~) ");
        },
        (None, Some(t), None) => {
            full.append("(");
            full.append(date_string(t).as_str());
            full.append(") ");
        },
        (None, None, Some(d)) => {
            full.append("(");
            full.append(date_string(d).as_str());
            full.append("!) ");
        },
        (None, None, None) => {},
    }
    assert(full@ =~= after_priority + dates_text(m.start, m.target, m.deadline));
    let ghost after_dates = full@;
    let mut i: usize = 0;
    while i < m.categories.len()
        invariant
            i <= m.categories@.len(),
            full@ == after_dates + cats_text(m.categories@.map_values(|c: String| c@).subrange(0, i as int)),
        decreases m.categories@.len() - i,
    {
        let ghost cs = m.categories@.map_values(|c: String| c@);
        assert(cs.subrange(0, i as int + 1).drop_last() =~= cs.subrange(0, i as int));
        full.append("[");
        full.append(m.categories[i].as_str());
        full.append("] ");
        i = i + 1;
        assert(full@ =~= after_dates + cats_text(cs.subrange(0, i as int)));
    }
    assert(m.categories@.map_values(|c: String| c@).subrange(0, i as int) =~= m.view().categories);
    let n = full.as_str().unicode_len();
    if n > 0 {
        String::from_str(full.as_str().substring_char(0, n - 1))
    } else {
        full
    }
}

/// Joins the non-empty parts with single spaces.
fn join_parts(a: String, b: String, c: String) -> (r: String)
    ensures
        r@ == join_nonempty(seq![a@, b@, c@]),
{
    let mut r = String::new();
    let ghost parts = seq![a@, b@, c@];
    assert(parts.subrange(0, 0).len() == 0);
    assert(parts.subrange(0, 1).drop_last() =~= parts.subrange(0, 0));
    assert(parts.subrange(0, 2).drop_last() =~= parts.subrange(0, 1));
    assert(parts.drop_last() =~= parts.subrange(0, 2));
    assert(parts.subrange(0, 1).last() == a@);
    assert(parts.subrange(0, 2).last() == b@);
    assert(parts.last() == c@);
    assert(join_nonempty(parts.subrange(0, 0)) == Seq::<char>::empty());
    if a.as_str().unicode_len() > 0 {
        r = a;
    }
    assert(r@ =~= join_nonempty(parts.subrange(0, 1)));
    if b.as_str().unicode_len() > 0 {
        if r.as_str().unicode_len() > 0 {
            r.append(" ");
        }
        r.append(b.as_str());
    }
    assert(r@ =~= join_nonempty(parts.subrange(0, 2)));
    if c.as_str().unicode_len() > 0 {
        if r.as_str().unicode_len() > 0 {
            r.append(" ");
        }
        r.append(c.as_str());
    }
    assert(r@ =~= join_nonempty(parts));
    r
}

/// Writes a comment back: `# ` and its trimmed body.
fn write_memo(cs: &Vec<Cst>) -> (r: String)
    ensures
        r@ == memo_text(cs@),
{
    if cs.len() > 0 {
        match &cs[0].rule {
            Rule::Comment { content } => {
                let s = content.as_str();
                let n = s.unicode_len();
                let body = if n >= 1 && s.get_char(0) == '#' { s.substring_char(1, n) } else { s };
                proof {
                    if n >= 1 && s@[0] == '#' {
                        assert(s@.drop_first() =~= s@.subrange(1, n as int));
                    }
                }
                let mut r = String::from_str("# ");
                r.append(trim(body).as_str());
                r
            },
            _ => String::new(),
        }
    } else {
        String::new()
    }
}

/// Writes one line back, from its indentation and the model of its trimmed text.
pub fn format_line(indent: usize, root: &Cst) -> (r: String)
    ensures
        r@ == line_text(indent as nat, *root),
{
    let mut r = String::new();
    let mut k: usize = 0;
    proof {
        reveal_strlit("\t");
        assert(r@ =~= tabs(0));
    }
    while k < indent
        invariant
            k <= indent,
            r@ == tabs(k as nat),
        decreases indent - k,
    {
        r.append("\t");
        k = k + 1;
        proof {
            reveal_strlit("\t");
        }
        assert(r@ =~= tabs(k as nat));
    }
    let body = if root.children.len() > 0 {
        let item = &root.children[0];
        let mut body = match find_status(&item.children) {
            Some(StatusKind::Todo) => String::from_str("+ "),
            Some(StatusKind::Doing) => String::from_str("* "),
            Some(StatusKind::Done) => String::from_str("- "),
            Some(StatusKind::Cancelled) => String::from_str("= "),
            None => String::new(),
        };
        let meta = write_meta(&merge_meta(&item.children));
        let i = find_kind(&item.children, NodeKind::Text);
        let label = if item.kind() == NodeKind::Task && i < item.children.len() {
            match &item.children[i].rule {
                Rule::Text { content } => trim(content.as_str()),
                _ => String::new(),
            }
        } else {
            String::new()
        };
        let memo = write_memo(&item.comments);
        let ghost parts = seq![meta@, label@, memo@];
        proof {
            assert(parts == seq![meta_text(merge_spec(item.children@)), label_text(*item), memo_text(item.comments@)]);
        }
        let joined = join_parts(meta, label, memo);
        assert(body@ == marker(first_status(item.children@)));
        body.append(joined.as_str());
        body
    } else {
        let memo = write_memo(&root.comments);
        let ghost m = memo@;
        let joined = join_parts(memo, String::new(), String::new());
        proof {
            let three_parts = seq![m, Seq::<char>::empty(), Seq::<char>::empty()];
            let one_part = seq![m];
            assert(three_parts.drop_last() =~= seq![m, Seq::<char>::empty()]);
            assert(seq![m, Seq::<char>::empty()].drop_last() =~= one_part);
            assert(one_part.drop_last() =~= Seq::<Seq<char>>::empty());
            assert(join_nonempty(three_parts) == join_nonempty(seq![m, Seq::<char>::empty()]));
            assert(join_nonempty(seq![m, Seq::<char>::empty()]) == join_nonempty(one_part));
            assert(joined@ == join_nonempty(seq![memo_text(root.comments@)]));
        }
        joined
    };
    let ghost tab_part = r@;
    let ghost body_part = body@;
    r.append(body.as_str());
    r.append("\n");
    assert(r@ =~= tab_part + body_part + "\n"@);
    r
}

/// Number of tabs that `s` starts with.
fn count_indent(s: &str) -> (n: usize)
    ensures
        n == indent_of(s@),
{
    let len = s.unicode_len();
    let mut n: usize = 0;
    assert(s@.subrange(0, len as int) =~= s@);
    while n < len && s.get_char(n) == '\t'
        invariant
            n <= len == s@.len(),
            indent_of(s@) == n + indent_of(s@.subrange(n as int, len as int)),
        decreases len - n,
    {
        let ghost rest = s@.subrange(n as int, len as int);
        assert(rest.drop_first() =~= s@.subrange(n + 1, len as int));
        n = n + 1;
    }
    proof {
        let rest = s@.subrange(n as int, len as int);
        assert(rest.len() == 0 || rest[0] != '\t');
    }
    n
}

/// The trimmed text of each line of `text`: what the parser reads, line by line.
pub fn line_sources(text: &str) -> (r: Vec<String>)
    ensures
        r@.len() == lines_spec(text@).len(),
        forall|i: int| 0 <= i < r@.len() ==> (#[trigger] r@[i])@ == trimmed(lines_spec(text@)[i]),
{
    let lines = split_lines(text);
    let mut r: Vec<String> = Vec::new();
    let mut i: usize = 0;
    while i < lines.len()
        invariant
            i <= lines@.len(),
            lines@.map_values(|l: String| l@) == lines_spec(text@),
            r@.len() == i,
            forall|j: int| 0 <= j < i ==> (#[trigger] r@[j])@ == trimmed(lines_spec(text@)[j]),
        decreases lines@.len() - i,
    {
        assert(lines_spec(text@)[i as int] == lines@[i as int]@);
        r.push(trim(lines[i].as_str()));
        i = i + 1;
    }
    r
}

/// Formats `text` line by line: `trees` holds the parser's tree of the
/// trimmed text of each line, in order. Fails when there is not one tree
/// per line, or when a tree cannot be mapped to the syntax model.
pub fn format_lines(text: &str, trees: &Vec<RawNode>) -> (r: Result<String, ParseError>)
    ensures
        r is Ok <==> trees@.len() == lines_spec(text@).len()
            && forall|i: int| 0 <= i < trees@.len() ==> raw_ok(
                #[trigger] trees@[i],
                vstd::utf8::encode_utf8(trimmed(lines_spec(text@)[i])).len() as int,
            ),
        trees@.len() != lines_spec(text@).len() ==> r == Err::<String, ParseError>(ParseError::ParserFailed),
        r is Ok ==> exists|cs: Seq<Cst>| #[trigger] models_of(trees@, cs),
        r matches Ok(s) ==> forall|cs: Seq<Cst>| #[trigger] models_of(trees@, cs)
            ==> s@ == formatted(lines_spec(text@), cs),
{
    let lines = split_lines(text);
    if lines.len() != trees.len() {
        return Err(ParseError::ParserFailed);
    }
    let mut out = String::new();
    let ghost mut cs: Seq<Cst> = Seq::empty();
    let mut i: usize = 0;
    while i < lines.len()
        invariant
            i <= lines@.len() == trees@.len(),
            lines@.map_values(|l: String| l@) == lines_spec(text@),
            cs.len() == i,
            forall|j: int| 0 <= j < i ==> mirrors(trees@[j], #[trigger] cs[j]),
            forall|j: int| 0 <= j < i ==> raw_ok(
                #[trigger] trees@[j],
                vstd::utf8::encode_utf8(trimmed(lines_spec(text@)[j])).len() as int,
            ),
            out@ == formatted(lines_spec(text@).subrange(0, i as int), cs),
        decreases lines@.len() - i,
    {
        assert(lines_spec(text@)[i as int] == lines@[i as int]@);
        let line = lines[i].as_str();
        let indent = count_indent(line);
        let src = trim(line);
        let len = src.as_str().as_bytes().len();
        let root = match build_node(&trees[i], len) {
            Ok(c) => c,
            Err(e) => return Err(e),
        };
        let piece = format_line(indent, &root);
        proof {
            let ls = lines_spec(text@);
            assert(ls.subrange(0, i as int + 1).drop_last() =~= ls.subrange(0, i as int));
            assert(cs.push(root).drop_last() =~= cs);
        }
        out.append(piece.as_str());
        proof {
            cs = cs.push(root);
        }
        i = i + 1;
    }
    proof {
        assert(lines_spec(text@).subrange(0, i as int) =~= lines_spec(text@));
        assert(models_of(trees@, cs));
        assert forall|cs2: Seq<Cst>| #[trigger] models_of(trees@, cs2)
            implies out@ == formatted(lines_spec(text@), cs2) by {
            lemma_formatted_equiv(lines_spec(text@), trees@, cs, cs2);
        }
    }
    Ok(out)
}

/// `cs` holds, in order, a model of each tree of `trees`.
pub open spec fn models_of(trees: Seq<RawNode>, cs: Seq<Cst>) -> bool {
    cs.len() == trees.len() && forall|i: int| 0 <= i < cs.len() ==> mirrors(trees[i], #[trigger] cs[i])
}

/// The formatted lines `ls`, with `cs` the models of their trimmed texts.
pub open spec fn formatted(ls: Seq<Seq<char>>, cs: Seq<Cst>) -> Seq<char>
    decreases ls.len(),
{
    if ls.len() == 0 || cs.len() < ls.len() {
        Seq::empty()
    } else {
        formatted(ls.drop_last(), cs.subrange(0, ls.len() - 1)) + line_text(
            indent_of(ls.last()),
            cs[ls.len() - 1],
        )
    }
}

} // verus!
