//! Building the syntax model from the external parser's tree.
use vstd::prelude::*;
use crate::calendar::{parse_date, parsed_date};
use crate::syntax::{Cst, Date, Rule, StatusKind, TextRange, in_bounds, list_in_bounds};

verus! {

/// A node of the external parser's tree, as plain values: its kind name,
/// its byte range, its source text, whether the parser marked it as an
/// error or as missing, and its children in source order.
pub struct RawNode {
    pub kind: String,
    pub start: usize,
    pub end: usize,
    pub text: String,
    pub is_error: bool,
    pub children: Vec<RawNode>,
}

/// Why a syntax model could not be built.
#[derive(Clone, Copy, Debug, PartialEq, Eq, Structural)]
pub enum ParseError {
    /// The parser produced no tree.
    ParserFailed,
    /// A node's range is reversed or runs past the end of the text.
    BadRange,
    /// A date's text is not a calendar date in the form `YYYY-MM-DD`.
    BadDate,
    /// A task has no text.
    MissingText,
    /// The text is too long to be addressed.
    TooLong,
    /// A node lies outside its parent, semantic siblings overlap or come out
    /// of order, or a task has more than one text.
    BadShape,
}

/// How a raw child is filed under its parent.
pub enum Slot {
    Comment,
    Error,
    Child,
}

pub open spec fn slot_of(r: RawNode) -> Slot {
    if r.is_error || r.kind@ == "ERROR"@ {
        Slot::Error
    } else if r.kind@ == "comment"@ {
        Slot::Comment
    } else {
        Slot::Child
    }
}

/// Kinds whose raw children become children of the node.
pub open spec fn has_structure(r: RawNode) -> bool {
    !r.is_error && (r.kind@ == "source_file"@ || r.kind@ == "task"@ || r.kind@ == "header"@
        || r.kind@ == "text"@)
}

/// `s` without its first and last characters when they are `open` and `close`.
pub open spec fn strip_spec(s: Seq<char>, open: char, close: char) -> Seq<char> {
    if s.len() >= 2 && s[0] == open && s[s.len() - 1] == close {
        s.subrange(1, s.len() - 1)
    } else {
        s
    }
}

/// `s` without its first character when it is `c`.
pub open spec fn strip_prefix_spec(s: Seq<char>, c: char) -> Seq<char> {
    if s.len() >= 1 && s[0] == c {
        s.drop_first()
    } else {
        s
    }
}

/// Index of the last `c` in `s`, or -1.
pub open spec fn last_index_of(s: Seq<char>, c: char) -> int
    decreases s.len(),
{
    if s.len() == 0 {
        -1
    } else if s.last() == c {
        s.len() - 1
    } else {
        last_index_of(s.drop_last(), c)
    }
}

/// The key of a key-value text: what precedes its last colon.
pub open spec fn key_spec(s: Seq<char>) -> Seq<char> {
    let body = strip_spec(s, '{', '}');
    let i = last_index_of(body, ':');
    if i >= 0 { body.subrange(0, i) } else { body }
}

/// The value of a key-value text: what follows its last colon.
pub open spec fn value_spec(s: Seq<char>) -> Seq<char> {
    let body = strip_spec(s, '{', '}');
    let i = last_index_of(body, ':');
    if i >= 0 { body.subrange(i + 1, body.len() as int) } else { Seq::empty() }
}

/// The text of the first child of `cs` whose kind is `name`.
pub open spec fn child_text(cs: Seq<RawNode>, name: Seq<char>) -> Option<Seq<char>>
    decreases cs.len(),
{
    if cs.len() == 0 {
        None
    } else if cs[0].kind@ == name {
        Some(cs[0].text@)
    } else {
        child_text(cs.drop_first(), name)
    }
}

/// A date bound given by the child named `name`: absent, or its text read as a date.
pub open spec fn bound_ok(cs: Seq<RawNode>, name: Seq<char>) -> bool {
    child_text(cs, name) matches Some(t) ==> parsed_date(t).is_some()
}

pub open spec fn bound_spec(cs: Seq<RawNode>, name: Seq<char>) -> Option<Date> {
    match child_text(cs, name) {
        Some(t) => Some(Date { days: parsed_date(t).unwrap() as i32 }),
        None => None,
    }
}

/// The status named by the first child of a status node.
pub open spec fn status_spec(cs: Seq<RawNode>) -> Option<StatusKind> {
    if cs.len() == 0 {
        None
    } else if cs[0].kind@ == "status_todo"@ {
        Some(StatusKind::Todo)
    } else if cs[0].kind@ == "status_doing"@ {
        Some(StatusKind::Doing)
    } else if cs[0].kind@ == "status_done"@ {
        Some(StatusKind::Done)
    } else if cs[0].kind@ == "status_cancel"@ {
        Some(StatusKind::Cancelled)
    } else {
        None
    }
}

/// Some raw child of `cs` is a text.
pub open spec fn has_text_child(cs: Seq<RawNode>) -> bool {
    exists|i: int| 0 <= i < cs.len() && !cs[i].is_error && (#[trigger] cs[i].kind@) == "text"@
}

/// What the node itself needs, apart from its children, to be mapped.
pub open spec fn node_ok(r: RawNode, len: int) -> bool {
    &&& r.start <= r.end <= len
    &&& (!r.is_error && r.kind@ == "date"@) ==> bound_ok(r.children@, "start"@) && bound_ok(
        r.children@,
        "target"@,
    ) && bound_ok(r.children@, "deadline"@)
    &&& (!r.is_error && r.kind@ == "task"@) ==> has_text_child(r.children@)
}

/// The raw tree can be mapped: every node of it that becomes part of the
/// model is well formed.
pub open spec fn raw_ok(r: RawNode, len: int) -> bool
    decreases r,
{
    &&& node_ok(r, len)
    &&& has_structure(r) ==> raw_list_ok(r.children@, len)
}

pub open spec fn raw_list_ok(rs: Seq<RawNode>, len: int) -> bool
    decreases rs,
{
    if rs.len() == 0 {
        true
    } else {
        raw_list_ok(rs.drop_last(), len) && raw_ok(rs.last(), len)
    }
}

/// The rule that a raw node maps to, given that it can be mapped.
pub open spec fn rule_matches(r: RawNode, rule: Rule) -> bool {
    if r.is_error {
        rule is Error
    } else if r.kind@ == "date"@ {
        rule matches Rule::Date { start, target, deadline }
        && start == bound_spec(r.children@, "start"@)
        && target == bound_spec(r.children@, "target"@)
        && deadline == bound_spec(r.children@, "deadline"@)
    } else if r.kind@ == "ERROR"@ {
        rule is Error
    } else if r.kind@ == "source_file"@ {
        rule is SourceFile
    } else if r.kind@ == "task"@ {
        rule is Task
    } else if r.kind@ == "header"@ {
        rule is Header
    } else if r.kind@ == "status"@ {
        match status_spec(r.children@) {
            Some(k) => rule == Rule::Status { kind: k },
            None => rule is Error,
        }
    } else if r.kind@ == "priority"@ {
        rule matches Rule::Priority { value } && value@ == strip_spec(r.text@, '(', ')')
    } else if r.kind@ == "keyval"@ {
        rule matches Rule::KeyVal { key, value }
        && key@ == key_spec(r.text@) && value@ == value_spec(r.text@)
    } else if r.kind@ == "category"@ {
        rule matches Rule::Category { name } && name@ == strip_spec(r.text@, '[', ']')
    } else if r.kind@ == "text"@ {
        rule matches Rule::Text { content } && content@ == r.text@
    } else if r.kind@ == "tag"@ {
        rule matches Rule::Tag { name } && name@ == strip_prefix_spec(r.text@, '@')
    } else if r.kind@ == "comment"@ {
        rule matches Rule::Comment { content } && content@ == r.text@
    } else {
        rule is Error
    }
}

/// `c` is the model of the raw node `r`.
pub open spec fn mirrors(r: RawNode, c: Cst) -> bool
    decreases r,
{
    &&& c.range == (TextRange { start: r.start, end: r.end })
    &&& rule_matches(r, c.rule)
    &&& if has_structure(r) {
        mirrors_list(r.children@, c.children@, c.comments@, c.errors@)
    } else {
        c.children@.len() == 0 && c.comments@.len() == 0 && c.errors@.len() == 0
    }
}

/// The raw nodes `rs` are filed, in order, as the children `ch`, the
/// comments `cm` and the errors `er`, each the model of its raw node.
pub open spec fn mirrors_list(rs: Seq<RawNode>, ch: Seq<Cst>, cm: Seq<Cst>, er: Seq<Cst>) -> bool
    decreases rs,
{
    if rs.len() == 0 {
        ch.len() == 0 && cm.len() == 0 && er.len() == 0
    } else {
        let r = rs.last();
        match slot_of(r) {
            Slot::Comment => cm.len() > 0 && mirrors(r, cm.last()) && mirrors_list(
                rs.drop_last(),
                ch,
                cm.drop_last(),
                er,
            ),
            Slot::Error => er.len() > 0 && mirrors(r, er.last()) && mirrors_list(
                rs.drop_last(),
                ch,
                cm,
                er.drop_last(),
            ),
            Slot::Child => ch.len() > 0 && mirrors(r, ch.last()) && mirrors_list(
                rs.drop_last(),
                ch.drop_last(),
                cm,
                er,
            ),
        }
    }
}

/// Whether `s` reads exactly `lit`.
fn name_is(s: &String, lit: &str) -> (r: bool)
    ensures
        r == (s@ == lit@),
{
    *s == String::from_str(lit)
}

/// Removes a surrounding pair of `open` and `close`.
fn strip(s: &str, open: char, close: char) -> (r: String)
    ensures
        r@ == strip_spec(s@, open, close),
{
    let n = s.unicode_len();
    if n >= 2 && s.get_char(0) == open && s.get_char(n - 1) == close {
        String::from_str(s.substring_char(1, n - 1))
    } else {
        String::from_str(s)
    }
}

/// Removes a leading `c`.
fn strip_prefix(s: &str, c: char) -> (r: String)
    ensures
        r@ == strip_prefix_spec(s@, c),
{
    let n = s.unicode_len();
    if n >= 1 && s.get_char(0) == c {
        String::from_str(s.substring_char(1, n))
    } else {
        String::from_str(s)
    }
}

/// Index of the last `c` in `s`.
fn find_last(s: &str, c: char) -> (r: Option<usize>)
    ensures
        r matches Some(i) ==> i as int == last_index_of(s@, c) && i < s@.len(),
        r.is_none() ==> last_index_of(s@, c) == -1,
{
    let mut i: usize = s.unicode_len();
    assert(s@.subrange(0, i as int) =~= s@);
    while i > 0
        invariant
            i <= s@.len(),
            last_index_of(s@, c) == last_index_of(s@.subrange(0, i as int), c),
        decreases i,
    {
        let ghost pre = s@.subrange(0, i as int);
        assert(pre.drop_last() =~= s@.subrange(0, i - 1));
        if s.get_char(i - 1) == c {
            return Some(i - 1);
        }
        i = i - 1;
    }
    None
}

/// Splits a key-value text at its last colon.
fn split_keyval(s: &str) -> (r: (String, String))
    ensures
        r.0@ == key_spec(s@),
        r.1@ == value_spec(s@),
{
    let body = strip(s, '{', '}');
    let b = body.as_str();
    match find_last(b, ':') {
        Some(i) => {
            let n = b.unicode_len();
            (String::from_str(b.substring_char(0, i)), String::from_str(b.substring_char(i + 1, n)))
        },
        None => (String::from_str(b), String::new()),
    }
}

/// The text of the first child named `name`.
fn find_child_text<'a>(cs: &'a Vec<RawNode>, name: &str) -> (r: Option<&'a String>)
    ensures
        r matches Some(t) ==> child_text(cs@, name@) == Some(t@),
        r.is_none() ==> child_text(cs@, name@).is_none(),
{
    let mut i: usize = 0;
    assert(cs@.subrange(0, cs@.len() as int) =~= cs@);
    while i < cs.len()
        invariant
            i <= cs@.len(),
            child_text(cs@, name@) == child_text(cs@.subrange(i as int, cs@.len() as int), name@),
        decreases cs@.len() - i,
    {
        let ghost rest = cs@.subrange(i as int, cs@.len() as int);
        assert(rest.drop_first() =~= cs@.subrange(i + 1, cs@.len() as int));
        if name_is(&cs[i].kind, name) {
            return Some(&cs[i].text);
        }
        i = i + 1;
    }
    None
}

/// Reads the date bound given by the child named `name`.
fn read_bound(cs: &Vec<RawNode>, name: &str) -> (r: Result<Option<Date>, ParseError>)
    ensures
        r is Ok <==> bound_ok(cs@, name@),
        r matches Ok(d) ==> d == bound_spec(cs@, name@),
{
    match find_child_text(cs, name) {
        None => Ok(None),
        Some(t) => match parse_date(t.as_str()) {
            Some(d) => Ok(Some(d)),
            None => Err(ParseError::BadDate),
        },
    }
}

/// Whether some raw child is a text.
fn find_text_child(cs: &Vec<RawNode>) -> (r: bool)
    ensures
        r == has_text_child(cs@),
{
    let mut i: usize = 0;
    while i < cs.len()
        invariant
            i <= cs@.len(),
            forall|j: int| 0 <= j < i ==> !(!cs@[j].is_error && cs@[j].kind@ == "text"@),
        decreases cs@.len() - i,
    {
        if !cs[i].is_error && name_is(&cs[i].kind, "text") {
            return true;
        }
        i = i + 1;
    }
    false
}

/// The status named by the first child of a status node.
fn read_status(cs: &Vec<RawNode>) -> (r: Option<StatusKind>)
    ensures
        r == status_spec(cs@),
{
    if cs.len() == 0 {
        None
    } else if name_is(&cs[0].kind, "status_todo") {
        Some(StatusKind::Todo)
    } else if name_is(&cs[0].kind, "status_doing") {
        Some(StatusKind::Doing)
    } else if name_is(&cs[0].kind, "status_done") {
        Some(StatusKind::Done)
    } else if name_is(&cs[0].kind, "status_cancel") {
        Some(StatusKind::Cancelled)
    } else {
        None
    }
}

/// The rule of a raw node, reading the payload from its text.
fn build_rule(r: &RawNode) -> (res: Result<Rule, ParseError>)
    ensures
        res is Ok <==> ((!r.is_error && r.kind@ == "date"@) ==> bound_ok(r.children@, "start"@)
            && bound_ok(r.children@, "target"@) && bound_ok(r.children@, "deadline"@)),
        res matches Ok(rule) ==> rule_matches(*r, rule),
{
    if !r.is_error && name_is(&r.kind, "date") {
        let start = read_bound(&r.children, "start")?;
        let target = read_bound(&r.children, "target")?;
        let deadline = read_bound(&r.children, "deadline")?;
        return Ok(Rule::Date { start, target, deadline });
    }
    if r.is_error || name_is(&r.kind, "ERROR") {
        Ok(Rule::Error)
    } else if name_is(&r.kind, "source_file") {
        Ok(Rule::SourceFile)
    } else if name_is(&r.kind, "task") {
        Ok(Rule::Task)
    } else if name_is(&r.kind, "header") {
        Ok(Rule::Header)
    } else if name_is(&r.kind, "status") {
        match read_status(&r.children) {
            Some(kind) => Ok(Rule::Status { kind }),
            None => Ok(Rule::Error),
        }
    } else if name_is(&r.kind, "priority") {
        Ok(Rule::Priority { value: strip(r.text.as_str(), '(', ')') })
    } else if name_is(&r.kind, "keyval") {
        let (key, value) = split_keyval(r.text.as_str());
        Ok(Rule::KeyVal { key, value })
    } else if name_is(&r.kind, "category") {
        Ok(Rule::Category { name: strip(r.text.as_str(), '[', ']') })
    } else if name_is(&r.kind, "text") {
        Ok(Rule::Text { content: r.text.clone() })
    } else if name_is(&r.kind, "tag") {
        Ok(Rule::Tag { name: strip_prefix(r.text.as_str(), '@') })
    } else if name_is(&r.kind, "comment") {
        Ok(Rule::Comment { content: r.text.clone() })
    } else {
        Ok(Rule::Error)
    }
}

proof fn lemma_raw_list_ok_each(rs: Seq<RawNode>, len: int, i: int)
    requires
        raw_list_ok(rs, len),
        0 <= i < rs.len(),
    ensures
        raw_ok(rs[i], len),
    decreases rs.len(),
{
    if i < rs.len() - 1 {
        lemma_raw_list_ok_each(rs.drop_last(), len, i);
    }
}

proof fn lemma_raw_list_ok_prefix(rs: Seq<RawNode>, len: int, i: int)
    requires
        0 <= i <= rs.len(),
        forall|j: int| 0 <= j < i ==> raw_ok(#[trigger] rs[j], len),
    ensures
        raw_list_ok(rs.subrange(0, i), len),
    decreases i,
{
    if i > 0 {
        assert(rs.subrange(0, i).drop_last() =~= rs.subrange(0, i - 1));
        lemma_raw_list_ok_prefix(rs, len, i - 1);
    }
}

/// Builds the model of a raw node whose text is `len` bytes long.
pub fn build_node(r: &RawNode, len: usize) -> (res: Result<Cst, ParseError>)
    ensures
        res is Ok <==> raw_ok(*r, len as int),
        res matches Ok(c) ==> mirrors(*r, c) && in_bounds(c, len as int),
    decreases r,
{
    if r.start > r.end || r.end > len {
        return Err(ParseError::BadRange);
    }
    if !r.is_error && name_is(&r.kind, "task") && !find_text_child(&r.children) {
        return Err(ParseError::MissingText);
    }
    let rule = build_rule(r)?;
    let structured = !r.is_error && (name_is(&r.kind, "source_file") || name_is(&r.kind, "task")
        || name_is(&r.kind, "header") || name_is(&r.kind, "text"));
    let range = TextRange { start: r.start, end: r.end };
    if structured {
        let (children, comments, errors) = build_list(&r.children, len)?;
        Ok(Cst { range, rule, children, comments, errors })
    } else {
        Ok(Cst { range, rule, children: Vec::new(), comments: Vec::new(), errors: Vec::new() })
    }
}

/// Builds the models of a list of raw nodes, filing each as a child, a
/// comment or an error.
fn build_list(rs: &Vec<RawNode>, len: usize) -> (res: Result<(Vec<Cst>, Vec<Cst>, Vec<Cst>), ParseError>)
    ensures
        res is Ok <==> raw_list_ok(rs@, len as int),
        res matches Ok(t) ==> mirrors_list(rs@, t.0@, t.1@, t.2@)
            && list_in_bounds(t.0@, len as int) && list_in_bounds(t.1@, len as int)
            && list_in_bounds(t.2@, len as int),
    decreases rs,
{
    let mut ch: Vec<Cst> = Vec::new();
    let mut cm: Vec<Cst> = Vec::new();
    let mut er: Vec<Cst> = Vec::new();
    let mut i: usize = 0;
    while i < rs.len()
        invariant
            i <= rs@.len(),
            mirrors_list(rs@.subrange(0, i as int), ch@, cm@, er@),
            list_in_bounds(ch@, len as int),
            list_in_bounds(cm@, len as int),
            list_in_bounds(er@, len as int),
            forall|j: int| 0 <= j < i ==> raw_ok(#[trigger] rs@[j], len as int),
        decreases rs@.len() - i,
    {
        let built = build_node(&rs[i], len);
        let c = match built {
            Ok(c) => c,
            Err(e) => {
                proof {
                    if raw_list_ok(rs@, len as int) {
                        lemma_raw_list_ok_each(rs@, len as int, i as int);
                    }
                }
                return Err(e);
            },
        };
        let ghost pre = rs@.subrange(0, i as int + 1);
        assert(pre.drop_last() =~= rs@.subrange(0, i as int));
        assert(pre.last() == rs@[i as int]);
        let ghost (ch0, cm0, er0) = (ch@, cm@, er@);
        if rs[i].is_error || name_is(&rs[i].kind, "ERROR") {
            er.push(c);
            assert(er@.drop_last() =~= er0);
        } else if name_is(&rs[i].kind, "comment") {
            cm.push(c);
            assert(cm@.drop_last() =~= cm0);
        } else {
            ch.push(c);
            assert(ch@.drop_last() =~= ch0);
        }
        i = i + 1;
    }
    proof {
        assert(rs@.subrange(0, i as int) =~= rs@);
        lemma_raw_list_ok_prefix(rs@, len as int, i as int);
    }
    Ok((ch, cm, er))
}

} // verus!
