//! The syntax model: a typed, owned tree of the document's nodes, and the
//! queries over it.
use vstd::prelude::*;

verus! {

/// The explicit status of a task or header.
#[derive(Clone, Copy, Debug, PartialEq, Eq, Structural)]
pub enum StatusKind {
    Todo,
    Doing,
    Done,
    Cancelled,
}

/// A calendar date, as its day number counted from 0001-01-01 (day 1).
#[derive(Clone, Copy, Debug, PartialEq, Eq, Structural)]
pub struct Date {
    pub days: i32,
}

/// A byte range; `end` is exclusive for construction, while containment of a
/// cursor is tested inclusively on both ends.
#[derive(Clone, Copy, Debug, PartialEq, Eq, Structural)]
pub struct TextRange {
    pub start: usize,
    pub end: usize,
}

impl TextRange {
    /// The cursor `b` lies in this range, both ends included.
    pub open spec fn spec_contains(self, b: int) -> bool {
        self.start <= b <= self.end
    }

    pub fn contains(&self, b: usize) -> (r: bool)
        ensures
            r == self.spec_contains(b as int),
    {
        self.start <= b && b <= self.end
    }
}

/// The kind of a syntax node, without its payload.
#[derive(Clone, Copy, Debug, PartialEq, Eq, Structural)]
pub enum NodeKind {
    SourceFile,
    Task,
    Header,
    Status,
    Priority,
    Date,
    KeyVal,
    Category,
    Text,
    Tag,
    Comment,
    Error,
}

/// The grammar name of a node kind.
pub open spec fn kind_name(k: NodeKind) -> Seq<char> {
    match k {
        NodeKind::SourceFile => "source_file"@,
        NodeKind::Task => "task"@,
        NodeKind::Header => "header"@,
        NodeKind::Status => "status"@,
        NodeKind::Priority => "priority"@,
        NodeKind::Date => "date"@,
        NodeKind::KeyVal => "keyval"@,
        NodeKind::Category => "category"@,
        NodeKind::Text => "text"@,
        NodeKind::Tag => "tag"@,
        NodeKind::Comment => "comment"@,
        NodeKind::Error => "ERROR"@,
    }
}

/// A node's kind and payload.
#[derive(Debug)]
pub enum Rule {
    SourceFile,
    Task,
    Header,
    Status { kind: StatusKind },
    Priority { value: String },
    Date { start: Option<Date>, target: Option<Date>, deadline: Option<Date> },
    KeyVal { key: String, value: String },
    Category { name: String },
    Text { content: String },
    Tag { name: String },
    Comment { content: String },
    Error,
}

impl Rule {
    pub open spec fn spec_kind(&self) -> NodeKind {
        match self {
            Rule::SourceFile => NodeKind::SourceFile,
            Rule::Task => NodeKind::Task,
            Rule::Header => NodeKind::Header,
            Rule::Status { .. } => NodeKind::Status,
            Rule::Priority { .. } => NodeKind::Priority,
            Rule::Date { .. } => NodeKind::Date,
            Rule::KeyVal { .. } => NodeKind::KeyVal,
            Rule::Category { .. } => NodeKind::Category,
            Rule::Text { .. } => NodeKind::Text,
            Rule::Tag { .. } => NodeKind::Tag,
            Rule::Comment { .. } => NodeKind::Comment,
            Rule::Error => NodeKind::Error,
        }
    }

    #[verifier::when_used_as_spec(spec_kind)]
    pub fn kind(&self) -> (k: NodeKind)
        ensures
            k == self.spec_kind(),
    {
        match self {
            Rule::SourceFile => NodeKind::SourceFile,
            Rule::Task => NodeKind::Task,
            Rule::Header => NodeKind::Header,
            Rule::Status { .. } => NodeKind::Status,
            Rule::Priority { .. } => NodeKind::Priority,
            Rule::Date { .. } => NodeKind::Date,
            Rule::KeyVal { .. } => NodeKind::KeyVal,
            Rule::Category { .. } => NodeKind::Category,
            Rule::Text { .. } => NodeKind::Text,
            Rule::Tag { .. } => NodeKind::Tag,
            Rule::Comment { .. } => NodeKind::Comment,
            Rule::Error => NodeKind::Error,
        }
    }
}

/// A syntax node. Its semantic children come in source order: for a task,
/// an optional status, its meta entries, its text, then its nested items;
/// for a header the same without the text; for a text, its tags; for the
/// source file, its items. Comments and parse errors found among its direct
/// source children are kept aside.
#[derive(Debug)]
pub struct Cst {
    pub range: TextRange,
    pub rule: Rule,
    pub children: Vec<Cst>,
    pub comments: Vec<Cst>,
    pub errors: Vec<Cst>,
}

/// Nodes of `c` and its descendants, in source order (each node before its
/// children), whose kind is `k`; the side lists are walked after the
/// semantic children when asked for.
pub open spec fn search_spec(c: Cst, k: NodeKind, errs: bool, comms: bool) -> Seq<Cst>
    decreases c,
{
    (if c.rule.spec_kind() == k { seq![c] } else { Seq::empty() })
        + search_list(c.children@, k, errs, comms)
        + (if errs { search_list(c.errors@, k, errs, comms) } else { Seq::empty() })
        + (if comms { search_list(c.comments@, k, errs, comms) } else { Seq::empty() })
}

/// `search_spec` over a list of nodes, concatenated in order.
pub open spec fn search_list(cs: Seq<Cst>, k: NodeKind, errs: bool, comms: bool) -> Seq<Cst>
    decreases cs,
{
    if cs.len() == 0 {
        Seq::empty()
    } else {
        search_list(cs.drop_last(), k, errs, comms) + search_spec(cs.last(), k, errs, comms)
    }
}

/// Nodes of `c` and its descendants, in source order, that satisfy `p`; the
/// side lists are walked after the semantic children when asked for.
pub open spec fn search_by_spec(c: Cst, p: spec_fn(Cst) -> bool, errs: bool, comms: bool) -> Seq<Cst>
    decreases c,
{
    (if p(c) { seq![c] } else { Seq::empty() })
        + search_by_list(c.children@, p, errs, comms)
        + (if errs { search_by_list(c.errors@, p, errs, comms) } else { Seq::empty() })
        + (if comms { search_by_list(c.comments@, p, errs, comms) } else { Seq::empty() })
}

/// `search_by_spec` over a list of nodes, concatenated in order.
pub open spec fn search_by_list(cs: Seq<Cst>, p: spec_fn(Cst) -> bool, errs: bool, comms: bool) -> Seq<Cst>
    decreases cs,
{
    if cs.len() == 0 {
        Seq::empty()
    } else {
        search_by_list(cs.drop_last(), p, errs, comms) + search_by_spec(cs.last(), p, errs, comms)
    }
}

/// The predicate that a closure computes: true on `c` when a call on `c`
/// may return true.
pub open spec fn holds_for<F: Fn(&Cst) -> bool>(pred: F) -> spec_fn(Cst) -> bool {
    |c: Cst| pred.ensures((&c,), true)
}

/// `pred` can be called on every node and gives one answer for each.
pub open spec fn total_predicate<F: Fn(&Cst) -> bool>(pred: F) -> bool {
    &&& forall|c: &Cst| #[trigger] pred.requires((c,))
    &&& forall|c: &Cst, a: bool, b: bool| #[trigger] pred.ensures((c,), a) && #[trigger] pred.ensures((c,), b) ==> a == b
}

/// Path from `c` down to the innermost node whose range holds `b`, following
/// at each level the first semantic child that holds it, or else the first
/// comment that does; empty when `c` does not hold `b`.
pub open spec fn path_spec(c: Cst, b: int) -> Seq<Cst>
    decreases c,
{
    if c.range.spec_contains(b) {
        let below = path_list(c.children@, b);
        seq![c] + if below.len() > 0 { below } else { path_list(c.comments@, b) }
    } else {
        Seq::empty()
    }
}

/// The path below the first node of `cs` whose range holds `b`.
pub open spec fn path_list(cs: Seq<Cst>, b: int) -> Seq<Cst>
    decreases cs,
{
    if cs.len() == 0 {
        Seq::empty()
    } else if cs[0].range.spec_contains(b) {
        path_spec(cs[0], b)
    } else {
        path_list(cs.drop_first(), b)
    }
}

/// Every node of the tree has a range that is ordered and ends within `len` bytes.
pub open spec fn in_bounds(c: Cst, len: int) -> bool
    decreases c,
{
    &&& c.range.start <= c.range.end <= len
    &&& list_in_bounds(c.children@, len)
    &&& list_in_bounds(c.comments@, len)
    &&& list_in_bounds(c.errors@, len)
}

pub open spec fn list_in_bounds(cs: Seq<Cst>, len: int) -> bool
    decreases cs,
{
    if cs.len() == 0 {
        true
    } else {
        list_in_bounds(cs.drop_last(), len) && in_bounds(cs.last(), len)
    }
}

/// Nodes of `cs` whose range equals `r`, at any depth, in source order.
pub open spec fn range_list(cs: Seq<Cst>, r: TextRange) -> Seq<Cst>
    decreases cs,
{
    if cs.len() == 0 {
        Seq::empty()
    } else {
        range_list(cs.drop_last(), r) + range_spec(cs.last(), r)
    }
}

/// Nodes of `c` and its semantic descendants whose range equals `r`, in source order.
pub open spec fn range_spec(c: Cst, r: TextRange) -> Seq<Cst>
    decreases c,
{
    (if c.range == r { seq![c] } else { Seq::empty() }) + range_list(c.children@, r)
}

/// The semantic children, then the errors and the comments when asked for.
pub open spec fn children_spec(c: Cst, errs: bool, comms: bool) -> Seq<Cst> {
    c.children@ + (if errs { c.errors@ } else { Seq::empty() })
        + (if comms { c.comments@ } else { Seq::empty() })
}

/// The nodes that a list of references points to.
pub open spec fn deref_all(s: Seq<&Cst>) -> Seq<Cst> {
    s.map_values(|x: &Cst| *x)
}

/// References to the nodes of `v`, in order.
fn refs_of<'a>(v: &'a Vec<Cst>) -> (r: Vec<&'a Cst>)
    ensures
        deref_all(r@) == v@,
{
    let mut r: Vec<&Cst> = Vec::new();
    let mut i: usize = 0;
    while i < v.len()
        invariant
            i <= v@.len(),
            deref_all(r@) == v@.subrange(0, i as int),
        decreases v@.len() - i,
    {
        r.push(&v[i]);
        i = i + 1;
        proof {
            assert(v@.subrange(0, i as int) =~= v@.subrange(0, i - 1) + seq![v@[i - 1]]);
        }
    }
    assert(v@.subrange(0, i as int) =~= v@);
    r
}

/// Appends the nodes of `src` to `dst`.
fn append_refs<'a>(dst: &mut Vec<&'a Cst>, src: &Vec<&'a Cst>)
    ensures
        final(dst)@ == old(dst)@ + src@,
        deref_all(final(dst)@) == deref_all(old(dst)@) + deref_all(src@),
{
    let mut i: usize = 0;
    while i < src.len()
        invariant
            i <= src@.len(),
            dst@ == old(dst)@ + src@.subrange(0, i as int),
        decreases src@.len() - i,
    {
        dst.push(src[i]);
        i = i + 1;
        proof {
            assert(src@.subrange(0, i as int) =~= src@.subrange(0, i - 1) + seq![src@[i - 1]]);
        }
    }
    assert(src@.subrange(0, i as int) =~= src@);
    assert(deref_all(dst@) =~= deref_all(old(dst)@) + deref_all(src@));
}

impl Cst {
    /// The node's kind.
    pub fn kind(&self) -> (k: NodeKind)
        ensures
            k == self.rule.spec_kind(),
    {
        self.rule.kind()
    }

    /// The grammar name of the node's kind.
    pub fn rule_name(&self) -> (r: &'static str)
        ensures
            r@ == kind_name(self.rule.spec_kind()),
    {
        match self.rule {
            Rule::SourceFile => "source_file",
            Rule::Task => "task",
            Rule::Header => "header",
            Rule::Status { .. } => "status",
            Rule::Priority { .. } => "priority",
            Rule::Date { .. } => "date",
            Rule::KeyVal { .. } => "keyval",
            Rule::Category { .. } => "category",
            Rule::Text { .. } => "text",
            Rule::Tag { .. } => "tag",
            Rule::Comment { .. } => "comment",
            Rule::Error => "ERROR",
        }
    }

    /// The semantic children, optionally followed by the errors and comments
    /// found among the node's direct source children.
    pub fn children(&self, include_errors: bool, include_comments: bool) -> (r: Vec<&Cst>)
        ensures
            deref_all(r@) == children_spec(*self, include_errors, include_comments),
    {
        let mut r = refs_of(&self.children);
        if include_errors {
            let e = refs_of(&self.errors);
            append_refs(&mut r, &e);
        }
        if include_comments {
            let m = refs_of(&self.comments);
            append_refs(&mut r, &m);
        }
        assert(deref_all(r@) =~= children_spec(*self, include_errors, include_comments));
        r
    }

    /// Every node of the tree rooted here whose kind is `k`, in source order.
    pub fn search_cst(&self, k: NodeKind, include_errors: bool, include_comments: bool) -> (r: Vec<&Cst>)
        ensures
            deref_all(r@) == search_spec(*self, k, include_errors, include_comments),
        decreases self,
    {
        let mut r: Vec<&Cst> = Vec::new();
        if self.kind() == k {
            r.push(self);
        }
        let a = search_in(&self.children, k, include_errors, include_comments);
        append_refs(&mut r, &a);
        if include_errors {
            let e = search_in(&self.errors, k, include_errors, include_comments);
            append_refs(&mut r, &e);
        }
        if include_comments {
            let m = search_in(&self.comments, k, include_errors, include_comments);
            append_refs(&mut r, &m);
        }
        proof {
            if self.rule.spec_kind() == k {
                assert(seq![*self] + Seq::<Cst>::empty() =~= seq![*self]);
            }
            assert(deref_all(r@) =~= search_spec(*self, k, include_errors, include_comments));
        }
        r
    }

    /// Every node of the tree rooted here on which `pred` holds, in source order.
    pub fn search_where<F: Fn(&Cst) -> bool>(&self, pred: &F, include_errors: bool, include_comments: bool) -> (r: Vec<&Cst>)
        requires
            total_predicate(*pred),
        ensures
            deref_all(r@) == search_by_spec(*self, holds_for(*pred), include_errors, include_comments),
        decreases self,
    {
        let mut r: Vec<&Cst> = Vec::new();
        let hit = pred(self);
        if hit {
            r.push(self);
        }
        proof {
            if holds_for(*pred)(*self) {
                assert(pred.ensures((self,), true));
            }
        }
        let a = search_where_in(&self.children, pred, include_errors, include_comments);
        append_refs(&mut r, &a);
        if include_errors {
            let e = search_where_in(&self.errors, pred, include_errors, include_comments);
            append_refs(&mut r, &e);
        }
        if include_comments {
            let m = search_where_in(&self.comments, pred, include_errors, include_comments);
            append_refs(&mut r, &m);
        }
        proof {
            assert(deref_all(r@) =~= search_by_spec(*self, holds_for(*pred), include_errors, include_comments));
        }
        r
    }

    /// The nodes whose range holds `b`, from this node down to the innermost,
    /// taking at each level the first child that holds it; empty when this
    /// node's range does not hold `b`.
    pub fn get_csts_on_point(&self, b: usize) -> (r: Vec<&Cst>)
        ensures
            deref_all(r@) == path_spec(*self, b as int),
        decreases self,
    {
        if !self.range.contains(b) {
            return Vec::new();
        }
        let mut r: Vec<&Cst> = Vec::new();
        r.push(self);
        assert(deref_all(r@) =~= seq![*self]);
        let below = path_in(&self.children, b);
        if below.len() > 0 {
            append_refs(&mut r, &below);
        } else {
            let inner = path_in(&self.comments, b);
            append_refs(&mut r, &inner);
        }
        r
    }

    /// Every node of the tree rooted here (semantic children only) whose range equals `range`.
    pub fn nodes_on_range(&self, range: TextRange) -> (r: Vec<&Cst>)
        ensures
            deref_all(r@) == range_spec(*self, range),
        decreases self,
    {
        let mut r: Vec<&Cst> = Vec::new();
        if self.range == range {
            r.push(self);
        }
        let mut i: usize = 0;
        let ghost base = deref_all(r@);
        while i < self.children.len()
            invariant
                i <= self.children@.len(),
                deref_all(r@) == base + range_list(self.children@.subrange(0, i as int), range),
            decreases self.children@.len() - i,
        {
            let below = self.children[i].nodes_on_range(range);
            proof {
                let pre = self.children@.subrange(0, i as int + 1);
                assert(pre.drop_last() =~= self.children@.subrange(0, i as int));
            }
            append_refs(&mut r, &below);
            i = i + 1;
            proof {
                assert(deref_all(r@) =~= base + range_list(self.children@.subrange(0, i as int), range));
            }
        }
        assert(self.children@.subrange(0, i as int) =~= self.children@);
        assert(deref_all(r@) =~= range_spec(*self, range));
        r
    }
}

/// The path below the first node of `cs` whose range holds `b`.
fn path_in<'a>(cs: &'a Vec<Cst>, b: usize) -> (r: Vec<&'a Cst>)
    ensures
        deref_all(r@) == path_list(cs@, b as int),
    decreases cs,
{
    let mut i: usize = 0;
    assert(cs@.subrange(0, cs@.len() as int) =~= cs@);
    while i < cs.len()
        invariant
            i <= cs@.len(),
            path_list(cs@, b as int) == path_list(cs@.subrange(i as int, cs@.len() as int), b as int),
        decreases cs@.len() - i,
    {
        let ghost rest = cs@.subrange(i as int, cs@.len() as int);
        assert(rest.drop_first() =~= cs@.subrange(i + 1, cs@.len() as int));
        assert(rest[0] == cs@[i as int]);
        if cs[i].range.contains(b) {
            return cs[i].get_csts_on_point(b);
        }
        i = i + 1;
    }
    assert(cs@.subrange(i as int, cs@.len() as int).len() == 0);
    let r: Vec<&Cst> = Vec::new();
    assert(deref_all(r@) =~= Seq::<Cst>::empty());
    r
}

/// Every node of the trees in `cs` on which `pred` holds, in source order.
fn search_where_in<'a, F: Fn(&Cst) -> bool>(cs: &'a Vec<Cst>, pred: &F, errs: bool, comms: bool) -> (r: Vec<&'a Cst>)
    requires
        total_predicate(*pred),
    ensures
        deref_all(r@) == search_by_list(cs@, holds_for(*pred), errs, comms),
    decreases cs,
{
    let mut r: Vec<&Cst> = Vec::new();
    let mut i: usize = 0;
    while i < cs.len()
        invariant
            i <= cs@.len(),
            total_predicate(*pred),
            deref_all(r@) == search_by_list(cs@.subrange(0, i as int), holds_for(*pred), errs, comms),
        decreases cs@.len() - i,
    {
        let below = cs[i].search_where(pred, errs, comms);
        proof {
            let pre = cs@.subrange(0, i as int + 1);
            assert(pre.drop_last() =~= cs@.subrange(0, i as int));
        }
        append_refs(&mut r, &below);
        i = i + 1;
    }
    assert(cs@.subrange(0, i as int) =~= cs@);
    r
}

/// Every node of the trees in `cs` whose kind is `k`, in source order.
fn search_in<'a>(cs: &'a Vec<Cst>, k: NodeKind, errs: bool, comms: bool) -> (r: Vec<&'a Cst>)
    ensures
        deref_all(r@) == search_list(cs@, k, errs, comms),
    decreases cs,
{
    let mut r: Vec<&Cst> = Vec::new();
    let mut i: usize = 0;
    while i < cs.len()
        invariant
            i <= cs@.len(),
            deref_all(r@) == search_list(cs@.subrange(0, i as int), k, errs, comms),
        decreases cs@.len() - i,
    {
        let below = cs[i].search_cst(k, errs, comms);
        proof {
            let pre = cs@.subrange(0, i as int + 1);
            assert(pre.drop_last() =~= cs@.subrange(0, i as int));
        }
        append_refs(&mut r, &below);
        i = i + 1;
    }
    assert(cs@.subrange(0, i as int) =~= cs@);
    r
}

/// The ranges of `cs` lie inside `r`.
pub open spec fn fit_inside(r: TextRange, cs: Seq<Cst>) -> bool {
    forall|i: int| 0 <= i < cs.len() ==> r.start <= (#[trigger] cs[i]).range.start && cs[i].range.end <= r.end
}

/// The ranges of `cs` follow one another without overlap.
pub open spec fn in_order(cs: Seq<Cst>) -> bool {
    forall|i: int| 0 <= i < cs.len() - 1 ==> (#[trigger] cs[i]).range.end <= cs[i + 1].range.start
}

/// Number of nodes of `cs` whose kind is `k`.
pub open spec fn count_kind(cs: Seq<Cst>, k: NodeKind) -> int
    decreases cs.len(),
{
    if cs.len() == 0 {
        0
    } else {
        count_kind(cs.drop_last(), k) + if cs.last().rule.spec_kind() == k { 1int } else { 0int }
    }
}

/// The structural invariants of the tree under `c`: every child, comment and
/// error lies inside its parent, the semantic children come in source order
/// without overlap, and every task has exactly one text.
pub open spec fn shape_ok(c: Cst) -> bool
    decreases c,
{
    &&& fit_inside(c.range, c.children@)
    &&& fit_inside(c.range, c.comments@)
    &&& fit_inside(c.range, c.errors@)
    &&& in_order(c.children@)
    &&& c.rule.spec_kind() == NodeKind::Task ==> count_kind(c.children@, NodeKind::Text) == 1
    &&& list_shape_ok(c.children@)
    &&& list_shape_ok(c.comments@)
    &&& list_shape_ok(c.errors@)
}

pub open spec fn list_shape_ok(cs: Seq<Cst>) -> bool
    decreases cs,
{
    if cs.len() == 0 {
        true
    } else {
        list_shape_ok(cs.drop_last()) && shape_ok(cs.last())
    }
}

fn check_fit(r: TextRange, cs: &Vec<Cst>) -> (ok: bool)
    ensures
        ok == fit_inside(r, cs@),
{
    let mut i: usize = 0;
    while i < cs.len()
        invariant
            i <= cs@.len(),
            fit_inside(r, cs@.subrange(0, i as int)),
        decreases cs@.len() - i,
    {
        if !(r.start <= cs[i].range.start && cs[i].range.end <= r.end) {
            return false;
        }
        i = i + 1;
        assert forall|j: int| 0 <= j < i implies r.start <= (#[trigger] cs@.subrange(0, i as int)[j]).range.start
            && cs@.subrange(0, i as int)[j].range.end <= r.end by {
            if j < i - 1 {
                assert(cs@.subrange(0, i as int)[j] == cs@.subrange(0, i - 1)[j]);
            }
        }
    }
    assert(cs@.subrange(0, i as int) =~= cs@);
    true
}

fn check_order(cs: &Vec<Cst>) -> (ok: bool)
    ensures
        ok == in_order(cs@),
{
    if cs.len() == 0 {
        return true;
    }
    let last = cs.len() - 1;
    let mut i: usize = 0;
    while i < last
        invariant
            last == cs@.len() - 1,
            i <= last,
            forall|j: int| 0 <= j < i && j < cs@.len() - 1 ==> (#[trigger] cs@[j]).range.end <= cs@[j + 1].range.start,
        decreases cs@.len() - i,
    {
        if cs[i].range.end > cs[i + 1].range.start {
            return false;
        }
        i = i + 1;
    }
    true
}

fn check_count(cs: &Vec<Cst>, k: NodeKind) -> (n: usize)
    ensures
        n == count_kind(cs@, k),
{
    let mut n: usize = 0;
    let mut i: usize = 0;
    while i < cs.len()
        invariant
            i <= cs@.len(),
            n == count_kind(cs@.subrange(0, i as int), k),
            n <= i,
        decreases cs@.len() - i,
    {
        assert(cs@.subrange(0, i as int + 1).drop_last() =~= cs@.subrange(0, i as int));
        if cs[i].kind() == k {
            n = n + 1;
        }
        i = i + 1;
    }
    assert(cs@.subrange(0, i as int) =~= cs@);
    n
}

/// Whether the tree under `c` keeps its structural invariants.
pub fn check_shape(c: &Cst) -> (ok: bool)
    ensures
        ok == shape_ok(*c),
    decreases c,
{
    let local = check_fit(c.range, &c.children) && check_fit(c.range, &c.comments)
        && check_fit(c.range, &c.errors) && check_order(&c.children)
        && (c.kind() != NodeKind::Task || check_count(&c.children, NodeKind::Text) == 1);
    local && check_shape_list(&c.children) && check_shape_list(&c.comments) && check_shape_list(&c.errors)
}

fn check_shape_list(cs: &Vec<Cst>) -> (ok: bool)
    ensures
        ok == list_shape_ok(cs@),
    decreases cs,
{
    let mut i: usize = 0;
    while i < cs.len()
        invariant
            i <= cs@.len(),
            list_shape_ok(cs@.subrange(0, i as int)),
        decreases cs@.len() - i,
    {
        assert(cs@.subrange(0, i as int + 1).drop_last() =~= cs@.subrange(0, i as int));
        if !check_shape(&cs[i]) {
            proof {
                lemma_list_shape_ok_each(cs@, i as int);
            }
            return false;
        }
        i = i + 1;
    }
    assert(cs@.subrange(0, i as int) =~= cs@);
    true
}

proof fn lemma_list_shape_ok_each(cs: Seq<Cst>, i: int)
    requires
        0 <= i < cs.len(),
        !shape_ok(cs[i]),
    ensures
        !list_shape_ok(cs),
    decreases cs.len(),
{
    if i < cs.len() - 1 {
        lemma_list_shape_ok_each(cs.drop_last(), i);
    }
}

} // verus!
