//! The contextual rule engine: syntax errors, and the date rules checked on
//! every task that is still actionable under its inherited status.
use vstd::prelude::*;
use crate::calendar::local_today;
use crate::document::Document;
use crate::position::{Position, Range};
use crate::syntax::{
    search_spec, deref_all, Cst, Date, NodeKind, Rule, StatusKind,
    TextRange,
};

verus! {

/// The rule that a diagnostic reports.
#[derive(Clone, Copy, Debug, PartialEq, Eq, Structural)]
pub enum DiagKind {
    SyntaxError,
    StartAfterTarget,
    TargetAfterDeadline,
    StartAfterDeadline,
    NotStarted,
    TargetOver,
    TargetToday,
    Overdue,
    DueToday,
    DeadlineSoon,
}

/// Severity ranks, from the most to the least severe.
#[derive(Clone, Copy, Debug, PartialEq, Eq, Structural)]
pub enum Severity {
    Error,
    Warning,
    Information,
    Hint,
}

/// Days before a deadline from which it is reported as coming up.
pub const SOON_DAYS: i64 = 7;

impl DiagKind {
    pub open spec fn spec_severity(self) -> Severity {
        match self {
            DiagKind::SyntaxError => Severity::Error,
            DiagKind::StartAfterTarget => Severity::Error,
            DiagKind::TargetAfterDeadline => Severity::Error,
            DiagKind::StartAfterDeadline => Severity::Error,
            DiagKind::NotStarted => Severity::Hint,
            DiagKind::TargetOver => Severity::Warning,
            DiagKind::TargetToday => Severity::Information,
            DiagKind::Overdue => Severity::Error,
            DiagKind::DueToday => Severity::Warning,
            DiagKind::DeadlineSoon => Severity::Information,
        }
    }

    pub open spec fn spec_message(self) -> Seq<char> {
        match self {
            DiagKind::SyntaxError => "Syntax error"@,
            DiagKind::StartAfterTarget => "start date must be earlier than target date."@,
            DiagKind::TargetAfterDeadline => "target date must be earlier than deadline."@,
            DiagKind::StartAfterDeadline => "start date must be earlier than deadline."@,
            DiagKind::NotStarted => "this"@ + " task is not started yet."@,
            DiagKind::TargetOver => "target date of this"@ + " task is over."@,
            DiagKind::TargetToday => "this"@ + " task is targeted today."@,
            DiagKind::Overdue => "this"@ + " task is OVERDUE!"@,
            DiagKind::DueToday => "this"@ + " task is due today."@,
            DiagKind::DeadlineSoon => "deadline is coming up."@,
        }
    }

    /// The severity of this rule.
    pub fn severity(&self) -> (r: Severity)
        ensures
            r == self.spec_severity(),
    {
        match self {
            DiagKind::SyntaxError => Severity::Error,
            DiagKind::StartAfterTarget => Severity::Error,
            DiagKind::TargetAfterDeadline => Severity::Error,
            DiagKind::StartAfterDeadline => Severity::Error,
            DiagKind::NotStarted => Severity::Hint,
            DiagKind::TargetOver => Severity::Warning,
            DiagKind::TargetToday => Severity::Information,
            DiagKind::Overdue => Severity::Error,
            DiagKind::DueToday => Severity::Warning,
            DiagKind::DeadlineSoon => Severity::Information,
        }
    }

    /// The message of this rule.
    pub fn message(&self) -> (r: String)
        ensures
            r@ == self.spec_message(),
    {
        let (lead, rest) = match self {
            DiagKind::SyntaxError => ("", "Syntax error"),
            DiagKind::StartAfterTarget => ("", "start date must be earlier than target date."),
            DiagKind::TargetAfterDeadline => ("", "target date must be earlier than deadline."),
            DiagKind::StartAfterDeadline => ("", "start date must be earlier than deadline."),
            DiagKind::NotStarted => ("this", " task is not started yet."),
            DiagKind::TargetOver => ("target date of this", " task is over."),
            DiagKind::TargetToday => ("this", " task is targeted today."),
            DiagKind::Overdue => ("this", " task is OVERDUE!"),
            DiagKind::DueToday => ("this", " task is due today."),
            DiagKind::DeadlineSoon => ("", "deadline is coming up."),
        };
        proof {
            reveal_strlit("");
            assert(""@ =~= Seq::<char>::empty());
            assert(""@ + rest@ =~= rest@);
            assert(lead@ + rest@ == self.spec_message());
        }
        String::from_str(lead).concat(rest)
    }
}

/// A diagnostic over a byte range.
#[derive(Clone, Copy, Debug, PartialEq, Eq, Structural)]
pub struct Finding {
    pub kind: DiagKind,
    pub range: TextRange,
}

/// The status given by the first status child.
pub open spec fn first_status(cs: Seq<Cst>) -> Option<StatusKind>
    decreases cs.len(),
{
    if cs.len() == 0 {
        None
    } else {
        match cs[0].rule {
            Rule::Status { kind } => Some(kind),
            _ => first_status(cs.drop_first()),
        }
    }
}

/// Index of the first child of kind `k`, or the length when none is.
pub open spec fn first_of_kind(cs: Seq<Cst>, k: NodeKind) -> int
    decreases cs.len(),
{
    if cs.len() == 0 {
        0
    } else if cs[0].rule.spec_kind() == k {
        0
    } else {
        1 + first_of_kind(cs.drop_first(), k)
    }
}

/// The nearest explicit status: the node's own, else the inherited one.
pub open spec fn scoped_status(c: Cst, inherited: Option<StatusKind>) -> Option<StatusKind> {
    match first_status(c.children@) {
        Some(k) => Some(k),
        None => inherited,
    }
}

/// A task under this nearest explicit status is still to be acted on.
pub open spec fn actionable(s: Option<StatusKind>) -> bool {
    !(s == Some(StatusKind::Done) || s == Some(StatusKind::Cancelled))
}

/// The range that task-level diagnostics underline: the task's text, or the
/// task itself when it has none.
pub open spec fn label_range(c: Cst) -> TextRange {
    let i = first_of_kind(c.children@, NodeKind::Text);
    if i < c.children@.len() { c.children@[i].range } else { c.range }
}

/// The date rules on one task, given its date bounds.
pub open spec fn date_rules(
    start: Option<Date>,
    target: Option<Date>,
    deadline: Option<Date>,
    date_range: TextRange,
    label: TextRange,
    today: Date,
) -> Seq<Finding> {
    let t = today.days as int;
    (if start is Some && target is Some && start.unwrap().days > target.unwrap().days {
        seq![Finding { kind: DiagKind::StartAfterTarget, range: date_range }]
    } else { Seq::empty() })
    + (if target is Some && deadline is Some && target.unwrap().days > deadline.unwrap().days {
        seq![Finding { kind: DiagKind::TargetAfterDeadline, range: date_range }]
    } else { Seq::empty() })
    + (if start is Some && deadline is Some && start.unwrap().days > deadline.unwrap().days {
        seq![Finding { kind: DiagKind::StartAfterDeadline, range: date_range }]
    } else { Seq::empty() })
    + (if start is Some && t < start.unwrap().days {
        seq![Finding { kind: DiagKind::NotStarted, range: label }]
    } else { Seq::empty() })
    + (if target is Some && t > target.unwrap().days {
        seq![Finding { kind: DiagKind::TargetOver, range: label }]
    } else if target is Some && t == target.unwrap().days {
        seq![Finding { kind: DiagKind::TargetToday, range: label }]
    } else { Seq::empty() })
    + (if deadline is Some && t > deadline.unwrap().days {
        seq![Finding { kind: DiagKind::Overdue, range: label }]
    } else if deadline is Some && t == deadline.unwrap().days {
        seq![Finding { kind: DiagKind::DueToday, range: label }]
    } else if deadline is Some && t >= deadline.unwrap().days - SOON_DAYS {
        seq![Finding { kind: DiagKind::DeadlineSoon, range: label }]
    } else { Seq::empty() })
}

/// The date diagnostics of a task: those of its first date entry, if any.
pub open spec fn task_findings(c: Cst, today: Date) -> Seq<Finding> {
    let i = first_of_kind(c.children@, NodeKind::Date);
    if i < c.children@.len() {
        match c.children@[i].rule {
            Rule::Date { start, target, deadline } => date_rules(
                start,
                target,
                deadline,
                c.children@[i].range,
                label_range(c),
                today,
            ),
            _ => Seq::empty(),
        }
    } else {
        Seq::empty()
    }
}

/// Whether a node kind opens a scope that the walk descends into.
pub open spec fn is_scope(k: NodeKind) -> bool {
    k == NodeKind::SourceFile || k == NodeKind::Task || k == NodeKind::Header
}

/// The date diagnostics of the tree under `c`, in source order, with
/// `inherited` the nearest explicit status above it.
pub open spec fn walk_spec(c: Cst, inherited: Option<StatusKind>, today: Date) -> Seq<Finding>
    decreases c,
{
    if is_scope(c.rule.spec_kind()) {
        let s = if c.rule.spec_kind() == NodeKind::SourceFile { None } else { scoped_status(c, inherited) };
        (if c.rule.spec_kind() == NodeKind::Task && actionable(s) {
            task_findings(c, today)
        } else {
            Seq::empty()
        }) + walk_list(c.children@, s, today)
    } else {
        Seq::empty()
    }
}

pub open spec fn walk_list(cs: Seq<Cst>, inherited: Option<StatusKind>, today: Date) -> Seq<Finding>
    decreases cs,
{
    if cs.len() == 0 {
        Seq::empty()
    } else {
        walk_list(cs.drop_last(), inherited, today) + walk_spec(cs.last(), inherited, today)
    }
}

/// One syntax-error finding per error node, in order.
pub open spec fn error_findings(es: Seq<Cst>) -> Seq<Finding> {
    es.map_values(|e: Cst| Finding { kind: DiagKind::SyntaxError, range: e.range })
}

/// Every finding of the document on the day `today`: its syntax errors,
/// then its date diagnostics.
pub open spec fn findings_spec(root: Cst, today: Date) -> Seq<Finding> {
    error_findings(search_spec(root, NodeKind::Error, true, false)) + walk_spec(root, None, today)
}

/// The status given by the first status child.
pub(crate) fn find_status(cs: &Vec<Cst>) -> (r: Option<StatusKind>)
    ensures
        r == first_status(cs@),
{
    let mut i: usize = 0;
    assert(cs@.subrange(0, cs@.len() as int) =~= cs@);
    while i < cs.len()
        invariant
            i <= cs@.len(),
            first_status(cs@) == first_status(cs@.subrange(i as int, cs@.len() as int)),
        decreases cs@.len() - i,
    {
        let ghost rest = cs@.subrange(i as int, cs@.len() as int);
        assert(rest.drop_first() =~= cs@.subrange(i + 1, cs@.len() as int));
        if let Rule::Status { kind } = &cs[i].rule {
            return Some(*kind);
        }
        i = i + 1;
    }
    None
}

/// Index of the first child of kind `k`, or the length when none is.
pub(crate) fn find_kind(cs: &Vec<Cst>, k: NodeKind) -> (r: usize)
    ensures
        r == first_of_kind(cs@, k),
        r <= cs@.len(),
{
    let mut i: usize = 0;
    assert(cs@.subrange(0, cs@.len() as int) =~= cs@);
    while i < cs.len()
        invariant
            i <= cs@.len(),
            first_of_kind(cs@, k) == i + first_of_kind(cs@.subrange(i as int, cs@.len() as int), k),
        decreases cs@.len() - i,
    {
        let ghost rest = cs@.subrange(i as int, cs@.len() as int);
        assert(rest.drop_first() =~= cs@.subrange(i + 1, cs@.len() as int));
        if cs[i].kind() == k {
            return i;
        }
        i = i + 1;
    }
    i
}

/// The date rules on one task, given its date bounds.
pub fn check_dates(
    start: Option<Date>,
    target: Option<Date>,
    deadline: Option<Date>,
    date_range: TextRange,
    label: TextRange,
    today: Date,
) -> (r: Vec<Finding>)
    ensures
        r@ == date_rules(start, target, deadline, date_range, label, today),
{
    let mut r: Vec<Finding> = Vec::new();
    let t = today.days as i64;
    let ghost g0 = r@;
    if let (Some(s), Some(g)) = (start, target) {
        if s.days > g.days {
            r.push(Finding { kind: DiagKind::StartAfterTarget, range: date_range });
        }
    }
    let ghost g1 = r@;
    if let (Some(g), Some(d)) = (target, deadline) {
        if g.days > d.days {
            r.push(Finding { kind: DiagKind::TargetAfterDeadline, range: date_range });
        }
    }
    let ghost g2 = r@;
    if let (Some(s), Some(d)) = (start, deadline) {
        if s.days > d.days {
            r.push(Finding { kind: DiagKind::StartAfterDeadline, range: date_range });
        }
    }
    let ghost g3 = r@;
    if let Some(s) = start {
        if t < s.days as i64 {
            r.push(Finding { kind: DiagKind::NotStarted, range: label });
        }
    }
    let ghost g4 = r@;
    if let Some(g) = target {
        if t > g.days as i64 {
            r.push(Finding { kind: DiagKind::TargetOver, range: label });
        } else if t == g.days as i64 {
            r.push(Finding { kind: DiagKind::TargetToday, range: label });
        }
    }
    let ghost g5 = r@;
    if let Some(d) = deadline {
        if t > d.days as i64 {
            r.push(Finding { kind: DiagKind::Overdue, range: label });
        } else if t == d.days as i64 {
            r.push(Finding { kind: DiagKind::DueToday, range: label });
        } else if t >= d.days as i64 - SOON_DAYS {
            r.push(Finding { kind: DiagKind::DeadlineSoon, range: label });
        }
    }
    assert(r@ =~= date_rules(start, target, deadline, date_range, label, today));
    r
}

/// The date diagnostics of one task.
fn check_task(c: &Cst, today: Date) -> (r: Vec<Finding>)
    ensures
        r@ == task_findings(*c, today),
{
    let i = find_kind(&c.children, NodeKind::Date);
    if i < c.children.len() {
        let j = find_kind(&c.children, NodeKind::Text);
        let label = if j < c.children.len() { c.children[j].range } else { c.range };
        match &c.children[i].rule {
            Rule::Date { start, target, deadline } => check_dates(
                *start,
                *target,
                *deadline,
                c.children[i].range,
                label,
                today,
            ),
            _ => Vec::new(),
        }
    } else {
        Vec::new()
    }
}

/// Appends the date diagnostics of the tree under `c` to `out`.
fn walk(c: &Cst, inherited: Option<StatusKind>, today: Date, out: &mut Vec<Finding>)
    ensures
        final(out)@ == old(out)@ + walk_spec(*c, inherited, today),
    decreases c,
{
    let k = c.kind();
    if !(k == NodeKind::SourceFile || k == NodeKind::Task || k == NodeKind::Header) {
        assert(old(out)@ + walk_spec(*c, inherited, today) =~= old(out)@);
        return;
    }
    let s = if k == NodeKind::SourceFile {
        None
    } else {
        match find_status(&c.children) {
            Some(own) => Some(own),
            None => inherited,
        }
    };
    let ghost base = out@;
    let mut here: Vec<Finding> = Vec::new();
    let acts = !(s == Some(StatusKind::Done) || s == Some(StatusKind::Cancelled));
    if k == NodeKind::Task && acts {
        here = check_task(c, today);
    }
    out.append(&mut here);
    let ghost mid = out@;
    let mut i: usize = 0;
    while i < c.children.len()
        invariant
            i <= c.children@.len(),
            out@ == mid + walk_list(c.children@.subrange(0, i as int), s, today),
        decreases c.children@.len() - i,
    {
        proof {
            let pre = c.children@.subrange(0, i as int + 1);
            assert(pre.drop_last() =~= c.children@.subrange(0, i as int));
        }
        walk(&c.children[i], s, today, out);
        i = i + 1;
        proof {
            assert(out@ =~= mid + walk_list(c.children@.subrange(0, i as int), s, today));
        }
    }
    assert(c.children@.subrange(0, i as int) =~= c.children@);
    assert(out@ =~= old(out)@ + walk_spec(*c, inherited, today));
}

/// A diagnostic as the editor receives it.
#[derive(Debug)]
pub struct Diagnostic {
    pub range: Range,
    pub severity: Severity,
    pub message: String,
    /// Marks the range as deprioritized (the "unnecessary" tag).
    pub unnecessary: bool,
    /// The fixed label of this engine.
    pub source: String,
}

/// The fixed source label of every diagnostic.
pub open spec fn source_label() -> Seq<char> {
    "todome"@
}

/// The findings whose ranges have editor positions, in order.
pub open spec fn placed(fs: Seq<Finding>, d: &Document) -> Seq<Finding>
    decreases fs.len(),
{
    if fs.len() == 0 {
        Seq::empty()
    } else {
        let f = fs.last();
        placed(fs.drop_last(), d) + if Position::try_from_bytes_ok(f.range.start as int, d)
            && Position::try_from_bytes_ok(f.range.end as int, d) {
            seq![f]
        } else {
            Seq::empty()
        }
    }
}

/// `g` is the editor form of the finding `f`.
pub open spec fn renders(f: Finding, g: Diagnostic, d: &Document) -> bool {
    &&& g.range.start == Position::spec_from_bytes(f.range.start as int, d)
    &&& g.range.end == Position::spec_from_bytes(f.range.end as int, d)
    &&& g.severity == f.kind.spec_severity()
    &&& g.message@ == f.kind.spec_message()
    &&& g.unnecessary == (f.kind == DiagKind::NotStarted)
    &&& g.source@ == source_label()
}

impl Document {
    /// Every finding of the document on the day `today`: one syntax error per
    /// error node, then the date diagnostics of each actionable task.
    pub fn findings(&self, today: Date) -> (r: Vec<Finding>)
        requires
            self.wf(),
        ensures
            r@ == findings_spec(self.root_view(), today),
    {
        let root = self.root();
        let errs = root.search_cst(NodeKind::Error, true, false);
        let mut r: Vec<Finding> = Vec::new();
        let mut i: usize = 0;
        while i < errs.len()
            invariant
                i <= errs@.len(),
                r@ == error_findings(deref_all(errs@).subrange(0, i as int)),
            decreases errs@.len() - i,
        {
            r.push(Finding { kind: DiagKind::SyntaxError, range: errs[i].range });
            i = i + 1;
            proof {
                assert(r@ =~= error_findings(deref_all(errs@).subrange(0, i as int)));
            }
        }
        assert(deref_all(errs@).subrange(0, i as int) =~= deref_all(errs@));
        walk(root, None, today, &mut r);
        r
    }

    /// The diagnostics of the document on the day `today`, in editor positions.
    pub fn diagnostics_on(&self, today: Date) -> (r: Vec<Diagnostic>)
        requires
            self.wf(),
        ensures
            r@.len() == placed(findings_spec(self.root_view(), today), self).len(),
            forall|i: int| 0 <= i < r@.len() ==> renders(
                #[trigger] placed(findings_spec(self.root_view(), today), self)[i],
                r@[i],
                self,
            ),
    {
        let fs = self.findings(today);
        let mut r: Vec<Diagnostic> = Vec::new();
        let mut i: usize = 0;
        while i < fs.len()
            invariant
                self.wf(),
                i <= fs@.len(),
                r@.len() == placed(fs@.subrange(0, i as int), self).len(),
                forall|j: int| 0 <= j < r@.len() ==> renders(
                    #[trigger] placed(fs@.subrange(0, i as int), self)[j],
                    r@[j],
                    self,
                ),
            decreases fs@.len() - i,
        {
            let f = fs[i];
            let ghost pre = fs@.subrange(0, i as int + 1);
            assert(pre.drop_last() =~= fs@.subrange(0, i as int));
            assert(pre.last() == f);
            match Range::try_from_bytes(f.range.start, f.range.end, self) {
                Some(range) => {
                    let g = Diagnostic {
                        range,
                        severity: f.kind.severity(),
                        message: f.kind.message(),
                        unnecessary: f.kind == DiagKind::NotStarted,
                        source: String::from_str("todome"),
                    };
                    r.push(g);
                    proof {
                        let p = placed(fs@.subrange(0, i as int + 1), self);
                        assert(p == placed(fs@.subrange(0, i as int), self) + seq![f]);
                        assert forall|j: int| 0 <= j < r@.len() implies renders(
                            #[trigger] p[j],
                            r@[j],
                            self,
                        ) by {
                            if j < r@.len() - 1 {
                                assert(p[j] == placed(fs@.subrange(0, i as int), self)[j]);
                            }
                        }
                    }
                },
                None => {
                    proof {
                        let p = placed(fs@.subrange(0, i as int + 1), self);
                        assert(p =~= placed(fs@.subrange(0, i as int), self));
                    }
                },
            }
            i = i + 1;
        }
        assert(fs@.subrange(0, i as int) =~= fs@);
        r
    }

    /// The diagnostics of the document on the current local date.
    pub fn get_diagnostics(&self) -> (r: Vec<Diagnostic>)
        requires
            self.wf(),
        ensures
            exists|today: Date|
                r@.len() == placed(findings_spec(self.root_view(), today), self).len()
                && forall|i: int| 0 <= i < r@.len() ==> renders(
                    #[trigger] placed(findings_spec(self.root_view(), today), self)[i],
                    r@[i],
                    self,
                ),
    {
        let today = local_today();
        self.diagnostics_on(today)
    }
}

/// No node of the tree under `c` sets a status of its own or starts a new file.
pub open spec fn no_own_status(c: Cst) -> bool
    decreases c,
{
    &&& c.rule.spec_kind() != NodeKind::SourceFile
    &&& first_status(c.children@).is_none()
    &&& no_own_status_list(c.children@)
}

pub open spec fn no_own_status_list(cs: Seq<Cst>) -> bool
    decreases cs,
{
    if cs.len() == 0 {
        true
    } else {
        no_own_status_list(cs.drop_last()) && no_own_status(cs.last())
    }
}

/// A task nested under an ancestor whose explicit status is Done yields no
/// date diagnostics, whatever its dates, when neither it nor anything
/// between sets a status of its own; the same holds of everything nested in it.
pub proof fn lemma_done_scope_is_silent(c: Cst, today: Date)
    requires
        no_own_status(c),
    ensures
        walk_spec(c, Some(StatusKind::Done), today) == Seq::<Finding>::empty(),
    decreases c,
{
    lemma_done_scope_is_silent_list(c.children@, today);
    if is_scope(c.rule.spec_kind()) {
        assert(walk_spec(c, Some(StatusKind::Done), today) =~= Seq::<Finding>::empty());
    }
}

proof fn lemma_done_scope_is_silent_list(cs: Seq<Cst>, today: Date)
    requires
        no_own_status_list(cs),
    ensures
        walk_list(cs, Some(StatusKind::Done), today) == Seq::<Finding>::empty(),
    decreases cs,
{
    if cs.len() > 0 {
        lemma_done_scope_is_silent_list(cs.drop_last(), today);
        lemma_done_scope_is_silent(cs.last(), today);
        assert(walk_list(cs, Some(StatusKind::Done), today) =~= Seq::<Finding>::empty());
    }
}

/// An item whose explicit status is Done yields no date diagnostics for
/// itself or for any task nested in it that sets no status of its own.
pub proof fn lemma_done_item_is_silent(c: Cst, inherited: Option<StatusKind>, today: Date)
    requires
        c.rule.spec_kind() == NodeKind::Task || c.rule.spec_kind() == NodeKind::Header,
        first_status(c.children@) == Some(StatusKind::Done),
        no_own_status_list(c.children@),
    ensures
        walk_spec(c, inherited, today) == Seq::<Finding>::empty(),
{
    lemma_done_scope_is_silent_list(c.children@, today);
    assert(walk_spec(c, inherited, today) =~= Seq::<Finding>::empty());
}

/// The status that the walk hands to the last node of `chain`, each node
/// being a child of the one before it, when the first is walked under
/// `inherited`.
pub open spec fn handed_status(chain: Seq<Cst>, inherited: Option<StatusKind>) -> Option<StatusKind>
    decreases chain.len(),
{
    if chain.len() <= 1 {
        inherited
    } else {
        handed_status(chain.drop_first(), scoped_status(chain[0], inherited))
    }
}

/// `chain` runs from an item down through its items, each a semantic child
/// of the one before.
pub open spec fn is_descent(chain: Seq<Cst>) -> bool {
    forall|i: int| 0 < i < chain.len() ==> #[trigger] is_child_of(chain[i - 1], chain[i])
}

/// `c` is a semantic child of `p`.
pub open spec fn is_child_of(p: Cst, c: Cst) -> bool {
    exists|j: int| 0 <= j < p.children@.len() && #[trigger] p.children@[j] == c
}

/// A task nested under an ancestor whose explicit status is Done, with no
/// explicit status on itself or on any item in between, produces no date
/// diagnostics, whatever its dates: the walk reaches it under Done, and
/// what it reports for it comes only from the items nested in it.
pub proof fn lemma_done_ancestor_silences_task(chain: Seq<Cst>, inherited: Option<StatusKind>, today: Date)
    requires
        chain.len() >= 2,
        is_descent(chain),
        chain[0].rule.spec_kind() == NodeKind::Task || chain[0].rule.spec_kind() == NodeKind::Header,
        first_status(chain[0].children@) == Some(StatusKind::Done),
        forall|i: int| 0 < i < chain.len() ==> (#[trigger] chain[i]).rule.spec_kind() == NodeKind::Task
            || chain[i].rule.spec_kind() == NodeKind::Header,
        forall|i: int| 0 < i < chain.len() ==> first_status((#[trigger] chain[i]).children@).is_none(),
    ensures
        handed_status(chain, inherited) == Some(StatusKind::Done),
        walk_spec(chain.last(), handed_status(chain, inherited), today)
            == walk_list(chain.last().children@, Some(StatusKind::Done), today),
    decreases chain.len(),
{
    assert(scoped_status(chain[0], inherited) == Some(StatusKind::Done));
    assert forall|i: int| 0 <= i < chain.drop_first().len() implies first_status((#[trigger] chain.drop_first()[i]).children@).is_none() by {
        assert(chain.drop_first()[i] == chain[i + 1]);
    }
    lemma_done_passes_down(chain.drop_first(), today);
    let t = chain.last();
    assert(t == chain[chain.len() - 1]);
    assert(walk_spec(t, Some(StatusKind::Done), today) =~= walk_list(t.children@, Some(StatusKind::Done), today));
}

/// Under Done, items without a status of their own hand Done on.
proof fn lemma_done_passes_down(chain: Seq<Cst>, today: Date)
    requires
        chain.len() >= 1,
        forall|i: int| 0 <= i < chain.len() ==> first_status((#[trigger] chain[i]).children@).is_none(),
    ensures
        handed_status(chain, Some(StatusKind::Done)) == Some(StatusKind::Done),
    decreases chain.len(),
{
    if chain.len() > 1 {
        assert(first_status(chain[0].children@).is_none());
        assert forall|i: int| 0 <= i < chain.drop_first().len() implies first_status((#[trigger] chain.drop_first()[i]).children@).is_none() by {
            assert(chain.drop_first()[i] == chain[i + 1]);
        }
        lemma_done_passes_down(chain.drop_first(), today);
    }
}

} // verus!
