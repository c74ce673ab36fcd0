//! Two syntax trees that hold the same values, and why every result the
//! library computes from a document depends on its input alone.
use vstd::prelude::*;
use crate::completion::{branch_of, name_of, names_outside, proposals_spec};
use crate::diagnostics::{
    error_findings, findings_spec, first_of_kind, first_status, label_range, task_findings,
    walk_list, walk_spec,
};
use crate::document::Document;
use crate::format::{formatted, label_text, line_text, memo_text, merge_spec};
use crate::model::{has_structure, mirrors, mirrors_list, slot_of, RawNode, Slot};
use crate::position::Position;
use crate::syntax::{TextRange, count_kind, fit_inside, in_order, list_shape_ok, shape_ok, path_list, path_spec, search_list, search_spec, Cst, Date, NodeKind, Rule, StatusKind};

verus! {

/// Two rules of the same kind whose payloads read the same.
pub open spec fn rule_equiv(a: Rule, b: Rule) -> bool {
    match (a, b) {
        (Rule::SourceFile, Rule::SourceFile) => true,
        (Rule::Task, Rule::Task) => true,
        (Rule::Header, Rule::Header) => true,
        (Rule::Error, Rule::Error) => true,
        (Rule::Status { kind: x }, Rule::Status { kind: y }) => x == y,
        (Rule::Priority { value: x }, Rule::Priority { value: y }) => x@ == y@,
        (
            Rule::Date { start: s1, target: t1, deadline: d1 },
            Rule::Date { start: s2, target: t2, deadline: d2 },
        ) => s1 == s2 && t1 == t2 && d1 == d2,
        (Rule::KeyVal { key: k1, value: v1 }, Rule::KeyVal { key: k2, value: v2 }) => k1@ == k2@ && v1@ == v2@,
        (Rule::Category { name: x }, Rule::Category { name: y }) => x@ == y@,
        (Rule::Text { content: x }, Rule::Text { content: y }) => x@ == y@,
        (Rule::Tag { name: x }, Rule::Tag { name: y }) => x@ == y@,
        (Rule::Comment { content: x }, Rule::Comment { content: y }) => x@ == y@,
        _ => false,
    }
}

/// Two trees with the same ranges, rules and shape.
pub open spec fn equiv(a: Cst, b: Cst) -> bool
    decreases a,
{
    &&& a.range == b.range
    &&& rule_equiv(a.rule, b.rule)
    &&& list_equiv(a.children@, b.children@)
    &&& list_equiv(a.comments@, b.comments@)
    &&& list_equiv(a.errors@, b.errors@)
}

/// Two lists of trees, equivalent position by position.
pub open spec fn list_equiv(a: Seq<Cst>, b: Seq<Cst>) -> bool
    decreases a,
{
    &&& a.len() == b.len()
    &&& a.len() > 0 ==> list_equiv(a.drop_last(), b.drop_last()) && equiv(a.last(), b.last())
}

/// Position by position equivalence.
pub open spec fn pointwise(a: Seq<Cst>, b: Seq<Cst>) -> bool {
    a.len() == b.len() && forall|i: int| 0 <= i < a.len() ==> #[trigger] equiv(a[i], b[i])
}

proof fn lemma_list_equiv_pointwise(a: Seq<Cst>, b: Seq<Cst>)
    requires
        list_equiv(a, b),
    ensures
        pointwise(a, b),
    decreases a.len(),
{
    if a.len() > 0 {
        lemma_list_equiv_pointwise(a.drop_last(), b.drop_last());
        assert forall|i: int| 0 <= i < a.len() implies #[trigger] equiv(a[i], b[i]) by {
            if i < a.len() - 1 {
                assert(a.drop_last()[i] == a[i] && b.drop_last()[i] == b[i]);
            }
        }
    }
}

proof fn lemma_pointwise_list_equiv(a: Seq<Cst>, b: Seq<Cst>)
    requires
        pointwise(a, b),
    ensures
        list_equiv(a, b),
    decreases a.len(),
{
    if a.len() > 0 {
        assert(pointwise(a.drop_last(), b.drop_last())) by {
            assert forall|i: int| 0 <= i < a.len() - 1 implies #[trigger] equiv(a.drop_last()[i], b.drop_last()[i]) by {
                assert(equiv(a[i], b[i]));
            }
        }
        lemma_pointwise_list_equiv(a.drop_last(), b.drop_last());
        assert(equiv(a[a.len() - 1], b[b.len() - 1]));
    }
}

proof fn lemma_list_equiv_concat(a1: Seq<Cst>, a2: Seq<Cst>, b1: Seq<Cst>, b2: Seq<Cst>)
    requires
        list_equiv(a1, b1),
        list_equiv(a2, b2),
    ensures
        list_equiv(a1 + a2, b1 + b2),
{
    lemma_list_equiv_pointwise(a1, b1);
    lemma_list_equiv_pointwise(a2, b2);
    assert forall|i: int| 0 <= i < (a1 + a2).len() implies #[trigger] equiv((a1 + a2)[i], (b1 + b2)[i]) by {
        if i < a1.len() {
            assert(equiv(a1[i], b1[i]));
        } else {
            assert(equiv(a2[i - a1.len()], b2[i - a1.len()]));
        }
    }
    lemma_pointwise_list_equiv(a1 + a2, b1 + b2);
}

/// Two models of one raw tree are equivalent.
pub proof fn lemma_mirrors_equiv(r: RawNode, c1: Cst, c2: Cst)
    requires
        mirrors(r, c1),
        mirrors(r, c2),
    ensures
        equiv(c1, c2),
    decreases r,
{
    if has_structure(r) {
        lemma_mirrors_list_equiv(r.children@, c1.children@, c1.comments@, c1.errors@, c2.children@, c2.comments@, c2.errors@);
    }
}

proof fn lemma_mirrors_list_equiv(
    rs: Seq<RawNode>,
    ch1: Seq<Cst>,
    cm1: Seq<Cst>,
    er1: Seq<Cst>,
    ch2: Seq<Cst>,
    cm2: Seq<Cst>,
    er2: Seq<Cst>,
)
    requires
        mirrors_list(rs, ch1, cm1, er1),
        mirrors_list(rs, ch2, cm2, er2),
    ensures
        list_equiv(ch1, ch2),
        list_equiv(cm1, cm2),
        list_equiv(er1, er2),
    decreases rs,
{
    if rs.len() > 0 {
        let r = rs.last();
        match slot_of(r) {
            Slot::Comment => {
                lemma_mirrors_equiv(r, cm1.last(), cm2.last());
                lemma_mirrors_list_equiv(rs.drop_last(), ch1, cm1.drop_last(), er1, ch2, cm2.drop_last(), er2);
            },
            Slot::Error => {
                lemma_mirrors_equiv(r, er1.last(), er2.last());
                lemma_mirrors_list_equiv(rs.drop_last(), ch1, cm1, er1.drop_last(), ch2, cm2, er2.drop_last());
            },
            Slot::Child => {
                lemma_mirrors_equiv(r, ch1.last(), ch2.last());
                lemma_mirrors_list_equiv(rs.drop_last(), ch1.drop_last(), cm1, er1, ch2.drop_last(), cm2, er2);
            },
        }
    }
}

proof fn lemma_first_status_equiv(a: Seq<Cst>, b: Seq<Cst>)
    requires
        pointwise(a, b),
    ensures
        first_status(a) == first_status(b),
    decreases a.len(),
{
    if a.len() > 0 {
        assert(equiv(a[0], b[0]));
        assert(pointwise(a.drop_first(), b.drop_first())) by {
            assert forall|i: int| 0 <= i < a.len() - 1 implies #[trigger] equiv(a.drop_first()[i], b.drop_first()[i]) by {
                assert(equiv(a[i + 1], b[i + 1]));
            }
        }
        lemma_first_status_equiv(a.drop_first(), b.drop_first());
    }
}

proof fn lemma_first_of_kind_equiv(a: Seq<Cst>, b: Seq<Cst>, k: NodeKind)
    requires
        pointwise(a, b),
    ensures
        first_of_kind(a, k) == first_of_kind(b, k),
    decreases a.len(),
{
    if a.len() > 0 {
        assert(equiv(a[0], b[0]));
        assert(pointwise(a.drop_first(), b.drop_first())) by {
            assert forall|i: int| 0 <= i < a.len() - 1 implies #[trigger] equiv(a.drop_first()[i], b.drop_first()[i]) by {
                assert(equiv(a[i + 1], b[i + 1]));
            }
        }
        lemma_first_of_kind_equiv(a.drop_first(), b.drop_first(), k);
    }
}

proof fn lemma_first_of_kind_bounds(a: Seq<Cst>, k: NodeKind)
    ensures
        0 <= first_of_kind(a, k) <= a.len(),
    decreases a.len(),
{
    if a.len() > 0 {
        lemma_first_of_kind_bounds(a.drop_first(), k);
    }
}

proof fn lemma_rule_equiv_kind(a: Rule, b: Rule)
    requires
        rule_equiv(a, b),
    ensures
        a.spec_kind() == b.spec_kind(),
{
}

/// A one-node list of equivalent nodes.
proof fn lemma_single_equiv(c1: Cst, c2: Cst)
    requires
        equiv(c1, c2),
    ensures
        list_equiv(seq![c1], seq![c2]),
{
    assert(seq![c1].drop_last() =~= Seq::<Cst>::empty());
    assert(seq![c2].drop_last() =~= Seq::<Cst>::empty());
    assert(list_equiv(Seq::<Cst>::empty(), Seq::<Cst>::empty()));
    assert(seq![c1].last() == c1);
    assert(seq![c2].last() == c2);
}

proof fn lemma_task_findings_equiv(c1: Cst, c2: Cst, today: Date)
    requires
        equiv(c1, c2),
    ensures
        task_findings(c1, today) == task_findings(c2, today),
{
    lemma_list_equiv_pointwise(c1.children@, c2.children@);
    lemma_first_of_kind_equiv(c1.children@, c2.children@, NodeKind::Date);
    lemma_first_of_kind_equiv(c1.children@, c2.children@, NodeKind::Text);
    lemma_first_of_kind_bounds(c1.children@, NodeKind::Date);
    lemma_first_of_kind_bounds(c1.children@, NodeKind::Text);
    let i = first_of_kind(c1.children@, NodeKind::Date);
    let j = first_of_kind(c1.children@, NodeKind::Text);
    if 0 <= i < c1.children@.len() {
        assert(equiv(c1.children@[i], c2.children@[i]));
    }
    if 0 <= j < c1.children@.len() {
        assert(equiv(c1.children@[j], c2.children@[j]));
    }
    assert(label_range(c1) == label_range(c2));
}

/// Equivalent trees give the same date diagnostics.
proof fn lemma_walk_equiv(c1: Cst, c2: Cst, s: Option<StatusKind>, today: Date)
    requires
        equiv(c1, c2),
    ensures
        walk_spec(c1, s, today) == walk_spec(c2, s, today),
    decreases c1,
{
    lemma_list_equiv_pointwise(c1.children@, c2.children@);
    lemma_first_status_equiv(c1.children@, c2.children@);
    lemma_task_findings_equiv(c1, c2, today);
    let s2 = if c1.rule.spec_kind() == NodeKind::SourceFile {
        None
    } else {
        match first_status(c1.children@) {
            Some(k) => Some(k),
            None => s,
        }
    };
    lemma_walk_list_equiv(c1.children@, c2.children@, s2, today);
}

proof fn lemma_walk_list_equiv(a: Seq<Cst>, b: Seq<Cst>, s: Option<StatusKind>, today: Date)
    requires
        list_equiv(a, b),
    ensures
        walk_list(a, s, today) == walk_list(b, s, today),
    decreases a,
{
    if a.len() > 0 {
        lemma_walk_list_equiv(a.drop_last(), b.drop_last(), s, today);
        lemma_walk_equiv(a.last(), b.last(), s, today);
    }
}

/// Equivalent trees give equivalent search results.
proof fn lemma_search_equiv(c1: Cst, c2: Cst, k: NodeKind, e: bool, m: bool)
    requires
        equiv(c1, c2),
    ensures
        list_equiv(search_spec(c1, k, e, m), search_spec(c2, k, e, m)),
    decreases c1,
{
    let own1 = if c1.rule.spec_kind() == k { seq![c1] } else { Seq::empty() };
    let own2 = if c2.rule.spec_kind() == k { seq![c2] } else { Seq::empty() };
    lemma_rule_equiv_kind(c1.rule, c2.rule);
    if c1.rule.spec_kind() == k {
        lemma_single_equiv(c1, c2);
    } else {
        assert(list_equiv(own1, own2));
    }
    lemma_search_list_equiv(c1.children@, c2.children@, k, e, m);
    lemma_search_list_equiv(c1.errors@, c2.errors@, k, e, m);
    lemma_search_list_equiv(c1.comments@, c2.comments@, k, e, m);
    let a = search_list(c1.children@, k, e, m);
    let b = search_list(c2.children@, k, e, m);
    let ae = if e { search_list(c1.errors@, k, e, m) } else { Seq::empty() };
    let be = if e { search_list(c2.errors@, k, e, m) } else { Seq::empty() };
    let am = if m { search_list(c1.comments@, k, e, m) } else { Seq::empty() };
    let bm = if m { search_list(c2.comments@, k, e, m) } else { Seq::empty() };
    lemma_list_equiv_concat(own1, a, own2, b);
    lemma_list_equiv_concat(own1 + a, ae, own2 + b, be);
    lemma_list_equiv_concat(own1 + a + ae, am, own2 + b + be, bm);
}

proof fn lemma_search_list_equiv(a: Seq<Cst>, b: Seq<Cst>, k: NodeKind, e: bool, m: bool)
    requires
        list_equiv(a, b),
    ensures
        list_equiv(search_list(a, k, e, m), search_list(b, k, e, m)),
    decreases a,
{
    if a.len() > 0 {
        lemma_search_list_equiv(a.drop_last(), b.drop_last(), k, e, m);
        lemma_search_equiv(a.last(), b.last(), k, e, m);
        lemma_list_equiv_concat(
            search_list(a.drop_last(), k, e, m),
            search_spec(a.last(), k, e, m),
            search_list(b.drop_last(), k, e, m),
            search_spec(b.last(), k, e, m),
        );
    }
}

/// Equivalent trees give equivalent paths under a cursor.
proof fn lemma_path_equiv(c1: Cst, c2: Cst, x: int)
    requires
        equiv(c1, c2),
    ensures
        list_equiv(path_spec(c1, x), path_spec(c2, x)),
    decreases c1,
{
    if c1.range.spec_contains(x) {
        lemma_list_equiv_pointwise(c1.children@, c2.children@);
        lemma_list_equiv_pointwise(c1.comments@, c2.comments@);
        lemma_path_list_equiv(c1.children@, c2.children@, x);
        lemma_path_list_equiv(c1.comments@, c2.comments@, x);
        lemma_single_equiv(c1, c2);
        let b1 = path_list(c1.children@, x);
        let b2 = path_list(c2.children@, x);
        if b1.len() > 0 {
            lemma_list_equiv_concat(seq![c1], b1, seq![c2], b2);
        } else {
            lemma_list_equiv_concat(seq![c1], path_list(c1.comments@, x), seq![c2], path_list(c2.comments@, x));
        }
    }
}

proof fn lemma_path_list_equiv(a: Seq<Cst>, b: Seq<Cst>, x: int)
    requires
        pointwise(a, b),
    ensures
        list_equiv(path_list(a, x), path_list(b, x)),
    decreases a,
{
    if a.len() > 0 {
        assert(equiv(a[0], b[0]));
        if a[0].range.spec_contains(x) {
            lemma_path_equiv(a[0], b[0], x);
        } else {
            assert(pointwise(a.drop_first(), b.drop_first())) by {
                assert forall|i: int| 0 <= i < a.len() - 1 implies #[trigger] equiv(a.drop_first()[i], b.drop_first()[i]) by {
                    assert(equiv(a[i + 1], b[i + 1]));
                }
            }
            lemma_path_list_equiv(a.drop_first(), b.drop_first(), x);
        }
    }
}

proof fn lemma_names_equiv(a: Seq<Cst>, b: Seq<Cst>, x: int)
    requires
        list_equiv(a, b),
    ensures
        names_outside(a, x) == names_outside(b, x),
    decreases a.len(),
{
    if a.len() > 0 {
        lemma_names_equiv(a.drop_last(), b.drop_last(), x);
        assert(equiv(a.last(), b.last()));
        assert(rule_equiv(a.last().rule, b.last().rule));
        assert(name_of(a.last()) == name_of(b.last()));
    }
}

proof fn lemma_error_findings_equiv(a: Seq<Cst>, b: Seq<Cst>)
    requires
        list_equiv(a, b),
    ensures
        error_findings(a) == error_findings(b),
{
    lemma_list_equiv_pointwise(a, b);
    assert forall|i: int| 0 <= i < a.len() implies error_findings(a)[i] == error_findings(b)[i] by {
        assert(equiv(a[i], b[i]));
    }
    assert(error_findings(a) =~= error_findings(b));
}

/// Registering the same text with the same parser tree again gives the same
/// diagnostics and completions as registering it once: any two documents
/// built from one text and one tree yield, on every day and at every editor
/// position, the same findings and the same proposals.
pub proof fn lemma_same_input_same_results(
    d1: &Document,
    d2: &Document,
    text: Seq<char>,
    tree: RawNode,
    today: Date,
    pos: Position,
    trigger: Option<char>,
)
    requires
        d1.parsed_from(text, tree),
        d2.parsed_from(text, tree),
    ensures
        findings_spec(d1.root_view(), today) == findings_spec(d2.root_view(), today),
        proposals_spec(d1, pos, trigger, today) == proposals_spec(d2, pos, trigger, today),
{
    d1.lemma_wf();
    d2.lemma_wf();
    let r1 = d1.root_view();
    let r2 = d2.root_view();
    lemma_mirrors_equiv(tree, r1, r2);
    lemma_search_equiv(r1, r2, NodeKind::Error, true, false);
    lemma_error_findings_equiv(
        search_spec(r1, NodeKind::Error, true, false),
        search_spec(r2, NodeKind::Error, true, false),
    );
    lemma_walk_equiv(r1, r2, None, today);
    lemma_search_equiv(r1, r2, NodeKind::Category, false, false);
    lemma_search_equiv(r1, r2, NodeKind::Tag, false, false);
    assert forall|x: int| #![auto] names_outside(search_spec(r1, NodeKind::Category, false, false), x)
        == names_outside(search_spec(r2, NodeKind::Category, false, false), x)
        && names_outside(search_spec(r1, NodeKind::Tag, false, false), x)
        == names_outside(search_spec(r2, NodeKind::Tag, false, false), x) by {
        lemma_names_equiv(search_spec(r1, NodeKind::Category, false, false), search_spec(r2, NodeKind::Category, false, false), x);
        lemma_names_equiv(search_spec(r1, NodeKind::Tag, false, false), search_spec(r2, NodeKind::Tag, false, false), x);
    }
    assert forall|x: int| #![auto] branch_of(path_spec(r1, x), trigger) == branch_of(path_spec(r2, x), trigger) by {
        lemma_path_equiv(r1, r2, x);
        let path1 = path_spec(r1, x);
        let path2 = path_spec(r2, x);
        if path1.len() > 0 {
            assert(equiv(path1.last(), path2.last()));
            lemma_rule_equiv_kind(path1.last().rule, path2.last().rule);
        }
    }
}

proof fn lemma_merge_equiv(a: Seq<Cst>, b: Seq<Cst>)
    requires
        list_equiv(a, b),
    ensures
        merge_spec(a) == merge_spec(b),
    decreases a.len(),
{
    if a.len() > 0 {
        lemma_merge_equiv(a.drop_last(), b.drop_last());
        assert(equiv(a.last(), b.last()));
        assert(rule_equiv(a.last().rule, b.last().rule));
    }
}

/// Equivalent line models are written back alike.
pub proof fn lemma_line_text_equiv(indent: nat, c1: Cst, c2: Cst)
    requires
        equiv(c1, c2),
    ensures
        line_text(indent, c1) == line_text(indent, c2),
{
    lemma_list_equiv_pointwise(c1.children@, c2.children@);
    lemma_list_equiv_pointwise(c1.comments@, c2.comments@);
    if c1.comments@.len() > 0 {
        assert(equiv(c1.comments@[0], c2.comments@[0]));
        assert(rule_equiv(c1.comments@[0].rule, c2.comments@[0].rule));
    }
    if c1.children@.len() > 0 {
        let i1 = c1.children@[0];
        let i2 = c2.children@[0];
        assert(equiv(i1, i2));
        lemma_list_equiv_pointwise(i1.children@, i2.children@);
        lemma_list_equiv_pointwise(i1.comments@, i2.comments@);
        lemma_first_status_equiv(i1.children@, i2.children@);
        lemma_merge_equiv(i1.children@, i2.children@);
        lemma_first_of_kind_equiv(i1.children@, i2.children@, NodeKind::Text);
        lemma_first_of_kind_bounds(i1.children@, NodeKind::Text);
        let j = first_of_kind(i1.children@, NodeKind::Text);
        if j < i1.children@.len() {
            assert(equiv(i1.children@[j], i2.children@[j]));
            assert(rule_equiv(i1.children@[j].rule, i2.children@[j].rule));
        }
        lemma_rule_equiv_kind(i1.rule, i2.rule);
        assert(label_text(i1) == label_text(i2));
        if i1.comments@.len() > 0 {
            assert(equiv(i1.comments@[0], i2.comments@[0]));
            assert(rule_equiv(i1.comments@[0].rule, i2.comments@[0].rule));
        }
        assert(memo_text(i1.comments@) == memo_text(i2.comments@));
    }
    assert(memo_text(c1.comments@) == memo_text(c2.comments@));
}

proof fn lemma_formatted_pointwise(ls: Seq<Seq<char>>, cs1: Seq<Cst>, cs2: Seq<Cst>)
    requires
        pointwise(cs1, cs2),
    ensures
        formatted(ls, cs1) == formatted(ls, cs2),
    decreases ls.len(),
{
    if ls.len() > 0 && cs1.len() >= ls.len() {
        let n = ls.len() - 1;
        assert(equiv(cs1[n], cs2[n]));
        lemma_line_text_equiv(crate::format::indent_of(ls.last()), cs1[n], cs2[n]);
        let a = cs1.subrange(0, n);
        let b = cs2.subrange(0, n);
        assert forall|i: int| 0 <= i < a.len() implies #[trigger] equiv(a[i], b[i]) by {
            assert(equiv(cs1[i], cs2[i]));
        }
        lemma_formatted_pointwise(ls.drop_last(), a, b);
    }
}

/// Lines whose models mirror the same raw trees are formatted alike.
pub proof fn lemma_formatted_equiv(ls: Seq<Seq<char>>, rs: Seq<RawNode>, cs1: Seq<Cst>, cs2: Seq<Cst>)
    requires
        cs1.len() == rs.len(),
        cs2.len() == rs.len(),
        forall|i: int| 0 <= i < rs.len() ==> mirrors(rs[i], #[trigger] cs1[i]),
        forall|i: int| 0 <= i < rs.len() ==> mirrors(rs[i], #[trigger] cs2[i]),
    ensures
        formatted(ls, cs1) == formatted(ls, cs2),
{
    assert forall|i: int| 0 <= i < cs1.len() implies #[trigger] equiv(cs1[i], cs2[i]) by {
        lemma_mirrors_equiv(rs[i], cs1[i], cs2[i]);
    }
    lemma_formatted_pointwise(ls, cs1, cs2);
}

proof fn lemma_count_kind_equiv(a: Seq<Cst>, b: Seq<Cst>, k: NodeKind)
    requires
        list_equiv(a, b),
    ensures
        count_kind(a, k) == count_kind(b, k),
    decreases a.len(),
{
    if a.len() > 0 {
        lemma_count_kind_equiv(a.drop_last(), b.drop_last(), k);
        assert(equiv(a.last(), b.last()));
        lemma_rule_equiv_kind(a.last().rule, b.last().rule);
    }
}

proof fn lemma_local_shape_equiv(r: TextRange, a: Seq<Cst>, b: Seq<Cst>)
    requires
        list_equiv(a, b),
    ensures
        fit_inside(r, a) == fit_inside(r, b),
        in_order(a) == in_order(b),
{
    lemma_list_equiv_pointwise(a, b);
    assert forall|i: int| 0 <= i < a.len() implies (#[trigger] a[i]).range == b[i].range by {
        assert(equiv(a[i], b[i]));
    }
    if fit_inside(r, a) {
        assert forall|i: int| 0 <= i < b.len() implies r.start <= (#[trigger] b[i]).range.start && b[i].range.end <= r.end by {
            assert(a[i].range == b[i].range);
        }
    }
    if fit_inside(r, b) {
        assert forall|i: int| 0 <= i < a.len() implies r.start <= (#[trigger] a[i]).range.start && a[i].range.end <= r.end by {
            assert(a[i].range == b[i].range);
        }
    }
    if in_order(a) {
        assert forall|i: int| 0 <= i < b.len() - 1 implies (#[trigger] b[i]).range.end <= b[i + 1].range.start by {
            assert(a[i].range == b[i].range && a[i + 1].range == b[i + 1].range);
        }
    }
    if in_order(b) {
        assert forall|i: int| 0 <= i < a.len() - 1 implies (#[trigger] a[i]).range.end <= a[i + 1].range.start by {
            assert(a[i].range == b[i].range && a[i + 1].range == b[i + 1].range);
        }
    }
}

/// Equivalent trees keep or break the structural invariants alike.
pub proof fn lemma_shape_equiv(a: Cst, b: Cst)
    requires
        equiv(a, b),
    ensures
        shape_ok(a) == shape_ok(b),
    decreases a,
{
    lemma_local_shape_equiv(a.range, a.children@, b.children@);
    lemma_local_shape_equiv(a.range, a.comments@, b.comments@);
    lemma_local_shape_equiv(a.range, a.errors@, b.errors@);
    lemma_count_kind_equiv(a.children@, b.children@, NodeKind::Text);
    lemma_rule_equiv_kind(a.rule, b.rule);
    lemma_list_shape_equiv(a.children@, b.children@);
    lemma_list_shape_equiv(a.comments@, b.comments@);
    lemma_list_shape_equiv(a.errors@, b.errors@);
}

proof fn lemma_list_shape_equiv(a: Seq<Cst>, b: Seq<Cst>)
    requires
        list_equiv(a, b),
    ensures
        list_shape_ok(a) == list_shape_ok(b),
    decreases a,
{
    if a.len() > 0 {
        lemma_list_shape_equiv(a.drop_last(), b.drop_last());
        lemma_shape_equiv(a.last(), b.last());
    }
}

} // verus!
