use vstd::prelude::*;

use crate::config::{ConditionModel, FilterCondition, FilterOp};
use crate::text::{chars_of, str_eq};
use crate::value::{pairs_map, reading, NumKey, Row, Value, ValueModel};

verus! {

/// The outcome of comparing two ordered numbers.
#[derive(Clone, Copy, Debug, PartialEq, Eq, Structural)]
pub enum Order {
    Less,
    Equal,
    Greater,
}

// ── Specification ───────────────────────────────────────────────────────────

/// The cell that `field` names in `row`; a missing field reads as null.
pub open spec fn cell(row: Map<Seq<char>, ValueModel>, field: Seq<char>) -> ValueModel {
    if row.dom().contains(field) {
        row[field]
    } else {
        ValueModel::Null
    }
}

/// Equality of two values: by number when both read as ordered numbers,
/// else structurally (so a value is always equal to itself).
pub open spec fn same_value(a: ValueModel, b: ValueModel) -> bool {
    match (reading(a), reading(b)) {
        (Some(NumKey::Key(x)), Some(NumKey::Key(y))) => x == y,
        _ => a == b,
    }
}

pub open spec fn order_of(x: i64, y: i64) -> Order {
    if x < y {
        Order::Less
    } else if x == y {
        Order::Equal
    } else {
        Order::Greater
    }
}

/// How `a` compares with `b` as numbers: only where both read as numbers
/// and neither is NaN.
pub open spec fn numeric_order(a: ValueModel, b: Option<ValueModel>) -> Option<Order> {
    match b {
        Some(b) => match (reading(a), reading(b)) {
            (Some(NumKey::Key(x)), Some(NumKey::Key(y))) => Some(order_of(x, y)),
            _ => None,
        },
        None => None,
    }
}

/// `p` occurs in `s` as a contiguous run.
pub open spec fn occurs_in(p: Seq<char>, s: Seq<char>) -> bool {
    exists|i: int| 0 <= i <= s.len() - p.len() && #[trigger] s.subrange(i, i + p.len()) == p
}

/// The string operators: both the cell and the target are strings, and the
/// target occurs in, starts or ends the cell.
pub open spec fn string_test(op: FilterOp, a: ValueModel, b: Option<ValueModel>) -> bool {
    match (a, b) {
        (ValueModel::Text(s, _), Some(ValueModel::Text(p, _))) => match op {
            FilterOp::Contains => occurs_in(p, s),
            FilterOp::StartsWith => p.is_prefix_of(s),
            _ => p.is_suffix_of(s),
        },
        _ => false,
    }
}

pub open spec fn or_null(v: Option<ValueModel>) -> ValueModel {
    match v {
        Some(x) => x,
        None => ValueModel::Null,
    }
}

/// Whether `row` meets the condition `c`.
pub open spec fn meets(row: Map<Seq<char>, ValueModel>, c: ConditionModel) -> bool {
    let x = cell(row, c.field);
    match c.op {
        FilterOp::IsNull => x is Null,
        FilterOp::IsNotNull => !(x is Null),
        FilterOp::Eq => same_value(x, or_null(c.value)),
        FilterOp::Ne => !same_value(x, or_null(c.value)),
        FilterOp::Gt => numeric_order(x, c.value) == Some(Order::Greater),
        FilterOp::Lt => numeric_order(x, c.value) == Some(Order::Less),
        FilterOp::Gte => numeric_order(x, c.value) == Some(Order::Greater) || numeric_order(
            x,
            c.value,
        ) == Some(Order::Equal),
        FilterOp::Lte => numeric_order(x, c.value) == Some(Order::Less) || numeric_order(
            x,
            c.value,
        ) == Some(Order::Equal),
        FilterOp::Contains => string_test(FilterOp::Contains, x, c.value),
        FilterOp::StartsWith => string_test(FilterOp::StartsWith, x, c.value),
        FilterOp::EndsWith => string_test(FilterOp::EndsWith, x, c.value),
    }
}

/// The models of a list of conditions.
pub open spec fn conditions(v: Seq<FilterCondition>) -> Seq<ConditionModel> {
    v.map_values(|c: FilterCondition| c@)
}

/// `row` meets every condition of `cs`.
pub open spec fn passes(row: Map<Seq<char>, ValueModel>, cs: Seq<ConditionModel>) -> bool {
    forall|i: int| 0 <= i < cs.len() ==> meets(row, #[trigger] cs[i])
}

/// The models of a list of field names.
pub open spec fn names(v: Seq<String>) -> Seq<Seq<char>> {
    v.map_values(|s: String| s@)
}

/// `row` cut down to `fields`; no fields keep the row whole.
pub open spec fn projected(row: Map<Seq<char>, ValueModel>, fields: Seq<Seq<char>>) -> Map<
    Seq<char>,
    ValueModel,
> {
    if fields.len() == 0 {
        row
    } else {
        row.restrict(fields.to_set())
    }
}

/// The rows that pass `cs`, in their order, each cut down to `fields`.
pub open spec fn selected(
    rows: Seq<Map<Seq<char>, ValueModel>>,
    cs: Seq<ConditionModel>,
    fields: Seq<Seq<char>>,
) -> Seq<Map<Seq<char>, ValueModel>>
    decreases rows.len(),
{
    if rows.len() == 0 {
        Seq::empty()
    } else {
        let before = selected(rows.drop_last(), cs, fields);
        if passes(rows.last(), cs) {
            before.push(projected(rows.last(), fields))
        } else {
            before
        }
    }
}

/// The models of a list of rows.
pub open spec fn row_views(v: Seq<Row>) -> Seq<Map<Seq<char>, ValueModel>> {
    v.map_values(|r: Row| r@)
}

pub open spec fn all_wf(v: Seq<Row>) -> bool {
    forall|i: int| 0 <= i < v.len() ==> (#[trigger] v[i]).wf()
}

/// The entries of a row cut down to `fields`: each named field the row has,
/// once, in the order the names first come.
pub open spec fn projected_pairs(p: Seq<(Seq<char>, ValueModel)>, fields: Seq<Seq<char>>) -> Seq<
    (Seq<char>, ValueModel),
>
    decreases fields.len(),
{
    if fields.len() == 0 {
        Seq::empty()
    } else {
        let before = projected_pairs(p, fields.drop_last());
        let f = fields.last();
        if pairs_map(p).dom().contains(f) && !pairs_map(before).dom().contains(f) {
            before.push((f, pairs_map(p)[f]))
        } else {
            before
        }
    }
}

/// The entries a projection leaves: all of them when no fields are named.
pub open spec fn cut_pairs(p: Seq<(Seq<char>, ValueModel)>, fields: Seq<Seq<char>>) -> Seq<
    (Seq<char>, ValueModel),
> {
    if fields.len() == 0 {
        p
    } else {
        projected_pairs(p, fields)
    }
}

/// [`selected`], entry by entry.
pub open spec fn selected_pairs(
    rows: Seq<Seq<(Seq<char>, ValueModel)>>,
    cs: Seq<ConditionModel>,
    fields: Seq<Seq<char>>,
) -> Seq<Seq<(Seq<char>, ValueModel)>>
    decreases rows.len(),
{
    if rows.len() == 0 {
        Seq::empty()
    } else {
        let before = selected_pairs(rows.drop_last(), cs, fields);
        if passes(pairs_map(rows.last()), cs) {
            before.push(cut_pairs(rows.last(), fields))
        } else {
            before
        }
    }
}

/// The entries of each of a list of rows.
pub open spec fn row_pairs(v: Seq<Row>) -> Seq<Seq<(Seq<char>, ValueModel)>> {
    v.map_values(|r: Row| r.pairs())
}

// ── Implementation ──────────────────────────────────────────────────────────

/// Structural equality of two values.
fn identical(a: &Value, b: &Value) -> (r: bool)
    ensures
        r == (a@ == b@),
{
    match (a, b) {
        (Value::Null, Value::Null) => true,
        (Value::Bool(x), Value::Bool(y)) => *x == *y,
        (Value::Number { repr: r1, key: k1 }, Value::Number { repr: r2, key: k2 }) => {
            *k1 == *k2 && str_eq(r1.as_str(), r2.as_str())
        },
        (Value::Text { text: t1, reading: n1 }, Value::Text { text: t2, reading: n2 }) => {
            *n1 == *n2 && str_eq(t1.as_str(), t2.as_str())
        },
        (Value::Composite(j1), Value::Composite(j2)) => str_eq(j1.as_str(), j2.as_str()),
        _ => false,
    }
}

/// Equality as the filters see it (see [`same_value`]).
pub fn json_eq(a: &Value, b: &Value) -> (r: bool)
    ensures
        r == same_value(a@, b@),
{
    match (a.numeric(), b.numeric()) {
        (Some(NumKey::Key(i)), Some(NumKey::Key(j))) => i == j,
        _ => identical(a, b),
    }
}

/// Compares two values as numbers (see [`numeric_order`]).
pub fn compare_numeric(a: &Value, b: Option<&Value>) -> (r: Option<Order>)
    ensures
        r == numeric_order(
            a@,
            match b {
                Some(v) => Some(v@),
                None => None,
            },
        ),
{
    let t = match b {
        Some(t) => t,
        None => return None,
    };
    match (a.numeric(), t.numeric()) {
        (Some(NumKey::Key(x)), Some(NumKey::Key(y))) => {
            if x < y {
                Some(Order::Less)
            } else if x == y {
                Some(Order::Equal)
            } else {
                Some(Order::Greater)
            }
        },
        _ => None,
    }
}

fn run_at(s: &Vec<char>, p: &Vec<char>, i: usize) -> (r: bool)
    requires
        i + p.len() <= s.len(),
    ensures
        r == (s@.subrange(i as int, i + p.len()) == p@),
{
    let mut j: usize = 0;
    while j < p.len()
        invariant
            i + p.len() <= s.len(),
            j <= p.len(),
            forall|k: int| 0 <= k < j ==> s@[i + k] == p@[k],
        decreases p.len() - j,
    {
        if s[i + j] != p[j] {
            assert(s@.subrange(i as int, i + p.len())[j as int] != p@[j as int]);
            return false;
        }
        j = j + 1;
    }
    assert(s@.subrange(i as int, i + p.len()) =~= p@);
    true
}

fn text_contains(s: &Vec<char>, p: &Vec<char>) -> (r: bool)
    ensures
        r == occurs_in(p@, s@),
{
    if p.len() > s.len() {
        return false;
    }
    let mut i: usize = 0;
    while i <= s.len() - p.len()
        invariant
            p.len() <= s.len(),
            i <= s.len() - p.len() + 1,
            forall|k: int| 0 <= k < i ==> #[trigger] s@.subrange(k, k + p.len()) != p@,
        decreases s.len() - p.len() + 1 - i,
    {
        if run_at(s, p, i) {
            return true;
        }
        if i == s.len() - p.len() {
            return false;
        }
        i = i + 1;
    }
    false
}

fn text_starts_with(s: &Vec<char>, p: &Vec<char>) -> (r: bool)
    ensures
        r == p@.is_prefix_of(s@),
{
    if p.len() > s.len() {
        return false;
    }
    run_at(s, p, 0)
}

fn text_ends_with(s: &Vec<char>, p: &Vec<char>) -> (r: bool)
    ensures
        r == p@.is_suffix_of(s@),
{
    if p.len() > s.len() {
        return false;
    }
    run_at(s, p, s.len() - p.len())
}

/// Applies a string operator (see [`string_test`]).
fn string_op(op: FilterOp, a: &Value, b: Option<&Value>) -> (r: bool)
    requires
        op == FilterOp::Contains || op == FilterOp::StartsWith || op == FilterOp::EndsWith,
    ensures
        r == string_test(
            op,
            a@,
            match b {
                Some(v) => Some(v@),
                None => None,
            },
        ),
{
    let s = match a {
        Value::Text { text, .. } => text,
        _ => return false,
    };
    let p = match b {
        Some(Value::Text { text, .. }) => text,
        _ => return false,
    };
    let sc = chars_of(s.as_str());
    let pc = chars_of(p.as_str());
    match op {
        FilterOp::Contains => text_contains(&sc, &pc),
        FilterOp::StartsWith => text_starts_with(&sc, &pc),
        _ => text_ends_with(&sc, &pc),
    }
}

/// Whether `row` meets `cond`.
pub fn matches_condition(row: &Row, cond: &FilterCondition) -> (r: bool)
    requires
        row.wf(),
    ensures
        r == meets(row@, cond@),
{
    let null = Value::Null;
    let x: &Value = match row.get(cond.field.as_str()) {
        Some(v) => v,
        None => &null,
    };
    assert(x@ == cell(row@, cond.field@));
    let target: Option<&Value> = match &cond.value {
        Some(v) => Some(v),
        None => None,
    };
    let eq_target: &Value = match &cond.value {
        Some(v) => v,
        None => &null,
    };
    match cond.op {
        FilterOp::IsNull => x.is_null(),
        FilterOp::IsNotNull => !x.is_null(),
        FilterOp::Eq => json_eq(x, eq_target),
        FilterOp::Ne => !json_eq(x, eq_target),
        FilterOp::Gt => compare_numeric(x, target) == Some(Order::Greater),
        FilterOp::Lt => compare_numeric(x, target) == Some(Order::Less),
        FilterOp::Gte => {
            let o = compare_numeric(x, target);
            o == Some(Order::Greater) || o == Some(Order::Equal)
        },
        FilterOp::Lte => {
            let o = compare_numeric(x, target);
            o == Some(Order::Less) || o == Some(Order::Equal)
        },
        FilterOp::Contains => string_op(FilterOp::Contains, x, target),
        FilterOp::StartsWith => string_op(FilterOp::StartsWith, x, target),
        FilterOp::EndsWith => string_op(FilterOp::EndsWith, x, target),
    }
}

/// Whether `row` meets every condition (AND); no conditions keep every row.
pub fn apply_filter(row: &Row, conditions: &[FilterCondition]) -> (r: bool)
    requires
        row.wf(),
    ensures
        r == passes(row@, crate::pipeline::conditions(conditions@)),
{
    let ghost cs = crate::pipeline::conditions(conditions@);
    let mut i: usize = 0;
    while i < conditions.len()
        invariant
            row.wf(),
            i <= conditions.len(),
            cs == crate::pipeline::conditions(conditions@),
            forall|j: int| 0 <= j < i ==> meets(row@, #[trigger] cs[j]),
        decreases conditions.len() - i,
    {
        if !matches_condition(row, &conditions[i]) {
            assert(!meets(row@, cs[i as int]));
            return false;
        }
        i = i + 1;
    }
    true
}

/// Keeps only the named fields, in the row's own terms; with no names the
/// row is returned whole, and a name the row lacks is passed over.
pub fn apply_projection(row: Row, fields: &[String]) -> (r: Row)
    requires
        row.wf(),
    ensures
        r.wf(),
        r@ == projected(row@, names(fields@)),
        r.pairs() == cut_pairs(row.pairs(), names(fields@)),
{
    if fields.len() == 0 {
        return row;
    }
    let ghost ns = names(fields@);
    proof {
        row.lemma_view();
    }
    let mut out = Row::new();
    let mut i: usize = 0;
    while i < fields.len()
        invariant
            row.wf(),
            out.wf(),
            i <= fields.len(),
            ns == names(fields@),
            row@ == pairs_map(row.pairs()),
            out@ == row@.restrict(ns.take(i as int).to_set()),
            out.pairs() == projected_pairs(row.pairs(), ns.take(i as int)),
        decreases fields.len() - i,
    {
        proof {
            out.lemma_view();
            assert(ns.take(i + 1).drop_last() =~= ns.take(i as int));
        }
        match row.get(fields[i].as_str()) {
            Some(v) => {
                if !out.contains_key(fields[i].as_str()) {
                    out.insert(fields[i].clone(), v.duplicate());
                }
            },
            None => {},
        }
        proof {
            out.lemma_view();
            let a = ns.take(i as int);
            let b = ns.take(i + 1);
            assert(b =~= a.push(ns[i as int]));
            assert forall|x: Seq<char>| b.contains(x) <==> (a.contains(x) || x == ns[i as int]) by {
                if b.contains(x) {
                    let k = choose|k: int| 0 <= k < b.len() && b[k] == x;
                    if k < i {
                        assert(a[k] == x);
                    }
                }
                if a.contains(x) {
                    let k = choose|k: int| 0 <= k < a.len() && a[k] == x;
                    assert(b[k] == x);
                }
                if x == ns[i as int] {
                    assert(b[i as int] == x);
                }
            }
            assert(b.to_set() =~= a.to_set().insert(ns[i as int]));
        }
        assert(out@ =~= row@.restrict(ns.take(i + 1).to_set()));
        i = i + 1;
    }
    assert(ns.take(fields.len() as int) =~= ns);
    out
}

} // verus!

verus! {

/// Keeps the rows that meet every condition, in order, each cut down to the
/// projection fields.
pub fn process_rows(rows: Vec<Row>, conditions: &[FilterCondition], fields: &[String]) -> (r:
    Vec<Row>)
    requires
        all_wf(rows@),
    ensures
        all_wf(r@),
        row_views(r@) == selected(
            row_views(rows@),
            crate::pipeline::conditions(conditions@),
            names(fields@),
        ),
        row_pairs(r@) == selected_pairs(
            row_pairs(rows@),
            crate::pipeline::conditions(conditions@),
            names(fields@),
        ),
{
    let ghost all = rows@;
    let ghost cs = crate::pipeline::conditions(conditions@);
    let ghost ns = names(fields@);
    let mut out: Vec<Row> = Vec::new();
    for row in it: rows
        invariant
            it.seq() == all,
            all_wf(all),
            all_wf(out@),
            cs == crate::pipeline::conditions(conditions@),
            ns == names(fields@),
            row_views(out@) == selected(row_views(all.take(it.index() as int)), cs, ns),
            row_pairs(out@) == selected_pairs(row_pairs(all.take(it.index() as int)), cs, ns),
    {
        let ghost k = it.index() as int;
        assert(row == all[k]);
        let ghost pre = all.take(k);
        let ghost post = all.take(k + 1);
        assert(row_views(post).drop_last() =~= row_views(pre));
        assert(row_views(post).last() == row@);
        assert(row_pairs(post).drop_last() =~= row_pairs(pre));
        assert(row_pairs(post).last() == row.pairs());
        proof {
            row.lemma_view();
        }
        if apply_filter(&row, conditions) {
            let p = apply_projection(row, fields);
            out.push(p);
            assert(row_views(out@) =~= selected(row_views(pre), cs, ns).push(p@));
            assert(row_pairs(out@) =~= selected_pairs(row_pairs(pre), cs, ns).push(p.pairs()));
        }
    }
    assert(all.take(all.len() as int) =~= all);
    out
}

} // verus!
