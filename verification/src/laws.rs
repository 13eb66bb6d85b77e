use vstd::prelude::*;

use crate::cli::{
    fields_of, filter_parts, first_colon, has_colon, is_first_colon, lemma_first_colon, op_named,
    without_fields,
};
use crate::config::join_path_spec;
use crate::config::{ConditionModel, FilterOp};
use crate::template::{
    escape_char, escaped, handlebars_render, hex_digit, hex_value, json_members, json_object,
    json_objects, json_string, json_value, rendered, unescaped,
};
use crate::pipeline::{
    cell, cut_pairs, meets, numeric_order, occurs_in, passes, projected, projected_pairs,
    same_value, selected, selected_pairs, string_test, Order,
};
use crate::text::{decimal, digit_char};
use crate::template::context_json;
use crate::value::{pairs_map, reading, NumKey, ValueModel};

verus! {

/// Conditions are AND-combined: a row passes two lists of conditions put
/// together exactly when it passes each of them.
pub proof fn law_filter_conjunction(
    row: Map<Seq<char>, ValueModel>,
    c1: Seq<ConditionModel>,
    c2: Seq<ConditionModel>,
)
    ensures
        passes(row, c1 + c2) == (passes(row, c1) && passes(row, c2)),
{
    let c = c1 + c2;
    if passes(row, c) {
        assert forall|i: int| 0 <= i < c1.len() implies meets(row, #[trigger] c1[i]) by {
            assert(c[i] == c1[i]);
        }
        assert forall|i: int| 0 <= i < c2.len() implies meets(row, #[trigger] c2[i]) by {
            assert(c[c1.len() + i] == c2[i]);
        }
    }
    if passes(row, c1) && passes(row, c2) {
        assert forall|i: int| 0 <= i < c.len() implies meets(row, #[trigger] c[i]) by {
            if i < c1.len() {
                assert(c[i] == c1[i]);
            } else {
                assert(c[i] == c2[i - c1.len()]);
            }
        }
    }
}

/// Only which conditions are given matters, not their order or repetition.
pub proof fn law_filter_order_irrelevant(
    row: Map<Seq<char>, ValueModel>,
    c1: Seq<ConditionModel>,
    c2: Seq<ConditionModel>,
)
    requires
        c1.to_set() == c2.to_set(),
    ensures
        passes(row, c1) == passes(row, c2),
{
    if passes(row, c1) {
        assert forall|i: int| 0 <= i < c2.len() implies meets(row, #[trigger] c2[i]) by {
            assert(c2.to_set().contains(c2[i]));
            assert(c1.to_set().contains(c2[i]));
            let j = choose|j: int| 0 <= j < c1.len() && c1[j] == c2[i];
            assert(meets(row, c1[j]));
        }
    }
    if passes(row, c2) {
        assert forall|i: int| 0 <= i < c1.len() implies meets(row, #[trigger] c1[i]) by {
            assert(c1.to_set().contains(c1[i]));
            assert(c2.to_set().contains(c1[i]));
            let j = choose|j: int| 0 <= j < c2.len() && c2[j] == c1[i];
            assert(meets(row, c2[j]));
        }
    }
}

/// With no conditions every row is kept.
pub proof fn law_no_conditions_keep_all(row: Map<Seq<char>, ValueModel>)
    ensures
        passes(row, Seq::<ConditionModel>::empty()),
{
}

/// A field that the row lacks is treated as a null cell.
pub proof fn law_missing_field_is_null(row: Map<Seq<char>, ValueModel>, c: ConditionModel)
    requires
        !row.dom().contains(c.field),
    ensures
        meets(row, c) == meets(row.insert(c.field, ValueModel::Null), c),
{
    assert(cell(row.insert(c.field, ValueModel::Null), c.field) == ValueModel::Null);
}

/// `ne` holds exactly where `eq` with the same field and value fails, and
/// `is_not_null` exactly where `is_null` fails.
pub proof fn law_negated_operators(
    row: Map<Seq<char>, ValueModel>,
    field: Seq<char>,
    value: Option<ValueModel>,
)
    ensures
        meets(row, ConditionModel { field, op: FilterOp::Ne, value }) == !meets(
            row,
            ConditionModel { field, op: FilterOp::Eq, value },
        ),
        meets(row, ConditionModel { field, op: FilterOp::IsNotNull, value }) == !meets(
            row,
            ConditionModel { field, op: FilterOp::IsNull, value },
        ),
{
}

/// Where the cell and the value both read as numbers other than NaN, the
/// order operators split the numbers as they should: `lt` is the failure of
/// `gte`, `gt` that of `lte`, and `gte` with `lte` is `eq`.
pub proof fn law_numeric_trichotomy(
    row: Map<Seq<char>, ValueModel>,
    field: Seq<char>,
    value: ValueModel,
)
    requires
        reading(cell(row, field)) matches Some(NumKey::Key(_)),
        reading(value) matches Some(NumKey::Key(_)),
    ensures
        meets(row, ConditionModel { field, op: FilterOp::Lt, value: Some(value) }) == !meets(
            row,
            ConditionModel { field, op: FilterOp::Gte, value: Some(value) },
        ),
        meets(row, ConditionModel { field, op: FilterOp::Gt, value: Some(value) }) == !meets(
            row,
            ConditionModel { field, op: FilterOp::Lte, value: Some(value) },
        ),
        (meets(row, ConditionModel { field, op: FilterOp::Gte, value: Some(value) }) && meets(
            row,
            ConditionModel { field, op: FilterOp::Lte, value: Some(value) },
        )) == meets(row, ConditionModel { field, op: FilterOp::Eq, value: Some(value) }),
{
    let x = cell(row, field);
    assert(numeric_order(x, Some(value)) is Some);
    assert(same_value(x, value) == (numeric_order(x, Some(value)) == Some(Order::Equal)));
}

/// Projecting twice onto the same fields changes nothing more.
pub proof fn law_projection_idempotent(row: Map<Seq<char>, ValueModel>, fields: Seq<Seq<char>>)
    ensures
        projected(projected(row, fields), fields) == projected(row, fields),
{
    if fields.len() > 0 {
        assert(projected(projected(row, fields), fields) =~= projected(row, fields));
    }
}

/// A projection keeps exactly the named fields that the row has, with
/// their values; an empty projection keeps the row as it is.
pub proof fn law_projection_fields(row: Map<Seq<char>, ValueModel>, fields: Seq<Seq<char>>)
    ensures
        fields.len() == 0 ==> projected(row, fields) == row,
        fields.len() > 0 ==> forall|k: Seq<char>|
            #[trigger] projected(row, fields).dom().contains(k) <==> (fields.contains(k)
                && row.dom().contains(k)),
        forall|k: Seq<char>|
            #[trigger] projected(row, fields).dom().contains(k) ==> projected(row, fields)[k]
                == row[k],
{
}

/// Every row that comes out passed the conditions, and no more rows come
/// out than went in.
pub proof fn law_selected_rows_pass(
    rows: Seq<Map<Seq<char>, ValueModel>>,
    cs: Seq<ConditionModel>,
)
    ensures
        selected(rows, cs, Seq::empty()).len() <= rows.len(),
        forall|i: int|
            0 <= i < selected(rows, cs, Seq::empty()).len() ==> passes(
                #[trigger] selected(rows, cs, Seq::empty())[i],
                cs,
            ),
    decreases rows.len(),
{
    if rows.len() > 0 {
        law_selected_rows_pass(rows.drop_last(), cs);
    }
}

/// Filtering is idempotent: filtering the kept rows again keeps them all.
pub proof fn law_filter_idempotent(rows: Seq<Map<Seq<char>, ValueModel>>, cs: Seq<ConditionModel>)
    ensures
        selected(selected(rows, cs, Seq::empty()), cs, Seq::empty()) == selected(
            rows,
            cs,
            Seq::empty(),
        ),
{
    law_selected_rows_pass(rows, cs);
    lemma_all_pass_kept(selected(rows, cs, Seq::empty()), cs);
}

proof fn lemma_all_pass_kept(rows: Seq<Map<Seq<char>, ValueModel>>, cs: Seq<ConditionModel>)
    requires
        forall|i: int| 0 <= i < rows.len() ==> passes(#[trigger] rows[i], cs),
    ensures
        selected(rows, cs, Seq::empty()) == rows,
    decreases rows.len(),
{
    if rows.len() > 0 {
        let q = rows.drop_last();
        assert forall|i: int| 0 <= i < q.len() implies passes(#[trigger] q[i], cs) by {
            assert(q[i] == rows[i]);
        }
        lemma_all_pass_kept(q, cs);
        assert(passes(rows[rows.len() - 1], cs));
        assert(q.push(rows.last()) =~= rows);
    }
}

/// With no conditions and no projection, every row comes out unchanged.
pub proof fn law_selection_neutral(rows: Seq<Map<Seq<char>, ValueModel>>)
    ensures
        selected(rows, Seq::empty(), Seq::empty()) == rows,
{
    lemma_all_pass_kept(rows, Seq::empty());
}

proof fn lemma_without_fields(cs: Seq<ConditionModel>, fs: Seq<Seq<char>>, x: ConditionModel)
    ensures
        without_fields(cs, fs).contains(x) <==> (cs.contains(x) && !fs.contains(x.field)),
    decreases cs.len(),
{
    if cs.len() > 0 {
        let q = cs.drop_last();
        lemma_without_fields(q, fs, x);
        let w = without_fields(q, fs);
        if cs.contains(x) {
            let i = choose|i: int| 0 <= i < cs.len() && cs[i] == x;
            if i < q.len() {
                assert(q[i] == x);
            }
        }
        if q.contains(x) {
            let i = choose|i: int| 0 <= i < q.len() && q[i] == x;
            assert(cs[i] == x);
        }
        if !fs.contains(cs.last().field) {
            let w2 = w.push(cs.last());
            if w2.contains(x) {
                let i = choose|i: int| 0 <= i < w2.len() && w2[i] == x;
                if i < w.len() {
                    assert(w[i] == x);
                }
            }
            if w.contains(x) {
                let i = choose|i: int| 0 <= i < w.len() && w[i] == x;
                assert(w2[i] == x);
            }
            if x == cs.last() {
                assert(w2[w.len() as int] == x);
            }
        }
    }
}

/// Command-line filters override: a row passes the merged conditions
/// exactly when it meets every command-line condition and every
/// configuration condition on a field that no command-line condition names.
pub proof fn law_cli_filters_override(
    row: Map<Seq<char>, ValueModel>,
    config: Seq<ConditionModel>,
    cli: Seq<ConditionModel>,
)
    ensures
        passes(row, without_fields(config, fields_of(cli)) + cli) <==> (passes(row, cli) && forall|
            i: int,
        |
            0 <= i < config.len() && !fields_of(cli).contains(#[trigger] config[i].field) ==> meets(
                row,
                config[i],
            )),
{
    let w = without_fields(config, fields_of(cli));
    law_filter_conjunction(row, w, cli);
    if passes(row, w) {
        assert forall|i: int|
            0 <= i < config.len() && !fields_of(cli).contains(#[trigger] config[i].field) implies meets(
            row,
            config[i],
        ) by {
            lemma_without_fields(config, fields_of(cli), config[i]);
            assert(config.contains(config[i]));
            let j = choose|j: int| 0 <= j < w.len() && w[j] == config[i];
            assert(meets(row, w[j]));
        }
    }
    if forall|i: int|
        0 <= i < config.len() && !fields_of(cli).contains(#[trigger] config[i].field) ==> meets(
            row,
            config[i],
        ) {
        assert forall|j: int| 0 <= j < w.len() implies meets(row, #[trigger] w[j]) by {
            assert(w.contains(w[j]));
            lemma_without_fields(config, fields_of(cli), w[j]);
            let i = choose|i: int| 0 <= i < config.len() && config[i] == w[j];
            assert(!fields_of(cli).contains(config[i].field));
        }
    }
}

} // verus!

verus! {

proof fn lemma_escaped_front(s: Seq<char>)
    requires
        s.len() > 0,
    ensures
        escaped(s) == escape_char(s[0]) + escaped(s.skip(1)),
    decreases s.len(),
{
    if s.len() == 1 {
        assert(s.drop_last() =~= Seq::<char>::empty());
        assert(s.skip(1) =~= Seq::<char>::empty());
        assert(escaped(s.skip(1)) == Seq::<char>::empty());
        assert(escaped(s) =~= escape_char(s[0]));
    } else {
        let q = s.drop_last();
        lemma_escaped_front(q);
        assert(q.skip(1) =~= s.skip(1).drop_last());
        assert(s.skip(1).last() == s.last());
        assert(escaped(s.skip(1)) == escaped(q.skip(1)) + escape_char(s.last()));
        assert(escaped(s) =~= escape_char(s[0]) + escaped(s.skip(1)));
    }
}

proof fn lemma_char_range(c: char)
    ensures
        0 <= c as int <= 0x10FFFF,
        (c as int) as char == c,
{
}

proof fn lemma_hex_round_trip(d: nat)
    requires
        d < 16,
    ensures
        hex_value(hex_digit(d)) == Some(d),
{
}

/// Writing a string into the template context loses nothing: reading the
/// escaped text back gives exactly the characters that were written.
pub proof fn law_json_string_round_trip(s: Seq<char>)
    ensures
        unescaped(escaped(s)) == Some(s),
    decreases s.len(),
{
    if s.len() == 0 {
        assert(escaped(s) == Seq::<char>::empty());
    } else {
        let c = s[0];
        lemma_char_range(c);
        let rest = s.skip(1);
        lemma_escaped_front(s);
        law_json_string_round_trip(rest);
        let e = escape_char(c);
        let t = e + escaped(rest);
        assert(t.skip(e.len() as int) =~= escaped(rest));
        if (c as int) < 0x20 && c != '\n' && c != '\r' && c != '\t' {
            let n = c as int;
            lemma_hex_round_trip((n / 16) as nat);
            lemma_hex_round_trip((n % 16) as nat);
            assert(((n / 16) as nat) * 16 + ((n % 16) as nat) == n);
            assert((n as nat) as char == c);
        }
        assert(seq![c] + rest =~= s);
    }
}

} // verus!

verus! {

/// Without command-line filters the configuration's filters stand as they are.
pub proof fn law_no_cli_filters_keep_config(config: Seq<ConditionModel>)
    ensures
        without_fields(config, fields_of(Seq::<ConditionModel>::empty())) + Seq::<
            ConditionModel,
        >::empty() == config,
    decreases config.len(),
{
    let none = fields_of(Seq::<ConditionModel>::empty());
    assert(none =~= Seq::<Seq<char>>::empty());
    if config.len() > 0 {
        law_no_cli_filters_keep_config(config.drop_last());
        assert(!none.contains(config.last().field));
        assert(config.drop_last().push(config.last()) =~= config);
    }
    assert(without_fields(config, none) + Seq::<ConditionModel>::empty() =~= without_fields(
        config,
        none,
    ));
}

} // verus!

verus! {

/// Equality as `eq` sees it is reflexive and symmetric: every value equals
/// itself (a text reading as NaN included), and the order of the two sides
/// does not matter.
pub proof fn law_equality_reflexive_symmetric(a: ValueModel, b: ValueModel)
    ensures
        same_value(a, a),
        same_value(a, b) == same_value(b, a),
{
}

} // verus!

verus! {

proof fn lemma_to_set_push(fs: Seq<Seq<char>>)
    requires
        fs.len() > 0,
    ensures
        fs.to_set() == fs.drop_last().to_set().insert(fs.last()),
{
    let a = fs.drop_last();
    assert(fs =~= a.push(fs.last()));
    assert forall|x: Seq<char>| fs.contains(x) <==> (a.contains(x) || x == fs.last()) by {
        if fs.contains(x) {
            let k = choose|k: int| 0 <= k < fs.len() && fs[k] == x;
            if k < a.len() {
                assert(a[k] == x);
            }
        }
        if a.contains(x) {
            let k = choose|k: int| 0 <= k < a.len() && a[k] == x;
            assert(fs[k] == x);
        }
        if x == fs.last() {
            assert(fs[fs.len() - 1] == x);
        }
    }
    assert(fs.to_set() =~= a.to_set().insert(fs.last()));
}

proof fn lemma_projected_pairs_map(p: Seq<(Seq<char>, ValueModel)>, fs: Seq<Seq<char>>)
    ensures
        pairs_map(projected_pairs(p, fs)) == pairs_map(p).restrict(fs.to_set()),
    decreases fs.len(),
{
    let m = pairs_map(p);
    if fs.len() == 0 {
        assert(pairs_map(projected_pairs(p, fs)) =~= m.restrict(fs.to_set()));
    } else {
        let a = fs.drop_last();
        let f = fs.last();
        let before = projected_pairs(p, a);
        lemma_projected_pairs_map(p, a);
        lemma_to_set_push(fs);
        if m.dom().contains(f) && !pairs_map(before).dom().contains(f) {
            let e = (f, m[f]);
            assert(before.push(e).drop_last() =~= before);
            assert(pairs_map(before.push(e)) == pairs_map(before).insert(f, m[f]));
        }
        assert(pairs_map(projected_pairs(p, fs)) =~= m.restrict(fs.to_set()));
    }
}

/// A non-empty projection applies to every kept row, whether or not there
/// are conditions: with no conditions, the rows come out in order, each cut
/// down to exactly the named fields it has.
pub proof fn law_projection_without_conditions(
    rows: Seq<Map<Seq<char>, ValueModel>>,
    fields: Seq<Seq<char>>,
)
    requires
        fields.len() > 0,
    ensures
        selected(rows, Seq::empty(), fields).len() == rows.len(),
        forall|i: int|
            0 <= i < rows.len() ==> #[trigger] selected(rows, Seq::empty(), fields)[i] == rows[i].restrict(
                fields.to_set(),
            ),
    decreases rows.len(),
{
    if rows.len() > 0 {
        let q = rows.drop_last();
        law_projection_without_conditions(q, fields);
        assert(passes(rows.last(), Seq::empty()));
        assert forall|i: int|
            0 <= i < rows.len() implies #[trigger] selected(rows, Seq::empty(), fields)[i]
            == rows[i].restrict(fields.to_set()) by {
            if i < q.len() {
                assert(q[i] == rows[i]);
                assert(selected(q, Seq::empty(), fields)[i] == q[i].restrict(fields.to_set()));
            }
        }
    }
}

/// The same, entry by entry: with no conditions each row's entries are cut
/// down to the named fields it has.
pub proof fn law_projection_pairs_without_conditions(
    rows: Seq<Seq<(Seq<char>, ValueModel)>>,
    fields: Seq<Seq<char>>,
)
    requires
        fields.len() > 0,
    ensures
        selected_pairs(rows, Seq::empty(), fields).len() == rows.len(),
        forall|i: int|
            0 <= i < rows.len() ==> pairs_map(#[trigger] selected_pairs(rows, Seq::empty(), fields)[i])
                == pairs_map(rows[i]).restrict(fields.to_set()),
    decreases rows.len(),
{
    if rows.len() > 0 {
        let q = rows.drop_last();
        law_projection_pairs_without_conditions(q, fields);
        assert(passes(pairs_map(rows.last()), Seq::empty()));
        lemma_projected_pairs_map(rows.last(), fields);
        assert forall|i: int|
            0 <= i < rows.len() implies pairs_map(#[trigger] selected_pairs(rows, Seq::empty(), fields)[i])
            == pairs_map(rows[i]).restrict(fields.to_set()) by {
            if i < q.len() {
                assert(q[i] == rows[i]);
                assert(pairs_map(selected_pairs(q, Seq::empty(), fields)[i]) == pairs_map(q[i]).restrict(
                    fields.to_set(),
                ));
            }
        }
    }
}

/// Whatever the conditions, a row that comes out of a non-empty projection
/// holds no field outside it, and every cell it holds is the input's.
pub proof fn law_kept_rows_hold_only_projected_fields(
    rows: Seq<Map<Seq<char>, ValueModel>>,
    cs: Seq<ConditionModel>,
    fields: Seq<Seq<char>>,
)
    requires
        fields.len() > 0,
    ensures
        forall|i: int|
            0 <= i < selected(rows, cs, fields).len() ==> (#[trigger] selected(rows, cs, fields)[i]).dom().subset_of(
                fields.to_set(),
            ),
    decreases rows.len(),
{
    if rows.len() > 0 {
        let q = rows.drop_last();
        law_kept_rows_hold_only_projected_fields(q, cs, fields);
        assert forall|i: int|
            0 <= i < selected(rows, cs, fields).len() implies (#[trigger] selected(rows, cs, fields)[i]).dom().subset_of(
            fields.to_set(),
        ) by {
            if i < selected(q, cs, fields).len() {
                assert(selected(rows, cs, fields)[i] == selected(q, cs, fields)[i]);
            }
        }
    }
}

/// The same, entry by entry.
pub proof fn law_kept_pairs_hold_only_projected_fields(
    rows: Seq<Seq<(Seq<char>, ValueModel)>>,
    cs: Seq<ConditionModel>,
    fields: Seq<Seq<char>>,
)
    requires
        fields.len() > 0,
    ensures
        forall|i: int|
            0 <= i < selected_pairs(rows, cs, fields).len() ==> pairs_map(
                #[trigger] selected_pairs(rows, cs, fields)[i],
            ).dom().subset_of(fields.to_set()),
    decreases rows.len(),
{
    if rows.len() > 0 {
        let q = rows.drop_last();
        law_kept_pairs_hold_only_projected_fields(q, cs, fields);
        lemma_projected_pairs_map(rows.last(), fields);
        assert forall|i: int|
            0 <= i < selected_pairs(rows, cs, fields).len() implies pairs_map(
            #[trigger] selected_pairs(rows, cs, fields)[i],
        ).dom().subset_of(fields.to_set()) by {
            if i < selected_pairs(q, cs, fields).len() {
                assert(selected_pairs(rows, cs, fields)[i] == selected_pairs(q, cs, fields)[i]);
            }
        }
    }
}

} // verus!

verus! {

/// The rows array of the context keeps the rows in their order: the text
/// for two runs of rows put together is the text for the first run, a
/// comma, and the text for the second.
pub proof fn law_rows_array_in_order(
    a: Seq<Seq<(Seq<char>, ValueModel)>>,
    b: Seq<Seq<(Seq<char>, ValueModel)>>,
)
    requires
        a.len() > 0,
        b.len() > 0,
    ensures
        json_objects(a + b) == json_objects(a) + seq![','] + json_objects(b),
    decreases b.len(),
{
    let ab = a + b;
    if b.len() == 1 {
        assert(ab.drop_last() =~= a);
        assert(ab.last() == b[0]);
    } else {
        let b1 = b.drop_last();
        law_rows_array_in_order(a, b1);
        assert(ab.drop_last() =~= a + b1);
        assert(ab.last() == b.last());
        assert(json_objects(ab) =~= json_objects(a) + seq![','] + json_objects(b));
    }
}

/// Appending a row appends its object at the end of the array.
pub proof fn law_rows_array_append(s: Seq<Seq<(Seq<char>, ValueModel)>>, r: Seq<(Seq<char>, ValueModel)>)
    requires
        s.len() > 0,
    ensures
        json_objects(s.push(r)) == json_objects(s) + seq![','] + json_object(r),
{
    law_rows_array_in_order(s, seq![r]);
    assert(s + seq![r] =~= s.push(r));
    assert(json_objects(seq![r]) == json_object(r));
}

/// Rendering several templates in turn: when two runs of templates render,
/// the two together render to the first output, a newline, and the second.
pub proof fn law_rendered_outputs_in_order(a: Seq<Seq<char>>, b: Seq<Seq<char>>, data: Seq<char>)
    requires
        a.len() > 0,
        b.len() > 0,
        rendered(a, data) is Ok,
        rendered(b, data) is Ok,
    ensures
        rendered(a + b, data) == Ok::<Seq<char>, (int, Seq<char>)>(
            rendered(a, data)->Ok_0 + seq!['\n'] + rendered(b, data)->Ok_0,
        ),
    decreases b.len(),
{
    let ab = a + b;
    if b.len() == 1 {
        assert(ab.drop_last() =~= a);
        assert(ab.last() == b[0]);
        assert(b.drop_last() =~= Seq::<Seq<char>>::empty());
    } else {
        let b1 = b.drop_last();
        assert(rendered(b1, data) is Ok);
        law_rendered_outputs_in_order(a, b1, data);
        assert(ab.drop_last() =~= a + b1);
        assert(ab.last() == b.last());
        let x = rendered(a, data)->Ok_0;
        let y1 = rendered(b1, data)->Ok_0;
        let o = handlebars_render(b.last(), data)->Ok_0;
        assert((x + seq!['\n'] + y1) + seq!['\n'] + o =~= x + seq!['\n'] + (y1 + seq!['\n'] + o));
    }
}

} // verus!

verus! {

/// `contains` finds its text wherever it occurs in the cell, at the very
/// start, in the middle, at the very end, or as the whole cell.
pub proof fn law_contains_finds_every_occurrence(q1: Seq<char>, p: Seq<char>, q2: Seq<char>)
    ensures
        occurs_in(p, q1 + p + q2),
{
    let s = q1 + p + q2;
    assert(s.subrange(q1.len() as int, q1.len() + p.len() as int) =~= p);
}

/// `contains`, seen through a row: a cell whose text is `q1 + p + q2`
/// contains `p`, whatever `q1` and `q2` are (either may be empty).
pub proof fn law_contains_on_rows(
    row: Map<Seq<char>, ValueModel>,
    field: Seq<char>,
    q1: Seq<char>,
    p: Seq<char>,
    q2: Seq<char>,
    r1: Option<NumKey>,
    r: Option<NumKey>,
)
    requires
        cell(row, field) == ValueModel::Text(q1 + p + q2, r1),
    ensures
        meets(row, ConditionModel { field, op: FilterOp::Contains, value: Some(ValueModel::Text(p, r)) }),
{
    law_contains_finds_every_occurrence(q1, p, q2);
}

/// A cell whose text is `p + q` starts with `p`; one whose text is `q + p`
/// ends with `p`.
pub proof fn law_prefix_suffix_on_rows(
    row: Map<Seq<char>, ValueModel>,
    field: Seq<char>,
    p: Seq<char>,
    q: Seq<char>,
    r1: Option<NumKey>,
    r: Option<NumKey>,
)
    ensures
        cell(row, field) == ValueModel::Text(p + q, r1) ==> meets(
            row,
            ConditionModel { field, op: FilterOp::StartsWith, value: Some(ValueModel::Text(p, r)) },
        ),
        cell(row, field) == ValueModel::Text(q + p, r1) ==> meets(
            row,
            ConditionModel { field, op: FilterOp::EndsWith, value: Some(ValueModel::Text(p, r)) },
        ),
{
    assert((p + q).subrange(0, p.len() as int) =~= p);
    assert((q + p).subrange(q.len() as int, (q + p).len() as int) =~= p);
}

/// A cell that `contains` accepts is a string holding `p` somewhere.
pub proof fn law_contains_only_on_occurrence(
    row: Map<Seq<char>, ValueModel>,
    field: Seq<char>,
    p: Seq<char>,
    r: Option<NumKey>,
)
    requires
        meets(row, ConditionModel { field, op: FilterOp::Contains, value: Some(ValueModel::Text(p, r)) }),
    ensures
        cell(row, field) is Text,
        exists|i: int|
            0 <= i && i + p.len() <= cell(row, field)->Text_0.len() && #[trigger] cell(
                row,
                field,
            )->Text_0.subrange(i, i + p.len()) == p,
{
}

/// Each operator name denotes the operator it names.
pub proof fn law_operator_names()
    ensures
        op_named("eq"@) == Some(FilterOp::Eq),
        op_named("ne"@) == Some(FilterOp::Ne),
        op_named("gt"@) == Some(FilterOp::Gt),
        op_named("lt"@) == Some(FilterOp::Lt),
        op_named("gte"@) == Some(FilterOp::Gte),
        op_named("lte"@) == Some(FilterOp::Lte),
        op_named("contains"@) == Some(FilterOp::Contains),
        op_named("starts_with"@) == Some(FilterOp::StartsWith),
        op_named("ends_with"@) == Some(FilterOp::EndsWith),
        op_named("is_null"@) == Some(FilterOp::IsNull),
        op_named("is_not_null"@) == Some(FilterOp::IsNotNull),
{
    reveal_strlit("eq");
    reveal_strlit("ne");
    reveal_strlit("gt");
    reveal_strlit("lt");
    reveal_strlit("gte");
    reveal_strlit("lte");
    reveal_strlit("contains");
    reveal_strlit("starts_with");
    reveal_strlit("ends_with");
    reveal_strlit("is_null");
    reveal_strlit("is_not_null");
    assert("eq"@.len() == 2);
    assert("ne"@.len() == 2);
    assert("gt"@.len() == 2);
    assert("lt"@.len() == 2);
    assert("gte"@.len() == 3);
    assert("lte"@.len() == 3);
    assert("contains"@.len() == 8);
    assert("starts_with"@.len() == 11);
    assert("ends_with"@.len() == 9);
    assert("is_null"@.len() == 7);
    assert("is_not_null"@.len() == 11);
    assert("ne"@[0] != "eq"@[0]);
    assert("gt"@[0] != "eq"@[0] && "gt"@[0] != "ne"@[0]);
    assert("lt"@[0] != "eq"@[0] && "lt"@[0] != "ne"@[0] && "lt"@[0] != "gt"@[0]);
    assert("lte"@[0] != "gte"@[0]);
    assert("is_not_null"@[0] != "starts_with"@[0]);
}

/// Distinct operator names denote distinct operators.
pub proof fn law_operator_names_distinct(a: Seq<char>, b: Seq<char>)
    requires
        op_named(a) is Some,
        a != b,
    ensures
        op_named(a) != op_named(b),
{
}

/// Where the two sides do not both read as ordered numbers, `eq` is exact
/// equality (so a null equals only a null); where they do, it is equality
/// of the numbers.
pub proof fn law_equality_exact(a: ValueModel, b: ValueModel)
    ensures
        !(reading(a) matches Some(NumKey::Key(_)) && reading(b) matches Some(NumKey::Key(_)))
            ==> same_value(a, b) == (a == b),
        forall|x: i64, y: i64|
            reading(a) == Some(NumKey::Key(x)) && reading(b) == Some(NumKey::Key(y)) ==> #[trigger] same_value(
                a,
                b,
            ) == (x == y),
        same_value(ValueModel::Null, b) == (b is Null),
{
}

/// The order operators compare the cell with the value as numbers, the
/// cell on the left: where both read as ordered numbers `x` and `y`, `gt` is
/// `x > y`, `lt` is `x < y`, `gte` is `x >= y`, `lte` is `x <= y` and `eq`
/// is `x == y`.
pub proof fn law_order_operators_direction(
    row: Map<Seq<char>, ValueModel>,
    field: Seq<char>,
    value: ValueModel,
    x: i64,
    y: i64,
)
    requires
        reading(cell(row, field)) == Some(NumKey::Key(x)),
        reading(value) == Some(NumKey::Key(y)),
    ensures
        meets(row, ConditionModel { field, op: FilterOp::Gt, value: Some(value) }) == (x > y),
        meets(row, ConditionModel { field, op: FilterOp::Lt, value: Some(value) }) == (x < y),
        meets(row, ConditionModel { field, op: FilterOp::Gte, value: Some(value) }) == (x >= y),
        meets(row, ConditionModel { field, op: FilterOp::Lte, value: Some(value) }) == (x <= y),
        meets(row, ConditionModel { field, op: FilterOp::Eq, value: Some(value) }) == (x == y),
{
}

/// A path joined onto a base ends with that path; an absolute path stands
/// alone, and a relative one keeps the base in front.
pub proof fn law_join_path(base: Seq<char>, p: Seq<char>)
    ensures
        p.is_suffix_of(join_path_spec(base, p)),
        p.len() > 0 && p[0] == '/' ==> join_path_spec(base, p) == p,
        !(p.len() > 0 && p[0] == '/') ==> base.is_prefix_of(join_path_spec(base, p)),
{
    let j = join_path_spec(base, p);
    assert(j.subrange(j.len() - p.len(), j.len() as int) =~= p);
    assert(j.subrange(0, base.len() as int) =~= base || (p.len() > 0 && p[0] == '/'));
}

} // verus!

verus! {

/// The number that a run of decimal digits denotes.
pub open spec fn decimal_value(s: Seq<char>) -> int
    decreases s.len(),
{
    if s.len() == 0 {
        0
    } else {
        decimal_value(s.drop_last()) * 10 + (s.last() as int - 48)
    }
}

proof fn lemma_digit_char(d: nat)
    requires
        d < 10,
    ensures
        digit_char(d) as int == 48 + d,
{
}

/// Every number is written with decimal digits only, without a leading
/// zero, and the digits read back as the number.
pub proof fn law_decimal_round_trip(n: nat)
    ensures
        decimal(n).len() > 0,
        decimal_value(decimal(n)) == n,
        forall|i: int| 0 <= i < decimal(n).len() ==> 48 <= #[trigger] (decimal(n)[i] as int) <= 57,
        decimal(n)[0] == '0' ==> n == 0,
    decreases n,
{
    if n < 10 {
        lemma_digit_char(n);
        let d = decimal(n);
        assert(d.drop_last() =~= Seq::<char>::empty());
        assert(decimal_value(d.drop_last()) == 0);
        assert(d.last() == digit_char(n));
        assert(decimal_value(d) == decimal_value(d.drop_last()) * 10 + (d.last() as int - 48));
    } else {
        law_decimal_round_trip(n / 10);
        lemma_digit_char(n % 10);
        assert((n / 10) * 10 + n % 10 == n);
        let d = decimal(n);
        assert(d.drop_last() =~= decimal(n / 10));
        assert(d.last() == digit_char(n % 10));
        assert(decimal_value(d) == decimal_value(d.drop_last()) * 10 + (d.last() as int - 48));
        assert(decimal_value(d.drop_last()) == n / 10);
        assert forall|i: int| 0 <= i < d.len() implies 48 <= #[trigger] (d[i] as int) <= 57 by {
            if i < d.len() - 1 {
                assert(d[i] == decimal(n / 10)[i]);
            }
        }
        assert(d[0] == decimal(n / 10)[0]);
    }
}

/// The `row` of the context is the first row: the context text ends with
/// that row's object and the closing brace, or with `null` when there are no
/// rows.
pub proof fn law_context_row_is_first(rows: Seq<Seq<(Seq<char>, ValueModel)>>)
    ensures
        rows.len() > 0 ==> (json_object(rows[0]) + "}"@).is_suffix_of(context_json(rows)),
        rows.len() == 0 ==> ("null}"@).is_suffix_of(context_json(rows)),
{
    reveal_strlit("null}");
    reveal_strlit("null");
    reveal_strlit("}");
    let c = context_json(rows);
    if rows.len() > 0 {
        let t = json_object(rows[0]) + "}"@;
        assert(c.subrange(c.len() - t.len(), c.len() as int) =~= t);
    } else {
        let t = "null}"@;
        assert(c.subrange(c.len() - t.len(), c.len() as int) =~= t);
    }
}

/// The first template that fails decides the outcome: templates after it
/// change nothing.
pub proof fn law_rendered_first_error_wins(a: Seq<Seq<char>>, b: Seq<Seq<char>>, data: Seq<char>)
    requires
        rendered(a, data) is Err,
    ensures
        rendered(a + b, data) == rendered(a, data),
    decreases b.len(),
{
    if b.len() == 0 {
        assert(a + b =~= a);
    } else {
        let b1 = b.drop_last();
        law_rendered_first_error_wins(a, b1, data);
        assert((a + b).drop_last() =~= a + b1);
    }
}

proof fn lemma_first_colon_at(s: Seq<char>, k: int)
    requires
        is_first_colon(s, k),
    ensures
        has_colon(s),
        first_colon(s) == k,
{
    assert(s[k] == ':');
    lemma_first_colon(s);
    let m = first_colon(s);
    if m < k {
        assert(s[m] != ':');
    }
    if k < m {
        assert(s[k] != ':');
    }
}

/// A filter argument written as `FIELD:OP:VALUE` (field and operator free of
/// colons, the value anything) reads back as those three parts, and one
/// written as `FIELD:OP` as the field, the operator and no value.
pub proof fn law_filter_arg_parts(field: Seq<char>, op: Seq<char>, value: Seq<char>)
    requires
        !field.contains(':'),
        !op.contains(':'),
    ensures
        filter_parts(field + seq![':'] + op + seq![':'] + value) == (field, op, Some(value)),
        filter_parts(field + seq![':'] + op) == (field, op, None::<Seq<char>>),
{
    let s = field + seq![':'] + op + seq![':'] + value;
    let k = field.len() as int;
    assert forall|j: int| 0 <= j < k implies s[j] != ':' by {
        assert(s[j] == field[j]);
        if s[j] == ':' {
            assert(field.contains(':'));
        }
    }
    lemma_first_colon_at(s, k);
    let rest = s.subrange(k + 1, s.len() as int);
    assert(rest =~= op + seq![':'] + value);
    assert forall|j: int| 0 <= j < op.len() implies rest[j] != ':' by {
        assert(rest[j] == op[j]);
        if rest[j] == ':' {
            assert(op.contains(':'));
        }
    }
    lemma_first_colon_at(rest, op.len() as int);
    assert(s.subrange(0, k) =~= field);
    assert(rest.subrange(0, op.len() as int) =~= op);
    assert(rest.subrange(op.len() as int + 1, rest.len() as int) =~= value);

    let t = field + seq![':'] + op;
    assert forall|j: int| 0 <= j < k implies t[j] != ':' by {
        assert(t[j] == field[j]);
        if t[j] == ':' {
            assert(field.contains(':'));
        }
    }
    lemma_first_colon_at(t, k);
    let rest2 = t.subrange(k + 1, t.len() as int);
    assert(rest2 =~= op);
    if has_colon(rest2) {
        let j = choose|j: int| 0 <= j < rest2.len() && rest2[j] == ':';
        assert(op.contains(':'));
    }
    assert(t.subrange(0, k) =~= field);
}

/// `is_null` holds exactly where the cell is null (a missing field
/// included), and `is_not_null` exactly where it is not.
pub proof fn law_null_operators(row: Map<Seq<char>, ValueModel>, field: Seq<char>, value: Option<ValueModel>)
    ensures
        meets(row, ConditionModel { field, op: FilterOp::IsNull, value }) == (!row.dom().contains(field)
            || row[field] == ValueModel::Null),
        meets(row, ConditionModel { field, op: FilterOp::IsNotNull, value }) == (row.dom().contains(field)
            && row[field] != ValueModel::Null),
{
}

} // verus!

verus! {

/// Kept rows stay in their order: selecting from two runs of rows put
/// together gives the selection from the first followed by that from the
/// second.
pub proof fn law_selection_keeps_order(
    a: Seq<Map<Seq<char>, ValueModel>>,
    b: Seq<Map<Seq<char>, ValueModel>>,
    cs: Seq<ConditionModel>,
    fields: Seq<Seq<char>>,
)
    ensures
        selected(a + b, cs, fields) == selected(a, cs, fields) + selected(b, cs, fields),
    decreases b.len(),
{
    if b.len() == 0 {
        assert(a + b =~= a);
        assert(selected(a, cs, fields) + selected(b, cs, fields) =~= selected(a, cs, fields));
    } else {
        let b1 = b.drop_last();
        law_selection_keeps_order(a, b1, cs, fields);
        assert((a + b).drop_last() =~= a + b1);
        assert((a + b).last() == b.last());
        if passes(b.last(), cs) {
            assert(selected(a + b, cs, fields) =~= selected(a, cs, fields) + selected(b, cs, fields));
        } else {
            assert(selected(a + b, cs, fields) =~= selected(a, cs, fields) + selected(b, cs, fields));
        }
    }
}

/// The same, entry by entry.
pub proof fn law_selection_pairs_keeps_order(
    a: Seq<Seq<(Seq<char>, ValueModel)>>,
    b: Seq<Seq<(Seq<char>, ValueModel)>>,
    cs: Seq<ConditionModel>,
    fields: Seq<Seq<char>>,
)
    ensures
        selected_pairs(a + b, cs, fields) == selected_pairs(a, cs, fields) + selected_pairs(
            b,
            cs,
            fields,
        ),
    decreases b.len(),
{
    if b.len() == 0 {
        assert(a + b =~= a);
        assert(selected_pairs(a, cs, fields) + selected_pairs(b, cs, fields) =~= selected_pairs(
            a,
            cs,
            fields,
        ));
    } else {
        let b1 = b.drop_last();
        law_selection_pairs_keeps_order(a, b1, cs, fields);
        assert((a + b).drop_last() =~= a + b1);
        assert((a + b).last() == b.last());
        assert(selected_pairs(a + b, cs, fields) =~= selected_pairs(a, cs, fields) + selected_pairs(
            b,
            cs,
            fields,
        ));
    }
}

/// A row object lists its cells in order: the members of two runs of
/// cells put together are those of the first, a comma, and those of the
/// second.
pub proof fn law_members_in_order(a: Seq<(Seq<char>, ValueModel)>, b: Seq<(Seq<char>, ValueModel)>)
    requires
        a.len() > 0,
        b.len() > 0,
    ensures
        json_members(a + b) == json_members(a) + seq![','] + json_members(b),
    decreases b.len(),
{
    let ab = a + b;
    if b.len() == 1 {
        assert(ab.drop_last() =~= a);
        assert(ab.last() == b[0]);
    } else {
        let b1 = b.drop_last();
        law_members_in_order(a, b1);
        assert(ab.drop_last() =~= a + b1);
        assert(ab.last() == b.last());
        assert(json_members(ab) =~= json_members(a) + seq![','] + json_members(b));
    }
}

/// A string cell is written as a quoted JSON string whose inside reads back
/// as the cell's characters; the two booleans are written differently.
pub proof fn law_json_value_text(s: Seq<char>, r: Option<NumKey>)
    ensures
        json_value(ValueModel::Text(s, r)).len() >= 2,
        json_value(ValueModel::Text(s, r))[0] == '"',
        json_value(ValueModel::Text(s, r)).last() == '"',
        unescaped(
            json_value(ValueModel::Text(s, r)).subrange(
                1,
                json_value(ValueModel::Text(s, r)).len() - 1,
            ),
        ) == Some(s),
        json_value(ValueModel::Bool(true)) != json_value(ValueModel::Bool(false)),
{
    let j = json_value(ValueModel::Text(s, r));
    assert(j == json_string(s));
    assert(j.subrange(1, j.len() - 1) =~= escaped(s));
    law_json_string_round_trip(s);
    reveal_strlit("true");
    reveal_strlit("false");
    assert("true"@.len() != "false"@.len());
}

/// `eq` and `ne` with no value compare with null.
pub proof fn law_eq_without_value(row: Map<Seq<char>, ValueModel>, field: Seq<char>)
    ensures
        meets(row, ConditionModel { field, op: FilterOp::Eq, value: None }) == (cell(row, field)
            == ValueModel::Null),
        meets(row, ConditionModel { field, op: FilterOp::Ne, value: None }) == (cell(row, field)
            != ValueModel::Null),
{
}

} // verus!
