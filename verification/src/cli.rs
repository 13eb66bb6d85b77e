use vstd::prelude::*;

use crate::config::{ConditionModel, FilterCondition, FilterOp};
use crate::pipeline::{conditions, names};
use crate::text::{chars_of, str_eq, string_from_chars};
use crate::value::{NumKey, Value, ValueModel};

verus! {

/// The operator that `name` denotes in a `FIELD:OP[:VALUE]` argument (and in
/// the configuration file).
pub open spec fn op_named(name: Seq<char>) -> Option<FilterOp> {
    if name == "eq"@ {
        Some(FilterOp::Eq)
    } else if name == "ne"@ {
        Some(FilterOp::Ne)
    } else if name == "gt"@ {
        Some(FilterOp::Gt)
    } else if name == "lt"@ {
        Some(FilterOp::Lt)
    } else if name == "gte"@ {
        Some(FilterOp::Gte)
    } else if name == "lte"@ {
        Some(FilterOp::Lte)
    } else if name == "contains"@ {
        Some(FilterOp::Contains)
    } else if name == "starts_with"@ {
        Some(FilterOp::StartsWith)
    } else if name == "ends_with"@ {
        Some(FilterOp::EndsWith)
    } else if name == "is_null"@ {
        Some(FilterOp::IsNull)
    } else if name == "is_not_null"@ {
        Some(FilterOp::IsNotNull)
    } else {
        None
    }
}

/// The operator named `name`, if any.
pub fn parse_op(name: &str) -> (r: Option<FilterOp>)
    ensures
        r == op_named(name@),
{
    if str_eq(name, "eq") {
        Some(FilterOp::Eq)
    } else if str_eq(name, "ne") {
        Some(FilterOp::Ne)
    } else if str_eq(name, "gt") {
        Some(FilterOp::Gt)
    } else if str_eq(name, "lt") {
        Some(FilterOp::Lt)
    } else if str_eq(name, "gte") {
        Some(FilterOp::Gte)
    } else if str_eq(name, "lte") {
        Some(FilterOp::Lte)
    } else if str_eq(name, "contains") {
        Some(FilterOp::Contains)
    } else if str_eq(name, "starts_with") {
        Some(FilterOp::StartsWith)
    } else if str_eq(name, "ends_with") {
        Some(FilterOp::EndsWith)
    } else if str_eq(name, "is_null") {
        Some(FilterOp::IsNull)
    } else if str_eq(name, "is_not_null") {
        Some(FilterOp::IsNotNull)
    } else {
        None
    }
}

/// A filter given on the command line, its value still text.
pub struct FilterArg {
    pub field: String,
    pub op: FilterOp,
    pub value: Option<String>,
}

/// Why a `--filter` argument was refused.
pub enum FilterArgError {
    /// There is no `:` between a field and an operator.
    MissingOperator,
    /// The field name before the first `:` is empty.
    EmptyField,
    /// The operator is none of the known names; it is carried here.
    UnknownOperator(String),
}

/// `i` is the position of the first `:` in `s`.
pub open spec fn is_first_colon(s: Seq<char>, i: int) -> bool {
    0 <= i < s.len() && s[i] == ':' && forall|j: int| 0 <= j < i ==> s[j] != ':'
}

pub open spec fn has_colon(s: Seq<char>) -> bool {
    exists|i: int| 0 <= i < s.len() && s[i] == ':'
}

pub open spec fn first_colon(s: Seq<char>) -> int {
    choose|i: int| is_first_colon(s, i)
}

/// The parts of `FIELD:OP[:VALUE]`: the text before the first `:`, the
/// text up to the next `:` (or the end), and what follows that `:`.
pub open spec fn filter_parts(s: Seq<char>) -> (Seq<char>, Seq<char>, Option<Seq<char>>) {
    let i = first_colon(s);
    let rest = s.subrange(i + 1, s.len() as int);
    if has_colon(rest) {
        let j = first_colon(rest);
        (s.subrange(0, i), rest.subrange(0, j), Some(rest.subrange(j + 1, rest.len() as int)))
    } else {
        (s.subrange(0, i), rest, None)
    }
}

pub proof fn lemma_first_colon(s: Seq<char>)
    requires
        has_colon(s),
    ensures
        is_first_colon(s, first_colon(s)),
    decreases s.len(),
{
    let k = choose|i: int| 0 <= i < s.len() && s[i] == ':';
    if exists|j: int| 0 <= j < k && s[j] == ':' {
        let q = s.subrange(0, k);
        assert(has_colon(q)) by {
            let j = choose|j: int| 0 <= j < k && s[j] == ':';
            assert(q[j] == ':');
        }
        lemma_first_colon(q);
        let m = first_colon(q);
        assert(is_first_colon(s, m)) by {
            assert(s[m] == q[m]);
            assert forall|j: int| 0 <= j < m implies s[j] != ':' by {
                assert(s[j] == q[j]);
            }
        }
    } else {
        assert(is_first_colon(s, k));
    }
}

fn find_colon(v: &Vec<char>, from: usize) -> (r: Option<usize>)
    requires
        from <= v.len(),
    ensures
        match r {
            Some(i) => from <= i < v.len() && v@[i as int] == ':' && forall|j: int|
                from <= j < i ==> v@[j] != ':',
            None => forall|j: int| from <= j < v.len() ==> v@[j] != ':',
        },
{
    let mut i: usize = from;
    while i < v.len()
        invariant
            from <= i <= v.len(),
            forall|j: int| from <= j < i ==> v@[j] != ':',
        decreases v.len() - i,
    {
        if v[i] == ':' {
            return Some(i);
        }
        i = i + 1;
    }
    None
}

fn slice_string(v: &Vec<char>, a: usize, b: usize) -> (s: String)
    requires
        a <= b <= v.len(),
    ensures
        s@ == v@.subrange(a as int, b as int),
{
    let mut w: Vec<char> = Vec::new();
    let mut i: usize = a;
    while i < b
        invariant
            a <= i <= b <= v.len(),
            w@ == v@.subrange(a as int, i as int),
        decreases b - i,
    {
        w.push(v[i]);
        assert(v@.subrange(a as int, i + 1) =~= v@.subrange(a as int, i as int).push(v@[i as int]));
        i = i + 1;
    }
    string_from_chars(&w)
}

/// Reads a `FIELD:OP[:VALUE]` argument. The value is everything after the
/// second `:`, colons included.
pub fn parse_filter_arg(arg: &str) -> (r: Result<FilterArg, FilterArgError>)
    ensures
        !has_colon(arg@) ==> r matches Err(FilterArgError::MissingOperator),
        has_colon(arg@) && filter_parts(arg@).0.len() == 0 ==> r matches Err(
            FilterArgError::EmptyField,
        ),
        has_colon(arg@) && filter_parts(arg@).0.len() > 0 && op_named(filter_parts(arg@).1) is None
            ==> (r matches Err(FilterArgError::UnknownOperator(o)) && o@ == filter_parts(arg@).1),
        has_colon(arg@) && filter_parts(arg@).0.len() > 0 && op_named(filter_parts(arg@).1) is Some
            ==> (r matches Ok(f) && f.field@ == filter_parts(arg@).0 && f.op == op_named(
            filter_parts(arg@).1,
        )->0 && match f.value {
            Some(v) => filter_parts(arg@).2 == Some(v@),
            None => filter_parts(arg@).2 is None,
        }),
{
    let v = chars_of(arg);
    let i = match find_colon(&v, 0) {
        Some(i) => i,
        None => {
            assert(!has_colon(arg@));
            return Err(FilterArgError::MissingOperator);
        },
    };
    proof {
        assert(has_colon(arg@));
        lemma_first_colon(arg@);
        assert(is_first_colon(arg@, i as int));
        assert(first_colon(arg@) == i);
    }
    let ghost rest = arg@.subrange(i + 1, arg@.len() as int);
    if i == 0 {
        return Err(FilterArgError::EmptyField);
    }
    let field = slice_string(&v, 0, i);
    let (op_text, value) = match find_colon(&v, i + 1) {
        Some(j) => {
            proof {
                assert(rest[j - i - 1] == ':');
                assert(has_colon(rest));
                lemma_first_colon(rest);
                assert(is_first_colon(rest, j - i - 1));
                assert(first_colon(rest) == j - i - 1);
                assert(v@.subrange(i + 1, j as int) =~= rest.subrange(0, j - i - 1));
                assert(v@.subrange(j + 1, v.len() as int) =~= rest.subrange(j - i, rest.len() as int));
            }
            (slice_string(&v, i + 1, j), Some(slice_string(&v, j + 1, v.len())))
        },
        None => {
            proof {
                assert forall|k: int| 0 <= k < rest.len() implies rest[k] != ':' by {
                    assert(rest[k] == v@[i + 1 + k]);
                }
                assert(!has_colon(rest));
                assert(v@.subrange(i + 1, v.len() as int) =~= rest);
            }
            (slice_string(&v, i + 1, v.len()), None)
        },
    };
    match parse_op(op_text.as_str()) {
        Some(op) => Ok(FilterArg { field, op, value }),
        None => Err(FilterArgError::UnknownOperator(op_text)),
    }
}

impl FilterArg {
    /// The condition this argument stands for: its value, if any, is a
    /// string, and `reading` is the number that string reads as.
    pub fn into_condition(self, reading: Option<NumKey>) -> (r: FilterCondition)
        ensures
            r.field@ == self.field@,
            r.op == self.op,
            match self.value {
                Some(t) => r.value matches Some(v) && v@ == ValueModel::Text(t@, reading),
                None => r.value is None,
            },
    {
        let value = match self.value {
            Some(t) => Some(Value::Text { text: t, reading }),
            None => None,
        };
        FilterCondition { field: self.field, op: self.op, value }
    }
}

/// The fields of a list of conditions.
pub open spec fn fields_of(cs: Seq<ConditionModel>) -> Seq<Seq<char>> {
    cs.map_values(|c: ConditionModel| c.field)
}

/// The conditions of `cs` on fields that `fields` does not name, in order.
pub open spec fn without_fields(cs: Seq<ConditionModel>, fields: Seq<Seq<char>>) -> Seq<
    ConditionModel,
>
    decreases cs.len(),
{
    if cs.len() == 0 {
        Seq::empty()
    } else {
        let before = without_fields(cs.drop_last(), fields);
        if fields.contains(cs.last().field) {
            before
        } else {
            before.push(cs.last())
        }
    }
}

/// The fields of `cli` that `config` also names, each once, in the order of
/// their first occurrence in `cli`.
pub open spec fn overridden(cli: Seq<Seq<char>>, config: Seq<Seq<char>>) -> Seq<Seq<char>>
    decreases cli.len(),
{
    if cli.len() == 0 {
        Seq::empty()
    } else {
        let before = overridden(cli.drop_last(), config);
        if config.contains(cli.last()) && !before.contains(cli.last()) {
            before.push(cli.last())
        } else {
            before
        }
    }
}

impl FilterCondition {
    /// A copy of this condition.
    pub fn duplicate(&self) -> (r: FilterCondition)
        ensures
            r@ == self@,
    {
        let value = match &self.value {
            Some(v) => Some(v.duplicate()),
            None => None,
        };
        FilterCondition { field: self.field.clone(), op: self.op, value }
    }
}

proof fn lemma_names_push(v: Seq<String>, s: String)
    ensures
        names(v.push(s)) == names(v).push(s@),
{
    assert(names(v.push(s)) =~= names(v).push(s@));
}

proof fn lemma_conditions_push(v: Seq<FilterCondition>, c: FilterCondition)
    ensures
        conditions(v.push(c)) == conditions(v).push(c@),
{
    assert(conditions(v.push(c)) =~= conditions(v).push(c@));
}

fn names_field(fields: &Vec<String>, field: &str) -> (r: bool)
    ensures
        r == names(fields@).contains(field@),
{
    let ghost ns = names(fields@);
    let mut i: usize = 0;
    while i < fields.len()
        invariant
            i <= fields.len(),
            ns == names(fields@),
            forall|j: int| 0 <= j < i ==> ns[j] != field@,
        decreases fields.len() - i,
    {
        if str_eq(fields[i].as_str(), field) {
            assert(ns[i as int] == field@);
            return true;
        }
        i = i + 1;
    }
    false
}

/// Command-line filters added to those of the configuration. A command-line
/// filter replaces every configuration filter on the same field; the
/// configuration filters on other fields stay, in order, ahead of the
/// command-line ones. The second result names each replaced field once, in
/// the order of the command line, for a warning.
pub fn merge_filters(config: &[FilterCondition], cli: Vec<FilterCondition>) -> (r: (
    Vec<FilterCondition>,
    Vec<String>,
))
    ensures
        conditions(r.0@) == without_fields(conditions(config@), fields_of(conditions(cli@)))
            + conditions(cli@),
        names(r.1@) == overridden(fields_of(conditions(cli@)), fields_of(conditions(config@))),
        forall|i: int, j: int| 0 <= i < j < r.1.len() ==> r.1[i]@ != r.1[j]@,
        forall|f: Seq<char>|
            names(r.1@).contains(f) <==> (fields_of(
                conditions(cli@),
            ).contains(f) && fields_of(conditions(config@)).contains(f)),
{
    let ghost cfg = conditions(config@);
    let ghost cl = conditions(cli@);
    let ghost cf = fields_of(cl);
    let mut cli_fields: Vec<String> = Vec::new();
    let mut k: usize = 0;
    while k < cli.len()
        invariant
            k <= cli.len(),
            cl == conditions(cli@),
            cf == fields_of(cl),
            names(cli_fields@) == cf.take(k as int),
        decreases cli.len() - k,
    {
        let ghost before = cli_fields@;
        let fk = cli[k].field.clone();
        assert(cl[k as int] == cli@[k as int]@);
        assert(fk@ == cf[k as int]);
        proof {
            lemma_names_push(before, fk);
        }
        cli_fields.push(fk);
        assert(names(cli_fields@) =~= cf.take(k + 1));
        k = k + 1;
    }
    assert(cf.take(cli.len() as int) =~= cf);
    let mut config_fields: Vec<String> = Vec::new();
    let ghost gf = fields_of(cfg);
    let mut merged: Vec<FilterCondition> = Vec::new();
    let mut i: usize = 0;
    while i < config.len()
        invariant
            i <= config.len(),
            cfg == conditions(config@),
            gf == fields_of(cfg),
            names(cli_fields@) == cf,
            conditions(merged@) == without_fields(cfg.take(i as int), cf),
            names(config_fields@) == gf.take(i as int),
        decreases config.len() - i,
    {
        let ghost before = cfg.take(i as int);
        assert(cfg.take(i + 1).drop_last() =~= before);
        let ghost before_fields = config_fields@;
        let fi = config[i].field.clone();
        assert(cfg[i as int] == config@[i as int]@);
        assert(fi@ == gf[i as int]);
        proof {
            lemma_names_push(before_fields, fi);
        }
        config_fields.push(fi);
        assert(names(config_fields@) =~= gf.take(i + 1));
        if !names_field(&cli_fields, config[i].field.as_str()) {
            let d = config[i].duplicate();
            proof {
                lemma_conditions_push(merged@, d);
            }
            merged.push(d);
            assert(conditions(merged@) =~= without_fields(before, cf).push(cfg[i as int]));
        } else {
            assert(conditions(merged@) =~= without_fields(before, cf));
        }
        i = i + 1;
    }
    assert(cfg.take(config.len() as int) =~= cfg);
    assert(gf.take(config.len() as int) =~= gf);
    let ghost kept = conditions(merged@);
    let mut warned: Vec<String> = Vec::new();
    let mut m: usize = 0;
    while m < cli.len()
        invariant
            m <= cli.len(),
            cl == conditions(cli@),
            cf == fields_of(cl),
            names(config_fields@) == gf,
            gf == fields_of(cfg),
            conditions(merged@) == kept + cl.take(m as int),
            names(warned@) == overridden(cf.take(m as int), gf),
            forall|a: int, b: int| 0 <= a < b < warned.len() ==> warned[a]@ != warned[b]@,
            forall|f: Seq<char>|
                #[trigger] names(warned@).contains(f) <==> (cf.take(m as int).contains(f)
                    && gf.contains(f)),
        decreases cli.len() - m,
    {
        let c = cli[m].duplicate();
        let ghost w0 = names(warned@);
        let ghost f = cf[m as int];
        assert(cl[m as int] == c@);
        assert(c.field@ == f);
        let in_config = names_field(&config_fields, c.field.as_str());
        let in_warned = names_field(&warned, c.field.as_str());
        assert(in_config == gf.contains(f));
        assert(in_warned == w0.contains(f));
        if in_config && !in_warned {
            let ghost wb = warned@;
            let fc = c.field.clone();
            proof {
                lemma_names_push(wb, fc);
            }
            warned.push(fc);
            assert(names(warned@) =~= w0.push(f));
            assert forall|a: int, b: int| 0 <= a < b < warned.len() implies warned[a]@
                != warned[b]@ by {
                if b == warned.len() - 1 {
                    assert(w0[a] == warned[a]@);
                }
            }
        }
        let ghost w1 = names(warned@);
        assert(cf.take(m + 1).drop_last() =~= cf.take(m as int));
        assert(w1 == overridden(cf.take(m + 1), gf));
        assert(in_config && !in_warned ==> w1 == w0.push(f));
        assert(!(in_config && !in_warned) ==> w1 == w0);
        let ghost t0 = cf.take(m as int);
        let ghost t1 = cf.take(m + 1);
        assert(t1 =~= t0.push(f));
        assert forall|g: Seq<char>| w1.contains(g) <==> (t1.contains(g) && gf.contains(g)) by {
            assert(w0.contains(g) == (t0.contains(g) && gf.contains(g)));
            assert(t1.contains(g) == (t0.contains(g) || g == f)) by {
                if t1.contains(g) {
                    let a = choose|a: int| 0 <= a < t1.len() && t1[a] == g;
                    if a < t0.len() {
                        assert(t0[a] == g);
                    }
                }
                if t0.contains(g) {
                    let a = choose|a: int| 0 <= a < t0.len() && t0[a] == g;
                    assert(t1[a] == g);
                }
                if g == f {
                    assert(t1[t0.len() as int] == g);
                }
            }
            assert(w1.contains(g) == (w0.contains(g) || (in_config && !in_warned && g == f))) by {
                if in_config && !in_warned {
                    if w1.contains(g) {
                        let a = choose|a: int| 0 <= a < w1.len() && w1[a] == g;
                        if a < w0.len() {
                            assert(w0[a] == g);
                        }
                    }
                    if w0.contains(g) {
                        let a = choose|a: int| 0 <= a < w0.len() && w0[a] == g;
                        assert(w1[a] == g);
                    }
                    if g == f {
                        assert(w1[w0.len() as int] == g);
                    }
                }
            }
        }
        proof {
            lemma_conditions_push(merged@, c);
        }
        merged.push(c);
        assert(cl.take(m + 1) =~= cl.take(m as int).push(cl[m as int]));
        assert(conditions(merged@) =~= kept + cl.take(m + 1));
        m = m + 1;
    }
    assert(cl.take(cli@.len() as int) =~= cl);
    assert(cf.take(cli@.len() as int) =~= cf);
    (merged, warned)
}

} // verus!
