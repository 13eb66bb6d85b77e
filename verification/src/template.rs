use vstd::prelude::*;

use crate::config::{body_of, ResolvedTemplate};
use crate::pipeline::row_pairs;
use crate::text::{chars_of, decimal, decimal_string, digit_char, owned, push_char, push_str};
use crate::value::{Row, Value, ValueModel};

verus! {

// ── The template context as JSON text ──────────────────────────────────────

pub open spec fn hex_digit(d: nat) -> char {
    if d < 10 {
        digit_char(d)
    } else if d == 10 {
        'a'
    } else if d == 11 {
        'b'
    } else if d == 12 {
        'c'
    } else if d == 13 {
        'd'
    } else if d == 14 {
        'e'
    } else {
        'f'
    }
}

/// How one character is written inside a JSON string.
pub open spec fn escape_char(c: char) -> Seq<char> {
    if c == '"' {
        seq!['\\', '"']
    } else if c == '\\' {
        seq!['\\', '\\']
    } else if c == '\n' {
        seq!['\\', 'n']
    } else if c == '\r' {
        seq!['\\', 'r']
    } else if c == '\t' {
        seq!['\\', 't']
    } else if (c as int) < 0x20 {
        seq!['\\', 'u', '0', '0', hex_digit((c as int / 16) as nat), hex_digit((c as int % 16) as nat)]
    } else {
        seq![c]
    }
}

pub open spec fn escaped(s: Seq<char>) -> Seq<char>
    decreases s.len(),
{
    if s.len() == 0 {
        Seq::empty()
    } else {
        escaped(s.drop_last()) + escape_char(s.last())
    }
}

/// The number a hexadecimal digit stands for (lower case, as written here).
pub open spec fn hex_value(c: char) -> Option<nat> {
    let n = c as int;
    if 48 <= n <= 57 {
        Some((n - 48) as nat)
    } else if 97 <= n <= 102 {
        Some((n - 87) as nat)
    } else {
        None
    }
}

pub open spec fn prepend(c: char, rest: Option<Seq<char>>) -> Option<Seq<char>> {
    match rest {
        Some(r) => Some(seq![c] + r),
        None => None,
    }
}

/// Reads the inside of a JSON string literal back into its characters: the
/// two-character escapes, `\u00` with two hexadecimal digits, and any other
/// character but a quote, a backslash or a control character as itself.
pub open spec fn unescaped(t: Seq<char>) -> Option<Seq<char>>
    decreases t.len(),
{
    if t.len() == 0 {
        Some(Seq::empty())
    } else if t[0] == '\\' {
        if t.len() >= 2 && t[1] == '"' {
            prepend('"', unescaped(t.skip(2)))
        } else if t.len() >= 2 && t[1] == '\\' {
            prepend('\\', unescaped(t.skip(2)))
        } else if t.len() >= 2 && t[1] == 'n' {
            prepend('\n', unescaped(t.skip(2)))
        } else if t.len() >= 2 && t[1] == 'r' {
            prepend('\r', unescaped(t.skip(2)))
        } else if t.len() >= 2 && t[1] == 't' {
            prepend('\t', unescaped(t.skip(2)))
        } else if t.len() >= 6 && t[1] == 'u' && t[2] == '0' && t[3] == '0' && hex_value(t[4]) is Some
            && hex_value(t[5]) is Some {
            prepend(
                (hex_value(t[4])->0 * 16 + hex_value(t[5])->0) as char,
                unescaped(t.skip(6)),
            )
        } else {
            None
        }
    } else if t[0] == '"' || (t[0] as int) < 0x20 {
        None
    } else {
        prepend(t[0], unescaped(t.skip(1)))
    }
}

/// A JSON string literal holding `s`.
pub open spec fn json_string(s: Seq<char>) -> Seq<char> {
    seq!['"'] + escaped(s) + seq!['"']
}

/// A value written as JSON.
pub open spec fn json_value(v: ValueModel) -> Seq<char> {
    match v {
        ValueModel::Null => "null"@,
        ValueModel::Bool(b) => if b {
            "true"@
        } else {
            "false"@
        },
        ValueModel::Number(repr, _) => repr,
        ValueModel::Text(s, _) => json_string(s),
        ValueModel::Composite(j) => j,
    }
}

pub open spec fn json_member(e: (Seq<char>, ValueModel)) -> Seq<char> {
    json_string(e.0) + seq![':'] + json_value(e.1)
}

pub open spec fn json_members(p: Seq<(Seq<char>, ValueModel)>) -> Seq<char>
    decreases p.len(),
{
    if p.len() == 0 {
        Seq::empty()
    } else if p.len() == 1 {
        json_member(p[0])
    } else {
        json_members(p.drop_last()) + seq![','] + json_member(p.last())
    }
}

/// A row written as a JSON object, its cells in order.
pub open spec fn json_object(p: Seq<(Seq<char>, ValueModel)>) -> Seq<char> {
    seq!['{'] + json_members(p) + seq!['}']
}

pub open spec fn json_objects(rows: Seq<Seq<(Seq<char>, ValueModel)>>) -> Seq<char>
    decreases rows.len(),
{
    if rows.len() == 0 {
        Seq::empty()
    } else if rows.len() == 1 {
        json_object(rows[0])
    } else {
        json_objects(rows.drop_last()) + seq![','] + json_object(rows.last())
    }
}

/// The data every template sees: `rows`, all the rows; `count`, how many
/// there are; `row`, the first of them, or null when there is none.
pub open spec fn context_json(rows: Seq<Seq<(Seq<char>, ValueModel)>>) -> Seq<char> {
    "{\"rows\":["@ + json_objects(rows) + "],\"count\":"@ + decimal(rows.len()) + ",\"row\":"@
        + (if rows.len() > 0 {
        json_object(rows[0])
    } else {
        "null"@
    }) + "}"@
}

fn hex(d: u32) -> (c: char)
    requires
        d < 16,
    ensures
        c == hex_digit(d as nat),
{
    if d == 0 { '0' }
    else if d == 1 { '1' }
    else if d == 2 { '2' }
    else if d == 3 { '3' }
    else if d == 4 { '4' }
    else if d == 5 { '5' }
    else if d == 6 { '6' }
    else if d == 7 { '7' }
    else if d == 8 { '8' }
    else if d == 9 { '9' }
    else if d == 10 { 'a' }
    else if d == 11 { 'b' }
    else if d == 12 { 'c' }
    else if d == 13 { 'd' }
    else if d == 14 { 'e' }
    else { 'f' }
}

fn write_escaped_char(out: &mut String, c: char)
    ensures
        final(out)@ == old(out)@ + escape_char(c),
{
    let ghost start = out@;
    if c == '"' {
        push_char(out, '\\');
        push_char(out, '"');
    } else if c == '\\' {
        push_char(out, '\\');
        push_char(out, '\\');
    } else if c == '\n' {
        push_char(out, '\\');
        push_char(out, 'n');
    } else if c == '\r' {
        push_char(out, '\\');
        push_char(out, 'r');
    } else if c == '\t' {
        push_char(out, '\\');
        push_char(out, 't');
    } else if (c as u32) < 0x20 {
        let n: u32 = c as u32;
        push_char(out, '\\');
        push_char(out, 'u');
        push_char(out, '0');
        push_char(out, '0');
        push_char(out, hex(n / 16));
        push_char(out, hex(n % 16));
    } else {
        push_char(out, c);
    }
    assert(out@ =~= start + escape_char(c));
}

fn write_string(out: &mut String, s: &str)
    ensures
        final(out)@ == old(out)@ + json_string(s@),
{
    let ghost start = out@;
    let v = chars_of(s);
    push_char(out, '"');
    let mut i: usize = 0;
    while i < v.len()
        invariant
            i <= v.len(),
            v@ == s@,
            out@ == start + seq!['"'] + escaped(v@.take(i as int)),
        decreases v.len() - i,
    {
        write_escaped_char(out, v[i]);
        assert(v@.take(i + 1).drop_last() =~= v@.take(i as int));
        assert(out@ =~= start + seq!['"'] + escaped(v@.take(i + 1)));
        i = i + 1;
    }
    assert(v@.take(v.len() as int) =~= v@);
    push_char(out, '"');
    assert(out@ =~= start + json_string(s@));
}

fn write_value(out: &mut String, v: &Value)
    ensures
        final(out)@ == old(out)@ + json_value(v@),
{
    match v {
        Value::Null => push_str(out, "null"),
        Value::Bool(b) => if *b {
            push_str(out, "true")
        } else {
            push_str(out, "false")
        },
        Value::Number { repr, .. } => push_str(out, repr.as_str()),
        Value::Text { text, .. } => write_string(out, text.as_str()),
        Value::Composite(j) => push_str(out, j.as_str()),
    }
}

fn write_object(out: &mut String, row: &Row)
    ensures
        final(out)@ == old(out)@ + json_object(row.pairs()),
{
    let ghost start = out@;
    let entries = row.entries();
    let ghost p = row.pairs();
    push_char(out, '{');
    let mut i: usize = 0;
    while i < entries.len()
        invariant
            i <= entries.len(),
            p == crate::value::pairs_of(entries@),
            out@ == start + seq!['{'] + json_members(p.take(i as int)),
        decreases entries.len() - i,
    {
        assert(p[i as int] == (entries@[i as int].0@, entries@[i as int].1@));
        if i > 0 {
            push_char(out, ',');
        }
        write_string(out, entries[i].0.as_str());
        push_char(out, ':');
        write_value(out, &entries[i].1);
        assert(p.take(i + 1).drop_last() =~= p.take(i as int));
        assert(p.take(i + 1)[0] == p[0]);
        assert(out@ =~= start + seq!['{'] + json_members(p.take(i + 1)));
        i = i + 1;
    }
    assert(p.take(entries.len() as int) =~= p);
    push_char(out, '}');
    assert(out@ =~= start + json_object(p));
}

/// Writes the context that the templates are rendered with (see [`context_json`]).
pub fn context_json_text(rows: &[Row]) -> (r: String)
    ensures
        r@ == context_json(row_pairs(rows@)),
{
    let ghost rp = row_pairs(rows@);
    let mut out = owned("{\"rows\":[");
    let ghost start = out@;
    let mut i: usize = 0;
    while i < rows.len()
        invariant
            i <= rows.len(),
            rp == row_pairs(rows@),
            out@ == start + json_objects(rp.take(i as int)),
        decreases rows.len() - i,
    {
        assert(rp[i as int] == rows@[i as int].pairs());
        if i > 0 {
            push_char(&mut out, ',');
        }
        write_object(&mut out, &rows[i]);
        assert(rp.take(i + 1).drop_last() =~= rp.take(i as int));
        assert(rp.take(i + 1)[0] == rp[0]);
        assert(out@ =~= start + json_objects(rp.take(i + 1)));
        i = i + 1;
    }
    assert(rp.take(rows.len() as int) =~= rp);
    push_str(&mut out, "],\"count\":");
    let n = decimal_string(rows.len());
    push_str(&mut out, n.as_str());
    push_str(&mut out, ",\"row\":");
    if rows.len() > 0 {
        assert(rp[0] == rows@[0].pairs());
        write_object(&mut out, &rows[0]);
    } else {
        push_str(&mut out, "null");
    }
    push_str(&mut out, "}");
    assert(out@ =~= context_json(rp));
    out
}

// ── Rendering ──────────────────────────────────────────────────────────────

/// What handlebars makes of `template` given the JSON data `data`: the
/// rendered text, or the text of the error.
pub uninterp spec fn handlebars_render(template: Seq<char>, data: Seq<char>) -> Result<
    Seq<char>,
    Seq<char>,
>;

/// Renders `template` with handlebars (`Handlebars::render_template` on a
/// registry made by `Handlebars::new`, whose strict mode is off), the data
/// being the value that `serde_json::from_str` reads from `data`. The
/// contract claims only that the outcome, text or error message, is a
/// function of the two texts.
#[verifier::external_body]
fn render_template(template: &str, data: &str) -> (r: Result<String, String>)
    ensures
        match r {
            Ok(s) => handlebars_render(template@, data@) == Ok::<Seq<char>, Seq<char>>(s@),
            Err(e) => handlebars_render(template@, data@) == Err::<Seq<char>, Seq<char>>(e@),
        },
{
    let value: serde_json::Value = match serde_json::from_str(data) {
        Ok(v) => v,
        Err(e) => return Err(e.to_string()),
    };
    match handlebars::Handlebars::new().render_template(template, &value) {
        Ok(s) => Ok(s),
        Err(e) => Err(e.to_string()),
    }
}

/// A template that could not be rendered.
pub struct RenderError {
    /// Which template: `template file '<path>'` or `inline template`.
    pub label: String,
    /// What handlebars reported.
    pub message: String,
}

pub open spec fn label_of(t: ResolvedTemplate) -> Seq<char> {
    match t {
        ResolvedTemplate::File { path, .. } => "template file '"@ + path@ + "'"@,
        ResolvedTemplate::Body(_) => "inline template"@,
    }
}

fn label(t: &ResolvedTemplate) -> (r: String)
    ensures
        r@ == label_of(*t),
{
    match t {
        ResolvedTemplate::File { path, .. } => {
            let mut s = owned("template file '");
            push_str(&mut s, path.as_str());
            push_str(&mut s, "'");
            s
        },
        ResolvedTemplate::Body(_) => owned("inline template"),
    }
}

/// The bodies of a list of templates.
pub open spec fn bodies(v: Seq<ResolvedTemplate>) -> Seq<Seq<char>> {
    v.map_values(|t: ResolvedTemplate| body_of(t))
}

/// Rendering the templates in turn: their outputs joined by newlines, or
/// the position and message of the first that fails.
pub open spec fn rendered(bodies: Seq<Seq<char>>, data: Seq<char>) -> Result<
    Seq<char>,
    (int, Seq<char>),
>
    decreases bodies.len(),
{
    if bodies.len() == 0 {
        Ok(Seq::empty())
    } else {
        match rendered(bodies.drop_last(), data) {
            Err(e) => Err(e),
            Ok(before) => match handlebars_render(bodies.last(), data) {
                Ok(o) => Ok(
                    if bodies.len() == 1 {
                        o
                    } else {
                        before + seq!['\n'] + o
                    },
                ),
                Err(m) => Err((bodies.len() - 1, m)),
            },
        }
    }
}

/// Renders every template against the rows and joins the outputs, each
/// after the first on a new line, with a newline at the end.
pub fn render_to_string(templates: &[ResolvedTemplate], rows: &[Row]) -> (r: Result<
    String,
    RenderError,
>)
    ensures
        match r {
            Ok(s) => rendered(bodies(templates@), context_json(row_pairs(rows@))) matches Ok(o)
                && s@ == o.push('\n'),
            Err(e) => rendered(bodies(templates@), context_json(row_pairs(rows@))) matches Err(
                (i, m),
            ) && 0 <= i < templates.len() && e.message@ == m && e.label@ == label_of(templates@[i]),
        },
{
    let data = context_json_text(rows);
    let ghost bs = bodies(templates@);
    let mut out = String::new();
    let mut i: usize = 0;
    while i < templates.len()
        invariant
            i <= templates.len(),
            bs == bodies(templates@),
            data@ == context_json(row_pairs(rows@)),
            rendered(bs.take(i as int), data@) == Ok::<Seq<char>, (int, Seq<char>)>(out@),
        decreases templates.len() - i,
    {
        let body = templates[i].body();
        assert(bs.take(i + 1).drop_last() =~= bs.take(i as int));
        assert(bs.take(i + 1).last() == body@);
        match render_template(body, data.as_str()) {
            Ok(o) => {
                let ghost prev = out@;
                let ghost og = o@;
                if i > 0 {
                    push_char(&mut out, '\n');
                    push_str(&mut out, o.as_str());
                    assert(out@ =~= prev + seq!['\n'] + og);
                } else {
                    out = o;
                }
                assert(bs.take(i + 1).len() == i + 1);
                assert(rendered(bs.take(i + 1), data@) == Ok::<Seq<char>, (int, Seq<char>)>(out@));
            },
            Err(m) => {
                assert(rendered(bs.take(i + 1), data@) == Err::<Seq<char>, (int, Seq<char>)>(
                    (i as int, m@),
                ));
                proof {
                    lemma_rendered_err_stays(bs, data@, i as int + 1);
                }
                assert(bs.take(templates.len() as int) =~= bs);
                return Err(RenderError { label: label(&templates[i]), message: m });
            },
        }
        i = i + 1;
    }
    assert(bs.take(templates.len() as int) =~= bs);
    push_char(&mut out, '\n');
    Ok(out)
}

proof fn lemma_rendered_err_stays(bs: Seq<Seq<char>>, data: Seq<char>, k: int)
    requires
        0 <= k <= bs.len(),
        rendered(bs.take(k), data) is Err,
    ensures
        rendered(bs, data) == rendered(bs.take(k), data),
    decreases bs.len() - k,
{
    if k < bs.len() {
        assert(bs.take(k + 1).drop_last() =~= bs.take(k));
        lemma_rendered_err_stays(bs, data, k + 1);
    } else {
        assert(bs.take(k) =~= bs);
    }
}

} // verus!
