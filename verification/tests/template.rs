use ocbro::config::ResolvedTemplate;
use ocbro::template::{context_json_text, render_to_string};
use ocbro::value::{NumKey, Row, Value};

fn key(x: f64) -> i64 {
    let bits = x.to_bits();
    let magnitude = (bits & 0x7fff_ffff_ffff_ffff) as i64;
    if bits >> 63 == 1 {
        -magnitude
    } else {
        magnitude
    }
}

fn num(i: i64) -> Value {
    Value::Number { repr: i.to_string(), key: key(i as f64) }
}

fn text(s: &str) -> Value {
    let reading = s.parse::<f64>().ok().map(|x| if x.is_nan() { NumKey::Nan } else { NumKey::Key(key(x)) });
    Value::Text { text: s.to_string(), reading }
}

fn inline(s: &str) -> ResolvedTemplate {
    ResolvedTemplate::Body(s.to_string())
}

fn make_row(pairs: &[(&str, Value)]) -> Row {
    let mut r = Row::new();
    for (k, v) in pairs {
        r.insert(k.to_string(), v.clone());
    }
    r
}

fn render(templates: &[ResolvedTemplate], rows: &[Row]) -> String {
    match render_to_string(templates, rows) {
        Ok(s) => s,
        Err(e) => panic!("rendering {}: {}", e.label, e.message),
    }
}

#[test]
fn test_render_count() {
    let rows = vec![make_row(&[("id", num(1))]), make_row(&[("id", num(2))])];
    let out = render(&[inline("Total: {{count}}")], &rows);
    assert_eq!(out.trim(), "Total: 2");
}

#[test]
fn test_render_each_rows() {
    let rows = vec![
        make_row(&[("name", text("Alice")), ("age", num(30))]),
        make_row(&[("name", text("Bob")), ("age", num(25))]),
    ];
    let tpl = "{{#each rows}}- {{name}} ({{age}})\n{{/each}}";
    let out = render(&[inline(tpl)], &rows);
    assert!(out.contains("- Alice (30)"));
    assert!(out.contains("- Bob (25)"));
}

#[test]
fn test_render_single_row_via_row_variable() {
    let rows = vec![make_row(&[("name", text("Alice")), ("age", num(30))])];
    let tpl = "Name: {{row.name}}\nAge: {{row.age}}";
    let out = render(&[inline(tpl)], &rows);
    assert!(out.contains("Name: Alice"));
    assert!(out.contains("Age: 30"));
}

#[test]
fn test_render_row_is_null_when_no_rows() {
    let rows: Vec<Row> = vec![];
    // Handlebars with strict_mode=false renders missing/null as empty string.
    let tpl = "count={{count}}";
    let out = render(&[inline(tpl)], &rows);
    assert_eq!(out.trim(), "count=0");
}

#[test]
fn test_render_multiple_templates_separated_by_blank_line() {
    let rows = vec![make_row(&[("name", text("Alice"))])];
    let templates = vec![inline("A: {{row.name}}"), inline("B: {{row.name}}")];
    let out = render(&templates, &rows);
    assert!(out.contains("A: Alice"));
    assert!(out.contains("B: Alice"));
    assert!(out.contains("A: Alice\nB: Alice"));
}

#[test]
fn test_render_row_is_first_when_multiple_rows() {
    let rows = vec![make_row(&[("name", text("Alice"))]), make_row(&[("name", text("Bob"))])];
    let tpl = "first={{row.name}}";
    let out = render(&[inline(tpl)], &rows);
    assert_eq!(out.trim(), "first=Alice");
}

// ── further cases ────────────────────────────────────────────────────────

#[test]
fn output_ends_with_newline_and_joins_with_newline() {
    let rows = vec![make_row(&[("id", num(7))])];
    let out = render(&[inline("x={{row.id}}"), inline("y"), inline("z")], &rows);
    assert_eq!(out, "x=7\ny\nz\n");
}

#[test]
fn no_templates_render_a_lone_newline() {
    let out = render(&[], &[]);
    assert_eq!(out, "\n");
}

#[test]
fn missing_row_field_renders_empty() {
    let out = render(&[inline("[{{row.name}}]")], &[]);
    assert_eq!(out, "[]\n");
}

#[test]
fn special_characters_survive_the_context() {
    let rows = vec![make_row(&[("s", text("a\"b\\c\nd\te\u{1}f é"))])];
    let out = render(&[inline("{{{row.s}}}")], &rows);
    assert_eq!(out, "a\"b\\c\nd\te\u{1}f é\n");
}

#[test]
fn values_are_html_escaped_in_double_braces() {
    let rows = vec![make_row(&[("s", text("<b>"))])];
    let out = render(&[inline("{{row.s}}")], &rows);
    assert_eq!(out, "&lt;b&gt;\n");
}

#[test]
fn null_and_bool_cells_render() {
    let rows = vec![make_row(&[("n", Value::Null), ("b", Value::Bool(true))])];
    let out = render(&[inline("n=[{{row.n}}] b={{row.b}}")], &rows);
    assert_eq!(out, "n=[] b=true\n");
}

#[test]
fn context_text_is_as_specified() {
    let rows = vec![make_row(&[("id", num(1)), ("name", text("A\""))])];
    let s = context_json_text(&rows);
    assert_eq!(s, "{\"rows\":[{\"id\":1,\"name\":\"A\\\"\"}],\"count\":1,\"row\":{\"id\":1,\"name\":\"A\\\"\"}}");
    let empty = context_json_text(&[]);
    assert_eq!(empty, "{\"rows\":[],\"count\":0,\"row\":null}");
}

#[test]
fn broken_template_reports_its_label() {
    let templates = vec![
        ResolvedTemplate::Body("fine".to_string()),
        ResolvedTemplate::File { path: "/t/bad.tpl".to_string(), body: "{{#each rows}}".to_string() },
    ];
    match render_to_string(&templates, &[]) {
        Ok(s) => panic!("expected an error, got {s}"),
        Err(e) => {
            assert_eq!(e.label, "template file '/t/bad.tpl'");
            assert!(!e.message.is_empty());
        }
    }
    let inline_bad = vec![ResolvedTemplate::Body("{{/if}}".to_string())];
    match render_to_string(&inline_bad, &[]) {
        Ok(s) => panic!("expected an error, got {s}"),
        Err(e) => assert_eq!(e.label, "inline template"),
    }
}
