use ocbro::config::{
    join_path, Config, ConfigError, FilterCondition, FilterOp, ResolvedTemplate, Source,
    TemplateSource, TemplateSpec,
};

fn config(template: Option<&str>, template_file: Option<&str>, templates: Vec<TemplateSpec>) -> Config {
    Config {
        source: Source { db_path: "./test.db".to_string(), query: None, table: Some("users".to_string()) },
        filter: Vec::<FilterCondition>::new(),
        projection: vec![],
        template: template.map(|s| s.to_string()),
        template_file: template_file.map(|s| s.to_string()),
        templates,
    }
}

fn file_path(t: &TemplateSource) -> Option<&str> {
    match t {
        TemplateSource::File(p) => Some(p.as_str()),
        _ => None,
    }
}

#[test]
fn body_of_both_kinds() {
    let a = ResolvedTemplate::Body("x {{count}}".to_string());
    let b = ResolvedTemplate::File { path: "/a/b.tpl".to_string(), body: "y".to_string() };
    assert_eq!(a.body(), "x {{count}}");
    assert_eq!(b.body(), "y");
}

#[test]
fn join_path_cases() {
    assert_eq!(join_path("/home/u", "a.tpl"), "/home/u/a.tpl");
    assert_eq!(join_path("/home/u/", "a.tpl"), "/home/u/a.tpl");
    assert_eq!(join_path("", "a.tpl"), "a.tpl");
    assert_eq!(join_path("/home/u", "/etc/x.tpl"), "/etc/x.tpl");
    assert_eq!(join_path("dir", "./t.db"), "dir/./t.db");
}

#[test]
fn validate_needs_query_or_table() {
    let mut c = config(Some("t"), None, vec![]);
    assert!(c.validate().is_ok());
    c.source.table = None;
    assert_eq!(c.validate(), Err(ConfigError::MissingQueryAndTable));
    c.source.query = Some("SELECT 1".to_string());
    assert!(c.validate().is_ok());
    assert_eq!(
        ConfigError::MissingQueryAndTable.message(),
        "config: source must have either 'query' or 'table'"
    );
}

#[test]
fn cli_templates_win() {
    let c = config(Some("CONFIG={{count}}"), Some("report.tpl"), vec![TemplateSpec::Inline { inline: "x".to_string() }]);
    let v = c.resolve_templates(&["cli.tpl".to_string(), "/abs/b.tpl".to_string()], "/work", "/cfg").ok().unwrap();
    assert_eq!(v.len(), 2);
    assert_eq!(file_path(&v[0]), Some("/work/cli.tpl"));
    assert_eq!(file_path(&v[1]), Some("/abs/b.tpl"));
}

#[test]
fn templates_list_comes_next() {
    let c = config(
        Some("fallback"),
        Some("report.tpl"),
        vec![
            TemplateSpec::Inline { inline: "header={{count}}".to_string() },
            TemplateSpec::FileMap { file: "detail.tpl".to_string() },
            TemplateSpec::FilePath("summary.tpl".to_string()),
        ],
    );
    let v = c.resolve_templates(&[], "/work", "/cfg").ok().unwrap();
    assert_eq!(v.len(), 3);
    match &v[0] {
        TemplateSource::Inline(s) => assert_eq!(s, "header={{count}}"),
        _ => panic!("inline first"),
    }
    assert_eq!(file_path(&v[1]), Some("/cfg/detail.tpl"));
    assert_eq!(file_path(&v[2]), Some("/cfg/summary.tpl"));
}

#[test]
fn template_file_then_inline() {
    let c = config(Some("fallback"), Some("report.tpl"), vec![]);
    let v = c.resolve_templates(&[], "/work", "").ok().unwrap();
    assert_eq!(v.len(), 1);
    match &v[0] {
        TemplateSource::TemplateFile(p) => assert_eq!(p, "report.tpl"),
        _ => panic!("template_file expected"),
    }
    let c2 = config(Some("count={{count}}"), None, vec![]);
    let v2 = c2.resolve_templates(&[], "/work", "/cfg").ok().unwrap();
    match &v2[0] {
        TemplateSource::Inline(s) => assert_eq!(s, "count={{count}}"),
        _ => panic!("inline expected"),
    }
}

#[test]
fn no_template_is_an_error() {
    let c = config(None, None, vec![]);
    match c.resolve_templates(&[], "/work", "/cfg") {
        Err(e) => {
            assert_eq!(e, ConfigError::NoTemplate);
            assert!(e.message().contains("template"));
        }
        Ok(_) => panic!("expected an error"),
    }
}

#[test]
fn spec_resolution() {
    assert_eq!(file_path(&TemplateSpec::FilePath("a.tpl".to_string()).resolve("/d")), Some("/d/a.tpl"));
    match (TemplateSpec::Inline { inline: "hi".to_string() }).resolve("/d") {
        TemplateSource::Inline(s) => assert_eq!(s, "hi"),
        _ => panic!("inline expected"),
    }
    let _ = FilterOp::Eq;
}
