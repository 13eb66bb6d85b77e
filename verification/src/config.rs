use vstd::prelude::*;

use crate::text::{owned, push_char, push_str};
use crate::value::{Value, ValueModel};

verus! {

/// The SQLite data source.
pub struct Source {
    pub db_path: String,
    /// If present, this raw SQL is executed as it stands.
    pub query: Option<String>,
    /// If `query` is absent, every column of this table is read.
    pub table: Option<String>,
}

/// The operators a filter condition can apply.
#[derive(Clone, Copy, Debug, PartialEq, Eq, Structural)]
pub enum FilterOp {
    Eq,
    Ne,
    Gt,
    Lt,
    Gte,
    Lte,
    Contains,
    StartsWith,
    EndsWith,
    IsNull,
    IsNotNull,
}

/// One condition applied to every row; the conditions of a list must all hold.
#[derive(Clone, Debug)]
pub struct FilterCondition {
    pub field: String,
    pub op: FilterOp,
    /// The comparison value, where the operator takes one.
    pub value: Option<Value>,
}

/// The model of a [`FilterCondition`].
pub struct ConditionModel {
    pub field: Seq<char>,
    pub op: FilterOp,
    pub value: Option<ValueModel>,
}

pub open spec fn value_model(v: Option<Value>) -> Option<ValueModel> {
    match v {
        Some(x) => Some(x@),
        None => None,
    }
}

impl View for FilterCondition {
    type V = ConditionModel;

    open spec fn view(&self) -> ConditionModel {
        ConditionModel { field: self.field@, op: self.op, value: value_model(self.value) }
    }
}

/// One entry of the `templates` list: a file path or an inline body.
pub enum TemplateSpec {
    /// A bare string is a file path.
    FilePath(String),
    /// `{ file: "…" }`
    FileMap { file: String },
    /// `{ inline: "…" }`
    Inline { inline: String },
}

/// A template ready for rendering.
pub enum ResolvedTemplate {
    /// A body given inline.
    Body(String),
    /// A body read from the file at `path`.
    File { path: String, body: String },
}

pub open spec fn body_of(t: ResolvedTemplate) -> Seq<char> {
    match t {
        ResolvedTemplate::Body(s) => s@,
        ResolvedTemplate::File { body, .. } => body@,
    }
}

impl ResolvedTemplate {
    pub fn body(&self) -> (r: &str)
        ensures
            r@ == body_of(*self),
    {
        match self {
            ResolvedTemplate::Body(s) => s.as_str(),
            ResolvedTemplate::File { body, .. } => body.as_str(),
        }
    }
}

/// Where the body of a template is to come from.
pub enum TemplateSource {
    /// The body itself.
    Inline(String),
    /// A template file, from the command line or the `templates` list.
    File(String),
    /// The file named by the `template_file` setting.
    TemplateFile(String),
}

/// Top-level configuration.
pub struct Config {
    pub source: Source,
    /// Conditions that every kept row meets.
    pub filter: Vec<FilterCondition>,
    /// The field names to keep; empty keeps all.
    pub projection: Vec<String>,
    /// Lowest priority: an inline template.
    pub template: Option<String>,
    /// Second lowest: the path of one template file.
    pub template_file: Option<String>,
    /// Above both: a list of templates.
    pub templates: Vec<TemplateSpec>,
}

/// Why a configuration cannot be used.
#[derive(Clone, Copy, Debug, PartialEq, Eq, Structural)]
pub enum ConfigError {
    /// The source names neither a query nor a table.
    MissingQueryAndTable,
    /// No template is given anywhere.
    NoTemplate,
}

impl ConfigError {
    pub fn message(&self) -> (r: String)
        ensures
            *self == ConfigError::MissingQueryAndTable ==> r@
                == "config: source must have either 'query' or 'table'"@,
            *self == ConfigError::NoTemplate ==> r@
                == "no template defined \u{2013} supply one via --template, or add 'templates', 'template_file', or 'template' to the config"@,
    {
        match self {
            ConfigError::MissingQueryAndTable => owned(
                "config: source must have either 'query' or 'table'",
            ),
            ConfigError::NoTemplate => owned(
                "no template defined \u{2013} supply one via --template, or add 'templates', 'template_file', or 'template' to the config",
            ),
        }
    }
}

/// `base` joined with `p` as a path is: `p` itself when it is absolute,
/// else `base`, a separator unless `base` is empty or ends in one, and `p`.
pub open spec fn join_path_spec(base: Seq<char>, p: Seq<char>) -> Seq<char> {
    if p.len() > 0 && p[0] == '/' {
        p
    } else if base.len() > 0 && base.last() != '/' {
        base + seq!['/'] + p
    } else {
        base + p
    }
}

/// Joins two paths as `Path::join` does on Unix.
pub fn join_path(base: &str, p: &str) -> (r: String)
    ensures
        r@ == join_path_spec(base@, p@),
{
    let pc = crate::text::chars_of(p);
    if pc.len() > 0 && pc[0] == '/' {
        return owned(p);
    }
    let bc = crate::text::chars_of(base);
    let mut r = owned(base);
    if bc.len() > 0 && bc[bc.len() - 1] != '/' {
        push_char(&mut r, '/');
    }
    push_str(&mut r, p);
    r
}

/// What a template source of the `templates` list resolves to against `base`.
pub open spec fn spec_resolution(spec: TemplateSpec, base: Seq<char>) -> (Seq<char>, bool) {
    match spec {
        TemplateSpec::FilePath(p) => (join_path_spec(base, p@), true),
        TemplateSpec::FileMap { file } => (join_path_spec(base, file@), true),
        TemplateSpec::Inline { inline } => (inline@, false),
    }
}

/// `t` is the source `(text, is_file)` describes, a file being an ordinary one.
pub open spec fn source_is(t: TemplateSource, text: Seq<char>, is_file: bool) -> bool {
    if is_file {
        t matches TemplateSource::File(p) && p@ == text
    } else {
        t matches TemplateSource::Inline(s) && s@ == text
    }
}

pub open spec fn is_file_at(t: TemplateSource, path: Seq<char>) -> bool {
    source_is(t, path, true)
}

pub open spec fn is_template_file_at(t: TemplateSource, path: Seq<char>) -> bool {
    match t {
        TemplateSource::TemplateFile(p) => p@ == path,
        _ => false,
    }
}

impl TemplateSpec {
    /// Where this entry's body comes from, paths taken relative to `base_dir`.
    pub fn resolve(&self, base_dir: &str) -> (r: TemplateSource)
        ensures
            source_is(r, spec_resolution(*self, base_dir@).0, spec_resolution(*self, base_dir@).1),
    {
        match self {
            TemplateSpec::FilePath(p) => TemplateSource::File(join_path(base_dir, p.as_str())),
            TemplateSpec::FileMap { file } => TemplateSource::File(
                join_path(base_dir, file.as_str()),
            ),
            TemplateSpec::Inline { inline } => TemplateSource::Inline(inline.clone()),
        }
    }
}

impl Config {
    /// A configuration is usable when its source names a query or a table.
    pub fn validate(&self) -> (r: Result<(), ConfigError>)
        ensures
            r is Err <==> (self.source.query is None && self.source.table is None),
            r matches Err(e) ==> e == ConfigError::MissingQueryAndTable,
    {
        if self.source.query.is_none() && self.source.table.is_none() {
            return Err(ConfigError::MissingQueryAndTable);
        }
        Ok(())
    }

    /// The templates to render, in order, by priority (highest first):
    /// the command-line files (relative to `cli_dir`), the `templates` list,
    /// `template_file` (both relative to `config_dir`), the inline `template`.
    pub fn resolve_templates(&self, cli_templates: &[String], cli_dir: &str, config_dir: &str) -> (r:
        Result<Vec<TemplateSource>, ConfigError>)
        ensures
            r is Err <==> (cli_templates.len() == 0 && self.templates.len() == 0
                && self.template_file is None && self.template is None),
            match r {
                Ok(v) => {
                    &&& cli_templates.len() > 0 ==> v.len() == cli_templates.len() && (forall|i: int|
                        0 <= i < v.len() ==> is_file_at(
                            #[trigger] v[i],
                            join_path_spec(cli_dir@, cli_templates[i]@),
                        ))
                    &&& cli_templates.len() == 0 && self.templates.len() > 0 ==> v.len()
                        == self.templates.len() && (forall|i: int|
                        0 <= i < v.len() ==> source_is(
                            #[trigger] v[i],
                            spec_resolution(self.templates[i], config_dir@).0,
                            spec_resolution(self.templates[i], config_dir@).1,
                        ))
                    &&& cli_templates.len() == 0 && self.templates.len() == 0
                        && self.template_file is Some ==> v.len() == 1 && is_template_file_at(
                        v[0],
                        join_path_spec(config_dir@, self.template_file->0@),
                    )
                    &&& cli_templates.len() == 0 && self.templates.len() == 0
                        && self.template_file is None && self.template is Some ==> v.len() == 1
                        && source_is(v[0], self.template->0@, false)
                },
                Err(e) => e == ConfigError::NoTemplate,
            },
    {
        if cli_templates.len() > 0 {
            let mut v: Vec<TemplateSource> = Vec::new();
            let mut i: usize = 0;
            while i < cli_templates.len()
                invariant
                    i <= cli_templates.len(),
                    v.len() == i,
                    forall|j: int|
                        0 <= j < i ==> is_file_at(
                            #[trigger] v[j],
                            join_path_spec(cli_dir@, cli_templates[j]@),
                        ),
                decreases cli_templates.len() - i,
            {
                v.push(TemplateSource::File(join_path(cli_dir, cli_templates[i].as_str())));
                i = i + 1;
            }
            return Ok(v);
        }
        if self.templates.len() > 0 {
            let mut v: Vec<TemplateSource> = Vec::new();
            let mut i: usize = 0;
            while i < self.templates.len()
                invariant
                    i <= self.templates.len(),
                    v.len() == i,
                    forall|j: int|
                        0 <= j < i ==> source_is(
                            #[trigger] v[j],
                            spec_resolution(self.templates[j], config_dir@).0,
                            spec_resolution(self.templates[j], config_dir@).1,
                        ),
                decreases self.templates.len() - i,
            {
                v.push(self.templates[i].resolve(config_dir));
                i = i + 1;
            }
            return Ok(v);
        }
        match &self.template_file {
            Some(tf) => {
                let mut v: Vec<TemplateSource> = Vec::new();
                v.push(TemplateSource::TemplateFile(join_path(config_dir, tf.as_str())));
                return Ok(v);
            },
            None => {},
        }
        match &self.template {
            Some(t) => {
                let mut v: Vec<TemplateSource> = Vec::new();
                v.push(TemplateSource::Inline(t.clone()));
                Ok(v)
            },
            None => Err(ConfigError::NoTemplate),
        }
    }
}

} // verus!
