use vstd::prelude::*;

use crate::config::{FilterCondition, ResolvedTemplate};
use crate::pipeline::{all_wf, conditions, names, process_rows, row_pairs, selected_pairs};
use crate::template::{bodies, context_json, label_of, render_to_string, rendered, RenderError};
use crate::value::Row;

verus! {

/// The whole run once the rows are read: keep the rows that meet every
/// condition, cut each down to the projection, and render the templates
/// against what is left.
pub fn run(
    filter: &[FilterCondition],
    projection: &[String],
    rows: Vec<Row>,
    templates: &[ResolvedTemplate],
) -> (r: Result<String, RenderError>)
    requires
        all_wf(rows@),
    ensures
        ({
            let data = context_json(
                selected_pairs(row_pairs(rows@), conditions(filter@), names(projection@)),
            );
            match r {
                Ok(s) => rendered(bodies(templates@), data) matches Ok(o) && s@ == o.push('\n'),
                Err(e) => rendered(bodies(templates@), data) matches Err((i, m)) && 0 <= i
                    < templates.len() && e.message@ == m && e.label@ == label_of(templates@[i]),
            }
        }),
{
    let kept = process_rows(rows, filter, projection);
    render_to_string(templates, &kept)
}

} // verus!
