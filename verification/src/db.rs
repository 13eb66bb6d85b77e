use vstd::prelude::*;

use crate::config::Source;
use crate::text::{decimal, decimal_string, owned, push_char, push_str};
use crate::value::{pairs_map, Row, Value, ValueModel};

verus! {

/// Why no SQL can be made for a source.
#[derive(Clone, Copy, Debug, PartialEq, Eq, Structural)]
pub enum QueryError {
    /// The source names neither a query nor a table.
    NoQueryOrTable,
}

impl QueryError {
    pub fn message(&self) -> (r: String)
        ensures
            r@ == "source must specify either 'query' or 'table'"@,
    {
        owned("source must specify either 'query' or 'table'")
    }
}

/// The statement that reads every column of `table`.
pub open spec fn select_all_from(table: Seq<char>) -> Seq<char> {
    "SELECT * FROM \""@ + table + "\""@
}

/// The SQL to run: the raw query when there is one, else every column of
/// the table (its name quoted as it stands).
pub fn build_sql(source: &Source) -> (r: Result<String, QueryError>)
    ensures
        source.query matches Some(q) ==> r == Ok::<String, QueryError>(q),
        source.query is None && source.table is Some ==> (r matches Ok(s) && s@ == select_all_from(
            source.table->0@,
        )),
        source.query is None && source.table is None ==> r == Err::<String, QueryError>(
            QueryError::NoQueryOrTable,
        ),
{
    if let Some(q) = &source.query {
        return Ok(q.clone());
    }
    if let Some(table) = &source.table {
        let mut s = owned("SELECT * FROM \"");
        push_str(&mut s, table.as_str());
        push_char(&mut s, '"');
        proof {
            reveal_strlit("\"");
            assert(s@ =~= select_all_from(table@));
        }
        return Ok(s);
    }
    Err(QueryError::NoQueryOrTable)
}

impl Source {
    /// The database to open: the override when one is given, else `db_path`.
    pub fn db_path_for(&self, db_path_override: Option<&str>) -> (r: String)
        ensures
            r@ == match db_path_override {
                Some(p) => p@,
                None => self.db_path@,
            },
    {
        match db_path_override {
            Some(p) => owned(p),
            None => self.db_path.clone(),
        }
    }
}

/// The placeholder text that stands for a blob of `len` bytes.
pub open spec fn blob_text_spec(len: nat) -> Seq<char> {
    "<blob "@ + decimal(len) + " bytes>"@
}

/// The text that a blob cell is shown as.
pub fn blob_text(len: usize) -> (r: String)
    ensures
        r@ == blob_text_spec(len as nat),
{
    let mut s = owned("<blob ");
    let n = decimal_string(len);
    push_str(&mut s, n.as_str());
    push_str(&mut s, " bytes>");
    s
}

/// The columns `names[i]` holding `values[i]`, in order.
pub open spec fn column_pairs(names: Seq<String>, values: Seq<Value>) -> Seq<(Seq<char>, ValueModel)> {
    Seq::new(names.len(), |i: int| (names[i]@, values[i]@))
}

/// The row whose cells are the named column values; where a name repeats,
/// the later column wins.
pub fn row_from_columns(names: &[String], values: Vec<Value>) -> (r: Row)
    requires
        names.len() == values.len(),
    ensures
        r.wf(),
        r@ == pairs_map(column_pairs(names@, values@)),
{
    let ghost vs = values@;
    let mut row = Row::new();
    let mut i: usize = 0;
    for v in it: values
        invariant
            it.seq() == vs,
            names.len() == vs.len(),
            i == it.index(),
            row.wf(),
            row@ == pairs_map(column_pairs(names@, vs).take(i as int)),
    {
        let ghost before = column_pairs(names@, vs).take(i as int);
        let ghost after = column_pairs(names@, vs).take(i + 1);
        assert(after.drop_last() =~= before);
        row.insert(names[i].clone(), v);
        i = i + 1;
    }
    assert(column_pairs(names@, vs).take(vs.len() as int) =~= column_pairs(names@, vs));
    row
}

} // verus!
