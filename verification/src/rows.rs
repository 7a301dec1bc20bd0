//! Database rows as JSON objects.

use vstd::prelude::*;

use crate::codec::{self, text_from_utf8};
use crate::json::{self, Json, JsonMap, JsonV, json_real};
use crate::text;

verus! {

/// A value of a database column.
#[derive(Debug, PartialEq)]
pub enum SqlValue {
    Null,
    Integer(i64),
    /// The IEEE 754 bits of a double.
    Real(u64),
    /// Text as the database holds it, which need not be valid UTF-8.
    Text(Vec<u8>),
    Blob(Vec<u8>),
}

/// What a column value is in JSON.
pub open spec fn sql_json(v: SqlValue) -> JsonV {
    match v {
        SqlValue::Null => JsonV::Null,
        SqlValue::Integer(i) => JsonV::Int(i as int),
        SqlValue::Real(bits) => json::double(bits),
        SqlValue::Text(b) => JsonV::Str(codec::utf8_lossy(b@)),
        SqlValue::Blob(b) => JsonV::Str(codec::utf8_lossy(b@)),
    }
}

/// The JSON value of a column value. Bytes that are valid UTF-8 are the text that they encode.
pub fn vref_to_json(v: &SqlValue) -> (r: Json)
    ensures
        r@ == sql_json(*v),
        *v matches SqlValue::Text(b) ==> vstd::utf8::valid_utf8(b@) ==> r@ == JsonV::Str(
            vstd::utf8::decode_utf8(b@),
        ),
        *v matches SqlValue::Blob(b) ==> vstd::utf8::valid_utf8(b@) ==> r@ == JsonV::Str(
            vstd::utf8::decode_utf8(b@),
        ),
{
    match v {
        SqlValue::Null => Json::Null,
        SqlValue::Integer(i) => Json::Int(*i),
        SqlValue::Real(bits) => json_real(*bits),
        SqlValue::Text(b) => Json::Str(text_from_utf8(b.as_slice())),
        SqlValue::Blob(b) => Json::Str(text_from_utf8(b.as_slice())),
    }
}

/// The members of the object of a row: each column with its value, in the order of the columns.
pub open spec fn row_members(cols: Seq<Seq<char>>, row: Seq<SqlValue>) -> Seq<(Seq<char>, JsonV)>
    decreases cols.len(),
{
    if cols.len() == 0 {
        Seq::empty()
    } else {
        json::with_member(
            row_members(cols.drop_last(), row),
            cols.last(),
            sql_json(row[cols.len() - 1]),
        )
    }
}

/// The object of a row has a member for each column.
pub proof fn lemma_row_has_column(cols: Seq<Seq<char>>, row: Seq<SqlValue>, i: int)
    requires
        0 <= i < cols.len(),
    ensures
        json::member(row_members(cols, row), cols[i]) is Some,
    decreases cols.len(),
{
    let t = cols.drop_last();
    json::lemma_member_set(
        row_members(t, row),
        cols.last(),
        sql_json(row[cols.len() - 1]),
        cols[i],
    );
    if i < t.len() {
        assert(t[i] == cols[i]);
        lemma_row_has_column(t, row, i);
    }
}

/// The member of each column is the value of the row there, where no two columns have one name.
pub proof fn law_columns_are_read_back(cols: Seq<Seq<char>>, row: Seq<SqlValue>, i: int)
    requires
        cols.no_duplicates(),
        0 <= i < cols.len(),
    ensures
        json::member(row_members(cols, row), cols[i]) == Some(sql_json(row[i])),
    decreases cols.len(),
{
    let t = cols.drop_last();
    json::lemma_member_set(
        row_members(t, row),
        cols.last(),
        sql_json(row[cols.len() - 1]),
        cols[i],
    );
    if i < t.len() {
        assert(t[i] == cols[i]);
        assert(cols[i] != cols[cols.len() - 1]);
        law_columns_are_read_back(t, row, i);
    }
}

/// The object of a row.
pub fn row_object(cols: &Vec<&'static str>, row: &Vec<SqlValue>) -> (r: JsonMap)
    requires
        row.len() == cols.len(),
    ensures
        r@ == row_members(text::slices(cols@), row@),
{
    let ghost names = text::slices(cols@);
    let mut o = JsonMap::new();
    let mut i: usize = 0;
    proof {
        assert(names.take(0).len() == 0);
    }
    while i < cols.len()
        invariant
            i <= cols.len(),
            row.len() == cols.len(),
            names == text::slices(cols@),
            o@ == row_members(names.take(i as int), row@),
        decreases cols.len() - i,
    {
        o.set(cols[i], vref_to_json(&row[i]));
        proof {
            assert(names.take(i + 1).drop_last() =~= names.take(i as int));
        }
        i += 1;
    }
    proof {
        assert(names.take(names.len() as int) =~= names);
    }
    o
}

/// What an optional object says.
pub open spec fn optional_members(o: Option<JsonMap>) -> Option<Seq<(Seq<char>, JsonV)>> {
    match o {
        Some(m) => Some(m@),
        None => None,
    }
}

/// The object of the row that a query found, if it found one.
pub open spec fn found_members(cols: Seq<Seq<char>>, row: Option<Vec<SqlValue>>) -> Option<
    Seq<(Seq<char>, JsonV)>,
> {
    match row {
        Some(v) => Some(row_members(cols, v@)),
        None => None,
    }
}

/// Whether the row that a query found, if any, has a value for each of `n` columns.
pub open spec fn row_fits(row: Option<Vec<SqlValue>>, n: nat) -> bool {
    row is Some ==> row->0.len() == n
}

/// The object of the row that a query found.
pub fn query_one_object(cols: &Vec<&'static str>, row: &Option<Vec<SqlValue>>) -> (r: Option<
    JsonMap,
>)
    requires
        row_fits(*row, cols@.len()),
    ensures
        optional_members(r) == found_members(text::slices(cols@), *row),
{
    match row {
        Some(v) => Some(row_object(cols, v)),
        None => None,
    }
}

/// Names separated by commas.
pub open spec fn comma_list(names: Seq<Seq<char>>) -> Seq<char>
    decreases names.len(),
{
    if names.len() == 0 {
        Seq::empty()
    } else if names.len() == 1 {
        names[0]
    } else {
        comma_list(names.drop_last()) + ","@ + names.last()
    }
}

fn comma_names(names: &Vec<&'static str>) -> (r: String)
    ensures
        r@ == comma_list(text::slices(names@)),
{
    let ghost all = text::slices(names@);
    let mut r = String::new();
    let mut i: usize = 0;
    proof {
        assert(all.take(0).len() == 0);
    }
    while i < names.len()
        invariant
            i <= names.len(),
            all == text::slices(names@),
            r@ == comma_list(all.take(i as int)),
        decreases names.len() - i,
    {
        proof {
            assert(all.take(i + 1).drop_last() =~= all.take(i as int));
            assert(all.take(i + 1).last() == all[i as int]);
        }
        if i > 0 {
            r.append(",");
        }
        r.append(names[i]);
        proof {
            assert(Seq::<char>::empty() + all[i as int] =~= all[i as int]);
        }
        i += 1;
    }
    proof {
        assert(all.take(all.len() as int) =~= all);
    }
    r
}

/// The query for some columns of the rows of a table that a clause selects.
pub open spec fn select_text(cols: Seq<Seq<char>>, table: Seq<char>, clause: Seq<char>) -> Seq<
    char,
> {
    "SELECT "@ + comma_list(cols) + " FROM "@ + table + " WHERE "@ + clause
}

/// The query for some columns of the rows of `table` that `clause` selects.
pub fn select_sql(cols: &Vec<&'static str>, table: &str, clause: &str) -> (r: String)
    ensures
        r@ == select_text(text::slices(cols@), table@, clause@),
{
    let names = comma_names(cols);
    let mut r = "SELECT ".to_owned();
    r.append(names.as_str());
    r.append(" FROM ");
    r.append(table);
    r.append(" WHERE ");
    r.append(clause);
    r
}

// ---------------------------------- columns ----------------------------------

/// The columns of a project.
pub open spec fn project_columns() -> Seq<Seq<char>> {
    seq![
        "id"@,
        "name"@,
        "description"@,
        "sum"@,
        "charts"@,
        "more"@,
        "pinned_opened"@,
        "hidden_opened"@,
        "version"@,
        "create_time"@,
        "update_time"@,
    ]
}

/// The columns of a project.
pub fn project_cols() -> (r: Vec<&'static str>)
    ensures
        text::slices(r@) == project_columns(),
{
    let r: Vec<&'static str> = vec![
        "id",
        "name",
        "description",
        "sum",
        "charts",
        "more",
        "pinned_opened",
        "hidden_opened",
        "version",
        "create_time",
        "update_time",
    ];
    proof {
        assert(text::slices(r@) =~= project_columns());
    }
    r
}

/// The columns of an experiment.
pub open spec fn experiment_columns() -> Seq<Seq<char>> {
    seq![
        "id"@,
        "run_id"@,
        "name"@,
        "description"@,
        "sort"@,
        "status"@,
        "show"@,
        "light"@,
        "dark"@,
        "pinned_opened"@,
        "hidden_opened"@,
        "more"@,
        "version"@,
        "create_time"@,
        "finish_time"@,
        "update_time"@,
    ]
}

/// The columns of an experiment.
pub fn experiment_cols() -> (r: Vec<&'static str>)
    ensures
        text::slices(r@) == experiment_columns(),
{
    let r: Vec<&'static str> = vec![
        "id",
        "run_id",
        "name",
        "description",
        "sort",
        "status",
        "show",
        "light",
        "dark",
        "pinned_opened",
        "hidden_opened",
        "more",
        "version",
        "create_time",
        "finish_time",
        "update_time",
    ];
    proof {
        assert(text::slices(r@) =~= experiment_columns());
    }
    r
}

/// The columns of an experiment without its colors and its pinned and hidden groups.
pub open spec fn experiment_brief_columns() -> Seq<Seq<char>> {
    seq![
        "id"@,
        "run_id"@,
        "name"@,
        "description"@,
        "sort"@,
        "status"@,
        "show"@,
        "more"@,
        "version"@,
        "create_time"@,
        "update_time"@,
        "finish_time"@,
    ]
}

/// The columns of an experiment without its colors and its pinned and hidden groups.
pub fn experiment_brief_cols() -> (r: Vec<&'static str>)
    ensures
        text::slices(r@) == experiment_brief_columns(),
{
    let r: Vec<&'static str> = vec![
        "id",
        "run_id",
        "name",
        "description",
        "sort",
        "status",
        "show",
        "more",
        "version",
        "create_time",
        "update_time",
        "finish_time",
    ];
    proof {
        assert(text::slices(r@) =~= experiment_brief_columns());
    }
    r
}

/// The columns of a chart without the keys of its project and experiment.
pub open spec fn chart_columns() -> Seq<Seq<char>> {
    seq![
        "id"@,
        "name"@,
        "description"@,
        "system"@,
        "type"@,
        "reference"@,
        "config"@,
        "status"@,
        "sort"@,
        "more"@,
        "create_time"@,
        "update_time"@,
    ]
}

/// The columns of a chart without the keys of its project and experiment.
pub fn chart_base_cols() -> (r: Vec<&'static str>)
    ensures
        text::slices(r@) == chart_columns(),
{
    let r: Vec<&'static str> = vec![
        "id",
        "name",
        "description",
        "system",
        "type",
        "reference",
        "config",
        "status",
        "sort",
        "more",
        "create_time",
        "update_time",
    ];
    proof {
        assert(text::slices(r@) =~= chart_columns());
    }
    r
}

/// The columns of a namespace without the keys of its project and experiment.
pub open spec fn namespace_columns() -> Seq<Seq<char>> {
    seq![
        "id"@,
        "name"@,
        "description"@,
        "sort"@,
        "opened"@,
        "more"@,
        "create_time"@,
        "update_time"@,
    ]
}

/// The columns of a namespace without the keys of its project and experiment.
pub fn namespace_cols() -> (r: Vec<&'static str>)
    ensures
        text::slices(r@) == namespace_columns(),
{
    let r: Vec<&'static str> = vec![
        "id",
        "name",
        "description",
        "sort",
        "opened",
        "more",
        "create_time",
        "update_time",
    ];
    proof {
        assert(text::slices(r@) =~= namespace_columns());
    }
    r
}

} // verus!
