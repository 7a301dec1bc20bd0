//! What holds of every page of the project and of its experiments.

use vstd::prelude::*;

use crate::codec;
use crate::json::{self, JsonV};
use crate::records::{self, ExperimentConfigV, ExperimentFiles};
use crate::rows::{self, SqlValue};
use crate::text;
use crate::uistate::{self, OverlayV};

verus! {

// ---------------------------------- columns ----------------------------------

/// No two columns of the project have one name, so each is shown under its own.
pub proof fn law_project_columns_are_distinct()
    ensures
        rows::project_columns().no_duplicates(),
        rows::project_columns().len() == 11,
        rows::project_columns()[0] == "id"@,
        rows::project_columns()[1] == "name"@,
        rows::project_columns()[2] == "description"@,
        rows::project_columns()[3] == "sum"@,
        rows::project_columns()[4] == "charts"@,
        rows::project_columns()[5] == "more"@,
        rows::project_columns()[6] == "pinned_opened"@,
        rows::project_columns()[7] == "hidden_opened"@,
        rows::project_columns()[8] == "version"@,
        rows::project_columns()[9] == "create_time"@,
        rows::project_columns()[10] == "update_time"@,
{
    reveal_strlit("id");
    reveal_strlit("name");
    reveal_strlit("description");
    reveal_strlit("sum");
    reveal_strlit("charts");
    reveal_strlit("more");
    reveal_strlit("pinned_opened");
    reveal_strlit("hidden_opened");
    reveal_strlit("version");
    reveal_strlit("create_time");
    reveal_strlit("update_time");
    assert("id"@.len() == 2);
    assert("name"@.len() == 4);
    assert("description"@.len() == 11);
    assert("sum"@.len() == 3);
    assert("charts"@.len() == 6);
    assert("more"@.len() == 4);
    assert("pinned_opened"@.len() == 13);
    assert("hidden_opened"@.len() == 13);
    assert("version"@.len() == 7);
    assert("create_time"@.len() == 11);
    assert("update_time"@.len() == 11);
    assert("name"@[0] != "more"@[0]);
    assert("description"@[0] != "create_time"@[0]);
    assert("description"@[0] != "update_time"@[0]);
    assert("pinned_opened"@[0] != "hidden_opened"@[0]);
    assert("create_time"@[0] != "update_time"@[0]);
    let cols = rows::project_columns();
    assert forall|i: int, j: int| 0 <= i < cols.len() && 0 <= j < cols.len() && i
        != j implies cols[i] != cols[j] by {}
}

/// No two columns of an experiment have one name, so each is shown under its own.
pub proof fn law_experiment_columns_are_distinct()
    ensures
        rows::experiment_columns().no_duplicates(),
        rows::experiment_columns().len() == 16,
        rows::experiment_columns()[0] == "id"@,
        rows::experiment_columns()[1] == "run_id"@,
        rows::experiment_columns()[2] == "name"@,
        rows::experiment_columns()[3] == "description"@,
        rows::experiment_columns()[4] == "sort"@,
        rows::experiment_columns()[5] == "status"@,
        rows::experiment_columns()[6] == "show"@,
        rows::experiment_columns()[7] == "light"@,
        rows::experiment_columns()[8] == "dark"@,
        rows::experiment_columns()[9] == "pinned_opened"@,
        rows::experiment_columns()[10] == "hidden_opened"@,
        rows::experiment_columns()[11] == "more"@,
        rows::experiment_columns()[12] == "version"@,
        rows::experiment_columns()[13] == "create_time"@,
        rows::experiment_columns()[14] == "finish_time"@,
        rows::experiment_columns()[15] == "update_time"@,
{
    reveal_strlit("id");
    reveal_strlit("run_id");
    reveal_strlit("name");
    reveal_strlit("description");
    reveal_strlit("sort");
    reveal_strlit("status");
    reveal_strlit("show");
    reveal_strlit("light");
    reveal_strlit("dark");
    reveal_strlit("pinned_opened");
    reveal_strlit("hidden_opened");
    reveal_strlit("more");
    reveal_strlit("version");
    reveal_strlit("create_time");
    reveal_strlit("finish_time");
    reveal_strlit("update_time");
    assert("id"@.len() == 2);
    assert("run_id"@.len() == 6);
    assert("name"@.len() == 4);
    assert("description"@.len() == 11);
    assert("sort"@.len() == 4);
    assert("status"@.len() == 6);
    assert("show"@.len() == 4);
    assert("light"@.len() == 5);
    assert("dark"@.len() == 4);
    assert("pinned_opened"@.len() == 13);
    assert("hidden_opened"@.len() == 13);
    assert("more"@.len() == 4);
    assert("version"@.len() == 7);
    assert("create_time"@.len() == 11);
    assert("finish_time"@.len() == 11);
    assert("update_time"@.len() == 11);
    assert("run_id"@[0] != "status"@[0]);
    assert("name"@[0] != "sort"@[0]);
    assert("name"@[0] != "show"@[0]);
    assert("name"@[0] != "dark"@[0]);
    assert("name"@[0] != "more"@[0]);
    assert("description"@[0] != "create_time"@[0]);
    assert("description"@[0] != "finish_time"@[0]);
    assert("description"@[0] != "update_time"@[0]);
    assert("sort"@[1] != "show"@[1]);
    assert("sort"@[0] != "dark"@[0]);
    assert("sort"@[0] != "more"@[0]);
    assert("show"@[0] != "dark"@[0]);
    assert("show"@[0] != "more"@[0]);
    assert("dark"@[0] != "more"@[0]);
    assert("pinned_opened"@[0] != "hidden_opened"@[0]);
    assert("create_time"@[0] != "finish_time"@[0]);
    assert("create_time"@[0] != "update_time"@[0]);
    assert("finish_time"@[0] != "update_time"@[0]);
    let cols = rows::experiment_columns();
    assert forall|i: int, j: int| 0 <= i < cols.len() && 0 <= j < cols.len() && i
        != j implies cols[i] != cols[j] by {}
}

/// No two columns of an experiment on its own page have one name, so each is shown under its own.
pub proof fn law_experiment_brief_columns_are_distinct()
    ensures
        rows::experiment_brief_columns().no_duplicates(),
        rows::experiment_brief_columns().len() == 12,
        rows::experiment_brief_columns()[0] == "id"@,
        rows::experiment_brief_columns()[1] == "run_id"@,
        rows::experiment_brief_columns()[2] == "name"@,
        rows::experiment_brief_columns()[3] == "description"@,
        rows::experiment_brief_columns()[4] == "sort"@,
        rows::experiment_brief_columns()[5] == "status"@,
        rows::experiment_brief_columns()[6] == "show"@,
        rows::experiment_brief_columns()[7] == "more"@,
        rows::experiment_brief_columns()[8] == "version"@,
        rows::experiment_brief_columns()[9] == "create_time"@,
        rows::experiment_brief_columns()[10] == "update_time"@,
        rows::experiment_brief_columns()[11] == "finish_time"@,
{
    reveal_strlit("id");
    reveal_strlit("run_id");
    reveal_strlit("name");
    reveal_strlit("description");
    reveal_strlit("sort");
    reveal_strlit("status");
    reveal_strlit("show");
    reveal_strlit("more");
    reveal_strlit("version");
    reveal_strlit("create_time");
    reveal_strlit("update_time");
    reveal_strlit("finish_time");
    assert("id"@.len() == 2);
    assert("run_id"@.len() == 6);
    assert("name"@.len() == 4);
    assert("description"@.len() == 11);
    assert("sort"@.len() == 4);
    assert("status"@.len() == 6);
    assert("show"@.len() == 4);
    assert("more"@.len() == 4);
    assert("version"@.len() == 7);
    assert("create_time"@.len() == 11);
    assert("update_time"@.len() == 11);
    assert("finish_time"@.len() == 11);
    assert("run_id"@[0] != "status"@[0]);
    assert("name"@[0] != "sort"@[0]);
    assert("name"@[0] != "show"@[0]);
    assert("name"@[0] != "more"@[0]);
    assert("description"@[0] != "create_time"@[0]);
    assert("description"@[0] != "update_time"@[0]);
    assert("description"@[0] != "finish_time"@[0]);
    assert("sort"@[1] != "show"@[1]);
    assert("sort"@[0] != "more"@[0]);
    assert("show"@[0] != "more"@[0]);
    assert("create_time"@[0] != "update_time"@[0]);
    assert("create_time"@[0] != "finish_time"@[0]);
    assert("update_time"@[0] != "finish_time"@[0]);
    let cols = rows::experiment_brief_columns();
    assert forall|i: int, j: int| 0 <= i < cols.len() && 0 <= j < cols.len() && i
        != j implies cols[i] != cols[j] by {}
}

/// No two columns of a chart have one name, so each is shown under its own.
pub proof fn law_chart_columns_are_distinct()
    ensures
        rows::chart_columns().no_duplicates(),
        rows::chart_columns().len() == 12,
        rows::chart_columns()[0] == "id"@,
        rows::chart_columns()[1] == "name"@,
        rows::chart_columns()[2] == "description"@,
        rows::chart_columns()[3] == "system"@,
        rows::chart_columns()[4] == "type"@,
        rows::chart_columns()[5] == "reference"@,
        rows::chart_columns()[6] == "config"@,
        rows::chart_columns()[7] == "status"@,
        rows::chart_columns()[8] == "sort"@,
        rows::chart_columns()[9] == "more"@,
        rows::chart_columns()[10] == "create_time"@,
        rows::chart_columns()[11] == "update_time"@,
{
    reveal_strlit("id");
    reveal_strlit("name");
    reveal_strlit("description");
    reveal_strlit("system");
    reveal_strlit("type");
    reveal_strlit("reference");
    reveal_strlit("config");
    reveal_strlit("status");
    reveal_strlit("sort");
    reveal_strlit("more");
    reveal_strlit("create_time");
    reveal_strlit("update_time");
    assert("id"@.len() == 2);
    assert("name"@.len() == 4);
    assert("description"@.len() == 11);
    assert("system"@.len() == 6);
    assert("type"@.len() == 4);
    assert("reference"@.len() == 9);
    assert("config"@.len() == 6);
    assert("status"@.len() == 6);
    assert("sort"@.len() == 4);
    assert("more"@.len() == 4);
    assert("create_time"@.len() == 11);
    assert("update_time"@.len() == 11);
    assert("name"@[0] != "type"@[0]);
    assert("name"@[0] != "sort"@[0]);
    assert("name"@[0] != "more"@[0]);
    assert("description"@[0] != "create_time"@[0]);
    assert("description"@[0] != "update_time"@[0]);
    assert("system"@[0] != "config"@[0]);
    assert("system"@[1] != "status"@[1]);
    assert("type"@[0] != "sort"@[0]);
    assert("type"@[0] != "more"@[0]);
    assert("config"@[0] != "status"@[0]);
    assert("sort"@[0] != "more"@[0]);
    assert("create_time"@[0] != "update_time"@[0]);
    let cols = rows::chart_columns();
    assert forall|i: int, j: int| 0 <= i < cols.len() && 0 <= j < cols.len() && i
        != j implies cols[i] != cols[j] by {}
}

/// No two columns of a namespace have one name, so each is shown under its own.
pub proof fn law_namespace_columns_are_distinct()
    ensures
        rows::namespace_columns().no_duplicates(),
        rows::namespace_columns().len() == 8,
        rows::namespace_columns()[0] == "id"@,
        rows::namespace_columns()[1] == "name"@,
        rows::namespace_columns()[2] == "description"@,
        rows::namespace_columns()[3] == "sort"@,
        rows::namespace_columns()[4] == "opened"@,
        rows::namespace_columns()[5] == "more"@,
        rows::namespace_columns()[6] == "create_time"@,
        rows::namespace_columns()[7] == "update_time"@,
{
    reveal_strlit("id");
    reveal_strlit("name");
    reveal_strlit("description");
    reveal_strlit("sort");
    reveal_strlit("opened");
    reveal_strlit("more");
    reveal_strlit("create_time");
    reveal_strlit("update_time");
    assert("id"@.len() == 2);
    assert("name"@.len() == 4);
    assert("description"@.len() == 11);
    assert("sort"@.len() == 4);
    assert("opened"@.len() == 6);
    assert("more"@.len() == 4);
    assert("create_time"@.len() == 11);
    assert("update_time"@.len() == 11);
    assert("name"@[0] != "sort"@[0]);
    assert("name"@[0] != "more"@[0]);
    assert("description"@[0] != "create_time"@[0]);
    assert("description"@[0] != "update_time"@[0]);
    assert("sort"@[0] != "more"@[0]);
    assert("create_time"@[0] != "update_time"@[0]);
    let cols = rows::namespace_columns();
    assert forall|i: int, j: int| 0 <= i < cols.len() && 0 <= j < cols.len() && i
        != j implies cols[i] != cols[j] by {}
}

/// What a column holds in JSON: integers and texts as they are, a double where it is finite, and null
/// for nothing.
pub proof fn law_column_values(i: i64, bits: u64, bytes: Vec<u8>)
    ensures
        rows::sql_json(SqlValue::Null) == JsonV::Null,
        rows::sql_json(SqlValue::Integer(i)) == JsonV::Int(i as int),
        rows::sql_json(SqlValue::Text(bytes)) == JsonV::Str(codec::utf8_lossy(bytes@)),
        rows::sql_json(SqlValue::Blob(bytes)) == JsonV::Str(codec::utf8_lossy(bytes@)),
        (bits / 0x10_0000_0000_0000) % 0x800 != 0x7ff ==> rows::sql_json(SqlValue::Real(bits))
            == JsonV::Real(bits),
        (bits / 0x10_0000_0000_0000) % 0x800 == 0x7ff ==> rows::sql_json(SqlValue::Real(bits))
            == JsonV::Null,
{
}

/// The object of a row has no members but its columns.
pub proof fn law_rows_have_only_their_columns(
    cols: Seq<Seq<char>>,
    row: Seq<SqlValue>,
    key: Seq<char>,
)
    requires
        !cols.contains(key),
    ensures
        json::member(rows::row_members(cols, row), key) is None,
    decreases cols.len(),
{
    if cols.len() == 0 {
        json::lemma_find_key_is(rows::row_members(cols, row), key, 0);
    } else {
        let t = cols.drop_last();
        assert(cols[cols.len() - 1] == cols.last());
        assert forall|i: int| 0 <= i < t.len() implies t[i] != key by {
            assert(t[i] == cols[i]);
        }
        law_rows_have_only_their_columns(t, row, key);
        json::lemma_member_set(
            rows::row_members(t, row),
            cols.last(),
            rows::sql_json(row[cols.len() - 1]),
            key,
        );
    }
}

// ---------------------------------- overrides ----------------------------------

/// An override takes the place of a member that is there, and changes no other; without one the
/// object stays as it is.
pub proof fn law_overlaid_member(
    o: Seq<(Seq<char>, JsonV)>,
    key: Seq<char>,
    m: Map<i64, i64>,
    id: i64,
    other: Seq<char>,
)
    ensures
        m.contains_key(id) && json::member(o, key) is Some ==> json::member(
            uistate::overlaid_member(o, key, m, id),
            key,
        ) == Some(JsonV::Int(m[id] as int)),
        !m.contains_key(id) || json::member(o, key) is None ==> json::member(
            uistate::overlaid_member(o, key, m, id),
            key,
        ) == json::member(o, key),
        other != key ==> json::member(uistate::overlaid_member(o, key, m, id), other)
            == json::member(o, other),
{
    match json::member(o, key) {
        Some(v) => {
            json::lemma_member_set(o, key, uistate::overridden(m, id, v), other);
        },
        None => {},
    }
}

// ---------------------------------- documents ----------------------------------

/// The configuration of a run is what its YAML document says, null where the text is none; without a
/// file there is none.
pub proof fn law_config(s: Seq<char>, v: JsonV)
    ensures
        codec::yaml_document(s) == Some(v) ==> records::config_of(Some(s)) == Some(v),
        codec::yaml_document(s) is None ==> records::config_of(Some(s)) == Some(JsonV::Null),
        records::config_of(None) is None,
{
}

/// The metadata of a run is what its JSON document says, and an empty object where there is no
/// document, no text but white space, or no file.
pub proof fn law_metadata(s: Seq<char>, v: JsonV)
    ensures
        codec::json_document(s) == Some(v) && text::trimmed(s).len() > 0 ==> records::meta_of(
            Some(s),
        ) == v,
        codec::json_document(s) is None || text::trimmed(s).len() == 0 ==> records::meta_of(Some(s))
            == JsonV::Object(Seq::empty()),
        records::meta_of(None) == JsonV::Object(Seq::empty()),
{
}

/// The experiments of the project page are those of the rows, in order, each with its configuration.
pub proof fn law_files_of_experiments(files: Seq<ExperimentFiles>, i: int)
    requires
        0 <= i < files.len(),
    ensures
        records::files_view(files).len() == files.len(),
        records::files_view(files)[i].values == files[i].values@,
        records::files_view(files)[i].config == (match files[i].config {
            Some(s) => match codec::yaml_document(s@) {
                Some(v) => Some(v),
                None => Some(JsonV::Null),
            },
            None => None,
        }),
{
}

// ---------------------------------- the project ----------------------------------

proof fn lemma_project_extras()
    ensures
        "logdir"@ != "experiments"@,
        "logdir"@ != "colors"@,
        "experiments"@ != "colors"@,
{
    reveal_strlit("logdir");
    reveal_strlit("experiments");
    reveal_strlit("colors");
    assert("logdir"@[0] != "colors"@[0]);
    assert("experiments"@.len() != "colors"@.len());
    assert("experiments"@.len() != "logdir"@.len());
}

/// The page of the project lists every experiment, in order; it has the log directory and the
/// colors, and all else as the row of the project has it.
pub proof fn law_project_page(
    project: Seq<SqlValue>,
    logdir: Seq<char>,
    experiments: Seq<ExperimentConfigV>,
    overlay: OverlayV,
    i: int,
    key: Seq<char>,
)
    ensures
        ({
            let page = records::project_view(project, logdir, experiments, overlay);
            &&& json::field(page, "logdir"@) == Some(JsonV::Str(logdir))
            &&& json::field(page, "colors"@) == Some(records::colors())
            &&& json::field(page, "experiments"@) matches Some(JsonV::Array(list)) && {
                &&& list.len() == experiments.len()
                &&& 0 <= i < list.len() ==> list[i] == records::listed_experiment(
                    experiments[i],
                    overlay,
                )
            }
            &&& key != "logdir"@ && key != "experiments"@ && key != "colors"@ ==> json::field(
                page,
                key,
            ) == json::member(rows::row_members(rows::project_columns(), project), key)
        }),
{
    lemma_project_extras();
    let o = rows::row_members(rows::project_columns(), project);
    let a = JsonV::Str(logdir);
    let b = JsonV::Array(
        experiments.map_values(
            |e: ExperimentConfigV| records::listed_experiment(e, overlay),
        ),
    );
    let c = records::colors();
    let o1 = json::with_member(o, "logdir"@, a);
    let o2 = json::with_member(o1, "experiments"@, b);
    json::lemma_member_set(o, "logdir"@, a, key);
    json::lemma_member_set(o1, "experiments"@, b, key);
    json::lemma_member_set(o1, "experiments"@, b, "logdir"@);
    json::lemma_member_set(o2, "colors"@, c, key);
    json::lemma_member_set(o2, "colors"@, c, "logdir"@);
    json::lemma_member_set(o2, "colors"@, c, "experiments"@);
}

/// Every column of the project is shown on its page.
pub proof fn law_project_columns_are_shown(
    project: Seq<SqlValue>,
    logdir: Seq<char>,
    experiments: Seq<ExperimentConfigV>,
    overlay: OverlayV,
    c: int,
)
    requires
        0 <= c < rows::project_columns().len(),
    ensures
        json::field(
            records::project_view(project, logdir, experiments, overlay),
            rows::project_columns()[c],
        ) == Some(rows::sql_json(project[c])),
{
    law_project_columns_are_distinct();
    rows::law_columns_are_read_back(rows::project_columns(), project, c);
    lemma_extras_are_no_columns();
    law_project_page(project, logdir, experiments, overlay, 0, rows::project_columns()[c]);
}

proof fn lemma_extras_are_no_columns()
    ensures
        !rows::project_columns().contains("logdir"@),
        !rows::project_columns().contains("experiments"@),
        !rows::project_columns().contains("colors"@),
{
    reveal_strlit("id");
    reveal_strlit("name");
    reveal_strlit("description");
    reveal_strlit("sum");
    reveal_strlit("charts");
    reveal_strlit("more");
    reveal_strlit("pinned_opened");
    reveal_strlit("hidden_opened");
    reveal_strlit("version");
    reveal_strlit("create_time");
    reveal_strlit("update_time");
    reveal_strlit("logdir");
    reveal_strlit("experiments");
    reveal_strlit("colors");
    assert("id"@.len() == 2);
    assert("name"@.len() == 4);
    assert("description"@.len() == 11);
    assert("sum"@.len() == 3);
    assert("charts"@.len() == 6);
    assert("more"@.len() == 4);
    assert("pinned_opened"@.len() == 13);
    assert("hidden_opened"@.len() == 13);
    assert("version"@.len() == 7);
    assert("create_time"@.len() == 11);
    assert("update_time"@.len() == 11);
    assert("logdir"@.len() == 6);
    assert("experiments"@.len() == 11);
    assert("colors"@.len() == 6);
    assert("name"@[0] != "more"@[0]);
    assert("description"@[0] != "create_time"@[0]);
    assert("description"@[0] != "update_time"@[0]);
    assert("description"@[0] != "experiments"@[0]);
    assert("charts"@[0] != "logdir"@[0]);
    assert("charts"@[1] != "colors"@[1]);
    assert("pinned_opened"@[0] != "hidden_opened"@[0]);
    assert("create_time"@[0] != "update_time"@[0]);
    assert("create_time"@[0] != "experiments"@[0]);
    assert("update_time"@[0] != "experiments"@[0]);
    assert("logdir"@[0] != "colors"@[0]);
    let cols = rows::project_columns();
    assert forall|i: int| 0 <= i < cols.len() implies cols[i] != "logdir"@ by {}
    assert forall|i: int| 0 <= i < cols.len() implies cols[i] != "experiments"@ by {}
    assert forall|i: int| 0 <= i < cols.len() implies cols[i] != "colors"@ by {}
}

/// In the list of the project an experiment has its id twice, its configuration where there is one,
/// and whether it is shown as it was set or as its row says; all else is as its row has it.
pub proof fn law_listed_experiment(
    e: ExperimentConfigV,
    overlay: OverlayV,
    id: i64,
    key: Seq<char>,
    c: JsonV,
)
    requires
        e.values.len() == rows::experiment_columns().len(),
        e.values[0] == SqlValue::Integer(id),
    ensures
        ({
            let row = rows::row_members(rows::experiment_columns(), e.values);
            let page = records::listed_experiment(e, overlay);
            &&& json::field(page, "id"@) == Some(JsonV::Int(id as int))
            &&& json::field(page, "experiment_id"@) == Some(JsonV::Int(id as int))
            &&& e.config == Some(c) ==> json::field(page, "config"@) == Some(c)
            &&& e.config is None ==> json::field(page, "config"@) is None
            &&& overlay.experiment_show.contains_key(id) ==> json::field(page, "show"@) == Some(
                JsonV::Int(overlay.experiment_show[id] as int),
            )
            &&& !overlay.experiment_show.contains_key(id) ==> json::field(page, "show"@) == Some(
                rows::sql_json(e.values[6]),
            )
            &&& key != "experiment_id"@ && key != "config"@ && key != "show"@ ==> json::field(
                page,
                key,
            ) == json::member(row, key)
        }),
{
    law_experiment_columns_are_distinct();
    rows::law_columns_are_read_back(rows::experiment_columns(), e.values, 0);
    rows::law_columns_are_read_back(rows::experiment_columns(), e.values, 6);
    lemma_listed_extras();
    let row = rows::row_members(rows::experiment_columns(), e.values);
    law_rows_have_only_their_columns(rows::experiment_columns(), e.values, "config"@);
    law_rows_have_only_their_columns(rows::experiment_columns(), e.values, "experiment_id"@);
    let v = JsonV::Int(id as int);
    let o1 = json::with_member(row, "experiment_id"@, v);
    json::lemma_member_set(row, "experiment_id"@, v, key);
    json::lemma_member_set(row, "experiment_id"@, v, "id"@);
    json::lemma_member_set(row, "experiment_id"@, v, "show"@);
    json::lemma_member_set(row, "experiment_id"@, v, "config"@);
    let m = overlay.experiment_show;
    law_overlaid_member(o1, "show"@, m, id, key);
    law_overlaid_member(o1, "show"@, m, id, "id"@);
    law_overlaid_member(o1, "show"@, m, id, "experiment_id"@);
    law_overlaid_member(o1, "show"@, m, id, "config"@);
    let o2 = uistate::overlaid_member(o1, "show"@, m, id);
    match e.config {
        Some(x) => {
            json::lemma_member_set(o2, "config"@, x, key);
            json::lemma_member_set(o2, "config"@, x, "id"@);
            json::lemma_member_set(o2, "config"@, x, "show"@);
            json::lemma_member_set(o2, "config"@, x, "experiment_id"@);
        },
        None => {},
    }
}

proof fn lemma_listed_extras()
    ensures
        !rows::experiment_columns().contains("experiment_id"@),
        !rows::experiment_columns().contains("config"@),
        "id"@ != "experiment_id"@ && "id"@ != "config"@ && "id"@ != "show"@,
        "show"@ != "experiment_id"@ && "show"@ != "config"@,
        "experiment_id"@ != "config"@,
{
    reveal_strlit("id");
    reveal_strlit("run_id");
    reveal_strlit("name");
    reveal_strlit("description");
    reveal_strlit("sort");
    reveal_strlit("status");
    reveal_strlit("show");
    reveal_strlit("light");
    reveal_strlit("dark");
    reveal_strlit("pinned_opened");
    reveal_strlit("hidden_opened");
    reveal_strlit("more");
    reveal_strlit("version");
    reveal_strlit("create_time");
    reveal_strlit("finish_time");
    reveal_strlit("update_time");
    reveal_strlit("experiment_id");
    reveal_strlit("config");
    assert("id"@.len() == 2);
    assert("run_id"@.len() == 6);
    assert("name"@.len() == 4);
    assert("description"@.len() == 11);
    assert("sort"@.len() == 4);
    assert("status"@.len() == 6);
    assert("show"@.len() == 4);
    assert("light"@.len() == 5);
    assert("dark"@.len() == 4);
    assert("pinned_opened"@.len() == 13);
    assert("hidden_opened"@.len() == 13);
    assert("more"@.len() == 4);
    assert("version"@.len() == 7);
    assert("create_time"@.len() == 11);
    assert("finish_time"@.len() == 11);
    assert("update_time"@.len() == 11);
    assert("experiment_id"@.len() == 13);
    assert("config"@.len() == 6);
    assert("run_id"@[0] != "status"@[0]);
    assert("run_id"@[0] != "config"@[0]);
    assert("name"@[0] != "sort"@[0]);
    assert("name"@[0] != "show"@[0]);
    assert("name"@[0] != "dark"@[0]);
    assert("name"@[0] != "more"@[0]);
    assert("description"@[0] != "create_time"@[0]);
    assert("description"@[0] != "finish_time"@[0]);
    assert("description"@[0] != "update_time"@[0]);
    assert("sort"@[1] != "show"@[1]);
    assert("sort"@[0] != "dark"@[0]);
    assert("sort"@[0] != "more"@[0]);
    assert("status"@[0] != "config"@[0]);
    assert("show"@[0] != "dark"@[0]);
    assert("show"@[0] != "more"@[0]);
    assert("dark"@[0] != "more"@[0]);
    assert("pinned_opened"@[0] != "hidden_opened"@[0]);
    assert("pinned_opened"@[0] != "experiment_id"@[0]);
    assert("hidden_opened"@[0] != "experiment_id"@[0]);
    assert("create_time"@[0] != "finish_time"@[0]);
    assert("create_time"@[0] != "update_time"@[0]);
    assert("finish_time"@[0] != "update_time"@[0]);
    let cols = rows::experiment_columns();
    assert forall|i: int| 0 <= i < cols.len() implies cols[i] != "experiment_id"@ by {}
    assert forall|i: int| 0 <= i < cols.len() implies cols[i] != "config"@ by {}
}

// ---------------------------------- one experiment ----------------------------------

/// The page of an experiment has its metadata, its configuration where there is one, and whether it
/// is shown as it was set or as its row says; all else is as its row has it.
pub proof fn law_experiment_page(
    values: Seq<SqlValue>,
    id: i64,
    config: Option<JsonV>,
    system: JsonV,
    overlay: OverlayV,
    key: Seq<char>,
    c: JsonV,
)
    requires
        values.len() == rows::experiment_brief_columns().len(),
    ensures
        ({
            let row = rows::row_members(rows::experiment_brief_columns(), values);
            let page = records::experiment_view(values, id, config, system, overlay);
            &&& json::field(page, "system"@) == Some(system)
            &&& config == Some(c) ==> json::field(page, "config"@) == Some(c)
            &&& config is None ==> json::field(page, "config"@) is None
            &&& overlay.experiment_show.contains_key(id) ==> json::field(page, "show"@) == Some(
                JsonV::Int(overlay.experiment_show[id] as int),
            )
            &&& !overlay.experiment_show.contains_key(id) ==> json::field(page, "show"@) == Some(
                rows::sql_json(values[6]),
            )
            &&& key != "system"@ && key != "config"@ && key != "show"@ ==> json::field(page, key)
                == json::member(row, key)
        }),
{
    law_experiment_brief_columns_are_distinct();
    rows::law_columns_are_read_back(rows::experiment_brief_columns(), values, 6);
    lemma_page_extras();
    let row = rows::row_members(rows::experiment_brief_columns(), values);
    law_rows_have_only_their_columns(rows::experiment_brief_columns(), values, "config"@);
    let m = overlay.experiment_show;
    law_overlaid_member(row, "show"@, m, id, key);
    law_overlaid_member(row, "show"@, m, id, "config"@);
    let o1 = uistate::overlaid_member(row, "show"@, m, id);
    match config {
        Some(x) => {
            json::lemma_member_set(o1, "config"@, x, key);
            json::lemma_member_set(o1, "config"@, x, "show"@);
        },
        None => {},
    }
    let o2 = records::with_config(o1, config);
    json::lemma_member_set(o2, "system"@, system, key);
    json::lemma_member_set(o2, "system"@, system, "show"@);
    json::lemma_member_set(o2, "system"@, system, "config"@);
}

proof fn lemma_page_extras()
    ensures
        !rows::experiment_brief_columns().contains("system"@),
        !rows::experiment_brief_columns().contains("config"@),
        "system"@ != "config"@ && "system"@ != "show"@ && "config"@ != "show"@,
{
    reveal_strlit("id");
    reveal_strlit("run_id");
    reveal_strlit("name");
    reveal_strlit("description");
    reveal_strlit("sort");
    reveal_strlit("status");
    reveal_strlit("show");
    reveal_strlit("more");
    reveal_strlit("version");
    reveal_strlit("create_time");
    reveal_strlit("update_time");
    reveal_strlit("finish_time");
    reveal_strlit("system");
    reveal_strlit("config");
    assert("id"@.len() == 2);
    assert("run_id"@.len() == 6);
    assert("name"@.len() == 4);
    assert("description"@.len() == 11);
    assert("sort"@.len() == 4);
    assert("status"@.len() == 6);
    assert("show"@.len() == 4);
    assert("more"@.len() == 4);
    assert("version"@.len() == 7);
    assert("create_time"@.len() == 11);
    assert("update_time"@.len() == 11);
    assert("finish_time"@.len() == 11);
    assert("system"@.len() == 6);
    assert("config"@.len() == 6);
    assert("run_id"@[0] != "status"@[0]);
    assert("run_id"@[0] != "system"@[0]);
    assert("run_id"@[0] != "config"@[0]);
    assert("name"@[0] != "sort"@[0]);
    assert("name"@[0] != "show"@[0]);
    assert("name"@[0] != "more"@[0]);
    assert("description"@[0] != "create_time"@[0]);
    assert("description"@[0] != "update_time"@[0]);
    assert("description"@[0] != "finish_time"@[0]);
    assert("sort"@[1] != "show"@[1]);
    assert("sort"@[0] != "more"@[0]);
    assert("status"@[1] != "system"@[1]);
    assert("status"@[0] != "config"@[0]);
    assert("show"@[0] != "more"@[0]);
    assert("create_time"@[0] != "update_time"@[0]);
    assert("create_time"@[0] != "finish_time"@[0]);
    assert("update_time"@[0] != "finish_time"@[0]);
    assert("system"@[0] != "config"@[0]);
    let cols = rows::experiment_brief_columns();
    assert forall|i: int| 0 <= i < cols.len() implies cols[i] != "system"@ by {}
    assert forall|i: int| 0 <= i < cols.len() implies cols[i] != "config"@ by {}
}

proof fn lemma_picked(
    start: Seq<(Seq<char>, JsonV)>,
    o: Seq<(Seq<char>, JsonV)>,
    names: Seq<Seq<char>>,
    key: Seq<char>,
)
    ensures
        names.contains(key) ==> json::member(records::with_picked(start, o, names), key) == Some(
            json::value_or(json::member(o, key), JsonV::Null),
        ),
        !names.contains(key) ==> json::member(records::with_picked(start, o, names), key)
            == json::member(start, key),
    decreases names.len(),
{
    if names.len() > 0 {
        let t = names.drop_last();
        lemma_picked(start, o, t, key);
        json::lemma_member_set(
            records::with_picked(start, o, t),
            names.last(),
            json::value_or(json::member(o, names.last()), JsonV::Null),
            key,
        );
        assert(names[names.len() - 1] == names.last());
        if names.contains(key) && names.last() != key {
            let k = choose|k: int| 0 <= k < names.len() && names[k] == key;
            assert(t[k] == key);
        }
        if t.contains(key) {
            let k = choose|k: int| 0 <= k < t.len() && t[k] == key;
            assert(names[k] == key);
        }
    }
}

/// The experiment that answers a change has its project, all columns of its row, and whether it is
/// shown as it was set or as its row says.
pub proof fn law_experiment_of_an_answer(
    values: Seq<SqlValue>,
    id: i64,
    project: JsonV,
    overlay: OverlayV,
    c: int,
)
    requires
        values.len() == rows::experiment_brief_columns().len(),
        0 <= c < values.len(),
    ensures
        ({
            let made = records::experiment_dict_view(values, id, project, overlay);
            &&& json::field(made, "project_id"@) == Some(project)
            &&& overlay.experiment_show.contains_key(id) ==> json::field(made, "show"@) == Some(
                JsonV::Int(overlay.experiment_show[id] as int),
            )
            &&& c != 6 || !overlay.experiment_show.contains_key(id) ==> json::field(
                made,
                rows::experiment_brief_columns()[c],
            ) == Some(rows::sql_json(values[c]))
        }),
{
    let cols = rows::experiment_brief_columns();
    law_experiment_brief_columns_are_distinct();
    rows::law_columns_are_read_back(cols, values, c);
    rows::law_columns_are_read_back(cols, values, 6);
    rows::law_columns_are_read_back(cols, values, 0);
    lemma_answer_extras();
    let row = rows::row_members(cols, values);
    let m = overlay.experiment_show;
    law_overlaid_member(row, "show"@, m, id, cols[c]);
    let o1 = uistate::overlaid_member(row, "show"@, m, id);
    let idv = json::value_or(json::member(o1, "id"@), JsonV::Null);
    let first = json::with_member(Seq::empty(), "id"@, idv);
    json::lemma_member_set(Seq::empty(), "id"@, idv, "id"@);
    json::lemma_member_set(first, "project_id"@, project, "id"@);
    json::lemma_member_set(first, "project_id"@, project, "project_id"@);
    let second = json::with_member(first, "project_id"@, project);
    let names = cols.drop_first();
    lemma_picked(second, o1, names, "project_id"@);
    lemma_picked(second, o1, names, "show"@);
    lemma_picked(second, o1, names, cols[c]);
    assert(names[5] == "show"@);
    if names.contains("project_id"@) {
        let k = choose|k: int| 0 <= k < names.len() && names[k] == "project_id"@;
        assert(cols[k + 1] == "project_id"@);
    }
    if c > 0 {
        assert(names[c - 1] == cols[c]);
        if c != 6 {
            assert(cols[c] != cols[6]);
        }
    } else {
        if names.contains("id"@) {
            let k = choose|k: int| 0 <= k < names.len() && names[k] == "id"@;
            assert(cols[k + 1] == cols[0]);
        }
        assert(cols[0] != cols[6]);
    }
}

proof fn lemma_answer_extras()
    ensures
        !rows::experiment_brief_columns().contains("project_id"@),
        "id"@ != "project_id"@,
{
    reveal_strlit("id");
    reveal_strlit("run_id");
    reveal_strlit("name");
    reveal_strlit("description");
    reveal_strlit("sort");
    reveal_strlit("status");
    reveal_strlit("show");
    reveal_strlit("more");
    reveal_strlit("version");
    reveal_strlit("create_time");
    reveal_strlit("update_time");
    reveal_strlit("finish_time");
    reveal_strlit("project_id");
    assert("id"@.len() == 2);
    assert("run_id"@.len() == 6);
    assert("name"@.len() == 4);
    assert("description"@.len() == 11);
    assert("sort"@.len() == 4);
    assert("status"@.len() == 6);
    assert("show"@.len() == 4);
    assert("more"@.len() == 4);
    assert("version"@.len() == 7);
    assert("create_time"@.len() == 11);
    assert("update_time"@.len() == 11);
    assert("finish_time"@.len() == 11);
    assert("project_id"@.len() == 10);
    assert("run_id"@[0] != "status"@[0]);
    assert("name"@[0] != "sort"@[0]);
    assert("name"@[0] != "show"@[0]);
    assert("name"@[0] != "more"@[0]);
    assert("description"@[0] != "create_time"@[0]);
    assert("description"@[0] != "update_time"@[0]);
    assert("description"@[0] != "finish_time"@[0]);
    assert("sort"@[1] != "show"@[1]);
    assert("sort"@[0] != "more"@[0]);
    assert("show"@[0] != "more"@[0]);
    assert("create_time"@[0] != "update_time"@[0]);
    assert("create_time"@[0] != "finish_time"@[0]);
    assert("update_time"@[0] != "finish_time"@[0]);
    let cols = rows::experiment_brief_columns();
    assert forall|i: int| 0 <= i < cols.len() implies cols[i] != "project_id"@ by {}
}

// ---------------------------------- runs ----------------------------------

/// A run id gives the row of the first experiment that has it, and nothing where none has.
pub proof fn law_id_of_a_run(experiments: Seq<(String, i64)>, run_id: Seq<char>, n: int)
    requires
        0 <= n <= experiments.len(),
        forall|j: int| 0 <= j < n ==> (#[trigger] experiments[j]).0@ != run_id,
    ensures
        n < experiments.len() && experiments[n].0@ == run_id ==> records::id_of_run(
            experiments,
            run_id,
        ) == Some(experiments[n].1),
        n == experiments.len() ==> records::id_of_run(experiments, run_id) is None,
{
    records::lemma_run_place(experiments, run_id);
    if n < experiments.len() && experiments[n].0@ == run_id {
        let m = records::run_place(experiments, run_id);
        if m < n {
            assert(experiments[m].0@ == run_id);
        }
    }
}

/// The rows of some run ids followed by others are those of the first followed by those of the
/// others; a run id that no experiment has gives none.
pub proof fn law_ids_of_runs(
    a: Seq<Seq<char>>,
    b: Seq<Seq<char>>,
    run_id: Seq<char>,
    experiments: Seq<(String, i64)>,
)
    ensures
        records::ids_of_runs(a + b, experiments) == records::ids_of_runs(a, experiments)
            + records::ids_of_runs(b, experiments),
        records::ids_of_runs(Seq::empty(), experiments) == Seq::<i64>::empty(),
        records::ids_of_runs(seq![run_id], experiments) == (match records::id_of_run(
            experiments,
            run_id,
        ) {
            Some(id) => seq![id],
            None => Seq::empty(),
        }),
    decreases b.len(),
{
    assert(seq![run_id].drop_last() =~= Seq::empty());
    assert(records::ids_of_runs(Seq::empty(), experiments) =~= Seq::empty());
    assert(records::ids_of_runs(seq![run_id], experiments) =~= (match records::id_of_run(
        experiments,
        run_id,
    ) {
        Some(id) => seq![id],
        None => Seq::empty(),
    }));
    if b.len() == 0 {
        assert(a + b =~= a);
        assert(records::ids_of_runs(a + b, experiments) =~= records::ids_of_runs(a, experiments)
            + records::ids_of_runs(b, experiments));
    } else {
        assert((a + b).drop_last() =~= a + b.drop_last());
        law_ids_of_runs(a, b.drop_last(), run_id, experiments);
        assert(records::ids_of_runs(a + b, experiments) =~= records::ids_of_runs(a, experiments)
            + records::ids_of_runs(b, experiments));
    }
}

} // verus!
