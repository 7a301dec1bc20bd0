//! What the pages of charts show of their rows.

use vstd::prelude::*;

use crate::charts::{
    self, ChartDataV, ExperimentChartRow, ExperimentRows, NamespaceRow, NamespaceRowV,
    ProjectChartRow, SourceV, StatusRow,
};
use crate::codec;
use crate::json::{self, JsonV};
use crate::placement::{self, NamespaceV};
use crate::record_laws;
use crate::records;
use crate::rows::{self, SqlValue};
use crate::uistate::{self, OverlayV};

verus! {

// ---------------------------------- names ----------------------------------

/// The names of the members of charts and namespaces differ from each other.
pub(crate) proof fn lemma_member_names()
    ensures
        "id"@ != "name"@ && "id"@ != "status"@ && "id"@ != "opened"@ && "id"@ != "charts"@,
        "name"@ != "status"@ && "name"@ != "opened"@ && "name"@ != "charts"@,
        "id"@ != "experiment_id"@ && "id"@ != "project_id"@ && "name"@ != "experiment_id"@
            && "name"@ != "project_id"@,
        "opened"@ != "experiment_id"@ && "opened"@ != "project_id"@ && "opened"@ != "charts"@,
        "experiment_id"@ != "project_id"@ && "experiment_id"@ != "charts"@ && "project_id"@
            != "charts"@,
        "error"@ != "source"@ && "error"@ != "multi"@ && "error"@ != "source_map"@,
        "source"@ != "multi"@ && "source"@ != "source_map"@ && "multi"@ != "source_map"@,
        "project_id"@ != "error"@ && "project_id"@ != "source"@ && "project_id"@ != "multi"@
            && "project_id"@ != "source_map"@,
        "experiment_id"@ != "error"@ && "experiment_id"@ != "source"@ && "experiment_id"@
            != "multi"@ && "experiment_id"@ != "source_map"@,
        "status"@ != "sort"@ && "id"@ != "sort"@,
        "charts"@ != "namespaces"@,
{
    reveal_strlit("id");
    reveal_strlit("name");
    reveal_strlit("status");
    reveal_strlit("opened");
    reveal_strlit("charts");
    reveal_strlit("experiment_id");
    reveal_strlit("project_id");
    reveal_strlit("error");
    reveal_strlit("source");
    reveal_strlit("multi");
    reveal_strlit("source_map");
    reveal_strlit("sort");
    reveal_strlit("namespaces");
    assert("id"@.len() == 2);
    assert("name"@.len() == 4);
    assert("status"@.len() == 6);
    assert("opened"@.len() == 6);
    assert("charts"@.len() == 6);
    assert("experiment_id"@.len() == 13);
    assert("project_id"@.len() == 10);
    assert("error"@.len() == 5);
    assert("source"@.len() == 6);
    assert("multi"@.len() == 5);
    assert("source_map"@.len() == 10);
    assert("sort"@.len() == 4);
    assert("namespaces"@.len() == 10);
    assert("name"@[0] != "sort"@[0]);
    assert("status"@[0] != "opened"@[0]);
    assert("status"@[0] != "charts"@[0]);
    assert("status"@[1] != "source"@[1]);
    assert("opened"@[0] != "charts"@[0]);
    assert("opened"@[0] != "source"@[0]);
    assert("charts"@[0] != "source"@[0]);
    assert("project_id"@[0] != "source_map"@[0]);
    assert("project_id"@[0] != "namespaces"@[0]);
    assert("error"@[0] != "multi"@[0]);
    assert("source_map"@[0] != "namespaces"@[0]);
}

// ---------------------------------- placement ----------------------------------

/// A namespace is shown with the ids of its charts, and all its other members.
pub proof fn law_shown_namespace(n: NamespaceV, key: Seq<char>)
    ensures
        json::field(placement::namespace_json(n), "charts"@) == Some(json::integers(n.charts)),
        key != "charts"@ ==> json::field(placement::namespace_json(n), key) == json::member(
            n.fields,
            key,
        ),
{
    json::lemma_member_set(n.fields, "charts"@, json::integers(n.charts), key);
}

/// What remains of some namespaces followed by others is what remains of the first followed by what
/// remains of the others. Of one namespace its charts remain that no chart moves, in order, and the
/// namespace itself where one remains.
pub proof fn law_remaining_of_namespaces(
    meta: Seq<(i64, i64, i64)>,
    a: Seq<NamespaceV>,
    b: Seq<NamespaceV>,
    n: NamespaceV,
)
    ensures
        placement::remaining(meta, a + b) == placement::remaining(meta, a) + placement::remaining(
            meta,
            b,
        ),
        placement::remaining(meta, Seq::empty()) == Seq::<NamespaceV>::empty(),
        n.charts.filter(placement::stays(meta)).len() == 0 ==> placement::remaining(meta, seq![n])
            == Seq::<NamespaceV>::empty(),
        n.charts.filter(placement::stays(meta)).len() > 0 ==> placement::remaining(meta, seq![n])
            == seq![
            NamespaceV { fields: n.fields, charts: n.charts.filter(placement::stays(meta)) },
        ],
    decreases b.len(),
{
    let one = seq![n];
    assert(one.drop_last() =~= Seq::empty());
    assert(placement::remaining(meta, Seq::empty()) =~= Seq::empty());
    let left = n.charts.filter(placement::stays(meta));
    if left.len() > 0 {
        assert(placement::remaining(meta, one) =~= seq![
            NamespaceV { fields: n.fields, charts: left },
        ]);
    } else {
        assert(placement::remaining(meta, one) =~= Seq::empty());
    }
    if b.len() == 0 {
        assert(a + b =~= a);
        assert(placement::remaining(meta, a + b) =~= placement::remaining(meta, a)
            + placement::remaining(meta, b));
    } else {
        assert((a + b).drop_last() =~= a + b.drop_last());
        law_remaining_of_namespaces(meta, a, b.drop_last(), n);
        assert(placement::remaining(meta, a + b) =~= placement::remaining(meta, a)
            + placement::remaining(meta, b));
    }
}

/// A chart stays in its namespaces exactly where no chart of its id has a status but 0.
pub proof fn law_charts_that_stay(meta: Seq<(i64, i64, i64)>, id: i64, k: int)
    ensures
        0 <= k < meta.len() && meta[k].0 == id && meta[k].1 != 0 ==> !placement::stays(meta)(id),
        (forall|j: int| 0 <= j < meta.len() && (#[trigger] meta[j]).0 == id ==> meta[j].1 == 0)
            ==> placement::stays(meta)(id),
{
}

/// The pinned charts come first, as the namespace -1, where there are any; then the namespaces that
/// remain; and last the hidden charts, as the namespace -2, where there are any. Pinned charts have
/// the status 1, hidden ones -1.
pub proof fn law_namespaces_of_a_page(
    meta: Seq<(i64, i64, i64)>,
    list: Seq<NamespaceV>,
    experiment: JsonV,
    project: JsonV,
    pinned_opened: JsonV,
    hidden_opened: JsonV,
    i: int,
)
    requires
        meta.len() > 0,
        list.len() > 0,
    ensures
        ({
            let pinned = placement::ids_with_status(meta, 1);
            let hidden = placement::ids_with_status(meta, -1);
            let left = placement::remaining(meta, list);
            let shown = placement::pinned_hidden(
                meta,
                list,
                experiment,
                project,
                pinned_opened,
                hidden_opened,
            );
            let first = if pinned.len() > 0 {
                1int
            } else {
                0int
            };
            &&& shown.len() == first + left.len() + if hidden.len() > 0 {
                1int
            } else {
                0int
            }
            &&& 0 <= i < left.len() ==> shown[first + i] == placement::namespace_json(left[i])
            &&& pinned.len() > 0 ==> {
                &&& json::field(shown[0], "id"@) == Some(JsonV::Int(-1))
                &&& json::field(shown[0], "name"@) == Some(JsonV::Str("pinned"@))
                &&& json::field(shown[0], "charts"@) == Some(json::integers(pinned))
                &&& json::field(shown[0], "opened"@) == Some(pinned_opened)
                &&& json::field(shown[0], "experiment_id"@) == Some(experiment)
                &&& json::field(shown[0], "project_id"@) == Some(project)
            }
            &&& hidden.len() > 0 ==> {
                &&& json::field(shown.last(), "id"@) == Some(JsonV::Int(-2))
                &&& json::field(shown.last(), "name"@) == Some(JsonV::Str("hidden"@))
                &&& json::field(shown.last(), "charts"@) == Some(json::integers(hidden))
                &&& json::field(shown.last(), "opened"@) == Some(hidden_opened)
                &&& json::field(shown.last(), "experiment_id"@) == Some(experiment)
                &&& json::field(shown.last(), "project_id"@) == Some(project)
            }
        }),
{
    lemma_member_names();
    let pinned = placement::ids_with_status(meta, 1);
    let hidden = placement::ids_with_status(meta, -1);
    lemma_dynamic(-1, "pinned"@, pinned, pinned_opened, experiment, project);
    lemma_dynamic(-2, "hidden"@, hidden, hidden_opened, experiment, project);
}

proof fn lemma_dynamic(
    id: int,
    name: Seq<char>,
    ids: Seq<i64>,
    opened: JsonV,
    experiment: JsonV,
    project: JsonV,
)
    ensures
        ({
            let d = placement::dynamic(id, name, ids, opened, experiment, project);
            &&& ids.len() == 0 ==> d.len() == 0
            &&& ids.len() > 0 ==> d.len() == 1 && {
                &&& json::field(d[0], "id"@) == Some(JsonV::Int(id))
                &&& json::field(d[0], "name"@) == Some(JsonV::Str(name))
                &&& json::field(d[0], "charts"@) == Some(json::integers(ids))
                &&& json::field(d[0], "opened"@) == Some(opened)
                &&& json::field(d[0], "experiment_id"@) == Some(experiment)
                &&& json::field(d[0], "project_id"@) == Some(project)
            }
        }),
{
    lemma_member_names();
    if ids.len() > 0 {
        let d = placement::dynamic(id, name, ids, opened, experiment, project);
        let o = d[0]->Object_0;
        json::lemma_find_key_is(o, "id"@, 0);
        json::lemma_find_key_is(o, "name"@, 1);
        json::lemma_find_key_is(o, "charts"@, 2);
        json::lemma_find_key_is(o, "opened"@, 3);
        json::lemma_find_key_is(o, "experiment_id"@, 4);
        json::lemma_find_key_is(o, "project_id"@, 5);
    }
}

/// A chart with a status is among the ids of that status.
pub(crate) proof fn lemma_moved(meta: Seq<(i64, i64, i64)>, k: int, status: int)
    requires
        meta.len() <= usize::MAX,
        0 <= k < meta.len(),
    ensures
        meta[k].1 == status ==> {
            let ids = placement::ids_with_status(meta, status);
            ids.len() > 0 && json::integers(ids)->Array_0.contains(JsonV::Int(meta[k].0 as int))
        },
{
    if meta[k].1 == status {
        placement::law_dynamic_shows_its_status(meta, status, meta[k].0);
        let ids = placement::ids_with_status(meta, status);
        let i = choose|i: int| 0 <= i < ids.len() && ids[i] == meta[k].0;
        assert(json::integers(ids)->Array_0[i] == JsonV::Int(meta[k].0 as int));
    }
}

/// Where a page has no charts, or no namespaces, the namespaces are shown as they are.
pub proof fn law_namespaces_without_charts(
    meta: Seq<(i64, i64, i64)>,
    list: Seq<NamespaceV>,
    experiment: JsonV,
    project: JsonV,
    pinned_opened: JsonV,
    hidden_opened: JsonV,
    i: int,
)
    requires
        meta.len() == 0 || list.len() == 0,
    ensures
        ({
            let shown = placement::pinned_hidden(
                meta,
                list,
                experiment,
                project,
                pinned_opened,
                hidden_opened,
            );
            &&& shown.len() == list.len()
            &&& 0 <= i < list.len() ==> shown[i] == placement::namespace_json(list[i])
        }),
{
}

// ---------------------------------- rows ----------------------------------

/// The charts of an experiment come from its rows, in order, with the sources of each in order.
pub proof fn law_rows_of_an_experiment(s: Seq<ExperimentChartRow>, id: i64, k: int, j: int)
    requires
        0 <= k < s.len(),
        0 <= j < s[k].sources@.len(),
    ensures
        ({
            let data = charts::experiment_data(s, id);
            &&& data.len() == s.len()
            &&& data[k].values == s[k].values@
            &&& data[k].sources.len() == s[k].sources@.len()
            &&& data[k].sources[j].name == s[k].sources@[j].name@
            &&& data[k].sources[j].id == id
            &&& data[k].sources[j].error == (match s[k].sources@[j].error {
                Some(e) => charts::source_error(Some(e@)),
                None => None,
            })
        }),
{
}

/// The charts of the project come from its rows, in order, with the sources of each in order, each
/// with the experiment that it belongs to.
pub proof fn law_rows_of_the_project(s: Seq<ProjectChartRow>, k: int, j: int)
    requires
        0 <= k < s.len(),
        0 <= j < s[k].sources@.len(),
    ensures
        ({
            let data = charts::project_data(s);
            &&& data.len() == s.len()
            &&& data[k].values == s[k].values@
            &&& data[k].sources.len() == s[k].sources@.len()
            &&& data[k].sources[j].name == s[k].sources@[j].name@
            &&& data[k].sources[j].id == s[k].sources@[j].id
            &&& data[k].sources[j].error == (match s[k].sources@[j].error {
                Some(e) => charts::source_error(Some(e@)),
                None => None,
            })
        }),
{
}

/// The error of a source is the document of its text; an empty text and one that is no document are
/// no errors.
pub proof fn law_error_of_a_source(e: Seq<char>, v: JsonV)
    ensures
        e.len() > 0 && codec::json_document(e) == Some(v) ==> charts::source_error(Some(e)) == Some(
            v,
        ),
        e.len() == 0 || codec::json_document(e) is None ==> charts::source_error(Some(e)) is None,
        charts::source_error(None) is None,
{
}

/// The namespaces of a page come from their rows, in order, with the charts of each in order.
pub proof fn law_rows_of_namespaces(s: Seq<NamespaceRow>, i: int, j: int)
    requires
        0 <= i < s.len(),
        0 <= j < s[i].charts@.len(),
    ensures
        ({
            let list = charts::namespace_rows_view(s);
            &&& list.len() == s.len()
            &&& list[i].values == s[i].values@
            &&& list[i].charts.len() == s[i].charts@.len()
            &&& list[i].charts[j].0 == s[i].charts@[j].0
            &&& list[i].charts[j].1 == s[i].charts@[j].1@
        }),
{
}

// ---------------------------------- charts ----------------------------------

/// A chart has the id and the sort key of its row. Its status is the one that was set for it, or
/// else that of its row; it has all other members of its row.
pub proof fn law_chart_of_a_row(
    values: Seq<SqlValue>,
    overlay: OverlayV,
    id: i64,
    status: i64,
    sort: i64,
    key: Seq<char>,
)
    requires
        values.len() == rows::chart_columns().len(),
        values[0] == SqlValue::Integer(id),
        values[7] == SqlValue::Integer(status),
        values[8] == SqlValue::Integer(sort),
    ensures
        ({
            let c = charts::base_chart(values, overlay);
            let shown = if overlay.chart_status.contains_key(id) {
                overlay.chart_status[id]
            } else {
                status
            };
            &&& c.id == id
            &&& c.sort == sort
            &&& c.status == shown
            &&& json::member(c.members, "status"@) == Some(JsonV::Int(shown as int))
            &&& key != "status"@ ==> json::member(c.members, key) == json::member(
                rows::row_members(rows::chart_columns(), values),
                key,
            )
        }),
{
    lemma_member_names();
    record_laws::law_chart_columns_are_distinct();
    rows::law_columns_are_read_back(rows::chart_columns(), values, 0);
    rows::law_columns_are_read_back(rows::chart_columns(), values, 7);
    rows::law_columns_are_read_back(rows::chart_columns(), values, 8);
    let o = rows::row_members(rows::chart_columns(), values);
    let c = charts::base_chart(values, overlay);
    json::lemma_member_set(o, "status"@, JsonV::Int(c.status as int), key);
    json::lemma_member_set(o, "status"@, JsonV::Int(c.status as int), "sort"@);
}

/// The map of sources has for each name the id of the last source with that name, and keeps what it
/// had for other names.
pub proof fn law_source_map(o: Seq<(Seq<char>, JsonV)>, s: Seq<SourceV>, k: int, name: Seq<char>)
    ensures
        0 <= k < s.len() && (forall|j: int| k < j < s.len() ==> (#[trigger] s[j]).name != s[k].name)
            ==> json::member(charts::with_sources(o, s), s[k].name) == Some(
            JsonV::Int(s[k].id as int),
        ),
        (forall|j: int| 0 <= j < s.len() ==> (#[trigger] s[j]).name != name) ==> json::member(
            charts::with_sources(o, s),
            name,
        ) == json::member(o, name),
    decreases s.len(),
{
    if s.len() > 0 {
        let t = s.drop_last();
        let n = s.len() - 1;
        law_source_map(o, t, k, name);
        let before = charts::with_sources(o, t);
        let v = JsonV::Int(s.last().id as int);
        json::lemma_member_set(before, s.last().name, v, name);
        if 0 <= k < s.len() {
            json::lemma_member_set(before, s.last().name, v, s[k].name);
            if k < n {
                assert(t[k] == s[k]);
                if forall|j: int| k < j < s.len() ==> (#[trigger] s[j]).name != s[k].name {
                    assert forall|j: int| k < j < t.len() implies (#[trigger] t[j]).name
                        != t[k].name by {
                        assert(t[j] == s[j]);
                    }
                    assert(s[n].name != s[k].name);
                }
            }
        }
        if forall|j: int| 0 <= j < s.len() ==> (#[trigger] s[j]).name != name {
            assert forall|j: int| 0 <= j < t.len() implies (#[trigger] t[j]).name != name by {
                assert(t[j] == s[j]);
            }
            assert(s[n].name != name);
        }
    }
}

/// The errors of a chart have for each name the error of the last source with that name that has
/// one, and nothing where no source with that name has one.
pub proof fn law_errors_of_a_chart(s: Seq<SourceV>, k: int, e: JsonV, name: Seq<char>)
    ensures
        0 <= k < s.len() && s[k].error == Some(e) && (forall|j: int|
            k < j < s.len() ==> (#[trigger] s[j]).name != s[k].name || s[j].error is None)
            ==> json::member(charts::source_errors(s), s[k].name) == Some(e),
        (forall|j: int|
            0 <= j < s.len() ==> (#[trigger] s[j]).name != name || s[j].error is None)
            ==> json::member(charts::source_errors(s), name) is None,
    decreases s.len(),
{
    if s.len() == 0 {
        json::lemma_find_key_is(charts::source_errors(s), name, 0);
    } else {
        let t = s.drop_last();
        let n = s.len() - 1;
        law_errors_of_a_chart(t, k, e, name);
        let before = charts::source_errors(t);
        match s.last().error {
            Some(x) => {
                json::lemma_member_set(before, s.last().name, x, name);
                if 0 <= k < s.len() {
                    json::lemma_member_set(before, s.last().name, x, s[k].name);
                }
            },
            None => {},
        }
        if 0 <= k < n {
            assert(t[k] == s[k]);
            if forall|j: int|
                k < j < s.len() ==> (#[trigger] s[j]).name != s[k].name || s[j].error is None {
                assert forall|j: int| k < j < t.len() implies (#[trigger] t[j]).name != t[k].name
                    || t[j].error is None by {
                    assert(t[j] == s[j]);
                }
                assert(s[n].name != s[k].name || s[n].error is None);
            }
        }
        if forall|j: int|
            0 <= j < s.len() ==> (#[trigger] s[j]).name != name || s[j].error is None {
            assert forall|j: int| 0 <= j < t.len() implies (#[trigger] t[j]).name != name
                || t[j].error is None by {
                assert(t[j] == s[j]);
            }
            assert(s[n].name != name || s[n].error is None);
        }
    }
}

/// A chart of an experiment names all its sources, in order, and shows their map and their errors; it
/// belongs to no project and is no comparison. All else is as the chart of its row has it.
pub proof fn law_chart_of_an_experiment(c: ChartDataV, overlay: OverlayV, key: Seq<char>, j: int)
    ensures
        ({
            let b = charts::base_chart(c.values, overlay);
            let e = charts::experiment_chart(c, overlay);
            &&& e.id == b.id && e.status == b.status && e.sort == b.sort
            &&& json::member(e.members, "project_id"@) == Some(JsonV::Null)
            &&& json::member(e.members, "multi"@) == Some(JsonV::Bool(false))
            &&& json::member(e.members, "error"@) == Some(
                JsonV::Object(charts::source_errors(c.sources)),
            )
            &&& json::member(e.members, "source_map"@) == Some(
                JsonV::Object(charts::with_sources(Seq::empty(), c.sources)),
            )
            &&& json::member(e.members, "source"@) matches Some(JsonV::Array(names)) && {
                &&& names.len() == c.sources.len()
                &&& 0 <= j < names.len() ==> names[j] == JsonV::Str(c.sources[j].name)
            }
            &&& key != "project_id"@ && key != "multi"@ && key != "error"@ && key != "source"@
                && key != "source_map"@ ==> json::member(e.members, key) == json::member(
                b.members,
                key,
            )
        }),
{
    lemma_member_names();
    let b = charts::base_chart(c.values, overlay);
    let v2 = JsonV::Object(charts::source_errors(c.sources));
    let v3 = charts::source_names(c.sources);
    let v5 = JsonV::Object(charts::with_sources(Seq::empty(), c.sources));
    let m1 = json::with_member(b.members, "project_id"@, JsonV::Null);
    let m2 = json::with_member(m1, "error"@, v2);
    let m3 = json::with_member(m2, "source"@, v3);
    let m4 = json::with_member(m3, "multi"@, JsonV::Bool(false));
    json::lemma_member_set(b.members, "project_id"@, JsonV::Null, key);
    json::lemma_member_set(m1, "error"@, v2, key);
    json::lemma_member_set(m1, "error"@, v2, "project_id"@);
    json::lemma_member_set(m2, "source"@, v3, key);
    json::lemma_member_set(m2, "source"@, v3, "project_id"@);
    json::lemma_member_set(m2, "source"@, v3, "error"@);
    json::lemma_member_set(m3, "multi"@, JsonV::Bool(false), key);
    json::lemma_member_set(m3, "multi"@, JsonV::Bool(false), "project_id"@);
    json::lemma_member_set(m3, "multi"@, JsonV::Bool(false), "error"@);
    json::lemma_member_set(m3, "multi"@, JsonV::Bool(false), "source"@);
    json::lemma_member_set(m4, "source_map"@, v5, key);
    json::lemma_member_set(m4, "source_map"@, v5, "project_id"@);
    json::lemma_member_set(m4, "source_map"@, v5, "error"@);
    json::lemma_member_set(m4, "source_map"@, v5, "source"@);
    json::lemma_member_set(m4, "source_map"@, v5, "multi"@);
}

/// A chart of the comparison names all its sources, in order, and shows their errors; it belongs to
/// the project, to no experiment, and is a comparison. All else is as the chart of its row has it.
pub proof fn law_chart_of_the_project(
    c: ChartDataV,
    overlay: OverlayV,
    project: JsonV,
    key: Seq<char>,
    j: int,
)
    ensures
        ({
            let b = charts::base_chart(c.values, overlay);
            let e = charts::project_chart(c, overlay, project);
            &&& e.id == b.id && e.status == b.status && e.sort == b.sort
            &&& json::member(e.members, "experiment_id"@) == Some(JsonV::Null)
            &&& json::member(e.members, "project_id"@) == Some(project)
            &&& json::member(e.members, "multi"@) == Some(JsonV::Bool(true))
            &&& json::member(e.members, "error"@) == Some(
                JsonV::Object(charts::source_errors(c.sources)),
            )
            &&& json::member(e.members, "source"@) matches Some(JsonV::Array(names)) && {
                &&& names.len() == c.sources.len()
                &&& 0 <= j < names.len() ==> names[j] == JsonV::Str(c.sources[j].name)
            }
            &&& key != "experiment_id"@ && key != "project_id"@ && key != "multi"@ && key
                != "error"@ && key != "source"@ ==> json::member(e.members, key) == json::member(
                b.members,
                key,
            )
        }),
{
    lemma_member_names();
    let b = charts::base_chart(c.values, overlay);
    let v3 = JsonV::Object(charts::source_errors(c.sources));
    let v4 = charts::source_names(c.sources);
    let m1 = json::with_member(b.members, "experiment_id"@, JsonV::Null);
    let m2 = json::with_member(m1, "project_id"@, project);
    let m3 = json::with_member(m2, "error"@, v3);
    let m4 = json::with_member(m3, "source"@, v4);
    json::lemma_member_set(b.members, "experiment_id"@, JsonV::Null, key);
    json::lemma_member_set(m1, "project_id"@, project, key);
    json::lemma_member_set(m1, "project_id"@, project, "experiment_id"@);
    json::lemma_member_set(m2, "error"@, v3, key);
    json::lemma_member_set(m2, "error"@, v3, "experiment_id"@);
    json::lemma_member_set(m2, "error"@, v3, "project_id"@);
    json::lemma_member_set(m3, "source"@, v4, key);
    json::lemma_member_set(m3, "source"@, v4, "experiment_id"@);
    json::lemma_member_set(m3, "source"@, v4, "project_id"@);
    json::lemma_member_set(m3, "source"@, v4, "error"@);
    json::lemma_member_set(m4, "multi"@, JsonV::Bool(true), key);
    json::lemma_member_set(m4, "multi"@, JsonV::Bool(true), "experiment_id"@);
    json::lemma_member_set(m4, "multi"@, JsonV::Bool(true), "project_id"@);
    json::lemma_member_set(m4, "multi"@, JsonV::Bool(true), "error"@);
    json::lemma_member_set(m4, "multi"@, JsonV::Bool(true), "source"@);
}

// ---------------------------------- namespaces ----------------------------------

/// The types of charts that the comparison shows.
pub proof fn law_allowed_types(t: Seq<char>)
    ensures
        charts::allowed_type(t) <==> t == "default"@ || t == "line"@ || t == "image"@ || t
            == "audio"@,
{
}

/// The ids of the charts of a namespace stand in their order; where types are filtered, those of
/// charts of other types are left out.
pub proof fn law_ids_of_a_namespace(
    a: Seq<(i64, Seq<char>)>,
    b: Seq<(i64, Seq<char>)>,
    c: (i64, Seq<char>),
    filter_types: bool,
)
    ensures
        charts::namespace_ids(a + b, filter_types) == charts::namespace_ids(a, filter_types)
            + charts::namespace_ids(b, filter_types),
        charts::namespace_ids(Seq::empty(), filter_types) == Seq::<i64>::empty(),
        charts::namespace_ids(seq![c], false) == seq![c.0],
        charts::namespace_ids(seq![c], true) == (if charts::allowed_type(c.1) {
            seq![c.0]
        } else {
            Seq::empty()
        }),
    decreases b.len(),
{
    let one = seq![c];
    assert(one.drop_last() =~= Seq::empty());
    assert(charts::namespace_ids(Seq::empty(), filter_types) =~= Seq::empty());
    assert(charts::namespace_ids(Seq::empty(), true) =~= Seq::empty());
    assert(charts::namespace_ids(Seq::empty(), false) =~= Seq::empty());
    assert(charts::namespace_ids(one, false) =~= seq![c.0]);
    assert(charts::namespace_ids(one, true) =~= (if charts::allowed_type(c.1) {
        seq![c.0]
    } else {
        Seq::empty()
    }));
    if b.len() == 0 {
        assert(a + b =~= a);
        assert(charts::namespace_ids(a + b, filter_types) =~= charts::namespace_ids(a, filter_types)
            + charts::namespace_ids(b, filter_types));
    } else {
        assert((a + b).drop_last() =~= a + b.drop_last());
        law_ids_of_a_namespace(a, b.drop_last(), c, filter_types);
        assert(charts::namespace_ids(a + b, filter_types) =~= charts::namespace_ids(a, filter_types)
            + charts::namespace_ids(b, filter_types));
    }
}

/// Without a filter a namespace has the ids of all its charts.
pub proof fn law_all_ids_of_a_namespace(c: Seq<(i64, Seq<char>)>, i: int)
    ensures
        charts::namespace_ids(c, false).len() == c.len(),
        0 <= i < c.len() ==> charts::namespace_ids(c, false)[i] == c[i].0,
    decreases c.len(),
{
    if c.len() > 0 {
        law_all_ids_of_a_namespace(c.drop_last(), i);
    }
}

/// A namespace is open as it was set or as its row says, has its experiment and its project, and all
/// other members of its row.
pub proof fn law_namespace_of_a_row(
    values: Seq<SqlValue>,
    overlay: OverlayV,
    experiment: JsonV,
    project: JsonV,
    id: i64,
    c: int,
)
    requires
        values.len() == rows::namespace_columns().len(),
        values[0] == SqlValue::Integer(id),
        0 <= c < values.len(),
    ensures
        ({
            let n = charts::namespace_fields(values, overlay, experiment, project);
            &&& json::member(n, "experiment_id"@) == Some(experiment)
            &&& json::member(n, "project_id"@) == Some(project)
            &&& overlay.namespace_opened.contains_key(id) ==> json::member(n, "opened"@) == Some(
                JsonV::Int(overlay.namespace_opened[id] as int),
            )
            &&& c != 4 || !overlay.namespace_opened.contains_key(id) ==> json::member(
                n,
                rows::namespace_columns()[c],
            ) == Some(rows::sql_json(values[c]))
        }),
{
    lemma_member_names();
    let cols = rows::namespace_columns();
    record_laws::law_namespace_columns_are_distinct();
    rows::law_columns_are_read_back(cols, values, 0);
    rows::law_columns_are_read_back(cols, values, 4);
    rows::law_columns_are_read_back(cols, values, c);
    lemma_namespace_columns(c);
    let row = rows::row_members(cols, values);
    let m = overlay.namespace_opened;
    record_laws::law_overlaid_member(row, "opened"@, m, id, cols[c]);
    let o1 = uistate::overlaid_member(row, "opened"@, m, id);
    let o2 = json::with_member(o1, "experiment_id"@, experiment);
    json::lemma_member_set(o1, "experiment_id"@, experiment, cols[c]);
    json::lemma_member_set(o1, "experiment_id"@, experiment, "opened"@);
    json::lemma_member_set(o2, "project_id"@, project, cols[c]);
    json::lemma_member_set(o2, "project_id"@, project, "opened"@);
    json::lemma_member_set(o2, "project_id"@, project, "experiment_id"@);
    if c != 4 {
        assert(cols[c] != cols[4]);
    }
}

proof fn lemma_namespace_columns(c: int)
    requires
        0 <= c < rows::namespace_columns().len(),
    ensures
        rows::namespace_columns()[c] != "experiment_id"@,
        rows::namespace_columns()[c] != "project_id"@,
        rows::namespace_columns()[c] != "charts"@,
{
    reveal_strlit("id");
    reveal_strlit("name");
    reveal_strlit("description");
    reveal_strlit("sort");
    reveal_strlit("opened");
    reveal_strlit("more");
    reveal_strlit("create_time");
    reveal_strlit("update_time");
    reveal_strlit("experiment_id");
    reveal_strlit("project_id");
    reveal_strlit("charts");
    assert("id"@.len() == 2);
    assert("name"@.len() == 4);
    assert("description"@.len() == 11);
    assert("sort"@.len() == 4);
    assert("opened"@.len() == 6);
    assert("more"@.len() == 4);
    assert("create_time"@.len() == 11);
    assert("update_time"@.len() == 11);
    assert("experiment_id"@.len() == 13);
    assert("project_id"@.len() == 10);
    assert("charts"@.len() == 6);
    assert("name"@[0] != "sort"@[0]);
    assert("name"@[0] != "more"@[0]);
    assert("description"@[0] != "create_time"@[0]);
    assert("description"@[0] != "update_time"@[0]);
    assert("sort"@[0] != "more"@[0]);
    assert("opened"@[0] != "charts"@[0]);
    assert("create_time"@[0] != "update_time"@[0]);
}

/// An experiment has a namespace for each of its rows, in order, with all charts of the row in order.
pub proof fn law_namespaces_of_an_experiment(
    list: Seq<NamespaceRowV>,
    overlay: OverlayV,
    experiment: JsonV,
    i: int,
    j: int,
)
    requires
        0 <= i < list.len(),
    ensures
        ({
            let made = charts::experiment_namespaces(list, overlay, experiment);
            &&& made.len() == list.len()
            &&& made[i].fields == charts::namespace_fields(
                list[i].values,
                overlay,
                experiment,
                JsonV::Null,
            )
            &&& made[i].charts.len() == list[i].charts.len()
            &&& 0 <= j < list[i].charts.len() ==> made[i].charts[j] == list[i].charts[j].0
        }),
{
    law_all_ids_of_a_namespace(list[i].charts, j);
}

// ---------------------------------- the page of an experiment ----------------------------------

/// The page of an experiment has one chart for each row, in order.
pub proof fn law_page_has_every_chart(
    id: i64,
    experiment: Seq<SqlValue>,
    project: Seq<SqlValue>,
    data: Seq<ChartDataV>,
    namespaces: Seq<NamespaceRowV>,
    overlay: OverlayV,
    k: int,
)
    ensures
        ({
            let shown = charts::experiment_lists(
                id,
                experiment,
                project,
                data,
                namespaces,
                overlay,
            ).0;
            &&& shown.len() == data.len()
            &&& 0 <= k < data.len() ==> shown[k] == JsonV::Object(
                charts::experiment_chart(data[k], overlay).members,
            )
        }),
{
}

/// Where every chart has the status 0, the page of an experiment shows exactly one namespace for each
/// row that has charts, in the order of the rows, with the id and the name of the row and its charts
/// in their order.
pub proof fn law_every_namespace_is_shown(
    id: i64,
    experiment: Seq<SqlValue>,
    project: Seq<SqlValue>,
    data: Seq<ChartDataV>,
    namespaces: Seq<NamespaceRowV>,
    overlay: OverlayV,
    i: int,
)
    requires
        data.len() <= usize::MAX,
        forall|k: int|
            0 <= k < data.len() ==> charts::base_chart(
                (#[trigger] data[k]).values,
                overlay,
            ).status == 0,
        forall|k: int| 0 <= k < namespaces.len() ==> (#[trigger] namespaces[k]).charts.len() > 0,
        0 <= i < namespaces.len(),
        namespaces[i].values.len() == rows::namespace_columns().len(),
        namespaces[i].values[0] is Integer,
    ensures
        ({
            let shown = charts::experiment_lists(
                id,
                experiment,
                project,
                data,
                namespaces,
                overlay,
            ).1;
            &&& shown.len() == namespaces.len()
            &&& json::field(shown[i], "id"@) == Some(rows::sql_json(namespaces[i].values[0]))
            &&& json::field(shown[i], "name"@) == Some(rows::sql_json(namespaces[i].values[1]))
            &&& json::field(shown[i], "charts"@) matches Some(JsonV::Array(ids)) && {
                &&& ids.len() == namespaces[i].charts.len()
                &&& forall|j: int|
                    0 <= j < ids.len() ==> #[trigger] ids[j] == JsonV::Int(
                        namespaces[i].charts[j].0 as int,
                    )
            }
        }),
{
    let nested = records::without_charts(records::project_json(project));
    let exp = records::experiment_json(experiment, nested);
    let list = charts::experiment_list(data, overlay);
    let meta = charts::chart_meta(list);
    let spaces = charts::experiment_namespaces(namespaces, overlay, exp);
    assert forall|k: int| 0 <= k < meta.len() implies (#[trigger] meta[k]).1 == 0 by {
        law_chart_of_an_experiment(data[k], overlay, "id"@, 0);
        assert(meta[k].1 == charts::base_chart(data[k].values, overlay).status);
    }
    assert forall|k: int| 0 <= k < spaces.len() implies (#[trigger] spaces[k]).charts.len() > 0 by {
        law_all_ids_of_a_namespace(namespaces[k].charts, 0);
    }
    placement::law_all_normal_is_no_op(
        meta,
        spaces,
        exp,
        JsonV::Null,
        uistate::overridden(
            overlay.experiment_pinned_opened,
            id,
            json::value_or(json::field(exp, "pinned_opened"@), JsonV::Int(1)),
        ),
        uistate::overridden(
            overlay.experiment_hidden_opened,
            id,
            json::value_or(json::field(exp, "hidden_opened"@), JsonV::Int(0)),
        ),
    );
    let shown = charts::experiment_lists(id, experiment, project, data, namespaces, overlay).1;
    assert(shown == placement::namespaces_json(spaces));
    assert(shown[i] == placement::namespace_json(spaces[i]));
    lemma_shown_row(namespaces[i], overlay, exp, JsonV::Null, spaces[i]);
    law_all_ids_of_a_namespace(namespaces[i].charts, 0);
    let ids = json::integers(spaces[i].charts)->Array_0;
    assert forall|j: int| 0 <= j < ids.len() implies #[trigger] ids[j] == JsonV::Int(
        namespaces[i].charts[j].0 as int,
    ) by {
        law_all_ids_of_a_namespace(namespaces[i].charts, j);
    }
}

pub(crate) proof fn lemma_shown_row(
    row: NamespaceRowV,
    overlay: OverlayV,
    experiment: JsonV,
    project: JsonV,
    n: NamespaceV,
)
    requires
        row.values.len() == rows::namespace_columns().len(),
        row.values[0] is Integer,
        n.fields == charts::namespace_fields(row.values, overlay, experiment, project),
    ensures
        json::field(placement::namespace_json(n), "id"@) == Some(rows::sql_json(row.values[0])),
        json::field(placement::namespace_json(n), "name"@) == Some(rows::sql_json(row.values[1])),
        json::field(placement::namespace_json(n), "charts"@) == Some(json::integers(n.charts)),
{
    lemma_member_names();
    record_laws::law_namespace_columns_are_distinct();
    let id = row.values[0]->Integer_0;
    law_namespace_of_a_row(row.values, overlay, experiment, project, id, 0);
    law_namespace_of_a_row(row.values, overlay, experiment, project, id, 1);
    law_shown_namespace(n, "id"@);
    law_shown_namespace(n, "name"@);
}

/// Every chart of a row that is neither pinned nor hidden, nor has any status but 0, is in a namespace
/// that the page shows, under the id and the name of the row.
pub proof fn law_every_normal_chart_is_in_its_namespace(
    id: i64,
    experiment: Seq<SqlValue>,
    project: Seq<SqlValue>,
    data: Seq<ChartDataV>,
    namespaces: Seq<NamespaceRowV>,
    overlay: OverlayV,
    i: int,
    j: int,
)
    requires
        0 <= i < namespaces.len(),
        namespaces[i].values.len() == rows::namespace_columns().len(),
        namespaces[i].values[0] is Integer,
        0 <= j < namespaces[i].charts.len(),
        forall|k: int|
            0 <= k < data.len() ==> {
                let b = charts::base_chart((#[trigger] data[k]).values, overlay);
                b.id == namespaces[i].charts[j].0 ==> b.status == 0
            },
    ensures
        ({
            let shown = charts::experiment_lists(
                id,
                experiment,
                project,
                data,
                namespaces,
                overlay,
            ).1;
            exists|n: int|
                {
                    &&& 0 <= n < shown.len()
                    &&& json::field(#[trigger] shown[n], "id"@) == Some(
                        rows::sql_json(namespaces[i].values[0]),
                    )
                    &&& json::field(shown[n], "name"@) == Some(
                        rows::sql_json(namespaces[i].values[1]),
                    )
                    &&& json::field(shown[n], "charts"@) matches Some(JsonV::Array(ids))
                        && ids.contains(JsonV::Int(namespaces[i].charts[j].0 as int))
                }
        }),
{
    let cid = namespaces[i].charts[j].0;
    let nested = records::without_charts(records::project_json(project));
    let exp = records::experiment_json(experiment, nested);
    let list = charts::experiment_list(data, overlay);
    let meta = charts::chart_meta(list);
    let spaces = charts::experiment_namespaces(namespaces, overlay, exp);
    let pinned_opened = uistate::overridden(
        overlay.experiment_pinned_opened,
        id,
        json::value_or(json::field(exp, "pinned_opened"@), JsonV::Int(1)),
    );
    let hidden_opened = uistate::overridden(
        overlay.experiment_hidden_opened,
        id,
        json::value_or(json::field(exp, "hidden_opened"@), JsonV::Int(0)),
    );
    let shown = charts::experiment_lists(id, experiment, project, data, namespaces, overlay).1;
    law_all_ids_of_a_namespace(namespaces[i].charts, j);
    assert(spaces[i].charts[j] == cid);
    assert(spaces[i].charts.contains(cid));
    if meta.len() == 0 {
        law_namespaces_without_charts(
            meta,
            spaces,
            exp,
            JsonV::Null,
            pinned_opened,
            hidden_opened,
            i,
        );
        lemma_shown_row(namespaces[i], overlay, exp, JsonV::Null, spaces[i]);
        let ids = json::integers(spaces[i].charts)->Array_0;
        assert(ids[j] == JsonV::Int(cid as int));
        assert(shown[i] == placement::namespace_json(spaces[i]));
    } else {
        assert forall|k: int| 0 <= k < meta.len() && (#[trigger] meta[k]).0 == cid implies meta[k].1
            == 0 by {
            law_chart_of_an_experiment(data[k], overlay, "id"@, 0);
            let b = charts::base_chart(data[k].values, overlay);
            assert(meta[k].0 == b.id && meta[k].1 == b.status);
        }
        assert(!placement::is_moved(meta, cid));
        placement::law_normal_charts_stay(meta, spaces, i, cid);
        let left = placement::remaining(meta, spaces);
        let m = choose|m: int|
            0 <= m < left.len() && (#[trigger] left[m]).fields == spaces[i].fields
                && left[m].charts.contains(cid);
        law_namespaces_of_a_page(
            meta,
            spaces,
            exp,
            JsonV::Null,
            pinned_opened,
            hidden_opened,
            m,
        );
        let first = if placement::ids_with_status(meta, 1).len() > 0 {
            1int
        } else {
            0int
        };
        lemma_shown_row(namespaces[i], overlay, exp, JsonV::Null, left[m]);
        let u = choose|u: int| 0 <= u < left[m].charts.len() && left[m].charts[u] == cid;
        let ids = json::integers(left[m].charts)->Array_0;
        assert(ids[u] == JsonV::Int(cid as int));
        assert(shown[first + m] == placement::namespace_json(left[m]));
    }
}

/// The experiment on a page has all columns of its row, and its project; the project within has all
/// columns of its row but its number of charts, which is null.
pub proof fn law_experiment_within_a_page(
    experiment: Seq<SqlValue>,
    project: Seq<SqlValue>,
    c: int,
    d: int,
)
    requires
        0 <= c < rows::experiment_columns().len(),
        0 <= d < rows::project_columns().len(),
    ensures
        ({
            let nested = records::without_charts(records::project_json(project));
            let exp = records::experiment_json(experiment, nested);
            &&& json::field(exp, rows::experiment_columns()[c]) == Some(
                rows::sql_json(experiment[c]),
            )
            &&& json::field(exp, "project_id"@) == Some(nested)
            &&& json::field(nested, "charts"@) == Some(JsonV::Null)
            &&& d != 4 ==> json::field(nested, rows::project_columns()[d]) == Some(
                rows::sql_json(project[d]),
            )
        }),
{
    record_laws::law_experiment_columns_are_distinct();
    record_laws::law_project_columns_are_distinct();
    rows::law_columns_are_read_back(rows::experiment_columns(), experiment, c);
    rows::law_columns_are_read_back(rows::project_columns(), project, d);
    let o = rows::row_members(rows::project_columns(), project);
    json::lemma_member_set(o, "charts"@, JsonV::Null, rows::project_columns()[d]);
    let nested = records::without_charts(records::project_json(project));
    lemma_project_id_is_no_column();
    assert(rows::experiment_columns().contains(rows::experiment_columns()[c]));
    json::lemma_member_set(
        rows::row_members(rows::experiment_columns(), experiment),
        "project_id"@,
        nested,
        rows::experiment_columns()[c],
    );
    if d != 4 {
        assert(rows::project_columns()[d] != rows::project_columns()[4]);
    }
}

proof fn lemma_project_id_is_no_column()
    ensures
        !rows::experiment_columns().contains("project_id"@),
{
    reveal_strlit("id");
    reveal_strlit("run_id");
    reveal_strlit("name");
    reveal_strlit("description");
    reveal_strlit("sort");
    reveal_strlit("status");
    reveal_strlit("show");
    reveal_strlit("light");
    reveal_strlit("dark");
    reveal_strlit("pinned_opened");
    reveal_strlit("hidden_opened");
    reveal_strlit("more");
    reveal_strlit("version");
    reveal_strlit("create_time");
    reveal_strlit("finish_time");
    reveal_strlit("update_time");
    reveal_strlit("project_id");
    assert("id"@.len() == 2);
    assert("run_id"@.len() == 6);
    assert("name"@.len() == 4);
    assert("description"@.len() == 11);
    assert("sort"@.len() == 4);
    assert("status"@.len() == 6);
    assert("show"@.len() == 4);
    assert("light"@.len() == 5);
    assert("dark"@.len() == 4);
    assert("pinned_opened"@.len() == 13);
    assert("hidden_opened"@.len() == 13);
    assert("more"@.len() == 4);
    assert("version"@.len() == 7);
    assert("create_time"@.len() == 11);
    assert("finish_time"@.len() == 11);
    assert("update_time"@.len() == 11);
    assert("project_id"@.len() == 10);
    assert("run_id"@[0] != "status"@[0]);
    assert("name"@[0] != "sort"@[0]);
    assert("name"@[0] != "show"@[0]);
    assert("name"@[0] != "dark"@[0]);
    assert("name"@[0] != "more"@[0]);
    assert("description"@[0] != "create_time"@[0]);
    assert("description"@[0] != "finish_time"@[0]);
    assert("description"@[0] != "update_time"@[0]);
    assert("sort"@[1] != "show"@[1]);
    assert("sort"@[0] != "dark"@[0]);
    assert("sort"@[0] != "more"@[0]);
    assert("show"@[0] != "dark"@[0]);
    assert("show"@[0] != "more"@[0]);
    assert("dark"@[0] != "more"@[0]);
    assert("pinned_opened"@[0] != "hidden_opened"@[0]);
    assert("create_time"@[0] != "finish_time"@[0]);
    assert("create_time"@[0] != "update_time"@[0]);
    assert("finish_time"@[0] != "update_time"@[0]);
    let cols = rows::experiment_columns();
    assert forall|i: int| 0 <= i < cols.len() implies cols[i] != "project_id"@ by {}
}

/// A pinned chart of an experiment is in the first namespace of its page, a hidden one in the last,
/// and these are open as it was set for the experiment or as its row says.
pub proof fn law_moved_charts_of_an_experiment(
    id: i64,
    experiment: Seq<SqlValue>,
    project: Seq<SqlValue>,
    data: Seq<ChartDataV>,
    namespaces: Seq<NamespaceRowV>,
    overlay: OverlayV,
    k: int,
)
    requires
        experiment.len() == rows::experiment_columns().len(),
        data.len() <= usize::MAX,
        0 <= k < data.len(),
        namespaces.len() > 0,
    ensures
        ({
            let b = charts::base_chart(data[k].values, overlay);
            let shown = charts::experiment_lists(
                id,
                experiment,
                project,
                data,
                namespaces,
                overlay,
            ).1;
            &&& b.status == 1 ==> {
                &&& json::field(shown[0], "id"@) == Some(JsonV::Int(-1))
                &&& json::field(shown[0], "opened"@) == Some(
                    if overlay.experiment_pinned_opened.contains_key(id) {
                        JsonV::Int(overlay.experiment_pinned_opened[id] as int)
                    } else {
                        rows::sql_json(experiment[9])
                    },
                )
                &&& json::field(shown[0], "charts"@) matches Some(JsonV::Array(ids))
                    && ids.contains(JsonV::Int(b.id as int))
            }
            &&& b.status == -1 ==> {
                &&& json::field(shown.last(), "id"@) == Some(JsonV::Int(-2))
                &&& json::field(shown.last(), "opened"@) == Some(
                    if overlay.experiment_hidden_opened.contains_key(id) {
                        JsonV::Int(overlay.experiment_hidden_opened[id] as int)
                    } else {
                        rows::sql_json(experiment[10])
                    },
                )
                &&& json::field(shown.last(), "charts"@) matches Some(JsonV::Array(ids))
                    && ids.contains(JsonV::Int(b.id as int))
            }
        }),
{
    let nested = records::without_charts(records::project_json(project));
    let exp = records::experiment_json(experiment, nested);
    let list = charts::experiment_list(data, overlay);
    let meta = charts::chart_meta(list);
    let spaces = charts::experiment_namespaces(namespaces, overlay, exp);
    record_laws::law_experiment_columns_are_distinct();
    record_laws::law_project_columns_are_distinct();
    law_experiment_within_a_page(experiment, project, 9, 0);
    law_experiment_within_a_page(experiment, project, 10, 0);
    law_chart_of_an_experiment(data[k], overlay, "id"@, 0);
    let b = charts::base_chart(data[k].values, overlay);
    assert(meta[k].0 == b.id && meta[k].1 == b.status);
    law_namespaces_of_a_page(
        meta,
        spaces,
        exp,
        JsonV::Null,
        uistate::overridden(
            overlay.experiment_pinned_opened,
            id,
            rows::sql_json(experiment[9]),
        ),
        uistate::overridden(
            overlay.experiment_hidden_opened,
            id,
            rows::sql_json(experiment[10]),
        ),
        0,
    );
    lemma_moved(meta, k, 1);
    lemma_moved(meta, k, -1);
}

/// The page of an experiment is made from its rows; there is none where the experiment does not
/// exist, and it fails where there is no project.
pub proof fn law_outcome_of_an_experiment(id: i64, r: ExperimentRows, overlay: OverlayV)
    ensures
        r.experiment is None ==> charts::outcome_payload(charts::rows_outcome(id, r, overlay)) == Ok::<
            Option<JsonV>,
            records::DbError,
        >(None),
        r.experiment is Some && r.project is None ==> charts::outcome_payload(
            charts::rows_outcome(id, r, overlay),
        ) == Err::<Option<JsonV>, records::DbError>(records::DbError::ProjectNotFound),
        r.experiment is Some && r.project is Some ==> charts::outcome_payload(
            charts::rows_outcome(id, r, overlay),
        ) == Ok::<Option<JsonV>, records::DbError>(
            Some(
                charts::charts_payload(
                    charts::experiment_lists(
                        id,
                        r.experiment->0@,
                        r.project->0@,
                        charts::experiment_data(r.charts@, id),
                        charts::namespace_rows_view(r.namespaces@),
                        overlay,
                    ),
                ),
            ),
        ),
{
}

/// The payload of a page has its charts and its namespaces.
pub proof fn law_payload(l: (Seq<JsonV>, Seq<JsonV>))
    ensures
        json::field(charts::charts_payload(l), "charts"@) == Some(JsonV::Array(l.0)),
        json::field(charts::charts_payload(l), "namespaces"@) == Some(JsonV::Array(l.1)),
{
    lemma_member_names();
    let o = charts::charts_payload(l)->Object_0;
    json::lemma_find_key_is(o, "charts"@, 0);
    json::lemma_find_key_is(o, "namespaces"@, 1);
}

/// The status page of an experiment has its status, its times and its charts.
pub proof fn law_status_page(s: StatusRow, l: (Seq<JsonV>, Seq<JsonV>))
    ensures
        ({
            let page = charts::status_payload(s, l);
            &&& json::field(page, "status"@) == Some(JsonV::Int(s.status as int))
            &&& json::field(page, "update_time"@) == Some(JsonV::Str(s.update_time@))
            &&& json::field(page, "finish_time"@) == Some(
                match s.finish_time {
                    Some(t) => JsonV::Str(t@),
                    None => JsonV::Null,
                },
            )
            &&& json::field(page, "charts"@) == Some(charts::charts_payload(l))
        }),
{
    reveal_strlit("status");
    reveal_strlit("update_time");
    reveal_strlit("finish_time");
    reveal_strlit("charts");
    assert("status"@.len() == 6);
    assert("update_time"@.len() == 11);
    assert("finish_time"@.len() == 11);
    assert("charts"@.len() == 6);
    assert("status"@[0] != "charts"@[0]);
    assert("update_time"@[0] != "finish_time"@[0]);
    let o = charts::status_payload(s, l)->Object_0;
    json::lemma_find_key_is(o, "status"@, 0);
    json::lemma_find_key_is(o, "update_time"@, 1);
    json::lemma_find_key_is(o, "finish_time"@, 2);
    json::lemma_find_key_is(o, "charts"@, 3);
}

} // verus!
