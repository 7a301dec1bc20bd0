//! What holds of every chart page.

use vstd::prelude::*;

use crate::charts::{self, ChartDataV, ChartV, NamespaceRowV};
use crate::comparisons;
use crate::json::{self, JsonV};
use crate::placement;
use crate::records::{self, ExperimentConfigV};
use crate::rows::{self, SqlValue};
use crate::seqs;
use crate::uistate::{self, OverlayV};

verus! {

// ---------------------------------- the empty overlay ----------------------------------

proof fn lemma_empty_member_override(o: Seq<(Seq<char>, JsonV)>, key: Seq<char>, id: i64)
    ensures
        uistate::overlaid_member(o, key, Map::empty(), id) == o,
{
    json::lemma_find_key(o, key);
    if json::member(o, key) is Some {
        let v = json::member(o, key)->0;
        assert(json::with_member(o, key, v) =~= o);
    }
}

/// Without overrides a chart has the members of its row, and its status is the one there.
pub proof fn law_empty_overlay_keeps_charts(values: Seq<SqlValue>)
    ensures
        ({
            let o = rows::row_members(rows::chart_columns(), values);
            let c = charts::base_chart(values, uistate::empty_overlay());
            c.members == o && c.status == json::int_at(JsonV::Object(o), "status"@, 0) as i64
        }),
{
}

/// Without overrides a namespace has the `opened` of its row.
pub proof fn law_empty_overlay_keeps_namespaces(
    values: Seq<SqlValue>,
    experiment: JsonV,
    project: JsonV,
)
    ensures
        charts::namespace_fields(values, uistate::empty_overlay(), experiment, project)
            == json::with_member(
            json::with_member(
                rows::row_members(rows::namespace_columns(), values),
                "experiment_id"@,
                experiment,
            ),
            "project_id"@,
            project,
        ),
{
    let o = rows::row_members(rows::namespace_columns(), values);
    let id = json::int_at(JsonV::Object(o), "id"@, 0) as i64;
    lemma_empty_member_override(o, "opened"@, id);
}

/// Without overrides an experiment has the `show` of its row, on every page.
pub proof fn law_empty_overlay_keeps_experiments(
    e: ExperimentConfigV,
    id: i64,
    config: Option<JsonV>,
    system: JsonV,
    project: JsonV,
)
    ensures
        ({
            let o = rows::row_members(rows::experiment_columns(), e.values);
            let row_id = json::int_at(JsonV::Object(o), "id"@, 0) as i64;
            records::listed_experiment(e, uistate::empty_overlay()) == JsonV::Object(
                records::with_config(
                    json::with_member(o, "experiment_id"@, JsonV::Int(row_id as int)),
                    e.config,
                ),
            )
        }),
        records::experiment_view(e.values, id, config, system, uistate::empty_overlay())
            == JsonV::Object(
            json::with_member(
                records::with_config(
                    rows::row_members(rows::experiment_brief_columns(), e.values),
                    config,
                ),
                "system"@,
                system,
            ),
        ),
        ({
            let o = rows::row_members(rows::experiment_brief_columns(), e.values);
            records::experiment_dict_view(e.values, id, project, uistate::empty_overlay())
                == JsonV::Object(
                records::with_picked(
                    json::with_member(
                        json::with_member(
                            Seq::empty(),
                            "id"@,
                            json::value_or(json::member(o, "id"@), JsonV::Null),
                        ),
                        "project_id"@,
                        project,
                    ),
                    o,
                    rows::experiment_brief_columns().drop_first(),
                ),
            )
        }),
{
    let o = rows::row_members(rows::experiment_columns(), e.values);
    let row_id = json::int_at(JsonV::Object(o), "id"@, 0) as i64;
    lemma_empty_member_override(
        json::with_member(o, "experiment_id"@, JsonV::Int(row_id as int)),
        "show"@,
        row_id,
    );
    lemma_empty_member_override(
        rows::row_members(rows::experiment_brief_columns(), e.values),
        "show"@,
        id,
    );
}

// ---------------------------------- overrides are shown ----------------------------------

/// A chart has the status that was set for it, whatever its row says; charts with other ids keep
/// theirs.
pub proof fn law_status_override_is_shown(values: Seq<SqlValue>, o: OverlayV, id: i64, status: i64)
    ensures
        charts::base_chart(values, o).id == id ==> charts::base_chart(
            values,
            uistate::with_chart_status(o, id, status),
        ).status == status,
        charts::base_chart(values, o).id != id ==> charts::base_chart(
            values,
            uistate::with_chart_status(o, id, status),
        ) == charts::base_chart(values, o),
{
}

/// A namespace is shown as open or closed as it was set, whatever its row says.
pub proof fn law_opened_override_is_shown(
    values: Seq<SqlValue>,
    o: OverlayV,
    opened: i64,
    experiment: JsonV,
    project: JsonV,
)
    ensures
        ({
            let row = rows::row_members(rows::namespace_columns(), values);
            let id = json::int_at(JsonV::Object(row), "id"@, 0) as i64;
            json::member(
                charts::namespace_fields(
                    values,
                    uistate::with_namespace_opened(o, id, opened),
                    experiment,
                    project,
                ),
                "opened"@,
            ) == Some(JsonV::Int(opened as int))
        }),
{
    reveal_strlit("opened");
    reveal_strlit("experiment_id");
    reveal_strlit("project_id");
    let row = rows::row_members(rows::namespace_columns(), values);
    let id = json::int_at(JsonV::Object(row), "id"@, 0) as i64;
    let p = uistate::with_namespace_opened(o, id, opened);
    rows::lemma_row_has_column(rows::namespace_columns(), values, 4);
    let value = JsonV::Int(opened as int);
    let o1 = uistate::overlaid_member(row, "opened"@, p.namespace_opened, id);
    json::lemma_member_set(row, "opened"@, value, "opened"@);
    assert("opened"@.len() != "experiment_id"@.len());
    assert("opened"@.len() != "project_id"@.len());
    json::lemma_member_set(o1, "experiment_id"@, experiment, "opened"@);
    json::lemma_member_set(
        json::with_member(o1, "experiment_id"@, experiment),
        "project_id"@,
        project,
        "opened"@,
    );
}

/// An experiment is shown or not as it was set, whatever its row says, in the list of the project
/// and on its own page.
pub proof fn law_show_override_is_shown(
    e: ExperimentConfigV,
    o: OverlayV,
    id: i64,
    show: i64,
    config: Option<JsonV>,
    system: JsonV,
)
    ensures
        ({
            let row = rows::row_members(rows::experiment_columns(), e.values);
            let row_id = json::int_at(JsonV::Object(row), "id"@, 0) as i64;
            json::field(
                records::listed_experiment(e, uistate::with_experiment_show(o, row_id, show)),
                "show"@,
            ) == Some(JsonV::Int(show as int))
        }),
        json::field(
            records::experiment_view(
                e.values,
                id,
                config,
                system,
                uistate::with_experiment_show(o, id, show),
            ),
            "show"@,
        ) == Some(JsonV::Int(show as int)),
{
    reveal_strlit("show");
    reveal_strlit("experiment_id");
    reveal_strlit("config");
    reveal_strlit("system");
    assert("show"@.len() != "experiment_id"@.len());
    assert("show"@.len() != "config"@.len());
    assert("show"@.len() != "system"@.len());
    let value = JsonV::Int(show as int);
    let row = rows::row_members(rows::experiment_columns(), e.values);
    let row_id = json::int_at(JsonV::Object(row), "id"@, 0) as i64;
    rows::lemma_row_has_column(rows::experiment_columns(), e.values, 6);
    let o1 = json::with_member(row, "experiment_id"@, JsonV::Int(row_id as int));
    json::lemma_member_set(row, "experiment_id"@, JsonV::Int(row_id as int), "show"@);
    json::lemma_member_set(o1, "show"@, value, "show"@);
    let listed = json::with_member(o1, "show"@, value);
    match e.config {
        Some(c) => {
            json::lemma_member_set(listed, "config"@, c, "show"@);
        },
        None => {},
    }
    let brief = rows::row_members(rows::experiment_brief_columns(), e.values);
    rows::lemma_row_has_column(rows::experiment_brief_columns(), e.values, 6);
    json::lemma_member_set(brief, "show"@, value, "show"@);
    let paged = json::with_member(brief, "show"@, value);
    match config {
        Some(c) => {
            json::lemma_member_set(paged, "config"@, c, "show"@);
        },
        None => {},
    }
    json::lemma_member_set(records::with_config(paged, config), "system"@, system, "show"@);
}

/// A chart of an experiment whose status is set to 1 is shown as pinned, and one whose status is
/// set to -1 as hidden; with any status but 0 it is in no namespace that remains.
pub proof fn law_pinned_chart_moves(
    data: Seq<ChartDataV>,
    o: OverlayV,
    k: int,
    status: i64,
    namespaces: Seq<NamespaceRowV>,
    experiment: JsonV,
    i: int,
)
    requires
        data.len() <= usize::MAX,
        0 <= k < data.len(),
        status != 0,
    ensures
        ({
            let id = charts::base_chart(data[k].values, o).id;
            let p = uistate::with_chart_status(o, id, status);
            let meta = charts::chart_meta(charts::experiment_list(data, p));
            let left = placement::remaining(
                meta,
                charts::experiment_namespaces(namespaces, p, experiment),
            );
            &&& placement::ids_with_status(meta, status as int).contains(id)
            &&& 0 <= i < left.len() ==> !left[i].charts.contains(id)
        }),
{
    let id = charts::base_chart(data[k].values, o).id;
    let p = uistate::with_chart_status(o, id, status);
    let meta = charts::chart_meta(charts::experiment_list(data, p));
    let list = charts::experiment_namespaces(namespaces, p, experiment);
    assert(meta[k].0 == id && meta[k].1 == status);
    placement::law_dynamic_shows_its_status(meta, status as int, id);
    if 0 <= i < placement::remaining(meta, list).len() {
        placement::law_remaining_are_normal(meta, list, i, id);
    }
}

// ---------------------------------- the comparison ----------------------------------

/// Where experiments are selected, every chart that is shown has a source, and all its sources
/// belong to selected experiments.
pub proof fn law_selection_restricts_sources(
    data: Seq<ChartDataV>,
    ids: Seq<i64>,
    i: int,
    j: int,
)
    requires
        0 <= i < comparisons::kept_charts(data, Some(ids)).len(),
    ensures
        comparisons::kept_charts(data, Some(ids))[i].sources.len() > 0,
        0 <= j < comparisons::kept_charts(data, Some(ids))[i].sources.len() ==> ids.contains(
            comparisons::kept_charts(data, Some(ids))[i].sources[j].id,
        ),
    decreases data.len(),
{
    let before = comparisons::kept_charts(data.drop_last(), Some(ids));
    seqs::lemma_filter_holds(data.last().sources, comparisons::selected(Some(ids)));
    if i < before.len() {
        law_selection_restricts_sources(data.drop_last(), ids, i, j);
    }
}

/// Without a selection every chart of an allowed type is shown, with all its sources.
pub proof fn law_no_selection_keeps_all(data: Seq<ChartDataV>)
    ensures
        comparisons::kept_charts(data, None) == data.filter(
            |c: ChartDataV| comparisons::row_allowed(c.values),
        ),
    decreases data.len(),
{
    let keep = |c: ChartDataV| comparisons::row_allowed(c.values);
    reveal(Seq::filter);
    if data.len() > 0 {
        law_no_selection_keeps_all(data.drop_last());
        seqs::lemma_filter_push(data.drop_last(), keep, data.last());
        assert(data.drop_last().push(data.last()) =~= data);
        seqs::lemma_filter_all(data.last().sources, comparisons::selected(None));
    }
}

/// A selection of no experiments shows no charts and no namespaces.
pub proof fn law_empty_selection_shows_nothing(
    project: Seq<SqlValue>,
    data: Seq<ChartDataV>,
    namespaces: Seq<NamespaceRowV>,
    overlay: OverlayV,
)
    ensures
        comparisons::comparison_lists(project, data, namespaces, overlay, Some(Seq::empty())) == (
            Seq::<JsonV>::empty(),
            Seq::<JsonV>::empty(),
        ),
{
    let none = Some(Seq::<i64>::empty());
    let kept = comparisons::kept_charts(data, none);
    if kept.len() > 0 {
        law_selection_restricts_sources(data, Seq::empty(), 0, 0);
    }
    let proj = records::project_json(project);
    let list = comparisons::comparison_list(kept, overlay, proj);
    lemma_no_charts_no_namespaces(namespaces, list, overlay, records::without_charts(proj));
    let lists = comparisons::comparison_lists(project, data, namespaces, overlay, none);
    assert(lists.0 =~= Seq::empty());
    assert(lists.1 =~= Seq::empty());
}

proof fn lemma_no_charts_no_namespaces(
    rows: Seq<NamespaceRowV>,
    list: Seq<ChartV>,
    overlay: OverlayV,
    project: JsonV,
)
    requires
        list.len() == 0,
    ensures
        comparisons::project_namespaces(rows, list, true, overlay, project).len() == 0,
    decreases rows.len(),
{
    if rows.len() > 0 {
        lemma_no_charts_no_namespaces(rows.drop_last(), list, overlay, project);
        let ids = charts::namespace_ids(rows.last().charts, true);
        let keep = comparisons::shown_in(list, true);
        seqs::lemma_filter_holds(ids, keep);
        if ids.filter(keep).len() > 0 {
            assert(keep(ids.filter(keep)[0]));
        }
    }
}

/// A namespace of the comparison shows no chart that is not on the page, where experiments are
/// selected.
pub proof fn law_namespaces_show_charts_of_the_page(
    rows: Seq<NamespaceRowV>,
    list: Seq<ChartV>,
    overlay: OverlayV,
    project: JsonV,
    i: int,
    id: i64,
)
    requires
        0 <= i < comparisons::project_namespaces(rows, list, true, overlay, project).len(),
        comparisons::project_namespaces(rows, list, true, overlay, project)[i].charts.contains(id),
    ensures
        comparisons::has_chart(list, id),
    decreases rows.len(),
{
    let before = comparisons::project_namespaces(rows.drop_last(), list, true, overlay, project);
    if i < before.len() {
        law_namespaces_show_charts_of_the_page(
            rows.drop_last(),
            list,
            overlay,
            project,
            i,
            id,
        );
    } else {
        let ids = charts::namespace_ids(rows.last().charts, true);
        let keep = comparisons::shown_in(list, true);
        seqs::lemma_filter_holds(ids, keep);
        let k = choose|k: int| 0 <= k < ids.filter(keep).len() && ids.filter(keep)[k] == id;
        assert(keep(ids.filter(keep)[k]));
    }
}

proof fn lemma_sources_are_in(
    o: Seq<(Seq<char>, JsonV)>,
    s: Seq<charts::SourceV>,
    name: Seq<char>,
)
    requires
        json::member(o, name) is Some || exists|k: int|
            0 <= k < s.len() && (#[trigger] s[k]).name == name,
    ensures
        json::member(charts::with_sources(o, s), name) is Some,
    decreases s.len(),
{
    if s.len() > 0 {
        let t = s.drop_last();
        let last = s.last();
        json::lemma_member_set(
            charts::with_sources(o, t),
            last.name,
            JsonV::Int(last.id as int),
            name,
        );
        if last.name != name {
            if json::member(o, name) is None {
                let k = choose|k: int| 0 <= k < s.len() && (#[trigger] s[k]).name == name;
                assert(t[k].name == name);
            }
            lemma_sources_are_in(o, t, name);
        }
    }
}

/// The `source_map` that all charts of the comparison share has an entry for every source of every
/// chart.
pub proof fn law_shared_map_is_the_union(kept: Seq<ChartDataV>, i: int, j: int)
    requires
        0 <= i < kept.len(),
        0 <= j < kept[i].sources.len(),
    ensures
        json::member(comparisons::shared_map(kept), kept[i].sources[j].name) is Some,
    decreases kept.len(),
{
    let name = kept[i].sources[j].name;
    let t = kept.drop_last();
    if i < t.len() {
        assert(t[i] == kept[i]);
        law_shared_map_is_the_union(t, i, j);
    } else {
        assert(kept.last().sources[j].name == name);
    }
    lemma_sources_are_in(comparisons::shared_map(t), kept.last().sources, name);
}

/// All charts of the comparison carry the same `source_map`.
pub proof fn law_charts_share_one_map(list: Seq<ChartV>, map: JsonV, i: int)
    requires
        0 <= i < list.len(),
    ensures
        json::field(comparisons::with_shared_map(list, map)[i], "source_map"@) == Some(map),
{
    json::lemma_member_set(list[i].members, "source_map"@, map, "source_map"@);
}

/// Where experiments are selected, a chart of an allowed type that has a source of a selected
/// experiment is shown.
pub proof fn law_selection_keeps_contributing_charts(data: Seq<ChartDataV>, ids: Seq<i64>, k: int)
    requires
        0 <= k < data.len(),
        comparisons::row_allowed(data[k].values),
        exists|j: int|
            0 <= j < data[k].sources.len() && ids.contains(
                (#[trigger] data[k].sources[j]).id,
            ),
    ensures
        exists|i: int|
            0 <= i < comparisons::kept_charts(data, Some(ids)).len() && (#[trigger] comparisons::kept_charts(
                data,
                Some(ids),
            )[i]).values == data[k].values,
    decreases data.len(),
{
    let t = data.drop_last();
    let before = comparisons::kept_charts(t, Some(ids));
    let after = comparisons::kept_charts(data, Some(ids));
    if k < t.len() {
        assert(t[k] == data[k]);
        law_selection_keeps_contributing_charts(t, ids, k);
        let i = choose|i: int| 0 <= i < before.len() && (#[trigger] before[i]).values == t[k].values;
        assert(after[i] == before[i]);
    } else {
        let j = choose|j: int|
            0 <= j < data[k].sources.len() && ids.contains((#[trigger] data[k].sources[j]).id);
        seqs::lemma_filter_keeps(data[k].sources, comparisons::selected(Some(ids)), j);
        assert(data[k].sources.filter(comparisons::selected(Some(ids))).len() > 0);
        assert(after[before.len() as int].values == data[k].values);
    }
}

/// In the groups that answer a change of a chart, each chart id is replaced by a chart that has it,
/// or by null where no chart has it.
pub proof fn law_groups_show_charts_by_id(list: Seq<JsonV>, id: int)
    ensures
        (exists|k: int|
            0 <= k < list.len() && #[trigger] comparisons::chart_id(list[k]) == Some(id)) ==> {
            &&& list.contains(comparisons::chart_with_id(list, Some(id)))
            &&& comparisons::chart_id(comparisons::chart_with_id(list, Some(id))) == Some(id)
        },
        (forall|k: int|
            0 <= k < list.len() ==> #[trigger] comparisons::chart_id(list[k]) != Some(id))
            ==> comparisons::chart_with_id(list, Some(id)) == JsonV::Null,
    decreases list.len(),
{
    if list.len() > 0 {
        let rest = list.drop_first();
        law_groups_show_charts_by_id(rest, id);
        let found = comparisons::chart_with_id(list, Some(id));
        if comparisons::chart_id(list[0]) != Some(id) {
            assert forall|k: int| 0 <= k < rest.len() implies #[trigger] rest[k] == list[k + 1] by {
            }
            if exists|k: int| 0 <= k < list.len() && #[trigger] comparisons::chart_id(list[k]) == Some(
                id,
            ) {
                let k = choose|k: int|
                    0 <= k < list.len() && #[trigger] comparisons::chart_id(list[k]) == Some(id);
                assert(comparisons::chart_id(rest[k - 1]) == Some(id));
                let m = choose|m: int| 0 <= m < rest.len() && rest[m] == found;
                assert(list[m + 1] == found);
            } else {
                assert forall|k: int| 0 <= k < rest.len() implies #[trigger] comparisons::chart_id(
                    rest[k],
                ) != Some(id) by {
                    assert(comparisons::chart_id(list[k + 1]) != Some(id));
                }
            }
        } else {
            assert(list[0] == found);
        }
    }
}

/// The project as it is nested in a namespace has no chart count.
pub proof fn law_nested_project_has_no_chart_count(project: Seq<SqlValue>)
    ensures
        json::field(
            records::without_charts(records::project_json(project)),
            "charts"@,
        ) == Some(JsonV::Null),
{
    json::lemma_member_set(
        rows::row_members(rows::project_columns(), project),
        "charts"@,
        JsonV::Null,
        "charts"@,
    );
}

} // verus!
