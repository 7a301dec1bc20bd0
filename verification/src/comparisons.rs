//! The charts that compare the experiments of the project, and the status groups of a chart.

use std::collections::HashSet;

use vstd::prelude::*;

use crate::charts::{
    self, Chart, ChartData, ChartDataV, ChartV, ExperimentRows, NamespaceRow, NamespaceRowV,
    ProjectRows, Source, SourceV, add_sources, build_namespace, build_project_chart,
    experiment_charts, meta_of, namespace_chart_ids, payload, read_run_sources, type_allowed,
};
use crate::codec::{self, text_from_utf8};
use crate::json::{self, Json, JsonMap, JsonV, copy_list};
use crate::placement::{self, Namespace, NamespaceV, apply_pinned_hidden};
use crate::records::{self, DbError, nullify_charts, project_dict};
use crate::rows::{self, SqlValue};
use crate::seqs;
use crate::uistate::{self, OverlayV, UiOverlay};

verus! {

/// Whether the chart of a row is shown on the comparison page: its type, the fifth of its columns,
/// is a text that names an allowed type.
pub open spec fn row_allowed(values: Seq<SqlValue>) -> bool {
    match values[4] {
        SqlValue::Text(b) => charts::allowed_type(codec::utf8_lossy(b@)),
        _ => false,
    }
}

/// Whether the chart of a row is shown on the comparison page.
pub fn chart_allowed(values: &Vec<SqlValue>) -> (r: bool)
    requires
        values.len() == rows::chart_columns().len(),
    ensures
        r == row_allowed(values@),
        values@[4] matches SqlValue::Text(b) ==> vstd::utf8::valid_utf8(b@) ==> r
            == charts::allowed_type(vstd::utf8::decode_utf8(b@)),
{
    match &values[4] {
        SqlValue::Text(b) => type_allowed(text_from_utf8(b.as_slice()).as_str()),
        _ => false,
    }
}

/// Whether a source is among the selected experiments; all are where nothing is selected.
pub open spec fn is_selected(filter: Option<Seq<i64>>, id: i64) -> bool {
    match filter {
        Some(ids) => ids.contains(id),
        None => true,
    }
}

/// The test that the sources of selected experiments pass.
pub open spec fn selected(filter: Option<Seq<i64>>) -> spec_fn(SourceV) -> bool {
    |s: SourceV| is_selected(filter, s.id)
}

/// The charts of the comparison: those of an allowed type, each with its selected sources; where
/// experiments are selected, those without any source are dropped.
pub open spec fn kept_charts(charts: Seq<ChartDataV>, filter: Option<Seq<i64>>) -> Seq<ChartDataV>
    decreases charts.len(),
{
    if charts.len() == 0 {
        Seq::empty()
    } else {
        let before = kept_charts(charts.drop_last(), filter);
        let c = charts.last();
        let sources = c.sources.filter(selected(filter));
        if !row_allowed(c.values) || (filter is Some && sources.len() == 0) {
            before
        } else {
            before.push(ChartDataV { values: c.values, sources })
        }
    }
}

/// The experiments of all sources of charts under their names.
pub open spec fn shared_map(charts: Seq<ChartDataV>) -> Seq<(Seq<char>, JsonV)>
    decreases charts.len(),
{
    if charts.len() == 0 {
        Seq::empty()
    } else {
        charts::with_sources(shared_map(charts.drop_last()), charts.last().sources)
    }
}

/// The charts of the comparison, but for their `source_map`.
pub open spec fn comparison_list(
    kept: Seq<ChartDataV>,
    overlay: OverlayV,
    project: JsonV,
) -> Seq<ChartV> {
    kept.map_values(|c: ChartDataV| charts::project_chart(c, overlay, project))
}

/// The objects of charts that share one `source_map`.
pub open spec fn with_shared_map(list: Seq<ChartV>, map: JsonV) -> Seq<JsonV> {
    list.map_values(
        |c: ChartV| JsonV::Object(json::with_member(c.members, "source_map"@, map)),
    )
}

/// Whether some chart of the list has the id `id`.
pub open spec fn has_chart(list: Seq<ChartV>, id: i64) -> bool {
    exists|k: int| 0 <= k < list.len() && (#[trigger] list[k]).id == id
}

/// The test that the ids of charts that a namespace may show pass: where experiments are selected,
/// those of the charts in the list.
pub open spec fn shown_in(list: Seq<ChartV>, filtered: bool) -> spec_fn(i64) -> bool {
    |id: i64| !filtered || has_chart(list, id)
}

/// The namespaces of the project that have charts to show.
pub open spec fn project_namespaces(
    rows: Seq<NamespaceRowV>,
    list: Seq<ChartV>,
    filtered: bool,
    overlay: OverlayV,
    project: JsonV,
) -> Seq<NamespaceV>
    decreases rows.len(),
{
    if rows.len() == 0 {
        Seq::empty()
    } else {
        let before = project_namespaces(rows.drop_last(), list, filtered, overlay, project);
        let n = rows.last();
        let ids = charts::namespace_ids(n.charts, true).filter(shown_in(list, filtered));
        if ids.len() == 0 {
            before
        } else {
            before.push(
                NamespaceV {
                    fields: charts::namespace_fields(n.values, overlay, JsonV::Null, project),
                    charts: ids,
                },
            )
        }
    }
}

/// The charts and the namespaces of the comparison of the experiments that `filter` selects.
pub open spec fn comparison_lists(
    project: Seq<SqlValue>,
    charts: Seq<ChartDataV>,
    namespaces: Seq<NamespaceRowV>,
    overlay: OverlayV,
    filter: Option<Seq<i64>>,
) -> (Seq<JsonV>, Seq<JsonV>) {
    let proj = records::project_json(project);
    let id = json::int_at(proj, "id"@, 1) as i64;
    let kept = kept_charts(charts, filter);
    let list = comparison_list(kept, overlay, proj);
    (
        with_shared_map(list, JsonV::Object(shared_map(kept))),
        placement::pinned_hidden(
            charts::chart_meta(list),
            project_namespaces(
                namespaces,
                list,
                filter is Some,
                overlay,
                records::without_charts(proj),
            ),
            JsonV::Null,
            proj,
            uistate::overridden(
                overlay.project_pinned_opened,
                id,
                json::value_or(json::field(proj, "pinned_opened"@), JsonV::Int(1)),
            ),
            uistate::overridden(
                overlay.project_hidden_opened,
                id,
                json::value_or(json::field(proj, "hidden_opened"@), JsonV::Int(0)),
            ),
        ),
    )
}

fn has_id(ids: &Vec<i64>, id: i64) -> (r: bool)
    ensures
        r == ids@.contains(id),
{
    let mut i: usize = 0;
    while i < ids.len()
        invariant
            i <= ids.len(),
            forall|j: int| 0 <= j < i ==> #[trigger] ids@[j] != id,
        decreases ids.len() - i,
    {
        if ids[i] == id {
            return true;
        }
        i += 1;
    }
    false
}

fn id_selected(filter: &Option<Vec<i64>>, id: i64) -> (r: bool)
    ensures
        r == is_selected(filter_view(*filter), id),
{
    match filter {
        Some(ids) => has_id(ids, id),
        None => true,
    }
}

/// The ids that a filter selects.
pub open spec fn filter_view(filter: Option<Vec<i64>>) -> Option<Seq<i64>> {
    match filter {
        Some(ids) => Some(ids@),
        None => None,
    }
}

fn copy_source(s: &Source) -> (r: Source)
    ensures
        r@ == s@,
{
    let error = match &s.error {
        Some(e) => Some(e.copy()),
        None => None,
    };
    Source { name: s.name.clone(), id: s.id, error }
}

fn selected_sources(sources: &Vec<Source>, filter: &Option<Vec<i64>>) -> (r: Vec<Source>)
    ensures
        charts::sources_view(r@) == charts::sources_view(sources@).filter(
            selected(filter_view(*filter)),
        ),
{
    let ghost all = charts::sources_view(sources@);
    let ghost keep = selected(filter_view(*filter));
    let mut r: Vec<Source> = Vec::new();
    let mut i: usize = 0;
    proof {
        reveal(Seq::filter);
        assert(charts::sources_view(r@) =~= all.take(0).filter(keep));
    }
    while i < sources.len()
        invariant
            i <= sources.len(),
            all == charts::sources_view(sources@),
            keep == selected(filter_view(*filter)),
            charts::sources_view(r@) == all.take(i as int).filter(keep),
        decreases sources.len() - i,
    {
        let ghost before = r@;
        proof {
            seqs::lemma_filter_push(all.take(i as int), keep, all[i as int]);
            assert(all.take(i + 1) =~= all.take(i as int).push(all[i as int]));
        }
        if id_selected(filter, sources[i].id) {
            r.push(copy_source(&sources[i]));
            proof {
                assert(charts::sources_view(r@) =~= charts::sources_view(before).push(
                    all[i as int],
                ));
            }
        }
        i += 1;
    }
    proof {
        assert(all.take(all.len() as int) =~= all);
    }
    r
}

fn keep_charts<'a>(charts: &Vec<ChartData<'a>>, filter: &Option<Vec<i64>>) -> (r: Vec<
    ChartData<'a>,
>)
    requires
        charts::chart_rows_fit(charts@),
    ensures
        charts::chart_rows_fit(r@),
        charts::charts_view(r@) == kept_charts(charts::charts_view(charts@), filter_view(*filter)),
{
    let ghost all = charts::charts_view(charts@);
    let ghost ids = filter_view(*filter);
    let mut r: Vec<ChartData<'a>> = Vec::new();
    let mut i: usize = 0;
    proof {
        assert(charts::charts_view(r@) =~= kept_charts(all.take(0), ids));
    }
    while i < charts.len()
        invariant
            i <= charts.len(),
            charts::chart_rows_fit(charts@),
            charts::chart_rows_fit(r@),
            all == charts::charts_view(charts@),
            ids == filter_view(*filter),
            charts::charts_view(r@) == kept_charts(all.take(i as int), ids),
        decreases charts.len() - i,
    {
        let ghost before = r@;
        let c = &charts[i];
        proof {
            assert(all.take(i + 1).drop_last() =~= all.take(i as int));
            assert(all.take(i + 1).last() == charts@[i as int]@);
        }
        if chart_allowed(c.values) {
            let sources = selected_sources(&c.sources, filter);
            if !(filter.is_some() && sources.len() == 0) {
                let d = ChartData { values: c.values, sources };
                r.push(d);
                proof {
                    assert(charts::charts_view(r@) =~= charts::charts_view(before).push(d@));
                }
            }
        }
        i += 1;
    }
    proof {
        assert(all.take(all.len() as int) =~= all);
    }
    r
}

fn share_map(charts: &Vec<ChartData>) -> (r: JsonMap)
    ensures
        r@ == shared_map(charts::charts_view(charts@)),
{
    let ghost all = charts::charts_view(charts@);
    let mut o = JsonMap::new();
    let mut i: usize = 0;
    proof {
        assert(all.take(0).len() == 0);
    }
    while i < charts.len()
        invariant
            i <= charts.len(),
            all == charts::charts_view(charts@),
            o@ == shared_map(all.take(i as int)),
        decreases charts.len() - i,
    {
        add_sources(&mut o, &charts[i].sources);
        proof {
            assert(all.take(i + 1).drop_last() =~= all.take(i as int));
            assert(all.take(i + 1).last() == charts@[i as int]@);
        }
        i += 1;
    }
    proof {
        assert(all.take(all.len() as int) =~= all);
    }
    o
}

fn chart_ids(list: &Vec<Chart>) -> (r: HashSet<i64>)
    ensures
        forall|id: i64| #[trigger]
            r@.contains(id) <==> has_chart(charts::chart_list_view(list@), id),
{
    let ghost all = charts::chart_list_view(list@);
    let mut r: HashSet<i64> = HashSet::new();
    let mut i: usize = 0;
    while i < list.len()
        invariant
            i <= list.len(),
            all == charts::chart_list_view(list@),
            forall|id: i64| #[trigger] r@.contains(id) <==> has_chart(all.take(i as int), id),
        decreases list.len() - i,
    {
        let ghost before = all.take(i as int);
        let ghost after = all.take(i + 1);
        r.insert(list[i].id);
        proof {
            assert forall|id: i64| #[trigger] r@.contains(id) <==> has_chart(after, id) by {
                if has_chart(before, id) {
                    let k = choose|k: int| 0 <= k < before.len() && (#[trigger] before[k]).id == id;
                    assert(after[k] == before[k]);
                }
                if has_chart(after, id) {
                    let k = choose|k: int| 0 <= k < after.len() && (#[trigger] after[k]).id == id;
                    if k < i {
                        assert(before[k] == after[k]);
                    }
                }
                assert(after[i as int].id == list@[i as int].id);
            }
        }
        i += 1;
    }
    proof {
        assert(all.take(all.len() as int) =~= all);
    }
    r
}

fn shown_ids(
    ids: &Vec<i64>,
    kept: &HashSet<i64>,
    filtered: bool,
    Ghost(list): Ghost<Seq<ChartV>>,
) -> (r: Vec<i64>)
    requires
        forall|id: i64| #[trigger] kept@.contains(id) <==> has_chart(list, id),
    ensures
        r@ == ids@.filter(shown_in(list, filtered)),
{
    let ghost keep = shown_in(list, filtered);
    let mut r: Vec<i64> = Vec::new();
    let mut i: usize = 0;
    proof {
        reveal(Seq::filter);
        assert(r@ =~= ids@.take(0).filter(keep));
    }
    while i < ids.len()
        invariant
            i <= ids.len(),
            keep == shown_in(list, filtered),
            forall|id: i64| #[trigger] kept@.contains(id) <==> has_chart(list, id),
            r@ == ids@.take(i as int).filter(keep),
        decreases ids.len() - i,
    {
        let id: i64 = ids[i];
        proof {
            seqs::lemma_filter_push(ids@.take(i as int), keep, id);
            assert(ids@.take(i + 1) =~= ids@.take(i as int).push(id));
        }
        if !filtered || kept.contains(&id) {
            r.push(id);
        }
        i += 1;
    }
    proof {
        assert(ids@.take(ids@.len() as int) =~= ids@);
    }
    r
}

fn show_namespaces(
    namespaces: &Vec<NamespaceRow>,
    list: &Vec<Chart>,
    filtered: bool,
    overlay: &UiOverlay,
    project: &Json,
) -> (r: Vec<Namespace>)
    requires
        charts::namespace_rows_fit(namespaces@),
    ensures
        placement::namespaces_view(r@) == project_namespaces(
            charts::namespace_rows_view(namespaces@),
            charts::chart_list_view(list@),
            filtered,
            overlay@,
            project@,
        ),
{
    let kept = chart_ids(list);
    let ghost all = charts::namespace_rows_view(namespaces@);
    let ghost shown = charts::chart_list_view(list@);
    let mut r: Vec<Namespace> = Vec::new();
    let mut i: usize = 0;
    proof {
        assert(placement::namespaces_view(r@) =~= project_namespaces(
            all.take(0),
            shown,
            filtered,
            overlay@,
            project@,
        ));
    }
    while i < namespaces.len()
        invariant
            i <= namespaces.len(),
            charts::namespace_rows_fit(namespaces@),
            all == charts::namespace_rows_view(namespaces@),
            shown == charts::chart_list_view(list@),
            forall|id: i64| #[trigger] kept@.contains(id) <==> has_chart(shown, id),
            placement::namespaces_view(r@) == project_namespaces(
                all.take(i as int),
                shown,
                filtered,
                overlay@,
                project@,
            ),
        decreases namespaces.len() - i,
    {
        let ghost before = r@;
        let n = &namespaces[i];
        proof {
            assert(all.take(i + 1).drop_last() =~= all.take(i as int));
            assert(all.take(i + 1).last() == namespaces@[i as int]@);
        }
        let allowed = namespace_chart_ids(&n.charts, true);
        let ids = shown_ids(&allowed, &kept, filtered, Ghost(shown));
        if ids.len() > 0 {
            let made = Namespace {
                fields: build_namespace(&n.values, overlay, &Json::Null, project),
                charts: ids,
            };
            r.push(made);
            proof {
                assert(placement::namespaces_view(r@) =~= placement::namespaces_view(
                    before,
                ).push(made@));
            }
        }
        i += 1;
    }
    proof {
        assert(all.take(all.len() as int) =~= all);
    }
    r
}

/// The comparison of the experiments that `filter` selects, or of all experiments. Every chart
/// carries one `source_map`, that of the sources of all charts. Where experiments are selected,
/// charts and namespaces keep only what those experiments contribute to; where none is selected,
/// there are no charts.
pub fn comparison(
    project: &Option<Vec<SqlValue>>,
    charts: &Vec<ChartData>,
    namespaces: &Vec<NamespaceRow>,
    overlay: &UiOverlay,
    filter: &Option<Vec<i64>>,
) -> (r: Result<Json, DbError>)
    requires
        rows::row_fits(*project, rows::project_columns().len()),
        charts::chart_rows_fit(charts@),
        charts::namespace_rows_fit(namespaces@),
    ensures
        records::result_view(r) == (match *project {
            Some(p) => Ok(
                charts::charts_payload(
                    comparison_lists(
                        p@,
                        charts::charts_view(charts@),
                        charts::namespace_rows_view(namespaces@),
                        overlay@,
                        filter_view(*filter),
                    ),
                ),
            ),
            None => Err(DbError::ProjectNotFound),
        }),
{
    let proj = match project_dict(project) {
        Ok(p) => p,
        Err(e) => {
            return Err(e);
        },
    };
    let nested = nullify_charts(&proj);
    let id: i64 = proj.i64_at("id", 1);
    let pinned_opened = overlay.apply_project_pinned(
        id,
        proj.copy_at("pinned_opened", Json::Int(1)),
    );
    let hidden_opened = overlay.apply_project_hidden(
        id,
        proj.copy_at("hidden_opened", Json::Int(0)),
    );
    let kept = keep_charts(charts, filter);
    let ghost data = charts::charts_view(kept@);
    let mut list: Vec<Chart> = Vec::new();
    let mut i: usize = 0;
    while i < kept.len()
        invariant
            i <= kept.len(),
            charts::chart_rows_fit(kept@),
            list.len() == i,
            forall|j: int|
                0 <= j < i ==> (#[trigger] list@[j])@ == charts::project_chart(
                    kept@[j]@,
                    overlay@,
                    proj@,
                ),
        decreases kept.len() - i,
    {
        let c = &kept[i];
        list.push(build_project_chart(c.values, &c.sources, overlay, &proj));
        i += 1;
    }
    proof {
        assert(charts::chart_list_view(list@) =~= comparison_list(data, overlay@, proj@));
    }
    let shared = Json::Object(share_map(&kept));
    let mut out: Vec<Json> = Vec::new();
    let mut k: usize = 0;
    while k < list.len()
        invariant
            k <= list.len(),
            out.len() == k,
            forall|j: int|
                0 <= j < k ==> (#[trigger] out@[j])@ == JsonV::Object(
                    json::with_member(list@[j].members@, "source_map"@, shared@),
                ),
        decreases list.len() - k,
    {
        let mut m = list[k].members.copy();
        m.set("source_map", shared.copy());
        out.push(Json::Object(m));
        k += 1;
    }
    proof {
        assert(json::list_view(out) =~= with_shared_map(charts::chart_list_view(list@), shared@));
    }
    let ns_list = show_namespaces(namespaces, &list, filter.is_some(), overlay, &nested);
    let meta = meta_of(&list);
    let shown = apply_pinned_hidden(
        &meta,
        ns_list,
        &Json::Null,
        &proj,
        &pinned_opened,
        &hidden_opened,
    );
    Ok(payload((out, shown)))
}

/// Whether every row has a value for each of its columns.
pub open spec fn project_rows_fit(r: ProjectRows) -> bool {
    &&& rows::row_fits(r.project, rows::project_columns().len())
    &&& forall|i: int|
        0 <= i < r.charts@.len() ==> (#[trigger] r.charts@[i]).values.len()
            == rows::chart_columns().len()
    &&& charts::namespace_rows_fit(r.namespaces@)
}

/// What the comparison of the selected experiments gives, from the rows.
pub open spec fn comparison_outcome(
    r: ProjectRows,
    overlay: OverlayV,
    filter: Option<Seq<i64>>,
) -> Result<JsonV, DbError> {
    match r.project {
        Some(p) => Ok(
            charts::charts_payload(
                comparison_lists(
                    p@,
                    charts::project_data(r.charts@),
                    charts::namespace_rows_view(r.namespaces@),
                    overlay,
                    filter,
                ),
            ),
        ),
        None => Err(DbError::ProjectNotFound),
    }
}

/// The comparison of the experiments that `filter` selects, or of all experiments, from the rows.
pub fn project_charts_filtered(
    r: &ProjectRows,
    overlay: &UiOverlay,
    filter: &Option<Vec<i64>>,
) -> (res: Result<Json, DbError>)
    requires
        project_rows_fit(*r),
    ensures
        records::result_view(res) == comparison_outcome(*r, overlay@, filter_view(*filter)),
{
    let mut data: Vec<ChartData> = Vec::new();
    let mut i: usize = 0;
    while i < r.charts.len()
        invariant
            i <= r.charts.len(),
            project_rows_fit(*r),
            data.len() == i,
            forall|j: int|
                0 <= j < i ==> (#[trigger] data@[j])@ == charts::project_data(r.charts@)[j]
                    && data@[j].values.len() == rows::chart_columns().len(),
        decreases r.charts.len() - i,
    {
        let c = &r.charts[i];
        data.push(ChartData { values: &c.values, sources: read_run_sources(&c.sources) });
        i += 1;
    }
    proof {
        assert(charts::charts_view(data@) =~= charts::project_data(r.charts@));
    }
    comparison(&r.project, &data, &r.namespaces, overlay, filter)
}

/// The comparison of all experiments.
pub fn project_charts(r: &ProjectRows, overlay: &UiOverlay) -> (res: Result<Json, DbError>)
    requires
        project_rows_fit(*r),
    ensures
        records::result_view(res) == comparison_outcome(*r, overlay@, None),
{
    project_charts_filtered(r, overlay, &None)
}

// ---------------------------------- the owner of a chart ----------------------------------

/// Who a chart belongs to.
#[derive(Debug, PartialEq)]
pub enum ChartOwner {
    Project(i64),
    Experiment(i64),
}

/// The owner of a chart, from the keys of its project and its experiment: the project where it has
/// one, else the experiment. Nothing where the chart does not exist or has neither.
pub fn chart_owner(row: Option<(Option<i64>, Option<i64>)>) -> (r: Option<ChartOwner>)
    ensures
        r == (match row {
            Some((Some(p), _)) => Some(ChartOwner::Project(p)),
            Some((None, Some(e))) => Some(ChartOwner::Experiment(e)),
            _ => None,
        }),
{
    match row {
        None => None,
        Some((Some(p), _)) => Some(ChartOwner::Project(p)),
        Some((None, Some(e))) => Some(ChartOwner::Experiment(e)),
        Some((None, None)) => None,
    }
}

/// The rows that the charts of an owner are made of.
#[derive(Debug, PartialEq)]
pub enum OwnerRows {
    Project(i64, ProjectRows),
    Experiment(i64, ExperimentRows),
}

/// Whether every row has a value for each of its columns.
pub open spec fn owner_rows_fit(r: OwnerRows) -> bool {
    match r {
        OwnerRows::Project(_, p) => project_rows_fit(p),
        OwnerRows::Experiment(_, e) => charts::experiment_rows_fit(e),
    }
}

/// The comparison of all experiments of a project; there is one project.
pub fn project_charts_for(_project_id: i64, r: &ProjectRows, overlay: &UiOverlay) -> (res: Result<
    Json,
    DbError,
>)
    requires
        project_rows_fit(*r),
    ensures
        records::result_view(res) == comparison_outcome(*r, overlay@, None),
{
    project_charts(r, overlay)
}

/// The values of the list at `key`, none where there is no list.
pub open spec fn list_at(j: JsonV, key: Seq<char>) -> Seq<JsonV> {
    match json::field(j, key) {
        Some(JsonV::Array(a)) => a,
        _ => Seq::empty(),
    }
}

/// The id of a chart, where it has a 64-bit integer as its id.
pub open spec fn chart_id(chart: JsonV) -> Option<int> {
    match json::field(chart, "id"@) {
        Some(v) => json::int_of(v),
        None => None,
    }
}

/// The first chart with an id, null where there is none.
pub open spec fn chart_with_id(charts: Seq<JsonV>, id: Option<int>) -> JsonV
    decreases charts.len(),
{
    if charts.len() == 0 {
        JsonV::Null
    } else if chart_id(charts[0]) == id {
        charts[0]
    } else {
        chart_with_id(charts.drop_first(), id)
    }
}

/// A namespace with the charts themselves in the place of their ids.
pub open spec fn group_of(ns: JsonV, charts: Seq<JsonV>) -> JsonV {
    let members = match ns {
        JsonV::Object(o) => o,
        _ => Seq::empty(),
    };
    JsonV::Object(
        json::with_member(
            members,
            "charts"@,
            JsonV::Array(
                list_at(JsonV::Object(members), "charts"@).map_values(
                    |id: JsonV| chart_with_id(charts, json::int_of(id)),
                ),
            ),
        ),
    )
}

/// The namespaces of a payload with the charts themselves in the place of their ids.
pub open spec fn groups_payload(payload: JsonV) -> JsonV {
    let charts = list_at(payload, "charts"@);
    JsonV::Object(
        seq![
            (
                "groups"@,
                JsonV::Array(
                    list_at(payload, "namespaces"@).map_values(
                        |ns: JsonV| group_of(ns, charts),
                    ),
                ),
            ),
        ],
    )
}

fn copy_list_at(o: &JsonMap, key: &str) -> (r: Vec<Json>)
    ensures
        json::list_view(r) == list_at(JsonV::Object(o@), key@),
{
    match o.get(key) {
        Some(Json::Array(a)) => copy_list(a),
        _ => {
            let r: Vec<Json> = Vec::new();
            proof {
                assert(json::list_view(r) =~= Seq::empty());
            }
            r
        },
    }
}

fn find_chart(charts: &Vec<Json>, id: Option<i64>) -> (r: Json)
    ensures
        r@ == chart_with_id(
            json::list_view(*charts),
            match id {
                Some(i) => Some(i as int),
                None => None,
            },
        ),
{
    let ghost all = json::list_view(*charts);
    let ghost wanted = match id {
        Some(i) => Some(i as int),
        None => None,
    };
    let mut i: usize = 0;
    proof {
        assert(all.skip(0) =~= all);
    }
    while i < charts.len()
        invariant
            i <= charts.len(),
            all == json::list_view(*charts),
            wanted == (match id {
                Some(i) => Some(i as int),
                None => None,
            }),
            chart_with_id(all, wanted) == chart_with_id(all.skip(i as int), wanted),
        decreases charts.len() - i,
    {
        let found: Option<i64> = match charts[i].get("id") {
            Some(v) => v.as_i64(),
            None => None,
        };
        let same: bool = match (found, id) {
            (Some(a), Some(b)) => a == b,
            (None, None) => true,
            _ => false,
        };
        proof {
            assert(all.skip(i as int)[0] == charts@[i as int]@);
            assert(all.skip(i as int).drop_first() =~= all.skip(i + 1));
        }
        if same {
            return charts[i].copy();
        }
        i += 1;
    }
    Json::Null
}

fn build_group(ns: &Json, charts: &Vec<Json>) -> (r: Json)
    ensures
        r@ == group_of(ns@, json::list_view(*charts)),
{
    let mut m = match ns {
        Json::Object(o) => o.copy(),
        _ => JsonMap::new(),
    };
    let ids = copy_list_at(&m, "charts");
    let mut found: Vec<Json> = Vec::new();
    let mut i: usize = 0;
    while i < ids.len()
        invariant
            i <= ids.len(),
            found.len() == i,
            forall|j: int|
                0 <= j < i ==> (#[trigger] found@[j])@ == chart_with_id(
                    json::list_view(*charts),
                    json::int_of(ids@[j]@),
                ),
        decreases ids.len() - i,
    {
        found.push(find_chart(charts, ids[i].as_i64()));
        i += 1;
    }
    proof {
        let all = json::list_view(*charts);
        assert(json::list_view(found) =~= json::list_view(ids).map_values(
            |id: JsonV| chart_with_id(all, json::int_of(id)),
        ));
    }
    m.set("charts", Json::Array(found));
    Json::Object(m)
}

/// The namespaces of a payload with the charts themselves in the place of their ids; an id without
/// a chart becomes null.
pub fn status_groups(payload: &Json) -> (r: Json)
    ensures
        r@ == groups_payload(payload@),
{
    let (charts, namespaces) = match payload {
        Json::Object(o) => (copy_list_at(o, "charts"), copy_list_at(o, "namespaces")),
        _ => (Vec::new(), Vec::new()),
    };
    proof {
        assert(json::list_view(charts) =~= list_at(payload@, "charts"@));
        assert(json::list_view(namespaces) =~= list_at(payload@, "namespaces"@));
    }
    let mut groups: Vec<Json> = Vec::new();
    let mut i: usize = 0;
    while i < namespaces.len()
        invariant
            i <= namespaces.len(),
            groups.len() == i,
            forall|j: int|
                0 <= j < i ==> (#[trigger] groups@[j])@ == group_of(
                    namespaces@[j]@,
                    json::list_view(charts),
                ),
        decreases namespaces.len() - i,
    {
        groups.push(build_group(&namespaces[i], &charts));
        i += 1;
    }
    let ghost made = groups_payload(payload@);
    let mut m = JsonMap::new();
    m.append("groups", Json::Array(groups));
    proof {
        let all = json::list_view(charts);
        assert(json::list_view(groups) =~= json::list_view(namespaces).map_values(
            |ns: JsonV| group_of(ns, all),
        ));
        assert(m@ =~= made->Object_0);
    }
    Json::Object(m)
}

/// What the groups of the charts of an owner are, with the overlay merged in.
pub open spec fn groups_outcome(owner: Option<OwnerRows>, overlay: OverlayV) -> Result<
    Option<JsonV>,
    DbError,
> {
    match owner {
        None => Ok(None),
        Some(OwnerRows::Project(_, p)) => match comparison_outcome(p, overlay, None) {
            Ok(v) => Ok(Some(groups_payload(v))),
            Err(e) => Err(e),
        },
        Some(OwnerRows::Experiment(id, r)) => match charts::outcome_payload(
            charts::rows_outcome(id, r, overlay),
        ) {
            Ok(Some(v)) => Ok(Some(groups_payload(v))),
            Ok(None) => Ok(None),
            Err(e) => Err(e),
        },
    }
}

/// The groups of the charts of an owner, from its rows. Nothing where there is no owner, or where
/// it is an experiment that does not exist.
pub fn chart_status_groups(owner: &Option<OwnerRows>, overlay: &UiOverlay) -> (res: Result<
    Option<Json>,
    DbError,
>)
    requires
        owner is Some ==> owner_rows_fit(owner->0),
    ensures
        records::optional_result_view(res) == groups_outcome(*owner, overlay@),
{
    match owner {
        None => Ok(None),
        Some(OwnerRows::Project(id, p)) => match project_charts_for(*id, p, overlay) {
            Ok(v) => Ok(Some(status_groups(&v))),
            Err(e) => Err(e),
        },
        Some(OwnerRows::Experiment(id, r)) => match experiment_charts(*id, r, overlay) {
            Ok(Some(v)) => Ok(Some(status_groups(&v))),
            Ok(None) => Ok(None),
            Err(e) => Err(e),
        },
    }
}

} // verus!
