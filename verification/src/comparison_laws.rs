//! What the comparison of experiments shows of its rows.

use vstd::prelude::*;

use crate::charts::{self, ChartDataV, ChartV, NamespaceRowV, ProjectRows, SourceV};
use crate::codec;
use crate::comparisons::{self, OwnerRows};
use crate::json::{self, JsonV};
use crate::page_laws;
use crate::placement::{self, NamespaceV};
use crate::record_laws;
use crate::records::{self, DbError};
use crate::rows::{self, SqlValue};
use crate::seqs;
use crate::uistate::{self, OverlayV};

verus! {

// ---------------------------------- which charts are shown ----------------------------------

/// The comparison shows charts whose type, the fifth column of their row, is a text that names an
/// allowed type.
pub proof fn law_charts_of_allowed_types(values: Seq<SqlValue>, bytes: Vec<u8>)
    ensures
        values[4] == SqlValue::Text(bytes) ==> (comparisons::row_allowed(values) <==> {
            let t = codec::utf8_lossy(bytes@);
            t == "default"@ || t == "line"@ || t == "image"@ || t == "audio"@
        }),
        !(values[4] is Text) ==> !comparisons::row_allowed(values),
{
}

/// A source passes a selection exactly where its experiment is selected, and always without one.
pub proof fn law_selection(ids: Seq<i64>, s: SourceV)
    ensures
        comparisons::selected(Some(ids))(s) <==> ids.contains(s.id),
        comparisons::selected(None)(s),
{
}

/// The charts kept of some charts followed by others are those kept of the first followed by those
/// kept of the others. Of one chart all selected sources are kept, in order; the chart itself is
/// dropped where its type is not allowed, or where experiments are selected and it has no source of
/// theirs.
pub proof fn law_kept_charts(
    a: Seq<ChartDataV>,
    b: Seq<ChartDataV>,
    c: ChartDataV,
    filter: Option<Seq<i64>>,
)
    ensures
        comparisons::kept_charts(a + b, filter) == comparisons::kept_charts(a, filter)
            + comparisons::kept_charts(b, filter),
        comparisons::kept_charts(Seq::empty(), filter) == Seq::<ChartDataV>::empty(),
        !comparisons::row_allowed(c.values) ==> comparisons::kept_charts(seq![c], filter) == Seq::<
            ChartDataV,
        >::empty(),
        filter matches Some(ids) ==> (forall|j: int|
            0 <= j < c.sources.len() ==> !ids.contains((#[trigger] c.sources[j]).id))
            ==> comparisons::kept_charts(seq![c], filter) == Seq::<ChartDataV>::empty(),
        comparisons::row_allowed(c.values) && (filter matches Some(ids) ==> exists|j: int|
            0 <= j < c.sources.len() && ids.contains((#[trigger] c.sources[j]).id))
            ==> comparisons::kept_charts(seq![c], filter) == seq![
            ChartDataV {
                values: c.values,
                sources: c.sources.filter(comparisons::selected(filter)),
            },
        ],
    decreases b.len(),
{
    let one = seq![c];
    assert(one.drop_last() =~= Seq::empty());
    assert(comparisons::kept_charts(Seq::empty(), filter) =~= Seq::empty());
    let left = c.sources.filter(comparisons::selected(filter));
    seqs::lemma_filter_holds(c.sources, comparisons::selected(filter));
    if !comparisons::row_allowed(c.values) {
        assert(comparisons::kept_charts(one, filter) =~= Seq::empty());
    }
    match filter {
        Some(ids) => {
            if forall|j: int|
                0 <= j < c.sources.len() ==> !ids.contains((#[trigger] c.sources[j]).id) {
                if left.len() > 0 {
                    assert(c.sources.contains(left[0]));
                    let j = choose|j: int| 0 <= j < c.sources.len() && c.sources[j] == left[0];
                    assert(ids.contains(c.sources[j].id));
                }
                assert(comparisons::kept_charts(one, filter) =~= Seq::empty());
            } else {
                let j = choose|j: int|
                    0 <= j < c.sources.len() && ids.contains((#[trigger] c.sources[j]).id);
                seqs::lemma_filter_keeps(c.sources, comparisons::selected(filter), j);
                assert(left.len() > 0);
            }
        },
        None => {},
    }
    if comparisons::row_allowed(c.values) && (filter is None || left.len() > 0) {
        assert(comparisons::kept_charts(one, filter) =~= seq![
            ChartDataV { values: c.values, sources: left },
        ]);
    }
    if b.len() == 0 {
        assert(a + b =~= a);
        assert(comparisons::kept_charts(a + b, filter) =~= comparisons::kept_charts(a, filter)
            + comparisons::kept_charts(b, filter));
    } else {
        assert((a + b).drop_last() =~= a + b.drop_last());
        law_kept_charts(a, b.drop_last(), c, filter);
        assert(comparisons::kept_charts(a + b, filter) =~= comparisons::kept_charts(a, filter)
            + comparisons::kept_charts(b, filter));
    }
}

/// Where experiments are selected, a chart of an allowed type with a source of theirs is kept, and of
/// its sources all whose experiments are selected, in order, and no other.
pub proof fn law_selected_sources_are_kept(data: Seq<ChartDataV>, ids: Seq<i64>, k: int)
    requires
        0 <= k < data.len(),
        comparisons::row_allowed(data[k].values),
        exists|j: int|
            0 <= j < data[k].sources.len() && ids.contains((#[trigger] data[k].sources[j]).id),
    ensures
        ({
            let kept = comparisons::kept_charts(data, Some(ids));
            let i = comparisons::kept_charts(data.take(k), Some(ids)).len() as int;
            &&& i < kept.len()
            &&& kept[i].values == data[k].values
            &&& kept[i].sources == data[k].sources.filter(|s: SourceV| ids.contains(s.id))
            &&& forall|j: int|
                0 <= j < data[k].sources.len() && ids.contains((#[trigger] data[k].sources[j]).id)
                    ==> kept[i].sources.contains(data[k].sources[j])
        }),
{
    let filter = Some(ids);
    let c = data[k];
    let head = data.take(k);
    let tail = data.skip(k + 1);
    assert(data =~= head + (seq![c] + tail));
    law_kept_charts(head, seq![c] + tail, c, filter);
    law_kept_charts(seq![c], tail, c, filter);
    let kept = comparisons::kept_charts(data, filter);
    let i = comparisons::kept_charts(head, filter).len() as int;
    assert(kept[i] == comparisons::kept_charts(seq![c], filter)[0]);
    assert(comparisons::selected(filter) =~= (|s: SourceV| ids.contains(s.id)));
    assert forall|j: int|
        0 <= j < c.sources.len() && ids.contains(
            (#[trigger] c.sources[j]).id,
        ) implies kept[i].sources.contains(c.sources[j]) by {
        seqs::lemma_filter_keeps(c.sources, comparisons::selected(filter), j);
    }
}

/// Without a selection a chart of an allowed type is kept with all its sources.
pub proof fn law_all_sources_are_kept(data: Seq<ChartDataV>, k: int)
    requires
        0 <= k < data.len(),
        comparisons::row_allowed(data[k].values),
    ensures
        ({
            let kept = comparisons::kept_charts(data, None);
            let i = comparisons::kept_charts(data.take(k), None).len() as int;
            i < kept.len() && kept[i].values == data[k].values && kept[i].sources == data[k].sources
        }),
{
    let c = data[k];
    let head = data.take(k);
    let tail = data.skip(k + 1);
    assert(data =~= head + (seq![c] + tail));
    law_kept_charts(head, seq![c] + tail, c, None);
    law_kept_charts(seq![c], tail, c, None);
    seqs::lemma_filter_all(c.sources, comparisons::selected(None));
    let i = comparisons::kept_charts(head, None).len() as int;
    assert(comparisons::kept_charts(data, None)[i] == comparisons::kept_charts(seq![c], None)[0]);
}

// ---------------------------------- the map of sources ----------------------------------

/// The map of sources that all charts share has for each name the id of the last source with that
/// name in the last chart that has one.
pub proof fn law_shared_map(kept: Seq<ChartDataV>, i: int, j: int)
    requires
        0 <= i < kept.len(),
        0 <= j < kept[i].sources.len(),
        forall|m: int|
            j < m < kept[i].sources.len() ==> (#[trigger] kept[i].sources[m]).name
                != kept[i].sources[j].name,
        forall|n: int, m: int|
            i < n < kept.len() && 0 <= m < kept[n].sources.len() ==> (
            #[trigger] kept[n].sources[m]).name != kept[i].sources[j].name,
    ensures
        json::member(comparisons::shared_map(kept), kept[i].sources[j].name) == Some(
            JsonV::Int(kept[i].sources[j].id as int),
        ),
    decreases kept.len(),
{
    let t = kept.drop_last();
    let last = kept.last().sources;
    let name = kept[i].sources[j].name;
    let before = comparisons::shared_map(t);
    if i < t.len() {
        assert(t[i] == kept[i]);
        assert forall|n: int, m: int| i < n < t.len() && 0 <= m < t[n].sources.len() implies (
        #[trigger] t[n].sources[m]).name != t[i].sources[j].name by {
            assert(t[n] == kept[n]);
            assert(kept[n].sources[m].name != name);
        }
        law_shared_map(t, i, j);
        assert forall|m: int| 0 <= m < last.len() implies (#[trigger] last[m]).name != name by {
            assert(kept[kept.len() - 1].sources[m].name != name);
        }
        page_laws::law_source_map(before, last, -1, name);
    } else {
        assert(kept[i].sources == last);
        page_laws::law_source_map(before, last, j, name);
    }
}

/// The shared map has no names but those of sources.
pub proof fn law_shared_map_has_only_sources(kept: Seq<ChartDataV>, name: Seq<char>)
    requires
        forall|n: int, m: int|
            0 <= n < kept.len() && 0 <= m < kept[n].sources.len() ==> (
            #[trigger] kept[n].sources[m]).name != name,
    ensures
        json::member(comparisons::shared_map(kept), name) is None,
    decreases kept.len(),
{
    if kept.len() == 0 {
        json::lemma_find_key_is(comparisons::shared_map(kept), name, 0);
    } else {
        let t = kept.drop_last();
        let last = kept.last().sources;
        assert forall|n: int, m: int| 0 <= n < t.len() && 0 <= m < t[n].sources.len() implies (
        #[trigger] t[n].sources[m]).name != name by {
            assert(t[n] == kept[n]);
            assert(kept[n].sources[m].name != name);
        }
        law_shared_map_has_only_sources(t, name);
        assert forall|m: int| 0 <= m < last.len() implies (#[trigger] last[m]).name != name by {
            assert(kept[kept.len() - 1].sources[m].name != name);
        }
        page_laws::law_source_map(comparisons::shared_map(t), last, -1, name);
    }
}

// ---------------------------------- the page ----------------------------------

/// The comparison has one chart for each chart that is kept, in order. All of them carry the one map
/// of sources; all else is as the chart of the project has it.
pub proof fn law_charts_of_the_comparison(
    project: Seq<SqlValue>,
    data: Seq<ChartDataV>,
    namespaces: Seq<NamespaceRowV>,
    overlay: OverlayV,
    filter: Option<Seq<i64>>,
    i: int,
    key: Seq<char>,
)
    ensures
        ({
            let kept = comparisons::kept_charts(data, filter);
            let shown = comparisons::comparison_lists(
                project,
                data,
                namespaces,
                overlay,
                filter,
            ).0;
            &&& shown.len() == kept.len()
            &&& 0 <= i < kept.len() ==> {
                &&& json::field(shown[i], "source_map"@) == Some(
                    JsonV::Object(comparisons::shared_map(kept)),
                )
                &&& key != "source_map"@ ==> json::field(shown[i], key) == json::member(
                    charts::project_chart(
                        kept[i],
                        overlay,
                        records::project_json(project),
                    ).members,
                    key,
                )
            }
        }),
{
    let kept = comparisons::kept_charts(data, filter);
    if 0 <= i < kept.len() {
        let c = charts::project_chart(kept[i], overlay, records::project_json(project));
        json::lemma_member_set(
            c.members,
            "source_map"@,
            JsonV::Object(comparisons::shared_map(kept)),
            key,
        );
    }
}

/// In the comparison of selected experiments, a chart of an allowed type with a source of theirs is on
/// the page, names all its sources whose experiments are selected, in order, and has each of these
/// names in its map of sources.
pub proof fn law_compared_sources_are_shown(
    project: Seq<SqlValue>,
    data: Seq<ChartDataV>,
    namespaces: Seq<NamespaceRowV>,
    overlay: OverlayV,
    ids: Seq<i64>,
    k: int,
    j: int,
)
    requires
        0 <= k < data.len(),
        comparisons::row_allowed(data[k].values),
        0 <= j < data[k].sources.len(),
        ids.contains(data[k].sources[j].id),
    ensures
        ({
            let shown = comparisons::comparison_lists(
                project,
                data,
                namespaces,
                overlay,
                Some(ids),
            ).0;
            let i = comparisons::kept_charts(data.take(k), Some(ids)).len() as int;
            let chosen = data[k].sources.filter(|s: SourceV| ids.contains(s.id));
            &&& i < shown.len()
            &&& json::field(shown[i], "source"@) matches Some(JsonV::Array(names)) && {
                &&& names.len() == chosen.len()
                &&& names.contains(JsonV::Str(data[k].sources[j].name))
                &&& forall|m: int|
                    0 <= m < names.len() ==> #[trigger] names[m] == JsonV::Str(chosen[m].name)
            }
            &&& json::field(shown[i], "source_map"@) matches Some(map) && json::field(
                map,
                data[k].sources[j].name,
            ) is Some
        }),
{
    page_laws::lemma_member_names();
    law_selected_sources_are_kept(data, ids, k);
    let kept = comparisons::kept_charts(data, Some(ids));
    let i = comparisons::kept_charts(data.take(k), Some(ids)).len() as int;
    let chosen = kept[i].sources;
    law_charts_of_the_comparison(project, data, namespaces, overlay, Some(ids), i, "source"@);
    let proj = records::project_json(project);
    page_laws::law_chart_of_the_project(kept[i], overlay, proj, "id"@, 0);
    let names = charts::source_names(chosen)->Array_0;
    lemma_source_names(kept[i], overlay, proj);
    assert(chosen.contains(data[k].sources[j]));
    let m = choose|m: int| 0 <= m < chosen.len() && chosen[m] == data[k].sources[j];
    assert(names[m] == JsonV::Str(data[k].sources[j].name));
    crate::chart_laws::law_shared_map_is_the_union(kept, i, m);
}

proof fn lemma_source_names(c: ChartDataV, overlay: OverlayV, project: JsonV)
    ensures
        json::member(charts::project_chart(c, overlay, project).members, "source"@) == Some(
            charts::source_names(c.sources),
        ),
{
    let made = charts::project_chart(c, overlay, project);
    page_laws::law_chart_of_the_project(c, overlay, project, "id"@, 0);
    let names = json::member(made.members, "source"@)->0->Array_0;
    assert forall|j: int| 0 <= j < names.len() implies names[j] == JsonV::Str(
        c.sources[j].name,
    ) by {
        page_laws::law_chart_of_the_project(c, overlay, project, "id"@, j);
    }
    assert(names =~= charts::source_names(c.sources)->Array_0);
}

/// The namespaces of the comparison come from some rows followed by others in their order. A row gives
/// a namespace where it has a chart to show: one of an allowed type, and where experiments are selected
/// one that is on the page.
pub proof fn law_namespaces_of_the_comparison(
    a: Seq<NamespaceRowV>,
    b: Seq<NamespaceRowV>,
    n: NamespaceRowV,
    list: Seq<ChartV>,
    filtered: bool,
    overlay: OverlayV,
    project: JsonV,
)
    ensures
        comparisons::project_namespaces(a + b, list, filtered, overlay, project)
            == comparisons::project_namespaces(a, list, filtered, overlay, project)
            + comparisons::project_namespaces(b, list, filtered, overlay, project),
        comparisons::project_namespaces(Seq::empty(), list, filtered, overlay, project) == Seq::<
            NamespaceV,
        >::empty(),
        ({
            let ids = charts::namespace_ids(n.charts, true).filter(
                comparisons::shown_in(list, filtered),
            );
            let made = comparisons::project_namespaces(seq![n], list, filtered, overlay, project);
            &&& ids.len() == 0 ==> made.len() == 0
            &&& ids.len() > 0 ==> made.len() == 1 && made[0].charts == ids && made[0].fields
                == charts::namespace_fields(n.values, overlay, JsonV::Null, project)
        }),
    decreases b.len(),
{
    let one = seq![n];
    assert(one.drop_last() =~= Seq::empty());
    assert(comparisons::project_namespaces(Seq::empty(), list, filtered, overlay, project)
        =~= Seq::empty());
    if b.len() == 0 {
        assert(a + b =~= a);
        assert(comparisons::project_namespaces(a + b, list, filtered, overlay, project)
            =~= comparisons::project_namespaces(a, list, filtered, overlay, project)
            + comparisons::project_namespaces(b, list, filtered, overlay, project));
    } else {
        assert((a + b).drop_last() =~= a + b.drop_last());
        law_namespaces_of_the_comparison(a, b.drop_last(), n, list, filtered, overlay, project);
        assert(comparisons::project_namespaces(a + b, list, filtered, overlay, project)
            =~= comparisons::project_namespaces(a, list, filtered, overlay, project)
            + comparisons::project_namespaces(b, list, filtered, overlay, project));
    }
}

/// An id may be shown where nothing is selected, or where a chart of the page has it.
pub proof fn law_ids_that_may_be_shown(list: Seq<ChartV>, id: i64, k: int)
    ensures
        comparisons::shown_in(list, false)(id),
        0 <= k < list.len() && list[k].id == id ==> comparisons::shown_in(list, true)(id),
        (forall|j: int| 0 <= j < list.len() ==> (#[trigger] list[j]).id != id)
            ==> !comparisons::shown_in(list, true)(id),
{
}

proof fn lemma_namespace_id(c: Seq<(i64, Seq<char>)>, j: int)
    requires
        0 <= j < c.len(),
        charts::allowed_type(c[j].1),
    ensures
        charts::namespace_ids(c, true).contains(c[j].0),
{
    let head = c.take(j);
    let tail = c.skip(j + 1);
    assert(c =~= head + (seq![c[j]] + tail));
    page_laws::law_ids_of_a_namespace(head, seq![c[j]] + tail, c[j], true);
    page_laws::law_ids_of_a_namespace(seq![c[j]], tail, c[j], true);
    let ids = charts::namespace_ids(c, true);
    assert(ids[charts::namespace_ids(head, true).len() as int] == c[j].0);
}

/// Every chart of a row that is of an allowed type, on the page where experiments are selected, and
/// has no status but 0 is in a namespace that the comparison shows, under the id and the name of the
/// row.
pub proof fn law_every_compared_chart_is_in_its_namespace(
    project: Seq<SqlValue>,
    data: Seq<ChartDataV>,
    namespaces: Seq<NamespaceRowV>,
    overlay: OverlayV,
    filter: Option<Seq<i64>>,
    i: int,
    j: int,
)
    requires
        0 <= i < namespaces.len(),
        namespaces[i].values.len() == rows::namespace_columns().len(),
        namespaces[i].values[0] is Integer,
        0 <= j < namespaces[i].charts.len(),
        charts::allowed_type(namespaces[i].charts[j].1),
        filter is Some ==> exists|k: int|
            0 <= k < comparisons::kept_charts(data, filter).len() && charts::base_chart(
                (#[trigger] comparisons::kept_charts(data, filter)[k]).values,
                overlay,
            ).id == namespaces[i].charts[j].0,
        forall|k: int|
            0 <= k < comparisons::kept_charts(data, filter).len() ==> {
                let b = charts::base_chart(
                    (#[trigger] comparisons::kept_charts(data, filter)[k]).values,
                    overlay,
                );
                b.id == namespaces[i].charts[j].0 ==> b.status == 0
            },
    ensures
        ({
            let shown = comparisons::comparison_lists(
                project,
                data,
                namespaces,
                overlay,
                filter,
            ).1;
            exists|n: int|
                {
                    &&& 0 <= n < shown.len()
                    &&& json::field(#[trigger] shown[n], "id"@) == Some(
                        rows::sql_json(namespaces[i].values[0]),
                    )
                    &&& json::field(shown[n], "name"@) == Some(
                        rows::sql_json(namespaces[i].values[1]),
                    )
                    &&& json::field(shown[n], "charts"@) matches Some(JsonV::Array(ids))
                        && ids.contains(JsonV::Int(namespaces[i].charts[j].0 as int))
                }
        }),
{
    let cid = namespaces[i].charts[j].0;
    let row = namespaces[i];
    let proj = records::project_json(project);
    let nested = records::without_charts(proj);
    let kept = comparisons::kept_charts(data, filter);
    let list = comparisons::comparison_list(kept, overlay, proj);
    let meta = charts::chart_meta(list);
    let spaces = comparisons::project_namespaces(
        namespaces,
        list,
        filter is Some,
        overlay,
        nested,
    );
    let pid = json::int_at(proj, "id"@, 1) as i64;
    let pinned_opened = uistate::overridden(
        overlay.project_pinned_opened,
        pid,
        json::value_or(json::field(proj, "pinned_opened"@), JsonV::Int(1)),
    );
    let hidden_opened = uistate::overridden(
        overlay.project_hidden_opened,
        pid,
        json::value_or(json::field(proj, "hidden_opened"@), JsonV::Int(0)),
    );
    let shown = comparisons::comparison_lists(project, data, namespaces, overlay, filter).1;
    let keep = comparisons::shown_in(list, filter is Some);
    let all = charts::namespace_ids(row.charts, true);
    lemma_namespace_id(row.charts, j);
    if filter is Some {
        let k = choose|k: int|
            0 <= k < kept.len() && charts::base_chart((#[trigger] kept[k]).values, overlay).id
                == cid;
        page_laws::law_chart_of_the_project(kept[k], overlay, proj, "id"@, 0);
        assert(list[k].id == cid);
    }
    let p = choose|p: int| 0 <= p < all.len() && all[p] == cid;
    seqs::lemma_filter_keeps(all, keep, p);
    let own = all.filter(keep);
    assert(own.contains(cid));
    let head = namespaces.take(i);
    let tail = namespaces.skip(i + 1);
    assert(namespaces =~= head + (seq![row] + tail));
    law_namespaces_of_the_comparison(
        head,
        seq![row] + tail,
        row,
        list,
        filter is Some,
        overlay,
        nested,
    );
    law_namespaces_of_the_comparison(seq![row], tail, row, list, filter is Some, overlay, nested);
    let at = comparisons::project_namespaces(
        head,
        list,
        filter is Some,
        overlay,
        nested,
    ).len() as int;
    assert(spaces[at].charts == own);
    assert(spaces[at].fields == charts::namespace_fields(
        row.values,
        overlay,
        JsonV::Null,
        nested,
    ));
    if meta.len() == 0 {
        page_laws::law_namespaces_without_charts(
            meta,
            spaces,
            JsonV::Null,
            proj,
            pinned_opened,
            hidden_opened,
            at,
        );
        page_laws::lemma_shown_row(row, overlay, JsonV::Null, nested, spaces[at]);
        let u = choose|u: int| 0 <= u < own.len() && own[u] == cid;
        let ids = json::integers(own)->Array_0;
        assert(ids[u] == JsonV::Int(cid as int));
        assert(shown[at] == placement::namespace_json(spaces[at]));
    } else {
        assert forall|k: int| 0 <= k < meta.len() && (#[trigger] meta[k]).0 == cid implies meta[k].1
            == 0 by {
            page_laws::law_chart_of_the_project(kept[k], overlay, proj, "id"@, 0);
            let b = charts::base_chart(kept[k].values, overlay);
            assert(meta[k].0 == b.id && meta[k].1 == b.status);
        }
        assert(!placement::is_moved(meta, cid));
        placement::law_normal_charts_stay(meta, spaces, at, cid);
        let left = placement::remaining(meta, spaces);
        let m = choose|m: int|
            0 <= m < left.len() && (#[trigger] left[m]).fields == spaces[at].fields
                && left[m].charts.contains(cid);
        page_laws::law_namespaces_of_a_page(
            meta,
            spaces,
            JsonV::Null,
            proj,
            pinned_opened,
            hidden_opened,
            m,
        );
        let first = if placement::ids_with_status(meta, 1).len() > 0 {
            1int
        } else {
            0int
        };
        page_laws::lemma_shown_row(row, overlay, JsonV::Null, nested, left[m]);
        let u = choose|u: int| 0 <= u < left[m].charts.len() && left[m].charts[u] == cid;
        let ids = json::integers(left[m].charts)->Array_0;
        assert(ids[u] == JsonV::Int(cid as int));
        assert(shown[first + m] == placement::namespace_json(left[m]));
    }
}

/// A pinned chart of the comparison is in its first namespace, a hidden one in its last, and these are
/// open as it was set for the project or as its row says.
pub proof fn law_moved_charts_of_the_comparison(
    project: Seq<SqlValue>,
    data: Seq<ChartDataV>,
    namespaces: Seq<NamespaceRowV>,
    overlay: OverlayV,
    filter: Option<Seq<i64>>,
    k: int,
    pid: i64,
)
    requires
        project.len() == rows::project_columns().len(),
        project[0] == SqlValue::Integer(pid),
        comparisons::kept_charts(data, filter).len() <= usize::MAX,
        0 <= k < comparisons::kept_charts(data, filter).len(),
        comparisons::project_namespaces(
            namespaces,
            comparisons::comparison_list(
                comparisons::kept_charts(data, filter),
                overlay,
                records::project_json(project),
            ),
            filter is Some,
            overlay,
            records::without_charts(records::project_json(project)),
        ).len() > 0,
    ensures
        ({
            let b = charts::base_chart(comparisons::kept_charts(data, filter)[k].values, overlay);
            let shown = comparisons::comparison_lists(
                project,
                data,
                namespaces,
                overlay,
                filter,
            ).1;
            &&& b.status == 1 ==> {
                &&& json::field(shown[0], "id"@) == Some(JsonV::Int(-1))
                &&& json::field(shown[0], "opened"@) == Some(
                    if overlay.project_pinned_opened.contains_key(pid) {
                        JsonV::Int(overlay.project_pinned_opened[pid] as int)
                    } else {
                        rows::sql_json(project[6])
                    },
                )
                &&& json::field(shown[0], "charts"@) matches Some(JsonV::Array(ids))
                    && ids.contains(JsonV::Int(b.id as int))
            }
            &&& b.status == -1 ==> {
                &&& json::field(shown.last(), "id"@) == Some(JsonV::Int(-2))
                &&& json::field(shown.last(), "opened"@) == Some(
                    if overlay.project_hidden_opened.contains_key(pid) {
                        JsonV::Int(overlay.project_hidden_opened[pid] as int)
                    } else {
                        rows::sql_json(project[7])
                    },
                )
                &&& json::field(shown.last(), "charts"@) matches Some(JsonV::Array(ids))
                    && ids.contains(JsonV::Int(b.id as int))
            }
        }),
{
    let proj = records::project_json(project);
    let nested = records::without_charts(proj);
    let kept = comparisons::kept_charts(data, filter);
    let list = comparisons::comparison_list(kept, overlay, proj);
    let meta = charts::chart_meta(list);
    let spaces = comparisons::project_namespaces(
        namespaces,
        list,
        filter is Some,
        overlay,
        nested,
    );
    record_laws::law_project_columns_are_distinct();
    rows::law_columns_are_read_back(rows::project_columns(), project, 0);
    rows::law_columns_are_read_back(rows::project_columns(), project, 6);
    rows::law_columns_are_read_back(rows::project_columns(), project, 7);
    let pinned_opened = uistate::overridden(
        overlay.project_pinned_opened,
        pid,
        rows::sql_json(project[6]),
    );
    let hidden_opened = uistate::overridden(
        overlay.project_hidden_opened,
        pid,
        rows::sql_json(project[7]),
    );
    page_laws::law_chart_of_the_project(kept[k], overlay, proj, "id"@, 0);
    let b = charts::base_chart(kept[k].values, overlay);
    assert(meta[k].0 == b.id && meta[k].1 == b.status);
    page_laws::law_namespaces_of_a_page(
        meta,
        spaces,
        JsonV::Null,
        proj,
        pinned_opened,
        hidden_opened,
        0,
    );
    page_laws::lemma_moved(meta, k, 1);
    page_laws::lemma_moved(meta, k, -1);
}

/// The comparison has the payload of its charts and namespaces, from the rows of the project; without
/// a project it fails.
pub proof fn law_outcome_of_the_comparison(
    r: ProjectRows,
    overlay: OverlayV,
    filter: Option<Seq<i64>>,
)
    ensures
        r.project is None ==> comparisons::comparison_outcome(r, overlay, filter) == Err::<
            JsonV,
            DbError,
        >(DbError::ProjectNotFound),
        r.project matches Some(p) ==> (comparisons::comparison_outcome(r, overlay, filter) matches Ok(
            page,
        ) && {
            let lists = comparisons::comparison_lists(
                p@,
                charts::project_data(r.charts@),
                charts::namespace_rows_view(r.namespaces@),
                overlay,
                filter,
            );
            &&& json::field(page, "charts"@) == Some(JsonV::Array(lists.0))
            &&& json::field(page, "namespaces"@) == Some(JsonV::Array(lists.1))
        }),
{
    match r.project {
        Some(p) => {
            page_laws::law_payload(
                comparisons::comparison_lists(
                    p@,
                    charts::project_data(r.charts@),
                    charts::namespace_rows_view(r.namespaces@),
                    overlay,
                    filter,
                ),
            );
        },
        None => {},
    }
}

// ---------------------------------- groups of a status change ----------------------------------

/// The id of a chart is the integer under `id`; a chart without such an integer has none.
pub proof fn law_id_of_a_chart(chart: JsonV, n: i64)
    ensures
        json::field(chart, "id"@) == Some(JsonV::Int(n as int)) ==> comparisons::chart_id(chart)
            == Some(n as int),
        json::field(chart, "id"@) is None ==> comparisons::chart_id(chart) is None,
        (json::field(chart, "id"@) matches Some(v) && v !is Int) ==> comparisons::chart_id(
            chart,
        ) is None,
{
}

/// The chart under an id is the first one on the page whose `id` is that integer.
pub proof fn law_first_chart_with_an_id(list: Seq<JsonV>, n: i64, k: int)
    requires
        0 <= k < list.len(),
        json::field(list[k], "id"@) == Some(JsonV::Int(n as int)),
        forall|i: int|
            0 <= i < k ==> json::field(#[trigger] list[i], "id"@) != Some(JsonV::Int(n as int)),
    ensures
        comparisons::chart_with_id(list, Some(n as int)) == list[k],
    decreases list.len(),
{
    if k > 0 {
        let rest = list.drop_first();
        assert(json::field(list[0], "id"@) != Some(JsonV::Int(n as int)));
        assert forall|i: int| 0 <= i < k - 1 implies json::field(#[trigger] rest[i], "id"@) != Some(
            JsonV::Int(n as int),
        ) by {
            assert(rest[i] == list[i + 1]);
        }
        law_first_chart_with_an_id(rest, n, k - 1);
    }
}

/// A group is its namespace with each chart id replaced by the first chart that has it, in order, and
/// with all other members as they were.
pub proof fn law_group_of_a_namespace(
    members: Seq<(Seq<char>, JsonV)>,
    list: Seq<JsonV>,
    ids: Seq<JsonV>,
    i: int,
    key: Seq<char>,
)
    requires
        json::member(members, "charts"@) == Some(JsonV::Array(ids)),
    ensures
        ({
            let g = comparisons::group_of(JsonV::Object(members), list);
            &&& key != "charts"@ ==> json::field(g, key) == json::member(members, key)
            &&& json::field(g, "charts"@) matches Some(JsonV::Array(found)) && {
                &&& found.len() == ids.len()
                &&& 0 <= i < ids.len() ==> found[i] == comparisons::chart_with_id(
                    list,
                    json::int_of(ids[i]),
                )
            }
        }),
{
    let found = JsonV::Array(
        comparisons::list_at(JsonV::Object(members), "charts"@).map_values(
            |id: JsonV| comparisons::chart_with_id(list, json::int_of(id)),
        ),
    );
    json::lemma_member_set(members, "charts"@, found, key);
}

/// The groups that answer a change are one for each namespace of the page, in order.
pub proof fn law_groups_of_a_page(list: Seq<JsonV>, spaces: Seq<JsonV>, i: int)
    ensures
        json::field(
            comparisons::groups_payload(charts::charts_payload((list, spaces))),
            "groups"@,
        ) matches Some(JsonV::Array(groups)) && {
            &&& groups.len() == spaces.len()
            &&& 0 <= i < spaces.len() ==> groups[i] == comparisons::group_of(spaces[i], list)
        },
{
    let page = charts::charts_payload((list, spaces));
    page_laws::law_payload((list, spaces));
    let o = comparisons::groups_payload(page)->Object_0;
    json::lemma_find_key_is(o, "groups"@, 0);
}

/// The groups are those of the page of the owner: of the comparison of all experiments, or of the
/// experiment. There are none without an owner, or where the experiment does not exist.
pub proof fn law_groups_of_an_owner(owner: OwnerRows, overlay: OverlayV)
    ensures
        comparisons::groups_outcome(None, overlay) == Ok::<Option<JsonV>, DbError>(None),
        owner matches OwnerRows::Project(_, r) ==> comparisons::groups_outcome(
            Some(owner),
            overlay,
        ) == (match comparisons::comparison_outcome(r, overlay, None) {
            Ok(page) => Ok::<Option<JsonV>, DbError>(Some(comparisons::groups_payload(page))),
            Err(e) => Err(e),
        }),
        owner matches OwnerRows::Experiment(id, r) ==> (r.experiment is None
            ==> comparisons::groups_outcome(Some(owner), overlay) == Ok::<Option<JsonV>, DbError>(
            None,
        )),
        owner matches OwnerRows::Experiment(id, r) ==> (r.experiment is Some && r.project is Some
            ==> comparisons::groups_outcome(Some(owner), overlay) == Ok::<Option<JsonV>, DbError>(
            Some(
                comparisons::groups_payload(
                    charts::charts_payload(
                        charts::experiment_lists(
                            id,
                            r.experiment->0@,
                            r.project->0@,
                            charts::experiment_data(r.charts@, id),
                            charts::namespace_rows_view(r.namespaces@),
                            overlay,
                        ),
                    ),
                ),
            ),
        )),
{
}

} // verus!
