//! The charts of one experiment.

use vstd::prelude::*;

use crate::codec::{self, parse_json};
use crate::json::{self, Json, JsonMap, JsonV};
use crate::placement::{self, Namespace, NamespaceV, apply_pinned_hidden};
use crate::records::{self, DbError, experiment_full, nullify_charts, project_dict};
use crate::rows::{self, SqlValue, chart_base_cols, namespace_cols, row_object};
use crate::text::{self, same_text};
use crate::uistate::{self, OverlayV, UiOverlay};

verus! {

// ---------------------------------- rows ----------------------------------

/// A tag that a chart of one experiment draws, with the text of its error.
#[derive(Debug, PartialEq)]
pub struct TagSource {
    pub name: String,
    pub error: Option<String>,
}

/// An experiment that a chart of the project draws, with the text of its error.
#[derive(Debug, PartialEq)]
pub struct RunSource {
    pub name: String,
    pub id: i64,
    pub error: Option<String>,
}

/// A chart of one experiment.
#[derive(Debug, PartialEq)]
pub struct ExperimentChartRow {
    pub values: Vec<SqlValue>,
    pub sources: Vec<TagSource>,
}

/// A chart of the project.
#[derive(Debug, PartialEq)]
pub struct ProjectChartRow {
    pub values: Vec<SqlValue>,
    pub sources: Vec<RunSource>,
}

/// A namespace with the ids and types of its charts, in display order.
#[derive(Debug, PartialEq)]
pub struct NamespaceRow {
    pub values: Vec<SqlValue>,
    pub charts: Vec<(i64, String)>,
}

/// The rows that the charts of one experiment are made of.
#[derive(Debug, PartialEq)]
pub struct ExperimentRows {
    pub experiment: Option<Vec<SqlValue>>,
    pub project: Option<Vec<SqlValue>>,
    pub charts: Vec<ExperimentChartRow>,
    pub namespaces: Vec<NamespaceRow>,
}

/// The rows that the charts of the project are made of.
#[derive(Debug, PartialEq)]
pub struct ProjectRows {
    pub project: Option<Vec<SqlValue>>,
    pub charts: Vec<ProjectChartRow>,
    pub namespaces: Vec<NamespaceRow>,
}

/// A source of a chart: its name, the experiment it belongs to, and its error, if it has one.
#[derive(Debug, PartialEq)]
pub struct Source {
    pub name: String,
    pub id: i64,
    pub error: Option<Json>,
}

/// A chart row with its sources.
#[derive(Debug, PartialEq)]
pub struct ChartData<'a> {
    pub values: &'a Vec<SqlValue>,
    pub sources: Vec<Source>,
}

/// What a source says.
pub struct SourceV {
    pub name: Seq<char>,
    pub id: i64,
    pub error: Option<JsonV>,
}

/// What a chart row and its sources say.
pub struct ChartDataV {
    pub values: Seq<SqlValue>,
    pub sources: Seq<SourceV>,
}

/// What a namespace row says.
pub struct NamespaceRowV {
    pub values: Seq<SqlValue>,
    pub charts: Seq<(i64, Seq<char>)>,
}

impl View for Source {
    type V = SourceV;

    open spec fn view(&self) -> SourceV {
        SourceV { name: self.name@, id: self.id, error: codec::optional(self.error) }
    }
}

/// What the sources of a list say.
pub open spec fn sources_view(s: Seq<Source>) -> Seq<SourceV> {
    s.map_values(|x: Source| x@)
}

impl<'a> View for ChartData<'a> {
    type V = ChartDataV;

    open spec fn view(&self) -> ChartDataV {
        ChartDataV { values: self.values@, sources: sources_view(self.sources@) }
    }
}

/// What the charts of a list say.
pub open spec fn charts_view<'a>(s: Seq<ChartData<'a>>) -> Seq<ChartDataV> {
    s.map_values(|x: ChartData<'a>| x@)
}

impl View for NamespaceRow {
    type V = NamespaceRowV;

    open spec fn view(&self) -> NamespaceRowV {
        NamespaceRowV {
            values: self.values@,
            charts: self.charts@.map_values(|c: (i64, String)| (c.0, c.1@)),
        }
    }
}

/// What the namespaces of a list say.
pub open spec fn namespace_rows_view(s: Seq<NamespaceRow>) -> Seq<NamespaceRowV> {
    s.map_values(|x: NamespaceRow| x@)
}

/// Whether every chart row has a value for each column.
pub open spec fn chart_rows_fit<'a>(s: Seq<ChartData<'a>>) -> bool {
    forall|i: int|
        0 <= i < s.len() ==> (#[trigger] s[i]).values.len() == rows::chart_columns().len()
}

/// Whether every namespace row has a value for each column.
pub open spec fn namespace_rows_fit(s: Seq<NamespaceRow>) -> bool {
    forall|i: int|
        0 <= i < s.len() ==> (#[trigger] s[i]).values.len() == rows::namespace_columns().len()
}

// ---------------------------------- sources ----------------------------------

/// The error that a text says: nothing where the text is missing, empty or no JSON document.
pub open spec fn source_error(error: Option<Seq<char>>) -> Option<JsonV> {
    match error {
        Some(e) => if e.len() == 0 {
            None
        } else {
            codec::json_document(e)
        },
        None => None,
    }
}

/// The error that a text says.
pub fn read_error(error: &Option<String>) -> (r: Option<Json>)
    ensures
        codec::optional(r) == source_error(text::optional_text(*error)),
{
    match error {
        Some(e) => if e.as_str().is_empty() {
            None
        } else {
            parse_json(e.as_str())
        },
        None => None,
    }
}

/// What a tag is as a source of a chart of the experiment `id`.
pub open spec fn tag_source(s: TagSource, id: i64) -> SourceV {
    SourceV { name: s.name@, id, error: source_error(text::optional_text(s.error)) }
}

/// What an experiment is as a source.
pub open spec fn run_source(s: RunSource) -> SourceV {
    SourceV { name: s.name@, id: s.id, error: source_error(text::optional_text(s.error)) }
}

/// The charts of the experiment `id` with their sources.
pub open spec fn experiment_data(s: Seq<ExperimentChartRow>, id: i64) -> Seq<ChartDataV> {
    s.map_values(
        |c: ExperimentChartRow|
            ChartDataV {
                values: c.values@,
                sources: c.sources@.map_values(|x: TagSource| tag_source(x, id)),
            },
    )
}

/// The charts of the project with their sources.
pub open spec fn project_data(s: Seq<ProjectChartRow>) -> Seq<ChartDataV> {
    s.map_values(
        |c: ProjectChartRow|
            ChartDataV {
                values: c.values@,
                sources: c.sources@.map_values(|x: RunSource| run_source(x)),
            },
    )
}

fn read_tag_sources(list: &Vec<TagSource>, id: i64) -> (r: Vec<Source>)
    ensures
        sources_view(r@) == list@.map_values(|x: TagSource| tag_source(x, id)),
{
    let mut r: Vec<Source> = Vec::new();
    let mut i: usize = 0;
    while i < list.len()
        invariant
            i <= list.len(),
            r.len() == i,
            forall|j: int| 0 <= j < i ==> (#[trigger] r@[j])@ == tag_source(list@[j], id),
        decreases list.len() - i,
    {
        let s = &list[i];
        r.push(Source { name: s.name.clone(), id, error: read_error(&s.error) });
        i += 1;
    }
    proof {
        assert(sources_view(r@) =~= list@.map_values(|x: TagSource| tag_source(x, id)));
    }
    r
}

pub(crate) fn read_run_sources(list: &Vec<RunSource>) -> (r: Vec<Source>)
    ensures
        sources_view(r@) == list@.map_values(|x: RunSource| run_source(x)),
{
    let mut r: Vec<Source> = Vec::new();
    let mut i: usize = 0;
    while i < list.len()
        invariant
            i <= list.len(),
            r.len() == i,
            forall|j: int| 0 <= j < i ==> (#[trigger] r@[j])@ == run_source(list@[j]),
        decreases list.len() - i,
    {
        let s = &list[i];
        r.push(Source { name: s.name.clone(), id: s.id, error: read_error(&s.error) });
        i += 1;
    }
    proof {
        assert(sources_view(r@) =~= list@.map_values(|x: RunSource| run_source(x)));
    }
    r
}

/// The names of sources.
pub open spec fn source_names(s: Seq<SourceV>) -> JsonV {
    JsonV::Array(s.map_values(|x: SourceV| JsonV::Str(x.name)))
}

/// The members `o` with the experiment of each source under its name.
pub open spec fn with_sources(o: Seq<(Seq<char>, JsonV)>, s: Seq<SourceV>) -> Seq<
    (Seq<char>, JsonV),
>
    decreases s.len(),
{
    if s.len() == 0 {
        o
    } else {
        json::with_member(
            with_sources(o, s.drop_last()),
            s.last().name,
            JsonV::Int(s.last().id as int),
        )
    }
}

/// The errors of sources under their names.
pub open spec fn source_errors(s: Seq<SourceV>) -> Seq<(Seq<char>, JsonV)>
    decreases s.len(),
{
    if s.len() == 0 {
        Seq::empty()
    } else {
        match s.last().error {
            Some(e) => json::with_member(source_errors(s.drop_last()), s.last().name, e),
            None => source_errors(s.drop_last()),
        }
    }
}

fn names_json(s: &Vec<Source>) -> (r: Json)
    ensures
        r@ == source_names(sources_view(s@)),
{
    let mut a: Vec<Json> = Vec::new();
    let mut i: usize = 0;
    while i < s.len()
        invariant
            i <= s.len(),
            a.len() == i,
            forall|j: int| 0 <= j < i ==> (#[trigger] a@[j])@ == JsonV::Str(s@[j].name@),
        decreases s.len() - i,
    {
        a.push(Json::Str(s[i].name.clone()));
        i += 1;
    }
    proof {
        assert(json::list_view(a) =~= sources_view(s@).map_values(
            |x: SourceV| JsonV::Str(x.name),
        ));
    }
    Json::Array(a)
}

pub(crate) fn add_sources(o: &mut JsonMap, s: &Vec<Source>)
    ensures
        final(o)@ == with_sources(old(o)@, sources_view(s@)),
{
    let ghost start = o@;
    let ghost all = sources_view(s@);
    let mut i: usize = 0;
    proof {
        assert(all.take(0).len() == 0);
    }
    while i < s.len()
        invariant
            i <= s.len(),
            all == sources_view(s@),
            o@ == with_sources(start, all.take(i as int)),
        decreases s.len() - i,
    {
        o.set(s[i].name.as_str(), Json::Int(s[i].id));
        proof {
            assert(all.take(i + 1).drop_last() =~= all.take(i as int));
            assert(all.take(i + 1).last() == s@[i as int]@);
        }
        i += 1;
    }
    proof {
        assert(all.take(all.len() as int) =~= all);
    }
}

fn errors_json(s: &Vec<Source>) -> (r: JsonMap)
    ensures
        r@ == source_errors(sources_view(s@)),
{
    let ghost all = sources_view(s@);
    let mut o = JsonMap::new();
    let mut i: usize = 0;
    proof {
        assert(all.take(0).len() == 0);
    }
    while i < s.len()
        invariant
            i <= s.len(),
            all == sources_view(s@),
            o@ == source_errors(all.take(i as int)),
        decreases s.len() - i,
    {
        proof {
            assert(all.take(i + 1).drop_last() =~= all.take(i as int));
            assert(all.take(i + 1).last() == s@[i as int]@);
        }
        match &s[i].error {
            Some(e) => {
                o.set(s[i].name.as_str(), e.copy());
            },
            None => {},
        }
        i += 1;
    }
    proof {
        assert(all.take(all.len() as int) =~= all);
    }
    o
}

// ---------------------------------- charts ----------------------------------

/// A chart: what places it, and its members.
pub struct Chart {
    pub id: i64,
    pub status: i64,
    pub sort: i64,
    pub members: JsonMap,
}

/// What a chart says.
pub struct ChartV {
    pub id: i64,
    pub status: i64,
    pub sort: i64,
    pub members: Seq<(Seq<char>, JsonV)>,
}

impl View for Chart {
    type V = ChartV;

    open spec fn view(&self) -> ChartV {
        ChartV { id: self.id, status: self.status, sort: self.sort, members: self.members@ }
    }
}

/// What the charts of a list say.
pub open spec fn chart_list_view(s: Seq<Chart>) -> Seq<ChartV> {
    s.map_values(|c: Chart| c@)
}

/// The chart of a row, with its overridden status.
pub open spec fn base_chart(values: Seq<SqlValue>, overlay: OverlayV) -> ChartV {
    let o = rows::row_members(rows::chart_columns(), values);
    let id = json::int_at(JsonV::Object(o), "id"@, 0) as i64;
    let db_status = json::int_at(JsonV::Object(o), "status"@, 0) as i64;
    let status = uistate::overridden_int(overlay.chart_status, id, db_status);
    let members = if status != db_status {
        json::with_member(o, "status"@, JsonV::Int(status as int))
    } else {
        o
    };
    ChartV {
        id,
        status,
        sort: json::int_at(JsonV::Object(members), "sort"@, 0) as i64,
        members,
    }
}

/// A chart of one experiment.
pub open spec fn experiment_chart(c: ChartDataV, overlay: OverlayV) -> ChartV {
    let b = base_chart(c.values, overlay);
    let m1 = json::with_member(b.members, "project_id"@, JsonV::Null);
    let m2 = json::with_member(m1, "error"@, JsonV::Object(source_errors(c.sources)));
    let m3 = json::with_member(m2, "source"@, source_names(c.sources));
    let m4 = json::with_member(m3, "multi"@, JsonV::Bool(false));
    let m5 = json::with_member(
        m4,
        "source_map"@,
        JsonV::Object(with_sources(Seq::empty(), c.sources)),
    );
    ChartV { members: m5, ..b }
}

/// A chart of the project, but for its `source_map`.
pub open spec fn project_chart(c: ChartDataV, overlay: OverlayV, project: JsonV) -> ChartV {
    let b = base_chart(c.values, overlay);
    let m1 = json::with_member(b.members, "experiment_id"@, JsonV::Null);
    let m2 = json::with_member(m1, "project_id"@, project);
    let m3 = json::with_member(m2, "error"@, JsonV::Object(source_errors(c.sources)));
    let m4 = json::with_member(m3, "source"@, source_names(c.sources));
    let m5 = json::with_member(m4, "multi"@, JsonV::Bool(true));
    ChartV { members: m5, ..b }
}

/// What places charts: their ids, statuses and sort keys.
pub open spec fn chart_meta(s: Seq<ChartV>) -> Seq<(i64, i64, i64)> {
    s.map_values(|c: ChartV| (c.id, c.status, c.sort))
}

fn build_base(values: &Vec<SqlValue>, overlay: &UiOverlay) -> (r: Chart)
    requires
        values.len() == rows::chart_columns().len(),
    ensures
        r@ == base_chart(values@, overlay@),
{
    let cols = chart_base_cols();
    proof {
        assert(cols@.len() == text::slices(cols@).len());
    }
    let mut members = row_object(&cols, values);
    let id: i64 = members.i64_at("id", 0);
    let db_status: i64 = members.i64_at("status", 0);
    let status: i64 = overlay.chart_status(id, db_status);
    if status != db_status {
        members.set("status", Json::Int(status));
    }
    let sort: i64 = members.i64_at("sort", 0);
    Chart { id, status, sort, members }
}

fn build_experiment_chart(c: &ChartData, overlay: &UiOverlay) -> (r: Chart)
    requires
        c.values.len() == rows::chart_columns().len(),
    ensures
        r@ == experiment_chart(c@, overlay@),
{
    let b = build_base(c.values, overlay);
    let mut members = b.members;
    let mut map = JsonMap::new();
    add_sources(&mut map, &c.sources);
    members.set("project_id", Json::Null);
    members.set("error", Json::Object(errors_json(&c.sources)));
    members.set("source", names_json(&c.sources));
    members.set("multi", Json::Bool(false));
    members.set("source_map", Json::Object(map));
    Chart { id: b.id, status: b.status, sort: b.sort, members }
}

pub(crate) fn build_project_chart(
    values: &Vec<SqlValue>,
    sources: &Vec<Source>,
    overlay: &UiOverlay,
    project: &Json,
) -> (r: Chart)
    requires
        values.len() == rows::chart_columns().len(),
    ensures
        r@ == project_chart(
            ChartDataV { values: values@, sources: sources_view(sources@) },
            overlay@,
            project@,
        ),
{
    let b = build_base(values, overlay);
    let mut members = b.members;
    members.set("experiment_id", Json::Null);
    members.set("project_id", project.copy());
    members.set("error", Json::Object(errors_json(sources)));
    members.set("source", names_json(sources));
    members.set("multi", Json::Bool(true));
    Chart { id: b.id, status: b.status, sort: b.sort, members }
}

pub(crate) fn meta_of(charts: &Vec<Chart>) -> (r: Vec<(i64, i64, i64)>)
    ensures
        r@ == chart_meta(chart_list_view(charts@)),
{
    let mut r: Vec<(i64, i64, i64)> = Vec::new();
    let mut i: usize = 0;
    while i < charts.len()
        invariant
            i <= charts.len(),
            r.len() == i,
            forall|j: int|
                0 <= j < i ==> #[trigger] r@[j] == (
                    charts@[j].id,
                    charts@[j].status,
                    charts@[j].sort,
                ),
        decreases charts.len() - i,
    {
        let c = &charts[i];
        r.push((c.id, c.status, c.sort));
        i += 1;
    }
    proof {
        assert(r@ =~= chart_meta(chart_list_view(charts@)));
    }
    r
}

fn chart_objects(charts: Vec<Chart>) -> (r: Vec<Json>)
    ensures
        json::list_view(r) == chart_objects_view(chart_list_view(charts@)),
{
    let mut r: Vec<Json> = Vec::new();
    let mut i: usize = 0;
    while i < charts.len()
        invariant
            i <= charts.len(),
            r.len() == i,
            forall|j: int|
                0 <= j < i ==> (#[trigger] r@[j])@ == JsonV::Object(charts@[j].members@),
        decreases charts.len() - i,
    {
        r.push(Json::Object(charts[i].members.copy()));
        i += 1;
    }
    proof {
        assert(json::list_view(r) =~= chart_objects_view(chart_list_view(charts@)));
    }
    r
}

/// The objects of charts.
pub open spec fn chart_objects_view(s: Seq<ChartV>) -> Seq<JsonV> {
    s.map_values(|c: ChartV| JsonV::Object(c.members))
}

// ---------------------------------- namespaces ----------------------------------

/// Whether charts of a type are shown on the comparison page.
pub open spec fn allowed_type(t: Seq<char>) -> bool {
    t == "default"@ || t == "line"@ || t == "image"@ || t == "audio"@
}

pub(crate) fn type_allowed(t: &str) -> (r: bool)
    ensures
        r == allowed_type(t@),
{
    same_text(t, "default") || same_text(t, "line") || same_text(t, "image") || same_text(
        t,
        "audio",
    )
}

/// The ids of the charts of a namespace; only those of an allowed type where `filter_types` is set.
pub open spec fn namespace_ids(charts: Seq<(i64, Seq<char>)>, filter_types: bool) -> Seq<i64>
    decreases charts.len(),
{
    if charts.len() == 0 {
        Seq::empty()
    } else {
        let before = namespace_ids(charts.drop_last(), filter_types);
        if !filter_types || allowed_type(charts.last().1) {
            before.push(charts.last().0)
        } else {
            before
        }
    }
}

/// The ids of the charts of a namespace, in display order.
pub fn namespace_chart_ids(charts: &Vec<(i64, String)>, filter_types: bool) -> (r: Vec<i64>)
    ensures
        r@ == namespace_ids(
            charts@.map_values(|c: (i64, String)| (c.0, c.1@)),
            filter_types,
        ),
{
    let ghost all = charts@.map_values(|c: (i64, String)| (c.0, c.1@));
    let mut r: Vec<i64> = Vec::new();
    let mut i: usize = 0;
    proof {
        assert(all.take(0).len() == 0);
    }
    while i < charts.len()
        invariant
            i <= charts.len(),
            all == charts@.map_values(|c: (i64, String)| (c.0, c.1@)),
            r@ == namespace_ids(all.take(i as int), filter_types),
        decreases charts.len() - i,
    {
        proof {
            assert(all.take(i + 1).drop_last() =~= all.take(i as int));
            assert(all.take(i + 1).last() == all[i as int]);
        }
        if !filter_types || type_allowed(charts[i].1.as_str()) {
            r.push(charts[i].0);
        }
        i += 1;
    }
    proof {
        assert(all.take(all.len() as int) =~= all);
    }
    r
}

/// The members of a namespace, with its overridden `opened`, in an experiment and a project.
pub open spec fn namespace_fields(
    values: Seq<SqlValue>,
    overlay: OverlayV,
    experiment: JsonV,
    project: JsonV,
) -> Seq<(Seq<char>, JsonV)> {
    let o = rows::row_members(rows::namespace_columns(), values);
    let id = json::int_at(JsonV::Object(o), "id"@, 0) as i64;
    let o1 = uistate::overlaid_member(o, "opened"@, overlay.namespace_opened, id);
    let o2 = json::with_member(o1, "experiment_id"@, experiment);
    json::with_member(o2, "project_id"@, project)
}

pub(crate) fn build_namespace(
    values: &Vec<SqlValue>,
    overlay: &UiOverlay,
    experiment: &Json,
    project: &Json,
) -> (r: JsonMap)
    requires
        values.len() == rows::namespace_columns().len(),
    ensures
        r@ == namespace_fields(values@, overlay@, experiment@, project@),
{
    let cols = namespace_cols();
    proof {
        assert(cols@.len() == text::slices(cols@).len());
    }
    let mut m = row_object(&cols, values);
    let id: i64 = m.i64_at("id", 0);
    let opened = match m.get("opened") {
        Some(v) => Some(overlay.apply_namespace_opened(id, v.copy())),
        None => None,
    };
    match opened {
        Some(v) => {
            m.set("opened", v);
        },
        None => {},
    }
    m.set("experiment_id", experiment.copy());
    m.set("project_id", project.copy());
    m
}

// ---------------------------------- charts of one experiment ----------------------------------

/// The namespaces of an experiment.
pub open spec fn experiment_namespaces(
    list: Seq<NamespaceRowV>,
    overlay: OverlayV,
    experiment: JsonV,
) -> Seq<NamespaceV> {
    list.map_values(
        |n: NamespaceRowV|
            NamespaceV {
                fields: namespace_fields(n.values, overlay, experiment, JsonV::Null),
                charts: namespace_ids(n.charts, false),
            },
    )
}

/// The charts of an experiment.
pub open spec fn experiment_list(charts: Seq<ChartDataV>, overlay: OverlayV) -> Seq<ChartV> {
    charts.map_values(|c: ChartDataV| experiment_chart(c, overlay))
}

/// The charts and the namespaces of an experiment.
pub open spec fn experiment_lists(
    id: i64,
    experiment: Seq<SqlValue>,
    project: Seq<SqlValue>,
    charts: Seq<ChartDataV>,
    namespaces: Seq<NamespaceRowV>,
    overlay: OverlayV,
) -> (Seq<JsonV>, Seq<JsonV>) {
    let nested = records::without_charts(records::project_json(project));
    let exp = records::experiment_json(experiment, nested);
    let list = experiment_list(charts, overlay);
    (
        chart_objects_view(list),
        placement::pinned_hidden(
            chart_meta(list),
            experiment_namespaces(namespaces, overlay, exp),
            exp,
            JsonV::Null,
            uistate::overridden(
                overlay.experiment_pinned_opened,
                id,
                json::value_or(json::field(exp, "pinned_opened"@), JsonV::Int(1)),
            ),
            uistate::overridden(
                overlay.experiment_hidden_opened,
                id,
                json::value_or(json::field(exp, "hidden_opened"@), JsonV::Int(0)),
            ),
        ),
    )
}

/// What a pair of lists says.
pub open spec fn lists_view(l: (Vec<Json>, Vec<Json>)) -> (Seq<JsonV>, Seq<JsonV>) {
    (json::list_view(l.0), json::list_view(l.1))
}

/// What a result with an optional pair of lists says.
pub open spec fn lists_result(r: Result<Option<(Vec<Json>, Vec<Json>)>, DbError>) -> Result<
    Option<(Seq<JsonV>, Seq<JsonV>)>,
    DbError,
> {
    match r {
        Ok(Some(l)) => Ok(Some(lists_view(l))),
        Ok(None) => Ok(None),
        Err(e) => Err(e),
    }
}

/// The outcome for the charts of an experiment: nothing where the experiment does not exist, and an
/// error where it exists and the project does not.
pub open spec fn experiment_outcome(
    id: i64,
    experiment: Option<Vec<SqlValue>>,
    project: Option<Vec<SqlValue>>,
    charts: Seq<ChartDataV>,
    namespaces: Seq<NamespaceRowV>,
    overlay: OverlayV,
) -> Result<Option<(Seq<JsonV>, Seq<JsonV>)>, DbError> {
    match (experiment, project) {
        (None, _) => Ok(None),
        (Some(_), None) => Err(DbError::ProjectNotFound),
        (Some(e), Some(p)) => Ok(
            Some(experiment_lists(id, e@, p@, charts, namespaces, overlay)),
        ),
    }
}

/// The charts and the namespaces of the experiment `id`.
pub fn build_experiment_charts(
    id: i64,
    experiment: &Option<Vec<SqlValue>>,
    project: &Option<Vec<SqlValue>>,
    charts: &Vec<ChartData>,
    namespaces: &Vec<NamespaceRow>,
    overlay: &UiOverlay,
) -> (r: Result<Option<(Vec<Json>, Vec<Json>)>, DbError>)
    requires
        rows::row_fits(*experiment, rows::experiment_columns().len()),
        rows::row_fits(*project, rows::project_columns().len()),
        chart_rows_fit(charts@),
        namespace_rows_fit(namespaces@),
    ensures
        lists_result(r) == experiment_outcome(
            id,
            *experiment,
            *project,
            charts_view(charts@),
            namespace_rows_view(namespaces@),
            overlay@,
        ),
{
    if experiment.is_none() {
        return Ok(None);
    }
    let nested = match project_dict(project) {
        Ok(p) => nullify_charts(&p),
        Err(e) => {
            return Err(e);
        },
    };
    let exp = match experiment_full(experiment, &nested) {
        Some(e) => e,
        None => {
            return Ok(None);
        },
    };
    let pinned_opened = overlay.apply_experiment_pinned(
        id,
        exp.copy_at("pinned_opened", Json::Int(1)),
    );
    let hidden_opened = overlay.apply_experiment_hidden(
        id,
        exp.copy_at("hidden_opened", Json::Int(0)),
    );
    let mut list: Vec<Chart> = Vec::new();
    let mut i: usize = 0;
    while i < charts.len()
        invariant
            i <= charts.len(),
            chart_rows_fit(charts@),
            list.len() == i,
            forall|j: int|
                0 <= j < i ==> (#[trigger] list@[j])@ == experiment_chart(charts@[j]@, overlay@),
        decreases charts.len() - i,
    {
        list.push(build_experiment_chart(&charts[i], overlay));
        i += 1;
    }
    let mut ns_list: Vec<Namespace> = Vec::new();
    let mut k: usize = 0;
    while k < namespaces.len()
        invariant
            k <= namespaces.len(),
            namespace_rows_fit(namespaces@),
            ns_list.len() == k,
            forall|j: int|
                0 <= j < k ==> (#[trigger] ns_list@[j])@ == (NamespaceV {
                    fields: namespace_fields(
                        namespaces@[j].values@,
                        overlay@,
                        exp@,
                        JsonV::Null,
                    ),
                    charts: namespace_ids(namespaces@[j]@.charts, false),
                }),
        decreases namespaces.len() - k,
    {
        let n = &namespaces[k];
        let fields = build_namespace(&n.values, overlay, &exp, &Json::Null);
        ns_list.push(Namespace { fields, charts: namespace_chart_ids(&n.charts, false) });
        k += 1;
    }
    proof {
        assert(chart_list_view(list@) =~= experiment_list(charts_view(charts@), overlay@));
        assert(placement::namespaces_view(ns_list@) =~= experiment_namespaces(
            namespace_rows_view(namespaces@),
            overlay@,
            exp@,
        ));
    }
    let meta = meta_of(&list);
    let shown = apply_pinned_hidden(
        &meta,
        ns_list,
        &exp,
        &Json::Null,
        &pinned_opened,
        &hidden_opened,
    );
    Ok(Some((chart_objects(list), shown)))
}

/// Whether every row has a value for each of its columns.
pub open spec fn experiment_rows_fit(r: ExperimentRows) -> bool {
    &&& rows::row_fits(r.experiment, rows::experiment_columns().len())
    &&& rows::row_fits(r.project, rows::project_columns().len())
    &&& forall|i: int|
        0 <= i < r.charts@.len() ==> (#[trigger] r.charts@[i]).values.len()
            == rows::chart_columns().len()
    &&& namespace_rows_fit(r.namespaces@)
}

/// The payload with charts and namespaces.
pub open spec fn charts_payload(l: (Seq<JsonV>, Seq<JsonV>)) -> JsonV {
    JsonV::Object(seq![("charts"@, JsonV::Array(l.0)), ("namespaces"@, JsonV::Array(l.1))])
}

/// The outcome for the charts of an experiment, from its rows.
pub open spec fn rows_outcome(id: i64, r: ExperimentRows, overlay: OverlayV) -> Result<
    Option<(Seq<JsonV>, Seq<JsonV>)>,
    DbError,
> {
    experiment_outcome(
        id,
        r.experiment,
        r.project,
        experiment_data(r.charts@, id),
        namespace_rows_view(r.namespaces@),
        overlay,
    )
}

/// The payload that an outcome gives.
pub open spec fn outcome_payload(
    outcome: Result<Option<(Seq<JsonV>, Seq<JsonV>)>, DbError>,
) -> Result<Option<JsonV>, DbError> {
    match outcome {
        Ok(Some(l)) => Ok(Some(charts_payload(l))),
        Ok(None) => Ok(None),
        Err(e) => Err(e),
    }
}

pub(crate) fn payload(lists: (Vec<Json>, Vec<Json>)) -> (r: Json)
    ensures
        r@ == charts_payload(lists_view(lists)),
{
    let ghost made = charts_payload(lists_view(lists));
    let mut m = JsonMap::new();
    m.append("charts", Json::Array(lists.0));
    m.append("namespaces", Json::Array(lists.1));
    proof {
        assert(m@ =~= made->Object_0);
    }
    Json::Object(m)
}

fn lists_of_rows(id: i64, r: &ExperimentRows, overlay: &UiOverlay) -> (lists: Result<
    Option<(Vec<Json>, Vec<Json>)>,
    DbError,
>)
    requires
        experiment_rows_fit(*r),
    ensures
        lists_result(lists) == rows_outcome(id, *r, overlay@),
{
    let mut data: Vec<ChartData> = Vec::new();
    let mut i: usize = 0;
    while i < r.charts.len()
        invariant
            i <= r.charts.len(),
            experiment_rows_fit(*r),
            data.len() == i,
            forall|j: int|
                0 <= j < i ==> (#[trigger] data@[j])@ == experiment_data(r.charts@, id)[j]
                    && data@[j].values.len() == rows::chart_columns().len(),
        decreases r.charts.len() - i,
    {
        let c = &r.charts[i];
        data.push(ChartData { values: &c.values, sources: read_tag_sources(&c.sources, id) });
        i += 1;
    }
    proof {
        assert(charts_view(data@) =~= experiment_data(r.charts@, id));
    }
    build_experiment_charts(id, &r.experiment, &r.project, &data, &r.namespaces, overlay)
}

/// The charts and namespaces of the experiment `id`, from its rows. Nothing where the experiment
/// does not exist.
pub fn experiment_charts(id: i64, r: &ExperimentRows, overlay: &UiOverlay) -> (res: Result<
    Option<Json>,
    DbError,
>)
    requires
        experiment_rows_fit(*r),
    ensures
        records::optional_result_view(res) == outcome_payload(rows_outcome(id, *r, overlay@)),
{
    match lists_of_rows(id, r, overlay) {
        Ok(Some(l)) => Ok(Some(payload(l))),
        Ok(None) => Ok(None),
        Err(e) => Err(e),
    }
}

/// The status of an experiment.
#[derive(Debug, PartialEq)]
pub struct StatusRow {
    pub status: i64,
    pub update_time: String,
    pub finish_time: Option<String>,
}

/// The status of an experiment and its charts.
pub open spec fn status_payload(s: StatusRow, lists: (Seq<JsonV>, Seq<JsonV>)) -> JsonV {
    JsonV::Object(
        seq![
            ("status"@, JsonV::Int(s.status as int)),
            ("update_time"@, JsonV::Str(s.update_time@)),
            (
                "finish_time"@,
                match s.finish_time {
                    Some(t) => JsonV::Str(t@),
                    None => JsonV::Null,
                },
            ),
            ("charts"@, charts_payload(lists)),
        ],
    )
}

/// The status of the experiment `id` with its charts. Nothing where there is no status row.
pub fn experiment_status(
    id: i64,
    status: &Option<StatusRow>,
    r: &ExperimentRows,
    overlay: &UiOverlay,
) -> (res: Result<Option<Json>, DbError>)
    requires
        experiment_rows_fit(*r),
        status is Some ==> r.experiment is Some,
    ensures
        records::optional_result_view(res) == (match *status {
            None => Ok(None),
            Some(s) => match rows_outcome(id, *r, overlay@) {
                Ok(Some(l)) => Ok(Some(status_payload(s, l))),
                Ok(None) => Ok(None),
                Err(e) => Err(e),
            },
        }),
{
    let s = match status {
        Some(s) => s,
        None => {
            return Ok(None);
        },
    };
    let lists = match lists_of_rows(id, r, overlay) {
        Ok(Some(l)) => l,
        Ok(None) => {
            return Ok(None);
        },
        Err(e) => {
            return Err(e);
        },
    };
    let ghost made = status_payload(*s, lists_view(lists));
    let finish_time = match &s.finish_time {
        Some(t) => Json::Str(t.clone()),
        None => Json::Null,
    };
    let mut m = JsonMap::new();
    m.append("status", Json::Int(s.status));
    m.append("update_time", Json::Str(s.update_time.clone()));
    m.append("finish_time", finish_time);
    m.append("charts", payload(lists));
    proof {
        assert(m@ =~= made->Object_0);
    }
    Ok(Some(Json::Object(m)))
}

} // verus!
