//! What lists, optional values and results say: every value of them, in order, and nothing else.

use vstd::prelude::*;

use crate::api::{self, DictRows};
use crate::api_fastsl::{self, GroupRequest};
use crate::charts::{self, Chart, ChartData, ExperimentRows, NamespaceRow, ProjectRows, Source};
use crate::codec;
use crate::comparisons::{self, OwnerRows};
use crate::json::{self, Json, JsonMap, JsonV};
use crate::order;
use crate::paths;
use crate::placement::{self, Namespace};
use crate::record_laws;
use crate::records::{self, DbError, ExperimentConfig};
use crate::resp::{Response, ResponseV};
use crate::rows::{self, SqlValue};
use crate::seqs;
use crate::series;
use crate::server;
use crate::summaries::{self, SummaryJob, TagRead, TagReadV};
use crate::summary_cache::{self, PersistedSummaryCache, PersistedV};
use crate::text;
use crate::uistate::{self, Group, OverlayV, UiOverlay};

verus! {

// ---------------------------------- texts and JSON ----------------------------------

/// A list of texts says each of them, in order; an optional text says its text.
pub proof fn law_views_of_texts(v: Seq<String>, w: Seq<&str>, s: String, i: int)
    ensures
        text::texts(v).len() == v.len(),
        0 <= i < v.len() ==> text::texts(v)[i] == v[i]@,
        text::slices(w).len() == w.len(),
        0 <= i < w.len() ==> text::slices(w)[i] == w[i]@,
        text::optional_text(Some(s)) == Some(s@),
        text::optional_text(None) is None,
{
}

/// A JSON value says what it holds: a list each value in order, an object each member in order.
pub proof fn law_views_of_json(a: Vec<Json>, m: JsonMap, s: String, n: i64, u: u64, b: bool, i: int)
    ensures
        Json::Null@ == JsonV::Null,
        Json::Bool(b)@ == JsonV::Bool(b),
        Json::Int(n)@ == JsonV::Int(n as int),
        Json::UInt(u)@ == JsonV::Int(u as int),
        Json::Real(u)@ == JsonV::Real(u),
        Json::Str(s)@ == JsonV::Str(s@),
        Json::Array(a)@ == JsonV::Array(json::list_view(a)),
        Json::Object(m)@ == JsonV::Object(m@),
        json::list_view(a).len() == a@.len(),
        0 <= i < a@.len() ==> json::list_view(a)[i] == a@[i]@,
{
}

/// An optional value says its value; so does one that may have failed.
pub proof fn law_views_of_results(j: Json, e: DbError)
    ensures
        codec::optional(Some(j)) == Some(j@),
        codec::optional(None) is None,
        records::result_view(Ok(j)) == Ok::<JsonV, DbError>(j@),
        records::result_view(Err(e)) == Err::<JsonV, DbError>(e),
        records::optional_result_view(Ok(Some(j))) == Ok::<Option<JsonV>, DbError>(Some(j@)),
        records::optional_result_view(Ok(None)) == Ok::<Option<JsonV>, DbError>(None),
        records::optional_result_view(Err(e)) == Err::<Option<JsonV>, DbError>(e),
        records::error_text(DbError::ProjectNotFound) == "project not found"@,
{
}

/// A text or an integer under a name is read where it is there as such.
pub proof fn law_values_under_names(j: JsonV, key: Seq<char>, s: Seq<char>, i: i64, default: int)
    ensures
        json::field(j, key) == Some(JsonV::Str(s)) ==> json::text_at(j, key) == s,
        !(json::field(j, key) matches Some(JsonV::Str(_))) ==> json::text_at(j, key) == Seq::<
            char,
        >::empty(),
        json::field(j, key) == Some(JsonV::Int(i as int)) ==> json::int_at(j, key, default) == i,
        !(json::field(j, key) matches Some(JsonV::Int(_))) ==> json::int_at(j, key, default)
            == default,
        api::optional_int(j, key) == (match json::field(j, key) {
            Some(JsonV::Int(n)) => if i64::MIN <= n <= i64::MAX {
                Some(n as i64)
            } else {
                None
            },
            _ => None,
        }),
        json::value_or(Some(j), JsonV::Null) == j,
        json::value_or(None, j) == j,
{
}

/// A text begins with what another text is followed by something to give it, and ends likewise.
pub proof fn law_beginnings_and_ends(a: Seq<char>, b: Seq<char>, s: Seq<char>)
    ensures
        text::begins_with(a + b, a),
        text::finishes_with(a + b, b),
        text::begins_with(s, a) ==> s == a + s.skip(a.len() as int),
        text::finishes_with(s, b) ==> s == s.take(s.len() - b.len()) + b,
{
    assert((a + b).take(a.len() as int) =~= a);
    assert((a + b).skip((a + b).len() - b.len()) =~= b);
    if text::begins_with(s, a) {
        assert(s =~= s.take(a.len() as int) + s.skip(a.len() as int));
    }
    if text::finishes_with(s, b) {
        assert(s =~= s.take(s.len() - b.len()) + s.skip(s.len() - b.len()));
    }
}

// ---------------------------------- rows ----------------------------------

/// Lists of charts, sources and namespaces say each of them, in order.
pub proof fn law_views_of_charts<'a>(
    sources: Seq<Source>,
    data: Seq<ChartData<'a>>,
    list: Seq<Chart>,
    spaces: Seq<Namespace>,
    i: int,
)
    ensures
        charts::sources_view(sources).len() == sources.len(),
        0 <= i < sources.len() ==> {
            let s = charts::sources_view(sources)[i];
            &&& s.name == sources[i].name@
            &&& s.id == sources[i].id
            &&& s.error == codec::optional(sources[i].error)
        },
        charts::charts_view(data).len() == data.len(),
        0 <= i < data.len() ==> {
            let d = charts::charts_view(data)[i];
            d.values == data[i].values@ && d.sources == charts::sources_view(data[i].sources@)
        },
        charts::chart_list_view(list).len() == list.len(),
        0 <= i < list.len() ==> {
            let c = charts::chart_list_view(list)[i];
            &&& c.id == list[i].id
            &&& c.status == list[i].status
            &&& c.sort == list[i].sort
            &&& c.members == list[i].members@
        },
        placement::namespaces_view(spaces).len() == spaces.len(),
        0 <= i < spaces.len() ==> {
            let n = placement::namespaces_view(spaces)[i];
            n.fields == spaces[i].fields@ && n.charts == spaces[i].charts@
        },
{
}

/// The lists of a page say each of their values, and their outcome says the lists.
pub proof fn law_views_of_pages(l: (Vec<Json>, Vec<Json>), e: DbError, ids: Vec<i64>)
    ensures
        charts::lists_view(l) == (json::list_view(l.0), json::list_view(l.1)),
        charts::lists_result(Ok(Some(l))) == Ok::<Option<(Seq<JsonV>, Seq<JsonV>)>, DbError>(
            Some((json::list_view(l.0), json::list_view(l.1))),
        ),
        charts::lists_result(Ok(None)) == Ok::<Option<(Seq<JsonV>, Seq<JsonV>)>, DbError>(None),
        charts::lists_result(Err(e)) == Err::<Option<(Seq<JsonV>, Seq<JsonV>)>, DbError>(e),
        comparisons::filter_view(Some(ids)) == Some(ids@),
        comparisons::filter_view(None) is None,
{
}

/// Experiments with their configurations say each of them, in order.
pub proof fn law_views_of_experiments<'a>(s: Seq<ExperimentConfig<'a>>, i: int)
    ensures
        records::configs_view(s).len() == s.len(),
        0 <= i < s.len() ==> {
            let e = records::configs_view(s)[i];
            e.values == s[i].values@ && e.config == codec::optional(s[i].config)
        },
{
}

/// A row fits where it has a value for each column, and rows fit where all of them do.
pub proof fn law_rows_that_fit(v: Vec<SqlValue>, n: nat, s: Seq<NamespaceRow>, d: DictRows)
    ensures
        rows::row_fits(Some(v), n) <==> v.len() == n,
        rows::row_fits(None, n),
        charts::namespace_rows_fit(s) <==> forall|i: int|
            0 <= i < s.len() ==> (#[trigger] s[i]).values.len() == 8,
        api::dict_rows_fit(d) <==> rows::row_fits(d.experiment, 12) && rows::row_fits(
            d.project,
            11,
        ),
{
    record_laws::law_namespace_columns_are_distinct();
    record_laws::law_experiment_brief_columns_are_distinct();
    record_laws::law_project_columns_are_distinct();
}

/// The rows of a page fit where each row of it does.
pub proof fn law_pages_that_fit<'a>(
    e: ExperimentRows,
    p: ProjectRows,
    data: Seq<ChartData<'a>>,
    id: i64,
)
    ensures
        charts::chart_rows_fit(data) <==> forall|i: int|
            0 <= i < data.len() ==> (#[trigger] data[i]).values.len() == 12,
        charts::experiment_rows_fit(e) <==> {
            &&& rows::row_fits(e.experiment, 16)
            &&& rows::row_fits(e.project, 11)
            &&& forall|i: int|
                0 <= i < e.charts@.len() ==> (#[trigger] e.charts@[i]).values.len() == 12
            &&& charts::namespace_rows_fit(e.namespaces@)
        },
        comparisons::project_rows_fit(p) <==> {
            &&& rows::row_fits(p.project, 11)
            &&& forall|i: int|
                0 <= i < p.charts@.len() ==> (#[trigger] p.charts@[i]).values.len() == 12
            &&& charts::namespace_rows_fit(p.namespaces@)
        },
        comparisons::owner_rows_fit(OwnerRows::Project(id, p)) <==> comparisons::project_rows_fit(p),
        comparisons::owner_rows_fit(OwnerRows::Experiment(id, e)) <==> charts::experiment_rows_fit(
            e,
        ),
{
    record_laws::law_chart_columns_are_distinct();
    record_laws::law_experiment_columns_are_distinct();
    record_laws::law_project_columns_are_distinct();
}

/// A query gives the object of the row that it found, and nothing where it found none.
pub proof fn law_found_rows(cols: Seq<Seq<char>>, v: Vec<SqlValue>, m: JsonMap)
    ensures
        rows::found_members(cols, Some(v)) == Some(rows::row_members(cols, v@)),
        rows::found_members(cols, None) is None,
        rows::optional_members(Some(m)) == Some(m@),
        rows::optional_members(None) is None,
        records::project_result(Some(v)) == Ok::<JsonV, DbError>(records::project_json(v@)),
        records::project_result(None) == Err::<JsonV, DbError>(DbError::ProjectNotFound),
{
}

/// The columns of a query stand in their order with commas between them: taken apart at the commas
/// they are the columns again.
pub proof fn law_columns_of_a_query(names: Seq<Seq<char>>)
    requires
        names.len() > 0,
        forall|i: int, k: int|
            0 <= i < names.len() && 0 <= k < names[i].len() ==> #[trigger] names[i][k] != ',',
    ensures
        text::split_on(rows::comma_list(names), ',') == names,
    decreases names.len(),
{
    reveal_strlit(",");
    assert(","@ =~= seq![',']);
    let n = names.len() - 1;
    assert forall|k: int| 0 <= k < names[n].len() implies names[n][k] != ',' by {}
    crate::text_laws::law_split_at_separator(names[n], ',', Seq::empty());
    if n > 0 {
        let t = names.drop_last();
        assert forall|i: int, k: int|
            0 <= i < t.len() && 0 <= k < t[i].len() implies #[trigger] t[i][k] != ',' by {
            assert(t[i] == names[i]);
            assert(names[i][k] != ',');
        }
        law_columns_of_a_query(t);
        text::lemma_split_concat(rows::comma_list(t), ',', names.last());
        assert(text::split_on(rows::comma_list(names), ',') =~= names);
    } else {
        assert(text::split_on(rows::comma_list(names), ',') =~= names);
    }
}

/// A query names the columns, then the table, then what selects the rows.
pub proof fn law_query(names: Seq<Seq<char>>, table: Seq<char>, clause: Seq<char>)
    ensures
        ({
            let query = rows::select_text(names, table, clause);
            let columns = "SELECT "@ + rows::comma_list(names);
            let source = " FROM "@ + table;
            &&& query.take(columns.len() as int) == columns
            &&& query.skip(columns.len() as int).take(source.len() as int) == source
            &&& query.skip((columns + source).len() as int) == " WHERE "@ + clause
        }),
{
    let query = rows::select_text(names, table, clause);
    let columns = "SELECT "@ + rows::comma_list(names);
    let source = " FROM "@ + table;
    assert(query =~= columns + source + (" WHERE "@ + clause));
    assert(query.take(columns.len() as int) =~= columns);
    assert(query.skip(columns.len() as int).take(source.len() as int) =~= source);
    assert(query.skip((columns + source).len() as int) =~= " WHERE "@ + clause);
}

/// The run id of an experiment is the text of its column `run_id`.
pub proof fn law_run_id_of_a_row(row: Seq<SqlValue>, bytes: Vec<u8>)
    requires
        row[1] == SqlValue::Text(bytes),
    ensures
        records::run_id_in(rows::experiment_columns(), row) == codec::utf8_lossy(bytes@),
        records::run_id_in(rows::experiment_brief_columns(), row) == codec::utf8_lossy(bytes@),
{
    record_laws::law_experiment_columns_are_distinct();
    record_laws::law_experiment_brief_columns_are_distinct();
    rows::law_columns_are_read_back(rows::experiment_columns(), row, 1);
    rows::law_columns_are_read_back(rows::experiment_brief_columns(), row, 1);
}

// ---------------------------------- summaries and series ----------------------------------

/// Reads and jobs say each of them, in order.
pub proof fn law_views_of_summaries(
    reads: Seq<TagRead>,
    jobs: Seq<SummaryJob>,
    slots: Seq<Option<Json>>,
    b: (Json, Json),
    shard: String,
    read: TagRead,
    i: int,
)
    ensures
        summaries::reads_view(reads).len() == reads.len(),
        0 <= i < reads.len() ==> summaries::reads_view(reads)[i] == (match reads[i] {
            TagRead::MissingDir => TagReadV::MissingDir,
            TagRead::ReadFail => TagReadV::ReadFail,
            TagRead::Value(v) => TagReadV::Value(v@),
        }),
        summaries::jobs_view(jobs).len() == jobs.len(),
        0 <= i < jobs.len() ==> {
            let j = summaries::jobs_view(jobs)[i];
            &&& j.experiment == jobs[i].experiment@
            &&& j.tag == jobs[i].tag@
            &&& j.run_id == jobs[i].run_id@
            &&& j.folder == jobs[i].folder@
        },
        summaries::slots_view(slots).len() == slots.len(),
        0 <= i < slots.len() ==> summaries::slots_view(slots)[i] == codec::optional(slots[i]),
        series::bounds_view(Some(b)) == Some((b.0@, b.1@)),
        series::bounds_view(None) is None,
        summaries::choice_view(Ok(shard)) == Ok::<Seq<char>, TagReadV>(shard@),
        summaries::choice_view(Err(read)) == Err::<Seq<char>, TagReadV>(read@),
{
}

/// The shards of a tag are all names in its folder that end in `.log`, and no others, in dictionary
/// order.
pub proof fn law_shards_of_a_tag(names: Seq<String>, i: int, j: int, name: Seq<char>)
    requires
        names.len() <= usize::MAX,
    ensures
        summaries::shards_of(names).len() == names.filter(
            |n: String| text::finishes_with(n@, ".log"@),
        ).len(),
        0 <= i < j < summaries::shards_of(names).len() ==> order::text_le(
            summaries::shards_of(names)[i],
            summaries::shards_of(names)[j],
        ),
        summaries::shards_of(names).contains(name) <==> text::finishes_with(name, ".log"@)
            && text::texts(names).contains(name),
{
    let keep = summaries::is_shard();
    assert(keep =~= (|n: String| text::finishes_with(n@, ".log"@)));
    let kept = names.filter(keep);
    seqs::lemma_filter_holds(names, keep);
    order::law_in_order_is_sorted(kept);
    let sorted = summaries::shards_of(names);
    if sorted.contains(name) {
        assert(text::texts(kept).contains(name));
        let k = choose|k: int| 0 <= k < text::texts(kept).len() && text::texts(kept)[k] == name;
        assert(keep(kept[k]));
        assert(names.contains(kept[k]));
        let m = choose|m: int| 0 <= m < names.len() && names[m] == kept[k];
        assert(text::texts(names)[m] == name);
    }
    if text::finishes_with(name, ".log"@) && text::texts(names).contains(name) {
        let m = choose|m: int| 0 <= m < text::texts(names).len() && text::texts(names)[m] == name;
        seqs::lemma_filter_keeps(names, keep, m);
        let k = choose|k: int| 0 <= k < kept.len() && kept[k] == names[m];
        assert(text::texts(kept)[k] == name);
        assert(text::texts(kept).contains(name));
    }
}

/// What a line says of the last value is what its document says.
pub proof fn law_line_read(line: Seq<char>)
    ensures
        summaries::line_read(Some(line)) == summaries::logged_value(codec::json_document(line)),
        summaries::line_read(None) is ReadFail,
{
}

/// The sizes of buckets differ by one at most, the greater ones come first, and there is one for each
/// bucket. With their sum being the number of points this leaves one way to share them out.
pub proof fn law_capacities_are_even(total: nat, target: nat, i: int, j: int)
    requires
        target > 0,
        0 <= i <= j < target,
    ensures
        series::capacities(total, target).len() == target,
        series::capacities(total, target)[i] == series::capacities(total, target)[j]
            || series::capacities(total, target)[i] == series::capacities(total, target)[j] + 1,
{
}

/// A change on disk matters where some file that it names is a log or a JSON file.
pub proof fn law_relevant_changes(names: Seq<Seq<char>>, i: int, stem: Seq<char>)
    requires
        stem.len() > 0,
    ensures
        0 <= i < names.len() && (names[i] == stem + seq!['.', 'l', 'o', 'g'] || names[i] == stem
            + seq!['.', 'j', 's', 'o', 'n']) ==> server::any_relevant(names),
        (forall|k: int|
            0 <= k < names.len() ==> paths::extension(#[trigger] names[k]) != Some("log"@)
                && paths::extension(names[k]) != Some("json"@)) ==> !server::any_relevant(names),
{
    reveal_strlit("log");
    reveal_strlit("json");
    assert("log"@ =~= seq!['l', 'o', 'g']);
    assert("json"@ =~= seq!['j', 's', 'o', 'n']);
    crate::text_laws::law_extension(stem, "log"@);
    crate::text_laws::law_extension(stem, "json"@);
    assert(stem + seq!['.'] + "log"@ =~= stem + seq!['.', 'l', 'o', 'g']);
    assert(stem + seq!['.'] + "json"@ =~= stem + seq!['.', 'j', 's', 'o', 'n']);
}

// ---------------------------------- preferences ----------------------------------

/// Groups say their id, their name and each of their members, in order; a list says each group.
pub proof fn law_views_of_groups(groups: Seq<Group>, g: Group, i: int)
    ensures
        uistate::groups_view(groups).len() == groups.len(),
        0 <= i < groups.len() ==> uistate::groups_view(groups)[i] == groups[i]@,
        g@.id == g.id,
        g@.name == g.name@,
        g@.members == text::texts(g.members@),
        uistate::optional_group(Some(g)) == Some(g@),
        uistate::optional_group(None) is None,
{
}

/// An overlay says each of its overrides, its aliases and its groups.
pub proof fn law_view_of_an_overlay(o: UiOverlay)
    ensures
        o@.chart_status == o.chart_status@,
        o@.namespace_opened == o.namespace_opened@,
        o@.experiment_show == o.experiment_show@,
        o@.experiment_pinned_opened == o.experiment_pinned_opened@,
        o@.experiment_hidden_opened == o.experiment_hidden_opened@,
        o@.project_pinned_opened == o.project_pinned_opened@,
        o@.project_hidden_opened == o.project_hidden_opened@,
        o@.experiment_alias == uistate::alias_map(o.experiment_alias@),
        o@.groups == uistate::groups_view(o.groups@),
        o@.next_group_id == o.next_group_id,
{
}

/// An overlay was stored where the store was given an overlay that says it, and answered so; it can be
/// stored where the store takes every overlay that says it.
pub proof fn law_stored_overlays<E, F: FnOnce(&UiOverlay) -> Result<(), E>>(
    store: F,
    next: OverlayV,
    answer: Result<(), E>,
)
    ensures
        uistate::stored(store, next, answer) <==> exists|o: &UiOverlay|
            o@ == next && #[trigger] store.ensures((o,), answer),
        uistate::storable(store, next) <==> forall|o: &UiOverlay|
            o@ == next ==> #[trigger] store.requires((o,)),
{
}

/// A document of the cache says its log directory and its entries, and was kept where the store was
/// given a document that says it.
pub proof fn law_kept_documents<E, F: FnOnce(&PersistedSummaryCache) -> Result<(), E>>(
    store: F,
    d: PersistedV,
    p: PersistedSummaryCache,
    answer: Result<(), E>,
)
    ensures
        p@.logdir == p.logdir@,
        p@.entries == summary_cache::entries_map(p.entries@),
        summary_cache::optional_document(Some(p)) == Some(p@),
        summary_cache::optional_document(None) is None,
        summary_cache::kept(store, d, answer) <==> exists|q: &PersistedSummaryCache|
            q@ == d && #[trigger] store.ensures((q,), answer),
        summary_cache::keepable(store, d) <==> forall|q: &PersistedSummaryCache|
            q@ == d ==> #[trigger] store.requires((q,)),
{
}

/// What a request was read as is what it says; its refusal is the answer.
pub proof fn law_views_of_requests(
    r: Response,
    s: String,
    v: Vec<String>,
    q: GroupRequest,
    n: i64,
)
    ensures
        r@.status == r.status,
        r@.body == r.body@,
        api::refusal(Ok::<i64, Response>(n)) == Ok::<i64, ResponseV>(n),
        api::refusal(Err::<i64, Response>(r)) == Err::<i64, ResponseV>(r@),
        api_fastsl::optional_refusal(Some(r)) == Some(r@),
        api_fastsl::optional_refusal(None) is None,
        api_fastsl::text_request(Ok(s)) == Ok::<Seq<char>, ResponseV>(s@),
        api_fastsl::text_request(Err(r)) == Err::<Seq<char>, ResponseV>(r@),
        api_fastsl::optional_text_request(Ok(Some(s))) == Ok::<Option<Seq<char>>, ResponseV>(
            Some(s@),
        ),
        api_fastsl::optional_text_request(Ok(None)) == Ok::<Option<Seq<char>>, ResponseV>(None),
        api_fastsl::optional_text_request(Err(r)) == Err::<Option<Seq<char>>, ResponseV>(r@),
        api_fastsl::texts_request(Ok(v)) == Ok::<Seq<Seq<char>>, ResponseV>(text::texts(v@)),
        api_fastsl::texts_request(Err(r)) == Err::<Seq<Seq<char>>, ResponseV>(r@),
        api_fastsl::group_request_view(Ok(q)) == Ok::<(Seq<char>, Seq<Seq<char>>), ResponseV>(
            (q.name@, text::texts(q.members@)),
        ),
        api_fastsl::group_request_view(Err(r)) == Err::<(Seq<char>, Seq<Seq<char>>), ResponseV>(r@),
        api::missing_experiment(n) == "Experiment with id "@ + text::int_text(n as int)
            + " does not exist."@,
{
}

} // verus!
