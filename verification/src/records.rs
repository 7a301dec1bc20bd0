//! The project, its experiments, and the documents that describe them.

use vstd::prelude::*;

use crate::codec::{self, parse_json, parse_yaml};
use crate::json::{self, Json, JsonMap, JsonV, json_slices, json_text};
use crate::rows::{
    self, SqlValue, experiment_brief_cols, experiment_cols, project_cols, query_one_object,
    row_object,
};
use crate::text::{self, same_text, trim_text};
use crate::uistate::{self, OverlayV, UiOverlay};

verus! {

/// Why the database cannot be shown.
#[derive(Debug, PartialEq)]
pub enum DbError {
    /// The row of the project is missing.
    ProjectNotFound,
}

/// What an error says.
pub open spec fn error_text(e: DbError) -> Seq<char> {
    match e {
        DbError::ProjectNotFound => "project not found"@,
    }
}

impl DbError {
    /// The text of the error.
    pub fn message(&self) -> (r: String)
        ensures
            r@ == error_text(*self),
    {
        match self {
            DbError::ProjectNotFound => "project not found".to_owned(),
        }
    }
}

// ---------------------------------- colors ----------------------------------

/// The colors of curves.
pub open spec fn light_colors() -> Seq<Seq<char>> {
    seq![
        "#528d59"@,
        "#587ad2"@,
        "#c24d46"@,
        "#9cbe5d"@,
        "#6ebad3"@,
        "#dfb142"@,
        "#6d4ba4"@,
        "#8cc5b7"@,
        "#892d58"@,
        "#40877c"@,
        "#d0703c"@,
        "#d47694"@,
        "#e3b292"@,
        "#b15fbb"@,
        "#905f4a"@,
        "#989fa3"@,
    ]
}

/// The colors of curves on a light and on a dark page, which are the same.
pub open spec fn colors() -> JsonV {
    JsonV::Object(
        seq![
            ("light"@, json::strings(light_colors())),
            ("dark"@, json::strings(light_colors())),
        ],
    )
}

/// The colors of curves.
pub fn color_list() -> (r: Json)
    ensures
        r@ == colors(),
{
    let light: Vec<&'static str> = vec![
        "#528d59",
        "#587ad2",
        "#c24d46",
        "#9cbe5d",
        "#6ebad3",
        "#dfb142",
        "#6d4ba4",
        "#8cc5b7",
        "#892d58",
        "#40877c",
        "#d0703c",
        "#d47694",
        "#e3b292",
        "#b15fbb",
        "#905f4a",
        "#989fa3",
    ];
    proof {
        assert(text::slices(light@) =~= light_colors());
    }
    let mut m = JsonMap::new();
    m.append("light", json_slices(&light));
    m.append("dark", json_slices(&light));
    proof {
        assert(m@ =~= colors()->Object_0);
    }
    Json::Object(m)
}

// ---------------------------------- documents of a run ----------------------------------

/// The value that a document was found to hold, or `default` where it was none.
pub fn document_or(parsed: Option<Json>, default: Json) -> (r: Json)
    ensures
        r@ == json::value_or(codec::optional(parsed), default@),
{
    match parsed {
        Some(v) => v,
        None => default,
    }
}

/// The configuration that a YAML text gives: null where it is no document, nothing where there is
/// no text.
pub open spec fn config_of(text: Option<Seq<char>>) -> Option<JsonV> {
    match text {
        Some(s) => Some(json::value_or(codec::yaml_document(s), JsonV::Null)),
        None => None,
    }
}

/// The configuration of a run, from the text of its configuration file.
pub fn load_config(text: &Option<String>) -> (r: Option<Json>)
    ensures
        codec::optional(r) == config_of(text::optional_text(*text)),
{
    match text {
        Some(s) => Some(document_or(parse_yaml(s.as_str()), Json::Null)),
        None => None,
    }
}

/// The metadata that a JSON text gives: an empty object where there is no text, a blank one, or no
/// document.
pub open spec fn meta_of(text: Option<Seq<char>>) -> JsonV {
    match text {
        Some(s) => if text::trimmed(s).len() == 0 {
            JsonV::Object(Seq::empty())
        } else {
            json::value_or(codec::json_document(s), JsonV::Object(Seq::empty()))
        },
        None => JsonV::Object(Seq::empty()),
    }
}

/// The metadata of a run, from the text of its metadata file.
pub fn load_meta(text: &Option<String>) -> (r: Json)
    ensures
        r@ == meta_of(text::optional_text(*text)),
{
    let empty = Json::Object(JsonMap::new());
    match text {
        Some(s) => if trim_text(s.as_str()).as_str().is_empty() {
            empty
        } else {
            document_or(parse_json(s.as_str()), empty)
        },
        None => empty,
    }
}

// ---------------------------------- the project ----------------------------------

/// The object of the project.
pub open spec fn project_json(row: Seq<SqlValue>) -> JsonV {
    JsonV::Object(rows::row_members(rows::project_columns(), row))
}

/// What a result says where a project row is needed.
pub open spec fn project_result(row: Option<Vec<SqlValue>>) -> Result<JsonV, DbError> {
    match row {
        Some(v) => Ok(project_json(v@)),
        None => Err(DbError::ProjectNotFound),
    }
}

/// What a result with a JSON value says.
pub open spec fn result_view(r: Result<Json, DbError>) -> Result<JsonV, DbError> {
    match r {
        Ok(j) => Ok(j@),
        Err(e) => Err(e),
    }
}

/// What a result with an optional JSON value says.
pub open spec fn optional_result_view(r: Result<Option<Json>, DbError>) -> Result<
    Option<JsonV>,
    DbError,
> {
    match r {
        Ok(j) => Ok(codec::optional(j)),
        Err(e) => Err(e),
    }
}

/// The object of the project.
pub fn project_dict(row: &Option<Vec<SqlValue>>) -> (r: Result<Json, DbError>)
    requires
        rows::row_fits(*row, rows::project_columns().len()),
    ensures
        result_view(r) == project_result(*row),
{
    let cols = project_cols();
    proof {
        assert(cols@.len() == text::slices(cols@).len());
    }
    match query_one_object(&cols, row) {
        Some(o) => Ok(Json::Object(o)),
        None => Err(DbError::ProjectNotFound),
    }
}

/// A project whose `charts` is null.
pub open spec fn without_charts(project: JsonV) -> JsonV {
    match project {
        JsonV::Object(o) => JsonV::Object(json::with_member(o, "charts"@, JsonV::Null)),
        _ => project,
    }
}

/// The project as it is nested in a namespace: its `charts` is null there.
pub fn nullify_charts(project: &Json) -> (r: Json)
    ensures
        r@ == without_charts(project@),
{
    match project {
        Json::Object(o) => {
            let mut m = o.copy();
            m.set("charts", Json::Null);
            Json::Object(m)
        },
        _ => project.copy(),
    }
}

/// An experiment with its project nested in it.
pub open spec fn experiment_json(row: Seq<SqlValue>, project: JsonV) -> JsonV {
    JsonV::Object(
        json::with_member(
            rows::row_members(rows::experiment_columns(), row),
            "project_id"@,
            project,
        ),
    )
}

/// The experiment of a row, if one was found, with its project nested in it.
pub fn experiment_full(row: &Option<Vec<SqlValue>>, project: &Json) -> (r: Option<Json>)
    requires
        rows::row_fits(*row, rows::experiment_columns().len()),
    ensures
        codec::optional(r) == (match *row {
            Some(v) => Some(experiment_json(v@, project@)),
            None => None,
        }),
{
    let cols = experiment_cols();
    proof {
        assert(cols@.len() == text::slices(cols@).len());
    }
    match query_one_object(&cols, row) {
        Some(o) => {
            let mut m = o;
            m.set("project_id", project.copy());
            Some(Json::Object(m))
        },
        None => None,
    }
}

/// An experiment row with the text of its configuration file, if it has one.
#[derive(Debug, PartialEq)]
pub struct ExperimentFiles {
    pub values: Vec<SqlValue>,
    pub config: Option<String>,
}

/// An experiment row with its configuration.
#[derive(Debug, PartialEq)]
pub struct ExperimentConfig<'a> {
    pub values: &'a Vec<SqlValue>,
    pub config: Option<Json>,
}

/// What an experiment row and its configuration say.
pub struct ExperimentConfigV {
    pub values: Seq<SqlValue>,
    pub config: Option<JsonV>,
}

impl<'a> View for ExperimentConfig<'a> {
    type V = ExperimentConfigV;

    open spec fn view(&self) -> ExperimentConfigV {
        ExperimentConfigV { values: self.values@, config: codec::optional(self.config) }
    }
}

/// What the experiments of a list say.
pub open spec fn configs_view<'a>(s: Seq<ExperimentConfig<'a>>) -> Seq<ExperimentConfigV> {
    s.map_values(|e: ExperimentConfig<'a>| e@)
}

/// What the experiments of a list say once their configuration files are read.
pub open spec fn files_view(s: Seq<ExperimentFiles>) -> Seq<ExperimentConfigV> {
    s.map_values(
        |e: ExperimentFiles|
            ExperimentConfigV {
                values: e.values@,
                config: config_of(text::optional_text(e.config)),
            },
    )
}

/// The run id in the row of an experiment, empty where it is no text.
pub open spec fn run_id_in(cols: Seq<Seq<char>>, row: Seq<SqlValue>) -> Seq<char> {
    json::text_at(JsonV::Object(rows::row_members(cols, row)), "run_id"@)
}

/// The run id in the row of an experiment, whose columns are `cols`.
pub fn experiment_run_id(cols: &Vec<&'static str>, row: &Vec<SqlValue>) -> (r: String)
    requires
        row.len() == cols.len(),
    ensures
        r@ == run_id_in(text::slices(cols@), row@),
{
    row_object(cols, row).str_at("run_id")
}

/// The members with a configuration, where there is one.
pub open spec fn with_config(o: Seq<(Seq<char>, JsonV)>, config: Option<JsonV>) -> Seq<
    (Seq<char>, JsonV),
> {
    match config {
        Some(c) => json::with_member(o, "config"@, c),
        None => o,
    }
}

/// An experiment in the list of the project.
pub open spec fn listed_experiment(e: ExperimentConfigV, overlay: OverlayV) -> JsonV {
    let o = rows::row_members(rows::experiment_columns(), e.values);
    let id = json::int_at(JsonV::Object(o), "id"@, 0) as i64;
    let o1 = json::with_member(o, "experiment_id"@, JsonV::Int(id as int));
    let o2 = uistate::overlaid_member(o1, "show"@, overlay.experiment_show, id);
    JsonV::Object(with_config(o2, e.config))
}

/// The project, the log directory, the experiments and the colors.
pub open spec fn project_view(
    project: Seq<SqlValue>,
    logdir: Seq<char>,
    experiments: Seq<ExperimentConfigV>,
    overlay: OverlayV,
) -> JsonV {
    let o = rows::row_members(rows::project_columns(), project);
    let o1 = json::with_member(o, "logdir"@, JsonV::Str(logdir));
    let o2 = json::with_member(
        o1,
        "experiments"@,
        JsonV::Array(
            experiments.map_values(|e: ExperimentConfigV| listed_experiment(e, overlay)),
        ),
    );
    JsonV::Object(json::with_member(o2, "colors"@, colors()))
}

fn list_experiment(e: &ExperimentConfig, overlay: &UiOverlay) -> (r: Json)
    requires
        e.values.len() == rows::experiment_columns().len(),
    ensures
        r@ == listed_experiment(e@, overlay@),
{
    let cols = experiment_cols();
    proof {
        assert(cols@.len() == text::slices(cols@).len());
    }
    let mut m = row_object(&cols, e.values);
    let id: i64 = m.i64_at("id", 0);
    m.set("experiment_id", Json::Int(id));
    show_override(&mut m, id, overlay);
    match &e.config {
        Some(c) => {
            m.set("config", c.copy());
        },
        None => {},
    }
    Json::Object(m)
}

fn show_override(m: &mut JsonMap, id: i64, overlay: &UiOverlay)
    ensures
        final(m)@ == uistate::overlaid_member(
            old(m)@,
            "show"@,
            overlay@.experiment_show,
            id,
        ),
{
    let shown = match m.get("show") {
        Some(v) => Some(overlay.apply_experiment_show(id, v.copy())),
        None => None,
    };
    match shown {
        Some(v) => {
            m.set("show", v);
        },
        None => {},
    }
}

/// The project page: the fields of the project, the log directory, the experiments with their
/// configurations, and the colors.
pub fn project_page(
    project: &Option<Vec<SqlValue>>,
    logdir: &str,
    experiments: &Vec<ExperimentConfig>,
    overlay: &UiOverlay,
) -> (r: Result<Json, DbError>)
    requires
        rows::row_fits(*project, rows::project_columns().len()),
        forall|i: int|
            0 <= i < experiments.len() ==> (#[trigger] experiments@[i]).values.len()
                == rows::experiment_columns().len(),
    ensures
        result_view(r) == (match *project {
            Some(p) => Ok(project_view(p@, logdir@, configs_view(experiments@), overlay@)),
            None => Err(DbError::ProjectNotFound),
        }),
{
    let cols = project_cols();
    proof {
        assert(cols@.len() == text::slices(cols@).len());
    }
    let mut data = match query_one_object(&cols, project) {
        Some(o) => o,
        None => {
            return Err(DbError::ProjectNotFound);
        },
    };
    data.set("logdir", json_text(logdir));
    let mut list: Vec<Json> = Vec::new();
    let mut i: usize = 0;
    while i < experiments.len()
        invariant
            i <= experiments.len(),
            list.len() == i,
            forall|k: int|
                0 <= k < experiments.len() ==> (#[trigger] experiments@[k]).values.len()
                    == rows::experiment_columns().len(),
            forall|j: int|
                0 <= j < i ==> (#[trigger] list@[j])@ == listed_experiment(
                    experiments@[j]@,
                    overlay@,
                ),
        decreases experiments.len() - i,
    {
        list.push(list_experiment(&experiments[i], overlay));
        i += 1;
    }
    proof {
        let all = configs_view(experiments@);
        assert(json::list_view(list) =~= all.map_values(
            |e: ExperimentConfigV| listed_experiment(e, overlay@),
        ));
    }
    data.set("experiments", Json::Array(list));
    data.set("colors", color_list());
    Ok(Json::Object(data))
}

/// The project page, with the configurations read from the texts of their files.
pub fn project_info(
    project: &Option<Vec<SqlValue>>,
    logdir: &str,
    experiments: &Vec<ExperimentFiles>,
    overlay: &UiOverlay,
) -> (r: Result<Json, DbError>)
    requires
        rows::row_fits(*project, rows::project_columns().len()),
        forall|i: int|
            0 <= i < experiments.len() ==> (#[trigger] experiments@[i]).values.len()
                == rows::experiment_columns().len(),
    ensures
        result_view(r) == (match *project {
            Some(p) => Ok(project_view(p@, logdir@, files_view(experiments@), overlay@)),
            None => Err(DbError::ProjectNotFound),
        }),
{
    let mut list: Vec<ExperimentConfig> = Vec::new();
    let mut i: usize = 0;
    while i < experiments.len()
        invariant
            i <= experiments.len(),
            list.len() == i,
            forall|k: int|
                0 <= k < experiments.len() ==> (#[trigger] experiments@[k]).values.len()
                    == rows::experiment_columns().len(),
            forall|j: int|
                0 <= j < i ==> (#[trigger] list@[j])@ == files_view(experiments@)[j]
                    && list@[j].values.len() == rows::experiment_columns().len(),
        decreases experiments.len() - i,
    {
        let e = &experiments[i];
        list.push(ExperimentConfig { values: &e.values, config: load_config(&e.config) });
        i += 1;
    }
    proof {
        assert(configs_view(list@) =~= files_view(experiments@));
    }
    project_page(project, logdir, &list, overlay)
}

// ---------------------------------- one experiment ----------------------------------

/// An experiment with its configuration and metadata.
pub open spec fn experiment_view(
    row: Seq<SqlValue>,
    id: i64,
    config: Option<JsonV>,
    system: JsonV,
    overlay: OverlayV,
) -> JsonV {
    let o = rows::row_members(rows::experiment_brief_columns(), row);
    let o1 = uistate::overlaid_member(o, "show"@, overlay.experiment_show, id);
    JsonV::Object(json::with_member(with_config(o1, config), "system"@, system))
}

/// The page of the experiment `id`: its fields, its configuration where it has one, and its
/// metadata. Nothing where the experiment does not exist.
pub fn experiment_page(
    row: &Option<Vec<SqlValue>>,
    id: i64,
    config: Option<Json>,
    system: Json,
    overlay: &UiOverlay,
) -> (r: Option<Json>)
    requires
        rows::row_fits(*row, rows::experiment_brief_columns().len()),
    ensures
        codec::optional(r) == (match *row {
            Some(v) => Some(experiment_view(v@, id, codec::optional(config), system@, overlay@)),
            None => None,
        }),
{
    let cols = experiment_brief_cols();
    proof {
        assert(cols@.len() == text::slices(cols@).len());
    }
    let mut m = match query_one_object(&cols, row) {
        Some(o) => o,
        None => {
            return None;
        },
    };
    show_override(&mut m, id, overlay);
    match config {
        Some(c) => {
            m.set("config", c);
        },
        None => {},
    }
    m.set("system", system);
    Some(Json::Object(m))
}

/// The page of the experiment `id`, with its configuration and metadata read from the texts of
/// their files.
pub fn experiment_info(
    row: &Option<Vec<SqlValue>>,
    id: i64,
    config: &Option<String>,
    meta: &Option<String>,
    overlay: &UiOverlay,
) -> (r: Option<Json>)
    requires
        rows::row_fits(*row, rows::experiment_brief_columns().len()),
    ensures
        codec::optional(r) == (match *row {
            Some(v) => Some(
                experiment_view(
                    v@,
                    id,
                    config_of(text::optional_text(*config)),
                    meta_of(text::optional_text(*meta)),
                    overlay@,
                ),
            ),
            None => None,
        }),
{
    experiment_page(row, id, load_config(config), load_meta(meta), overlay)
}

/// The members `start` with the members `names` of `o`, null where `o` lacks one.
pub open spec fn with_picked(
    start: Seq<(Seq<char>, JsonV)>,
    o: Seq<(Seq<char>, JsonV)>,
    names: Seq<Seq<char>>,
) -> Seq<(Seq<char>, JsonV)>
    decreases names.len(),
{
    if names.len() == 0 {
        start
    } else {
        json::with_member(
            with_picked(start, o, names.drop_last()),
            names.last(),
            json::value_or(json::member(o, names.last()), JsonV::Null),
        )
    }
}

/// An experiment with its project between its id and its other fields.
pub open spec fn experiment_dict_view(
    row: Seq<SqlValue>,
    id: i64,
    project: JsonV,
    overlay: OverlayV,
) -> JsonV {
    let o = rows::row_members(rows::experiment_brief_columns(), row);
    let o1 = uistate::overlaid_member(o, "show"@, overlay.experiment_show, id);
    let first = json::with_member(
        Seq::empty(),
        "id"@,
        json::value_or(json::member(o1, "id"@), JsonV::Null),
    );
    let second = json::with_member(first, "project_id"@, project);
    JsonV::Object(with_picked(second, o1, rows::experiment_brief_columns().drop_first()))
}

/// The experiment `id` with its project nested in it. Nothing where the experiment does not exist,
/// and an error where it exists and the project does not.
pub fn experiment_dict(
    row: &Option<Vec<SqlValue>>,
    project: &Option<Vec<SqlValue>>,
    id: i64,
    overlay: &UiOverlay,
) -> (r: Result<Option<Json>, DbError>)
    requires
        rows::row_fits(*row, rows::experiment_brief_columns().len()),
        rows::row_fits(*project, rows::project_columns().len()),
    ensures
        optional_result_view(r) == (match (*row, *project) {
            (None, _) => Ok(None),
            (Some(_), None) => Err(DbError::ProjectNotFound),
            (Some(v), Some(p)) => Ok(
                Some(experiment_dict_view(v@, id, project_json(p@), overlay@)),
            ),
        }),
{
    let cols = experiment_brief_cols();
    let ghost names = text::slices(cols@);
    proof {
        assert(cols@.len() == names.len());
    }
    let mut o = match query_one_object(&cols, row) {
        Some(o) => o,
        None => {
            return Ok(None);
        },
    };
    show_override(&mut o, id, overlay);
    let nested = match project_dict(project) {
        Ok(p) => p,
        Err(e) => {
            return Err(e);
        },
    };
    let mut out = JsonMap::new();
    out.set("id", o.copy_at("id", Json::Null));
    out.set("project_id", nested);
    let ghost start = out@;
    let mut i: usize = 1;
    proof {
        assert(names.drop_first().take(0).len() == 0);
    }
    while i < cols.len()
        invariant
            1 <= i <= cols.len(),
            names == text::slices(cols@),
            out@ == with_picked(start, o@, names.drop_first().take(i - 1)),
        decreases cols.len() - i,
    {
        out.set(cols[i], o.copy_at(cols[i], Json::Null));
        proof {
            let t = names.drop_first().take(i as int);
            assert(t.drop_last() =~= names.drop_first().take(i - 1));
            assert(t.last() == cols@[i as int]@);
        }
        i += 1;
    }
    proof {
        assert(names.drop_first().take(names.len() - 1) =~= names.drop_first());
    }
    Ok(Some(Json::Object(out)))
}

// ---------------------------------- rows that exist ----------------------------------

/// Whether a namespace exists, from the id that its query found.
pub fn namespace_exists(found: Option<i64>) -> (r: bool)
    ensures
        r == (found is Some),
{
    found.is_some()
}

/// Whether a project exists, from the id that its query found.
pub fn project_exists(found: Option<i64>) -> (r: bool)
    ensures
        r == (found is Some),
{
    found.is_some()
}

/// Whether an experiment exists, from the run id that its query found.
pub fn experiment_exists(run_id: &Option<String>) -> (r: bool)
    ensures
        r == (run_id is Some),
{
    run_id.is_some()
}

/// The place of the first experiment with a run id, or the number of experiments. An experiment is
/// its run id and its row id.
pub open spec fn run_place(experiments: Seq<(String, i64)>, run_id: Seq<char>) -> int
    decreases experiments.len(),
{
    if experiments.len() == 0 || experiments[0].0@ == run_id {
        0
    } else {
        1 + run_place(experiments.drop_first(), run_id)
    }
}

/// The row id of the experiment with a run id.
pub open spec fn id_of_run(experiments: Seq<(String, i64)>, run_id: Seq<char>) -> Option<i64> {
    if run_place(experiments, run_id) < experiments.len() {
        Some(experiments[run_place(experiments, run_id)].1)
    } else {
        None
    }
}

/// What `run_place` finds.
pub proof fn lemma_run_place(experiments: Seq<(String, i64)>, run_id: Seq<char>)
    ensures
        0 <= run_place(experiments, run_id) <= experiments.len(),
        run_place(experiments, run_id) < experiments.len() ==> experiments[run_place(
            experiments,
            run_id,
        )].0@ == run_id,
        forall|j: int|
            0 <= j < run_place(experiments, run_id) ==> (#[trigger] experiments[j]).0@ != run_id,
    decreases experiments.len(),
{
    if experiments.len() > 0 && experiments[0].0@ != run_id {
        let rest = experiments.drop_first();
        lemma_run_place(rest, run_id);
        assert forall|j: int| 0 <= j < run_place(experiments, run_id) implies (
        #[trigger] experiments[j]).0@ != run_id by {
            if j > 0 {
                assert(rest[j - 1] == experiments[j]);
            }
        }
    }
}

/// The row id of the experiment with the run id `run_id`.
pub fn find_run(experiments: &Vec<(String, i64)>, run_id: &str) -> (r: Option<i64>)
    ensures
        r == id_of_run(experiments@, run_id@),
{
    let mut i: usize = 0;
    proof {
        lemma_run_place(experiments@, run_id@);
    }
    while i < experiments.len()
        invariant
            i <= experiments.len(),
            forall|j: int| 0 <= j < i ==> (#[trigger] experiments@[j]).0@ != run_id@,
            0 <= run_place(experiments@, run_id@) <= experiments.len(),
            run_place(experiments@, run_id@) < experiments.len() ==> experiments@[run_place(
                experiments@,
                run_id@,
            )].0@ == run_id@,
            forall|j: int|
                0 <= j < run_place(experiments@, run_id@) ==> (
                #[trigger] experiments@[j]).0@ != run_id@,
        decreases experiments.len() - i,
    {
        if same_text(experiments[i].0.as_str(), run_id) {
            return Some(experiments[i].1);
        }
        i += 1;
    }
    None
}

/// Whether an experiment with the run id `run_id` exists.
pub fn run_id_exists(experiments: &Vec<(String, i64)>, run_id: &str) -> (r: bool)
    ensures
        r == (id_of_run(experiments@, run_id@) is Some),
{
    find_run(experiments, run_id).is_some()
}

/// The row ids of the experiments with some run ids; a run id without an experiment is dropped.
pub open spec fn ids_of_runs(
    run_ids: Seq<Seq<char>>,
    experiments: Seq<(String, i64)>,
) -> Seq<i64>
    decreases run_ids.len(),
{
    if run_ids.len() == 0 {
        Seq::empty()
    } else {
        let before = ids_of_runs(run_ids.drop_last(), experiments);
        match id_of_run(experiments, run_ids.last()) {
            Some(id) => before.push(id),
            None => before,
        }
    }
}

/// The row ids of the experiments with the run ids `run_ids`, in their order; a run id that no
/// experiment has is dropped.
pub fn ids_for_run_ids(run_ids: &Vec<String>, experiments: &Vec<(String, i64)>) -> (r: Vec<i64>)
    ensures
        r@ == ids_of_runs(text::texts(run_ids@), experiments@),
{
    let ghost all = text::texts(run_ids@);
    let mut r: Vec<i64> = Vec::new();
    let mut i: usize = 0;
    proof {
        assert(all.take(0).len() == 0);
    }
    while i < run_ids.len()
        invariant
            i <= run_ids.len(),
            all == text::texts(run_ids@),
            r@ == ids_of_runs(all.take(i as int), experiments@),
        decreases run_ids.len() - i,
    {
        proof {
            assert(all.take(i + 1).drop_last() =~= all.take(i as int));
            assert(all.take(i + 1).last() == run_ids@[i as int]@);
        }
        match find_run(experiments, run_ids[i].as_str()) {
            Some(id) => {
                r.push(id);
            },
            None => {},
        }
        i += 1;
    }
    proof {
        assert(all.take(all.len() as int) =~= all);
    }
    r
}

// ---------------------------------- laws ----------------------------------

/// Run ids that all belong to experiments give the row ids of those experiments, one for each, in
/// the same order.
pub proof fn law_known_runs_keep_their_order(
    run_ids: Seq<Seq<char>>,
    experiments: Seq<(String, i64)>,
    i: int,
)
    requires
        forall|k: int|
            0 <= k < run_ids.len() ==> id_of_run(experiments, #[trigger] run_ids[k]) is Some,
        0 <= i < run_ids.len(),
    ensures
        ids_of_runs(run_ids, experiments).len() == run_ids.len(),
        id_of_run(experiments, run_ids[i]) == Some(ids_of_runs(run_ids, experiments)[i]),
    decreases run_ids.len(),
{
    let t = run_ids.drop_last();
    assert(id_of_run(experiments, run_ids[run_ids.len() - 1]) is Some);
    assert forall|k: int| 0 <= k < t.len() implies id_of_run(
        experiments,
        #[trigger] t[k],
    ) is Some by {
        assert(t[k] == run_ids[k]);
    }
    assert(t.len() == 0 ==> ids_of_runs(t, experiments).len() == 0);
    if t.len() > 0 {
        law_known_runs_keep_their_order(t, experiments, 0);
    }
    if i < t.len() {
        law_known_runs_keep_their_order(t, experiments, i);
    }
}

/// Every row id that run ids give belongs to the experiment of one of them.
pub proof fn law_unknown_runs_are_dropped(
    run_ids: Seq<Seq<char>>,
    experiments: Seq<(String, i64)>,
    i: int,
)
    requires
        0 <= i < ids_of_runs(run_ids, experiments).len(),
    ensures
        exists|k: int|
            0 <= k < run_ids.len() && id_of_run(experiments, #[trigger] run_ids[k]) == Some(
                ids_of_runs(run_ids, experiments)[i],
            ),
    decreases run_ids.len(),
{
    let t = run_ids.drop_last();
    let before = ids_of_runs(t, experiments);
    if i < before.len() {
        law_unknown_runs_are_dropped(t, experiments, i);
        let k = choose|k: int|
            0 <= k < t.len() && id_of_run(experiments, #[trigger] t[k]) == Some(before[i]);
        assert(run_ids[k] == t[k]);
    } else {
        assert(run_ids[run_ids.len() - 1] == run_ids.last());
    }
}

/// The colors on a dark page are those on a light one.
pub proof fn law_dark_mirrors_light()
    ensures
        json::field(colors(), "dark"@) == json::field(colors(), "light"@),
        json::field(colors(), "light"@) == Some(json::strings(light_colors())),
{
    reveal_strlit("light");
    reveal_strlit("dark");
    assert("light"@.len() != "dark"@.len());
    let o = colors()->Object_0;
    json::lemma_find_key_is(o, "light"@, 0);
    json::lemma_find_key_is(o, "dark"@, 1);
}

} // verus!
