//! Answers to the requests of the dashboard.
//!
//! What a request needs from the database or from files is read before it is answered, and comes
//! here as a value, or as the reason why it could not be read.

use vstd::prelude::*;

use crate::comparisons::{self, ChartOwner, OwnerRows, chart_status_groups};
use crate::json::{self, Json, JsonMap, JsonV};
use crate::records::{self, experiment_dict};
use crate::resp::{
    self, Response, ResponseV, data_error, not_found, params_error, success, success_empty,
};
use crate::rows::{self, SqlValue};
use crate::text::{self, joined, signed_text};
use crate::uistate::{self, OverlayV, UiOverlay, UiState, truthy_to_int};

verus! {

/// Why something could not be read, with the text of the error.
#[derive(Debug, PartialEq)]
pub enum Failure {
    /// The database or a file could not be read.
    Read(String),
    /// The task that was to read it did not end.
    Task(String),
}

/// The text of a failure.
pub open spec fn failure_text(f: Failure) -> Seq<char> {
    match f {
        Failure::Read(e) => e@,
        Failure::Task(e) => e@,
    }
}

/// The answer where something could not be read.
pub fn failed(f: &Failure) -> (r: Response)
    ensures
        r@ == resp::failure_reply(failure_text(*f)),
{
    match f {
        Failure::Read(e) => data_error(e.as_str()),
        Failure::Task(e) => data_error(e.as_str()),
    }
}

// ---------------------------------- reading ----------------------------------

/// The answer with a payload that always exists.
pub open spec fn payload_reply(v: Result<Json, Failure>) -> ResponseV {
    match v {
        Ok(j) => resp::success_reply(j@),
        Err(f) => resp::failure_reply(failure_text(f)),
    }
}

/// The answer with a payload that may not exist.
pub open spec fn optional_reply(v: Result<Option<Json>, Failure>, missing: Seq<char>) -> ResponseV {
    match v {
        Ok(Some(j)) => resp::success_reply(j@),
        Ok(None) => resp::missing_reply(missing),
        Err(f) => resp::failure_reply(failure_text(f)),
    }
}

fn answer(v: Result<Json, Failure>) -> (r: Response)
    ensures
        r@ == payload_reply(v),
{
    match v {
        Ok(j) => success(j),
        Err(f) => failed(&f),
    }
}

fn answer_optional(v: Result<Option<Json>, Failure>, missing: &str) -> (r: Response)
    ensures
        r@ == optional_reply(v, missing@),
{
    match v {
        Ok(Some(j)) => success(j),
        Ok(None) => not_found(missing),
        Err(f) => failed(&f),
    }
}

/// The project page.
pub fn get_project(v: Result<Json, Failure>) -> (r: Response)
    ensures
        r@ == (match v {
            Ok(j) => resp::success_reply(j@),
            Err(Failure::Read(e)) => resp::failure_reply("Get list experiments failed: "@ + e@),
            Err(Failure::Task(e)) => resp::failure_reply(e@),
        }),
{
    match v {
        Ok(j) => success(j),
        Err(Failure::Read(e)) => data_error(
            joined("Get list experiments failed: ", e.as_str()).as_str(),
        ),
        Err(Failure::Task(e)) => data_error(e.as_str()),
    }
}

/// The page of an experiment.
pub fn get_experiment(v: Result<Option<Json>, Failure>) -> (r: Response)
    ensures
        r@ == optional_reply(v, "experiment not found"@),
{
    answer_optional(v, "experiment not found")
}

/// The summaries of all experiments.
pub fn get_project_summaries(v: Result<Json, Failure>) -> (r: Response)
    ensures
        r@ == payload_reply(v),
{
    answer(v)
}

/// The summary of an experiment.
pub fn get_experiment_summary(v: Result<Option<Json>, Failure>) -> (r: Response)
    ensures
        r@ == optional_reply(v, "experiment not found"@),
{
    answer_optional(v, "experiment not found")
}

/// The comparison of all experiments.
pub fn get_project_charts(v: Result<Json, Failure>) -> (r: Response)
    ensures
        r@ == payload_reply(v),
{
    answer(v)
}

/// The charts of an experiment.
pub fn get_experiment_chart(v: Result<Option<Json>, Failure>) -> (r: Response)
    ensures
        r@ == optional_reply(v, "experiment not found"@),
{
    answer_optional(v, "experiment not found")
}

/// The status of an experiment.
pub fn get_experiment_status_ep(v: Result<Option<Json>, Failure>) -> (r: Response)
    ensures
        r@ == optional_reply(v, "experiment not found"@),
{
    answer_optional(v, "experiment not found")
}

/// The series of a tag.
pub fn get_experiment_tag(v: Result<Option<Json>, Failure>) -> (r: Response)
    ensures
        r@ == optional_reply(v, "tag not found"@),
{
    answer_optional(v, "tag not found")
}

/// The console logs of an experiment.
pub fn get_recent_log(v: Result<Option<Json>, Failure>) -> (r: Response)
    ensures
        r@ == optional_reply(v, "No Logs Found"@),
{
    answer_optional(v, "No Logs Found")
}

/// The requirements of an experiment. That there are none is a data error.
pub fn get_requirements(v: Result<Option<Json>, Failure>) -> (r: Response)
    ensures
        r@ == (match v {
            Ok(Some(j)) => resp::success_reply(j@),
            Ok(None) => resp::failure_reply("failed to find requirements"@),
            Err(f) => resp::failure_reply(failure_text(f)),
        }),
{
    match v {
        Ok(Some(j)) => success(j),
        Ok(None) => data_error("failed to find requirements"),
        Err(f) => failed(&f),
    }
}

/// The parameters of a request for a media file.
#[derive(Debug, PartialEq)]
pub struct MediaQuery {
    pub tag: String,
    pub experiment_id: i64,
}

/// What an answer that may be refused says.
pub open spec fn refusal<T>(r: Result<T, Response>) -> Result<T, ResponseV> {
    match r {
        Ok(v) => Ok(v),
        Err(e) => Err(e@),
    }
}

/// The media file to serve, or the answer where there is none.
pub fn get_media<T>(v: Result<Option<T>, Failure>) -> (r: Result<T, Response>)
    ensures
        refusal(r) == (match v {
            Ok(Some(path)) => Ok(path),
            Ok(None) => Err(resp::missing_reply("media not found"@)),
            Err(f) => Err(resp::failure_reply(failure_text(f))),
        }),
{
    match v {
        Ok(Some(path)) => Ok(path),
        Ok(None) => Err(not_found("media not found")),
        Err(f) => Err(failed(&f)),
    }
}

// ---------------------------------- view preferences ----------------------------------

/// Whether a request leaves out a parameter: it is missing or null.
pub open spec fn is_missing(body: JsonV, key: Seq<char>) -> bool {
    match json::field(body, key) {
        None => true,
        Some(JsonV::Null) => true,
        Some(_) => false,
    }
}

/// Whether a request leaves out the parameter `key`.
pub fn missing(body: &Json, key: &str) -> (r: bool)
    ensures
        r == is_missing(body@, key@),
{
    match body.get(key) {
        None => true,
        Some(Json::Null) => true,
        Some(_) => false,
    }
}

/// The integer that a request gives for a parameter.
pub open spec fn optional_int(body: JsonV, key: Seq<char>) -> Option<i64> {
    match json::field(body, key) {
        Some(v) => match json::int_of(v) {
            Some(i) => Some(i as i64),
            None => None,
        },
        None => None,
    }
}

fn i64_param(body: &Json, key: &str) -> (r: Option<i64>)
    ensures
        r == optional_int(body@, key@),
{
    match body.get(key) {
        Some(v) => v.as_i64(),
        None => None,
    }
}

/// What a request opens or closes.
#[derive(Debug, PartialEq)]
pub enum OpenTarget {
    ExperimentPinned(i64),
    ExperimentHidden(i64),
    ProjectPinned(i64),
    ProjectHidden(i64),
    Namespace(i64),
}

/// A request to open or close something.
#[derive(Debug, PartialEq)]
pub struct OpenRequest {
    pub target: OpenTarget,
    pub opened: i64,
}

/// 1 where a value counts as true, else 0.
pub open spec fn truth(v: JsonV) -> i64 {
    if uistate::truthy(v) {
        1
    } else {
        0
    }
}

/// What a request for a namespace asks for. The ids -1 and -2 stand for the pinned and the hidden
/// charts of the experiment that the request names, or else of the project.
pub open spec fn open_request(namespace_id: i64, body: JsonV) -> Result<OpenRequest, ResponseV> {
    let experiment = optional_int(body, "experiment_id"@);
    let project = optional_int(body, "project_id"@);
    if is_missing(body, "opened"@) {
        Err(resp::params_reply("Request parameter 'opened'"@))
    } else {
        let opened = truth(json::field(body, "opened"@)->0);
        if namespace_id == -1 || namespace_id == -2 {
            match (experiment, project) {
                (Some(e), _) => Ok(
                    OpenRequest {
                        target: if namespace_id == -1 {
                            OpenTarget::ExperimentPinned(e)
                        } else {
                            OpenTarget::ExperimentHidden(e)
                        },
                        opened,
                    },
                ),
                (None, Some(p)) => Ok(
                    OpenRequest {
                        target: if namespace_id == -1 {
                            OpenTarget::ProjectPinned(p)
                        } else {
                            OpenTarget::ProjectHidden(p)
                        },
                        opened,
                    },
                ),
                (None, None) => Err(
                    resp::params_reply("Request parameter 'experiment_id' or 'project_id'"@),
                ),
            }
        } else {
            Ok(OpenRequest { target: OpenTarget::Namespace(namespace_id), opened })
        }
    }
}

/// Reads a request for a namespace, or refuses it.
pub fn namespace_request(namespace_id: i64, body: &Json) -> (r: Result<OpenRequest, Response>)
    ensures
        refusal(r) == open_request(namespace_id, body@),
{
    let opened: i64 = match body.get("opened") {
        None => {
            return Err(params_error("Request parameter 'opened'"));
        },
        Some(Json::Null) => {
            return Err(params_error("Request parameter 'opened'"));
        },
        Some(v) => truthy_to_int(v),
    };
    if namespace_id != -1 && namespace_id != -2 {
        return Ok(OpenRequest { target: OpenTarget::Namespace(namespace_id), opened });
    }
    let pinned: bool = namespace_id == -1;
    match i64_param(body, "experiment_id") {
        Some(e) => Ok(
            OpenRequest {
                target: if pinned {
                    OpenTarget::ExperimentPinned(e)
                } else {
                    OpenTarget::ExperimentHidden(e)
                },
                opened,
            },
        ),
        None => match i64_param(body, "project_id") {
            Some(p) => Ok(
                OpenRequest {
                    target: if pinned {
                        OpenTarget::ProjectPinned(p)
                    } else {
                        OpenTarget::ProjectHidden(p)
                    },
                    opened,
                },
            ),
            None => Err(params_error("Request parameter 'experiment_id' or 'project_id'")),
        },
    }
}

/// The overlay after a request to open or close something.
pub open spec fn with_opened(o: OverlayV, q: OpenRequest) -> OverlayV {
    match q.target {
        OpenTarget::ExperimentPinned(id) => uistate::with_experiment_pinned_opened(
            o,
            id,
            q.opened,
        ),
        OpenTarget::ExperimentHidden(id) => uistate::with_experiment_hidden_opened(
            o,
            id,
            q.opened,
        ),
        OpenTarget::ProjectPinned(id) => uistate::with_project_pinned_opened(o, id, q.opened),
        OpenTarget::ProjectHidden(id) => uistate::with_project_hidden_opened(o, id, q.opened),
        OpenTarget::Namespace(id) => uistate::with_namespace_opened(o, id, q.opened),
    }
}

/// What is said where the target of a request does not exist. A project is named by no id.
pub open spec fn missing_target(t: OpenTarget) -> Seq<char> {
    match t {
        OpenTarget::ExperimentPinned(id) => "Experiment or project with id "@ + text::int_text(
            id as int,
        ) + " does not exist."@,
        OpenTarget::ExperimentHidden(id) => "Experiment or project with id "@ + text::int_text(
            id as int,
        ) + " does not exist."@,
        OpenTarget::ProjectPinned(_) => "Experiment or project with id "@ + "None"@
            + " does not exist."@,
        OpenTarget::ProjectHidden(_) => "Experiment or project with id "@ + "None"@
            + " does not exist."@,
        OpenTarget::Namespace(id) => "Namespace with id "@ + text::int_text(id as int)
            + " does not exist."@,
    }
}

fn around(before: &str, middle: &str, after: &str) -> (r: String)
    ensures
        r@ == before@ + middle@ + after@,
{
    let mut r = before.to_owned();
    r.append(middle);
    r.append(after);
    r
}

fn missing_message(t: &OpenTarget) -> (r: String)
    ensures
        r@ == missing_target(*t),
{
    let start = "Experiment or project with id ";
    let end = " does not exist.";
    match t {
        OpenTarget::ExperimentPinned(id) => around(start, signed_text(*id).as_str(), end),
        OpenTarget::ExperimentHidden(id) => around(start, signed_text(*id).as_str(), end),
        OpenTarget::ProjectPinned(_) => around(start, "None", end),
        OpenTarget::ProjectHidden(_) => around(start, "None", end),
        OpenTarget::Namespace(id) => around("Namespace with id ", signed_text(*id).as_str(), end),
    }
}

/// Whether the answer `r` and the state `after` are what a change of the state `before` to `next`
/// gives: a change that was stored is answered by `done`, one that could not be stored leaves the
/// state as it was and is answered by the reason.
pub open spec fn settled<F: FnOnce(&UiOverlay) -> Result<(), String>>(
    store: F,
    before: OverlayV,
    next: OverlayV,
    after: OverlayV,
    done: ResponseV,
    r: ResponseV,
) -> bool {
    ||| uistate::stored(store, next, Ok::<(), String>(())) && after == next && r == done
    ||| exists|e: String|
        #[trigger] uistate::stored(store, next, Err::<(), String>(e)) && after == before && r
            == resp::failure_reply(e@)
}

fn apply_opened<F: FnOnce(&UiOverlay) -> Result<(), String>>(
    ui: &mut UiState,
    q: &OpenRequest,
    store: F,
) -> (r: Result<(), String>)
    requires
        uistate::storable(store, with_opened(old(ui)@, *q)),
    ensures
        uistate::stored(store, with_opened(old(ui)@, *q), r),
        r is Ok ==> final(ui)@ == with_opened(old(ui)@, *q),
        r is Err ==> final(ui)@ == old(ui)@,
{
    match q.target {
        OpenTarget::ExperimentPinned(id) => ui.set_experiment_pinned(id, q.opened, store),
        OpenTarget::ExperimentHidden(id) => ui.set_experiment_hidden(id, q.opened, store),
        OpenTarget::ProjectPinned(id) => ui.set_project_pinned(id, q.opened, store),
        OpenTarget::ProjectHidden(id) => ui.set_project_hidden(id, q.opened, store),
        OpenTarget::Namespace(id) => ui.set_namespace_opened(id, q.opened, store),
    }
}

/// Opens or closes a namespace, or the pinned or hidden charts of an experiment or the project.
/// `exists` says whether the target of the request exists.
pub fn patch_namespace_opened<F: FnOnce(&UiOverlay) -> Result<(), String>>(
    ui: &mut UiState,
    namespace_id: i64,
    body: &Json,
    exists: Result<bool, Failure>,
    store: F,
) -> (r: Response)
    requires
        open_request(namespace_id, body@) matches Ok(q) ==> exists == Ok::<bool, Failure>(true)
            ==> uistate::storable(store, with_opened(old(ui)@, q)),
    ensures
        match open_request(namespace_id, body@) {
            Err(refused) => r@ == refused && final(ui)@ == old(ui)@,
            Ok(q) => match exists {
                Err(f) => r@ == resp::failure_reply(failure_text(f)) && final(ui)@ == old(ui)@,
                Ok(false) => r@ == resp::missing_reply(missing_target(q.target)) && final(ui)@
                    == old(ui)@,
                Ok(true) => settled(
                    store,
                    old(ui)@,
                    with_opened(old(ui)@, q),
                    final(ui)@,
                    resp::empty_reply(),
                    r@,
                ),
            },
        },
{
    let q = match namespace_request(namespace_id, body) {
        Ok(q) => q,
        Err(refused) => {
            return refused;
        },
    };
    match exists {
        Err(f) => failed(&f),
        Ok(false) => not_found(missing_message(&q.target).as_str()),
        Ok(true) => match apply_opened(ui, &q, store) {
            Ok(u) => {
                assert(u == ());
                success_empty()
            },
            Err(e) => data_error(e.as_str()),
        },
    }
}

/// The status that a request gives, or the refusal of the request.
pub open spec fn status_request(body: JsonV) -> Result<i64, ResponseV> {
    match optional_int(body, "status"@) {
        Some(s) => Ok(s),
        None => Err(resp::params_reply("Request parameter 'status'"@)),
    }
}

/// Reads the status that a request gives, or refuses the request.
pub fn chart_status_request(body: &Json) -> (r: Result<i64, Response>)
    ensures
        refusal(r) == status_request(body@),
{
    if missing(body, "status") {
        return Err(params_error("Request parameter 'status'"));
    }
    match i64_param(body, "status") {
        Some(s) => Ok(s),
        None => Err(params_error("Request parameter 'status'")),
    }
}

/// The answer once the status of a chart is set: the groups of the charts of its owner.
pub open spec fn groups_reply(
    rows: Result<Option<OwnerRows>, Failure>,
    overlay: OverlayV,
) -> ResponseV {
    match rows {
        Err(f) => resp::failure_reply(failure_text(f)),
        Ok(owner) => match comparisons::groups_outcome(owner, overlay) {
            Ok(Some(v)) => resp::success_reply(v),
            Ok(None) => resp::params_reply("chart_id not exist"@),
            Err(e) => resp::failure_reply(records::error_text(e)),
        },
    }
}

fn answer_groups(rows: &Result<Option<OwnerRows>, Failure>, overlay: &UiOverlay) -> (r: Response)
    requires
        rows matches Ok(Some(o)) ==> comparisons::owner_rows_fit(*o),
    ensures
        r@ == groups_reply(*rows, overlay@),
{
    match rows {
        Err(f) => failed(f),
        Ok(owner) => match chart_status_groups(owner, overlay) {
            Ok(Some(v)) => success(v),
            Ok(None) => params_error("chart_id not exist"),
            Err(e) => data_error(e.message().as_str()),
        },
    }
}

/// Sets the status of a chart: 1 pins it, 0 shows it in its namespace, -1 hides it. The answer holds
/// the namespaces of its owner with their charts, as they are now. `owner` is the owner of the
/// chart, and `rows` what its charts are made of.
pub fn patch_chart_status<F: FnOnce(&UiOverlay) -> Result<(), String>>(
    ui: &mut UiState,
    chart_id: i64,
    body: &Json,
    owner: Result<Option<ChartOwner>, Failure>,
    rows: &Result<Option<OwnerRows>, Failure>,
    store: F,
) -> (r: Response)
    requires
        rows matches Ok(Some(o)) ==> comparisons::owner_rows_fit(*o),
        status_request(body@) matches Ok(s) ==> (owner matches Ok(Some(_)) ==> uistate::storable(
            store,
            uistate::with_chart_status(old(ui)@, chart_id, s),
        )),
    ensures
        match status_request(body@) {
            Err(refused) => r@ == refused && final(ui)@ == old(ui)@,
            Ok(s) => match owner {
                Err(f) => r@ == resp::failure_reply(failure_text(f)) && final(ui)@ == old(ui)@,
                Ok(None) => r@ == resp::params_reply("chart_id not exist"@) && final(ui)@
                    == old(ui)@,
                Ok(Some(_)) => {
                    let next = uistate::with_chart_status(old(ui)@, chart_id, s);
                    settled(store, old(ui)@, next, final(ui)@, groups_reply(*rows, next), r@)
                },
            },
        },
{
    let status: i64 = match chart_status_request(body) {
        Ok(s) => s,
        Err(refused) => {
            return refused;
        },
    };
    match owner {
        Err(f) => failed(&f),
        Ok(None) => params_error("chart_id not exist"),
        Ok(Some(_)) => match ui.set_chart_status(chart_id, status, store) {
            Ok(u) => {
                assert(u == ());
                let overlay = ui.snapshot();
                answer_groups(rows, &overlay)
            },
            Err(e) => data_error(e.as_str()),
        },
    }
}

/// The rows that the answer to a request for the visibility of an experiment is made of.
#[derive(Debug, PartialEq)]
pub struct DictRows {
    pub experiment: Option<Vec<SqlValue>>,
    pub project: Option<Vec<SqlValue>>,
}

/// Whether every row has a value for each of its columns.
pub open spec fn dict_rows_fit(r: DictRows) -> bool {
    &&& rows::row_fits(r.experiment, rows::experiment_brief_columns().len())
    &&& rows::row_fits(r.project, rows::project_columns().len())
}

/// What is said where an experiment does not exist.
pub open spec fn missing_experiment(id: i64) -> Seq<char> {
    "Experiment with id "@ + text::int_text(id as int) + " does not exist."@
}

/// The answer once the visibility of an experiment is set: the experiment as it is now.
pub open spec fn shown_reply(
    id: i64,
    rows: Result<DictRows, Failure>,
    overlay: OverlayV,
) -> ResponseV {
    match rows {
        Err(f) => resp::failure_reply(failure_text(f)),
        Ok(d) => match (d.experiment, d.project) {
            (None, _) => resp::missing_reply(missing_experiment(id)),
            (Some(_), None) => resp::failure_reply(
                records::error_text(records::DbError::ProjectNotFound),
            ),
            (Some(e), Some(p)) => resp::success_reply(
                JsonV::Object(
                    seq![
                        (
                            "experiment"@,
                            records::experiment_dict_view(
                                e@,
                                id,
                                records::project_json(p@),
                                overlay,
                            ),
                        ),
                    ],
                ),
            ),
        },
    }
}

fn answer_shown(id: i64, rows: &Result<DictRows, Failure>, overlay: &UiOverlay) -> (r: Response)
    requires
        rows matches Ok(d) ==> dict_rows_fit(*d),
    ensures
        r@ == shown_reply(id, *rows, overlay@),
{
    match rows {
        Err(f) => failed(f),
        Ok(d) => match experiment_dict(&d.experiment, &d.project, id, overlay) {
            Ok(Some(v)) => {
                let mut m = JsonMap::new();
                m.append("experiment", v);
                proof {
                    assert(m@ =~= seq![("experiment"@, v@)]);
                }
                success(Json::Object(m))
            },
            Ok(None) => not_found(
                around("Experiment with id ", signed_text(id).as_str(), " does not exist.").as_str(),
            ),
            Err(e) => data_error(e.message().as_str()),
        },
    }
}

/// Shows or hides an experiment. The answer holds the experiment as it is now. `exists` says whether
/// it exists, and `rows` holds what the answer is made of.
pub fn patch_experiment_show<F: FnOnce(&UiOverlay) -> Result<(), String>>(
    ui: &mut UiState,
    experiment_id: i64,
    body: &Json,
    exists: Result<bool, Failure>,
    rows: &Result<DictRows, Failure>,
    store: F,
) -> (r: Response)
    requires
        rows matches Ok(d) ==> dict_rows_fit(*d),
        !is_missing(body@, "show"@) && exists == Ok::<bool, Failure>(true) ==> uistate::storable(
            store,
            uistate::with_experiment_show(
                old(ui)@,
                experiment_id,
                truth(json::field(body@, "show"@)->0),
            ),
        ),
    ensures
        if is_missing(body@, "show"@) {
            r@ == resp::params_reply("Request parameter 'show'"@) && final(ui)@ == old(ui)@
        } else {
            match exists {
                Err(f) => r@ == resp::failure_reply(failure_text(f)) && final(ui)@ == old(ui)@,
                Ok(false) => r@ == resp::missing_reply(missing_experiment(experiment_id))
                    && final(ui)@ == old(ui)@,
                Ok(true) => {
                    let next = uistate::with_experiment_show(
                        old(ui)@,
                        experiment_id,
                        truth(json::field(body@, "show"@)->0),
                    );
                    settled(
                        store,
                        old(ui)@,
                        next,
                        final(ui)@,
                        shown_reply(experiment_id, *rows, next),
                        r@,
                    )
                },
            }
        },
{
    if missing(body, "show") {
        return params_error("Request parameter 'show'");
    }
    let show: i64 = match body.get("show") {
        Some(v) => truthy_to_int(v),
        None => 0,
    };
    match exists {
        Err(f) => failed(&f),
        Ok(false) => not_found(
            around(
                "Experiment with id ",
                signed_text(experiment_id).as_str(),
                " does not exist.",
            ).as_str(),
        ),
        Ok(true) => match ui.set_experiment_show(experiment_id, show, store) {
            Ok(u) => {
                assert(u == ());
                let overlay = ui.snapshot();
                answer_shown(experiment_id, rows, &overlay)
            },
            Err(e) => data_error(e.as_str()),
        },
    }
}

} // verus!
