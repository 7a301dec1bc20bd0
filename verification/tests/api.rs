use fastsl::api::{
    chart_status_request, failed, get_experiment, get_experiment_chart, get_experiment_status_ep,
    get_experiment_summary, get_experiment_tag, get_media, get_project, get_project_charts,
    get_project_summaries, get_recent_log, get_requirements, missing, namespace_request,
    patch_chart_status, patch_experiment_show, patch_namespace_opened, DictRows, Failure,
    MediaQuery, OpenRequest, OpenTarget,
};
use fastsl::charts::ExperimentRows;
use fastsl::comparisons::{ChartOwner, OwnerRows};
use fastsl::codec::parse_json;
use fastsl::json::Json;
use fastsl::resp::{data_error, not_found, params_error, success, success_empty, Response};
use fastsl::rows::SqlValue;
use fastsl::uistate::{UiOverlay, UiState};

fn json(s: &str) -> Json {
    parse_json(s).unwrap()
}

fn read_error() -> Failure {
    Failure::Read("no such table".to_string())
}

fn task_error() -> Failure {
    Failure::Task("panicked".to_string())
}

fn kept(_: &UiOverlay) -> Result<(), String> {
    Ok(())
}

fn refused(_: &UiOverlay) -> Result<(), String> {
    Err("disk full".to_string())
}

#[test]
fn envelopes() {
    assert_eq!(
        success(Json::Int(1)),
        Response { status: 200, body: json("{\"code\":0,\"message\":\"success\",\"data\":1}") }
    );
    assert_eq!(
        success_empty(),
        Response { status: 200, body: json("{\"code\":0,\"message\":\"success\"}") }
    );
    assert_eq!(
        params_error("p"),
        Response { status: 422, body: json("{\"code\":3422,\"message\":\"p\"}") }
    );
    assert_eq!(
        not_found("n"),
        Response { status: 404, body: json("{\"code\":3404,\"message\":\"n\"}") }
    );
    assert_eq!(
        data_error("d"),
        Response { status: 500, body: json("{\"code\":3500,\"message\":\"d\"}") }
    );
    assert_eq!(failed(&read_error()), data_error("no such table"));
    assert_eq!(failed(&task_error()), data_error("panicked"));
}

#[test]
fn payloads_are_answered() {
    assert_eq!(get_project(Ok(Json::Int(1))), success(Json::Int(1)));
    assert_eq!(
        get_project(Err(read_error())),
        data_error("Get list experiments failed: no such table")
    );
    assert_eq!(get_project(Err(task_error())), data_error("panicked"));
    for f in [get_project_summaries, get_project_charts] {
        assert_eq!(f(Ok(Json::Int(1))), success(Json::Int(1)));
        assert_eq!(f(Err(read_error())), data_error("no such table"));
    }
    let cases: Vec<(fn(Result<Option<Json>, Failure>) -> Response, &str)> = vec![
        (get_experiment, "experiment not found"),
        (get_experiment_summary, "experiment not found"),
        (get_experiment_chart, "experiment not found"),
        (get_experiment_status_ep, "experiment not found"),
        (get_experiment_tag, "tag not found"),
        (get_recent_log, "No Logs Found"),
    ];
    for (f, message) in cases {
        assert_eq!(f(Ok(Some(Json::Int(1)))), success(Json::Int(1)));
        assert_eq!(f(Ok(None)), not_found(message));
        assert_eq!(f(Err(read_error())), data_error("no such table"));
    }
    assert_eq!(get_requirements(Ok(None)), data_error("failed to find requirements"));
    assert_eq!(get_requirements(Ok(Some(Json::Int(1)))), success(Json::Int(1)));
    assert_eq!(get_requirements(Err(task_error())), data_error("panicked"));
}

#[test]
fn media_files_are_found_or_refused() {
    let q = MediaQuery { tag: "t".to_string(), experiment_id: 3 };
    assert_eq!(q.experiment_id, 3);
    assert_eq!(get_media(Ok(Some("path"))), Ok("path"));
    assert_eq!(get_media::<u8>(Ok(None)), Err(not_found("media not found")));
    assert_eq!(get_media::<u8>(Err(read_error())), Err(data_error("no such table")));
}

#[test]
fn missing_parameters() {
    let body = json("{\"a\":null,\"b\":0}");
    assert!(missing(&body, "a"));
    assert!(!missing(&body, "b"));
    assert!(missing(&body, "c"));
    assert!(missing(&Json::Int(1), "a"));
}

#[test]
fn requests_to_open_are_read() {
    let body = json("{\"opened\":true,\"experiment_id\":5,\"project_id\":1}");
    assert_eq!(
        namespace_request(-1, &body),
        Ok(OpenRequest { target: OpenTarget::ExperimentPinned(5), opened: 1 })
    );
    assert_eq!(
        namespace_request(-2, &body),
        Ok(OpenRequest { target: OpenTarget::ExperimentHidden(5), opened: 1 })
    );
    let body = json("{\"opened\":0,\"project_id\":1}");
    assert_eq!(
        namespace_request(-1, &body),
        Ok(OpenRequest { target: OpenTarget::ProjectPinned(1), opened: 0 })
    );
    assert_eq!(
        namespace_request(-2, &body),
        Ok(OpenRequest { target: OpenTarget::ProjectHidden(1), opened: 0 })
    );
    assert_eq!(
        namespace_request(12, &body),
        Ok(OpenRequest { target: OpenTarget::Namespace(12), opened: 0 })
    );
    assert_eq!(
        namespace_request(12, &json("{\"opened\":null}")),
        Err(params_error("Request parameter 'opened'"))
    );
    assert_eq!(
        namespace_request(-1, &json("{\"opened\":1,\"experiment_id\":\"5\"}")),
        Err(params_error("Request parameter 'experiment_id' or 'project_id'"))
    );
}

#[test]
fn opening_is_stored_and_answered() {
    let mut ui = UiState::load(None);
    let body = json("{\"opened\":0,\"experiment_id\":5}");
    assert_eq!(patch_namespace_opened(&mut ui, 12, &body, Ok(true), kept), success_empty());
    assert_eq!(ui.snapshot().apply_namespace_opened(12, Json::Int(1)), Json::Int(0));
    assert_eq!(patch_namespace_opened(&mut ui, -1, &body, Ok(true), kept), success_empty());
    assert_eq!(ui.snapshot().apply_experiment_pinned(5, Json::Int(1)), Json::Int(0));
    assert_eq!(
        patch_namespace_opened(&mut ui, 13, &body, Ok(false), kept),
        not_found("Namespace with id 13 does not exist.")
    );
    assert_eq!(
        patch_namespace_opened(&mut ui, -2, &body, Ok(false), kept),
        not_found("Experiment or project with id 5 does not exist.")
    );
    let project = json("{\"opened\":0,\"project_id\":2}");
    assert_eq!(
        patch_namespace_opened(&mut ui, -2, &project, Ok(false), kept),
        not_found("Experiment or project with id None does not exist.")
    );
    assert_eq!(
        patch_namespace_opened(&mut ui, 13, &body, Err(read_error()), kept),
        data_error("no such table")
    );
    assert_eq!(
        patch_namespace_opened(&mut ui, 13, &body, Ok(true), refused),
        data_error("disk full")
    );
    assert_eq!(ui.snapshot().apply_namespace_opened(13, Json::Int(1)), Json::Int(1));
    assert_eq!(
        patch_namespace_opened(&mut ui, 13, &Json::Null, Ok(true), kept),
        params_error("Request parameter 'opened'")
    );
}

fn experiment_rows() -> ExperimentRows {
    let mut experiment = vec![SqlValue::Integer(7)];
    experiment.extend((0..15).map(|_| SqlValue::Null));
    let mut project = vec![SqlValue::Integer(1)];
    project.extend((0..10).map(|_| SqlValue::Null));
    let mut chart = vec![SqlValue::Integer(10)];
    chart.extend((0..6).map(|_| SqlValue::Null));
    chart.push(SqlValue::Integer(0));
    chart.extend((0..4).map(|_| SqlValue::Null));
    let mut namespace = vec![SqlValue::Integer(20)];
    namespace.extend((0..7).map(|_| SqlValue::Null));
    ExperimentRows {
        experiment: Some(experiment),
        project: Some(project),
        charts: vec![fastsl::charts::ExperimentChartRow { values: chart, sources: vec![] }],
        namespaces: vec![fastsl::charts::NamespaceRow {
            values: namespace,
            charts: vec![(10, "line".to_string())],
        }],
    }
}

#[test]
fn status_requests() {
    assert_eq!(chart_status_request(&json("{\"status\":-1}")), Ok(-1));
    for bad in ["{}", "{\"status\":null}", "{\"status\":\"1\"}", "{\"status\":1.5}"] {
        assert_eq!(
            chart_status_request(&json(bad)),
            Err(params_error("Request parameter 'status'"))
        );
    }
}

#[test]
fn a_chart_is_pinned_and_its_groups_answered() {
    let mut ui = UiState::load(None);
    let rows = Ok(Some(OwnerRows::Experiment(7, experiment_rows())));
    let owner = || Ok(Some(ChartOwner::Experiment(7)));
    let body = json("{\"status\":1}");
    let answer = patch_chart_status(&mut ui, 10, &body, owner(), &rows, kept);
    assert_eq!(answer.status, 200);
    let groups = match answer.body.get("data").unwrap().get("groups") {
        Some(Json::Array(a)) => a.clone(),
        _ => panic!("no groups"),
    };
    assert_eq!(groups.len(), 1);
    assert_eq!(groups[0].get("name"), Some(&json("\"pinned\"")));
    assert_eq!(ui.snapshot().chart_status(10, 0), 1);
    assert_eq!(
        patch_chart_status(&mut ui, 11, &body, Ok(None), &rows, kept),
        params_error("chart_id not exist")
    );
    assert_eq!(
        patch_chart_status(&mut ui, 11, &body, Err(read_error()), &rows, kept),
        data_error("no such table")
    );
    assert_eq!(
        patch_chart_status(&mut ui, 11, &body, owner(), &rows, refused),
        data_error("disk full")
    );
    assert_eq!(ui.snapshot().chart_status(11, 0), 0);
    assert_eq!(
        patch_chart_status(&mut ui, 12, &body, owner(), &Err(read_error()), kept),
        data_error("no such table")
    );
    assert_eq!(ui.snapshot().chart_status(12, 0), 1);
    assert_eq!(
        patch_chart_status(&mut ui, 12, &body, owner(), &Ok(None), kept),
        params_error("chart_id not exist")
    );
    let lost = ExperimentRows { project: None, ..experiment_rows() };
    assert_eq!(
        patch_chart_status(
            &mut ui,
            12,
            &body,
            owner(),
            &Ok(Some(OwnerRows::Experiment(7, lost))),
            kept
        ),
        data_error("project not found")
    );
}

#[test]
fn an_experiment_is_hidden_and_answered() {
    let mut ui = UiState::load(None);
    let mut experiment = vec![SqlValue::Integer(7)];
    experiment.extend((0..11).map(|_| SqlValue::Null));
    let mut project = vec![SqlValue::Integer(1)];
    project.extend((0..10).map(|_| SqlValue::Null));
    let rows = Ok(DictRows { experiment: Some(experiment), project: Some(project) });
    let body = json("{\"show\":false}");
    let answer = patch_experiment_show(&mut ui, 7, &body, Ok(true), &rows, kept);
    let shown = answer.body.get("data").unwrap().get("experiment").unwrap().clone();
    assert_eq!(shown.get("show"), Some(&Json::Int(0)));
    assert_eq!(shown.get("project_id").unwrap().get("id"), Some(&Json::Int(1)));
    assert_eq!(
        patch_experiment_show(&mut ui, 8, &body, Ok(false), &rows, kept),
        not_found("Experiment with id 8 does not exist.")
    );
    assert_eq!(
        patch_experiment_show(&mut ui, 8, &json("{}"), Ok(true), &rows, kept),
        params_error("Request parameter 'show'")
    );
    assert_eq!(
        patch_experiment_show(&mut ui, 8, &body, Err(read_error()), &rows, kept),
        data_error("no such table")
    );
    assert_eq!(
        patch_experiment_show(&mut ui, 8, &body, Ok(true), &rows, refused),
        data_error("disk full")
    );
    let none = Ok(DictRows { experiment: None, project: None });
    assert_eq!(
        patch_experiment_show(&mut ui, 8, &body, Ok(true), &none, kept),
        not_found("Experiment with id 8 does not exist.")
    );
    assert_eq!(
        patch_experiment_show(&mut ui, 8, &body, Ok(true), &Err(read_error()), kept),
        data_error("no such table")
    );
    let mut lone = vec![SqlValue::Integer(7)];
    lone.extend((0..11).map(|_| SqlValue::Null));
    let lost = Ok(DictRows { experiment: Some(lone), project: None });
    assert_eq!(
        patch_experiment_show(&mut ui, 8, &body, Ok(true), &lost, kept),
        data_error("project not found")
    );
}
