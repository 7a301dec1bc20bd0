use fastsl::charts::{
    build_experiment_charts, experiment_charts, experiment_status, namespace_chart_ids, read_error,
    ChartData, ExperimentChartRow, ExperimentRows, NamespaceRow, ProjectChartRow, ProjectRows,
    RunSource, Source, StatusRow, TagSource,
};
use fastsl::comparisons::{
    chart_allowed, chart_owner, chart_status_groups, comparison, project_charts,
    project_charts_filtered, project_charts_for, status_groups, ChartOwner, OwnerRows,
};
use fastsl::codec::parse_json;
use fastsl::json::Json;
use fastsl::placement::{apply_pinned_hidden, Namespace};
use fastsl::records::DbError;
use fastsl::rows::SqlValue;
use fastsl::uistate::{UiOverlay, UiState};

fn text(s: &str) -> SqlValue {
    SqlValue::Text(s.as_bytes().to_vec())
}

fn json(s: &str) -> Json {
    parse_json(s).unwrap()
}

fn project_row() -> Vec<SqlValue> {
    vec![
        SqlValue::Integer(1),
        text("proj"),
        SqlValue::Null,
        SqlValue::Integer(2),
        SqlValue::Integer(3),
        SqlValue::Null,
        SqlValue::Integer(1),
        SqlValue::Integer(0),
        text("0.1"),
        text("t0"),
        text("t1"),
    ]
}

const PROJECT: &str = "{\"id\":1,\"name\":\"proj\",\"description\":null,\"sum\":2,\"charts\":3,\
\"more\":null,\"pinned_opened\":1,\"hidden_opened\":0,\"version\":\"0.1\",\"create_time\":\"t0\",\
\"update_time\":\"t1\"}";

fn experiment_row(id: i64) -> Vec<SqlValue> {
    let mut row = vec![SqlValue::Integer(id), text("run-a"), text("exp")];
    row.extend((0..6).map(|_| SqlValue::Null));
    row.push(SqlValue::Integer(1));
    row.push(SqlValue::Integer(0));
    row.extend((0..5).map(|_| SqlValue::Null));
    row
}

fn chart_row(id: i64, kind: &str, status: i64, sort: i64) -> Vec<SqlValue> {
    vec![
        SqlValue::Integer(id),
        text("chart"),
        SqlValue::Null,
        SqlValue::Integer(0),
        text(kind),
        text("step"),
        SqlValue::Null,
        SqlValue::Integer(status),
        SqlValue::Integer(sort),
        SqlValue::Null,
        text("c"),
        text("u"),
    ]
}

fn namespace_row(id: i64, charts: Vec<(i64, String)>) -> NamespaceRow {
    NamespaceRow {
        values: vec![
            SqlValue::Integer(id),
            text("ns"),
            SqlValue::Null,
            SqlValue::Integer(0),
            SqlValue::Integer(1),
            SqlValue::Null,
            text("c"),
            text("u"),
        ],
        charts,
    }
}

fn of_type(ids: &[i64], kind: &str) -> Vec<(i64, String)> {
    ids.iter().map(|i| (*i, kind.to_string())).collect()
}

fn charts_of(ns: &Json) -> Vec<i64> {
    match ns.get("charts") {
        Some(Json::Array(a)) => a.iter().map(|v| v.as_i64().unwrap()).collect(),
        _ => panic!("no charts"),
    }
}

fn list(page: &Json, key: &str) -> Vec<Json> {
    match page.get(key) {
        Some(Json::Array(a)) => a.clone(),
        _ => panic!("no list"),
    }
}

fn kept(_: &UiOverlay) -> Result<(), String> {
    Ok(())
}

#[test]
fn pinned_and_hidden_charts_move() {
    let ns = |ids: Vec<i64>| Namespace { fields: fastsl::json::JsonMap::new(), charts: ids };
    let shown = apply_pinned_hidden(
        &vec![(1, 1, 5), (2, 0, 0), (3, -1, 1), (4, 1, 2), (5, 7, 0), (6, 1, 2)],
        vec![ns(vec![1, 2, 3]), ns(vec![4, 5]), ns(vec![9])],
        &Json::Int(70),
        &Json::Int(80),
        &Json::Int(1),
        &Json::Int(0),
    );
    assert_eq!(
        shown,
        vec![
            json(
                "{\"id\":-1,\"name\":\"pinned\",\"charts\":[4,6,1],\"opened\":1,\
                 \"experiment_id\":70,\"project_id\":80}"
            ),
            json("{\"charts\":[2]}"),
            json("{\"charts\":[9]}"),
            json(
                "{\"id\":-2,\"name\":\"hidden\",\"charts\":[3],\"opened\":0,\
                 \"experiment_id\":70,\"project_id\":80}"
            ),
        ]
    );
}

#[test]
fn namespaces_are_shown_as_they_are_without_charts_or_changes() {
    let ns = |ids: Vec<i64>| Namespace { fields: fastsl::json::JsonMap::new(), charts: ids };
    let n = &Json::Null;
    assert_eq!(apply_pinned_hidden(&vec![], vec![ns(vec![])], n, n, n, n), vec![json("{\"charts\":[]}")]);
    assert_eq!(apply_pinned_hidden(&vec![(1, 1, 0)], vec![], n, n, n, n), vec![]);
    assert_eq!(
        apply_pinned_hidden(&vec![(1, 0, 0), (2, 0, 0)], vec![ns(vec![2, 1])], n, n, n, n),
        vec![json("{\"charts\":[2,1]}")]
    );
}

#[test]
fn errors_of_sources_are_documents() {
    assert_eq!(read_error(&None), None);
    assert_eq!(read_error(&Some(String::new())), None);
    assert_eq!(read_error(&Some("not json".to_string())), None);
    assert_eq!(read_error(&Some("{\"a\":1}".to_string())), Some(json("{\"a\":1}")));
}

fn experiment_rows() -> ExperimentRows {
    ExperimentRows {
        experiment: Some(experiment_row(7)),
        project: Some(project_row()),
        charts: vec![
            ExperimentChartRow {
                values: chart_row(10, "line", 0, 0),
                sources: vec![
                    TagSource { name: "loss".to_string(), error: None },
                    TagSource { name: "acc".to_string(), error: Some("\"bad\"".to_string()) },
                ],
            },
            ExperimentChartRow { values: chart_row(11, "line", 0, 1), sources: vec![] },
        ],
        namespaces: vec![namespace_row(20, of_type(&[10, 11], "weird"))],
    }
}

#[test]
fn charts_of_an_experiment() {
    let page = experiment_charts(7, &experiment_rows(), &UiOverlay::empty()).unwrap().unwrap();
    let charts = list(&page, "charts");
    assert_eq!(
        charts[0],
        json(
            "{\"id\":10,\"name\":\"chart\",\"description\":null,\"system\":0,\"type\":\"line\",\
             \"reference\":\"step\",\"config\":null,\"status\":0,\"sort\":0,\"more\":null,\
             \"create_time\":\"c\",\"update_time\":\"u\",\"project_id\":null,\
             \"error\":{\"acc\":\"bad\"},\"source\":[\"loss\",\"acc\"],\"multi\":false,\
             \"source_map\":{\"loss\":7,\"acc\":7}}"
        )
    );
    let namespaces = list(&page, "namespaces");
    assert_eq!(namespaces.len(), 1);
    assert_eq!(charts_of(&namespaces[0]), vec![10, 11]);
    let nested = namespaces[0].get("experiment_id").unwrap();
    assert_eq!(nested.get("run_id"), Some(&json("\"run-a\"")));
    assert_eq!(nested.get("project_id").unwrap().get("charts"), Some(&Json::Null));
    assert_eq!(namespaces[0].get("project_id"), Some(&Json::Null));
}

#[test]
fn an_overlay_pins_a_chart_and_closes_a_namespace() {
    let mut ui = UiState::load(None);
    ui.set_chart_status(11, 1, kept).unwrap();
    ui.set_namespace_opened(20, 0, kept).unwrap();
    ui.set_experiment_pinned(7, 0, kept).unwrap();
    let page = experiment_charts(7, &experiment_rows(), &ui.snapshot()).unwrap().unwrap();
    assert_eq!(list(&page, "charts")[1].get("status"), Some(&Json::Int(1)));
    let namespaces = list(&page, "namespaces");
    assert_eq!(namespaces.len(), 2);
    assert_eq!(namespaces[0].get("name"), Some(&json("\"pinned\"")));
    assert_eq!(namespaces[0].get("opened"), Some(&Json::Int(0)));
    assert_eq!(charts_of(&namespaces[0]), vec![11]);
    assert_eq!(namespaces[1].get("opened"), Some(&Json::Int(0)));
    assert_eq!(charts_of(&namespaces[1]), vec![10]);
}

#[test]
fn a_missing_experiment_comes_before_a_missing_project() {
    let o = UiOverlay::empty();
    let mut rows = experiment_rows();
    rows.project = None;
    assert_eq!(experiment_charts(7, &rows, &o), Err(DbError::ProjectNotFound));
    rows.experiment = None;
    assert_eq!(experiment_charts(7, &rows, &o), Ok(None));
    assert_eq!(build_experiment_charts(7, &None, &None, &vec![], &vec![], &o), Ok(None));
    assert_eq!(DbError::ProjectNotFound.message(), "project not found");
}

#[test]
fn status_of_an_experiment() {
    let o = UiOverlay::empty();
    let status =
        Some(StatusRow { status: 1, update_time: "u".to_string(), finish_time: None });
    let page = experiment_status(7, &status, &experiment_rows(), &o).unwrap().unwrap();
    assert_eq!(page.get("status"), Some(&Json::Int(1)));
    assert_eq!(page.get("update_time"), Some(&json("\"u\"")));
    assert_eq!(page.get("finish_time"), Some(&Json::Null));
    assert_eq!(
        page.get("charts"),
        Some(&experiment_charts(7, &experiment_rows(), &o).unwrap().unwrap())
    );
    assert_eq!(experiment_status(7, &None, &experiment_rows(), &o), Ok(None));
}

fn run(name: &str, id: i64) -> RunSource {
    RunSource { name: name.to_string(), id, error: None }
}

fn project_rows() -> ProjectRows {
    ProjectRows {
        project: Some(project_row()),
        charts: vec![
            ProjectChartRow {
                values: chart_row(1, "default", 0, 0),
                sources: vec![run("a", 100), run("b", 101)],
            },
            ProjectChartRow { values: chart_row(2, "text", 0, 0), sources: vec![run("z", 9)] },
            ProjectChartRow { values: chart_row(3, "image", 0, 0), sources: vec![run("c", 102)] },
            ProjectChartRow { values: chart_row(4, "audio", 0, 0), sources: vec![] },
        ],
        namespaces: vec![
            namespace_row(
                30,
                vec![(1, "default".to_string()), (2, "text".to_string()), (4, "audio".to_string())],
            ),
            namespace_row(31, of_type(&[3], "image")),
            namespace_row(32, of_type(&[2], "text")),
        ],
    }
}

#[test]
fn comparison_of_all_experiments() {
    let page = project_charts(&project_rows(), &UiOverlay::empty()).unwrap();
    let charts = list(&page, "charts");
    let ids: Vec<i64> = charts.iter().map(|c| c.get("id").unwrap().as_i64().unwrap()).collect();
    assert_eq!(ids, vec![1, 3, 4]);
    for c in &charts {
        assert_eq!(c.get("source_map"), Some(&json("{\"a\":100,\"b\":101,\"c\":102}")));
        assert_eq!(c.get("multi"), Some(&Json::Bool(true)));
        assert_eq!(c.get("experiment_id"), Some(&Json::Null));
        assert_eq!(c.get("project_id"), Some(&json(PROJECT)));
    }
    assert_eq!(charts[0].get("source"), Some(&json("[\"a\",\"b\"]")));
    let namespaces = list(&page, "namespaces");
    assert_eq!(namespaces.len(), 2);
    assert_eq!(charts_of(&namespaces[0]), vec![1, 4]);
    assert_eq!(namespaces[0].get("project_id").unwrap().get("charts"), Some(&Json::Null));
    assert_eq!(
        project_charts_for(1, &project_rows(), &UiOverlay::empty()),
        Ok(page)
    );
}

#[test]
fn comparison_of_a_selection() {
    let o = UiOverlay::empty();
    let page = project_charts_filtered(&project_rows(), &o, &Some(vec![101])).unwrap();
    let charts = list(&page, "charts");
    assert_eq!(charts.len(), 1);
    assert_eq!(charts[0].get("source"), Some(&json("[\"b\"]")));
    assert_eq!(charts[0].get("source_map"), Some(&json("{\"b\":101}")));
    let namespaces = list(&page, "namespaces");
    assert_eq!(namespaces.len(), 1);
    assert_eq!(charts_of(&namespaces[0]), vec![1]);
    assert_eq!(
        project_charts_filtered(&project_rows(), &o, &Some(vec![])),
        Ok(json("{\"charts\":[],\"namespaces\":[]}"))
    );
}

#[test]
fn comparison_needs_a_project() {
    let mut rows = project_rows();
    rows.project = None;
    assert_eq!(project_charts(&rows, &UiOverlay::empty()), Err(DbError::ProjectNotFound));
    assert_eq!(
        comparison(&None, &vec![], &vec![], &UiOverlay::empty(), &None),
        Err(DbError::ProjectNotFound)
    );
}

#[test]
fn comparison_takes_errors_as_values() {
    let values = chart_row(1, "line", 0, 0);
    let data = vec![ChartData {
        values: &values,
        sources: vec![Source { name: "a".to_string(), id: 5, error: Some(Json::Int(3)) }],
    }];
    let page = comparison(&Some(project_row()), &data, &vec![], &UiOverlay::empty(), &None).unwrap();
    assert_eq!(list(&page, "charts")[0].get("error"), Some(&json("{\"a\":3}")));
}

#[test]
fn types_of_the_comparison_page() {
    assert!(chart_allowed(&chart_row(1, "line", 0, 0)));
    assert!(!chart_allowed(&chart_row(1, "Line", 0, 0)));
    let mut row = chart_row(1, "line", 0, 0);
    row[4] = SqlValue::Blob(b"line".to_vec());
    assert!(!chart_allowed(&row));
    let charts = vec![(1, "line".to_string()), (2, "text".to_string()), (3, "audio".to_string())];
    assert_eq!(namespace_chart_ids(&charts, true), vec![1, 3]);
    assert_eq!(namespace_chart_ids(&charts, false), vec![1, 2, 3]);
}

#[test]
fn owners_of_charts() {
    assert_eq!(chart_owner(Some((Some(1), Some(2)))), Some(ChartOwner::Project(1)));
    assert_eq!(chart_owner(Some((None, Some(2)))), Some(ChartOwner::Experiment(2)));
    assert_eq!(chart_owner(Some((None, None))), None);
    assert_eq!(chart_owner(None), None);
}

#[test]
fn groups_hold_the_charts_themselves() {
    assert_eq!(
        status_groups(&json(
            "{\"charts\":[{\"id\":1,\"x\":2}],\"namespaces\":[{\"id\":9,\"charts\":[1,5]}]}"
        )),
        json("{\"groups\":[{\"id\":9,\"charts\":[{\"id\":1,\"x\":2},null]}]}")
    );
    assert_eq!(status_groups(&Json::Null), json("{\"groups\":[]}"));
    let o = UiOverlay::empty();
    assert_eq!(chart_status_groups(&None, &o), Ok(None));
    let owner = Some(OwnerRows::Experiment(7, experiment_rows()));
    let groups = list(&chart_status_groups(&owner, &o).unwrap().unwrap(), "groups");
    assert_eq!(list(&groups[0], "charts").len(), 2);
    let gone = Some(OwnerRows::Experiment(
        7,
        ExperimentRows { experiment: None, ..experiment_rows() },
    ));
    assert_eq!(chart_status_groups(&gone, &o), Ok(None));
    let project = Some(OwnerRows::Project(1, project_rows()));
    let groups = list(&chart_status_groups(&project, &o).unwrap().unwrap(), "groups");
    assert_eq!(groups.len(), 2);
    let lost = Some(OwnerRows::Project(1, ProjectRows { project: None, ..project_rows() }));
    assert_eq!(chart_status_groups(&lost, &o), Err(DbError::ProjectNotFound));
}
