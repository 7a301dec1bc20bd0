use fastsl::api::Failure;
use fastsl::api_fastsl::{
    add_member, create_group, delete_group, get_group_charts, get_ui, group_ack, patch_alias,
    read_alias, read_group, read_members, read_name, read_run_id, remove_member, rename_group,
    validate_text, MAX_ALIAS_BYTES, MAX_GROUP_NAME_BYTES, MAX_RUN_ID_BYTES,
};
use fastsl::charts::{ProjectChartRow, ProjectRows, RunSource};
use fastsl::codec::parse_json;
use fastsl::json::Json;
use fastsl::resp::{data_error, not_found, params_error, success, success_empty};
use fastsl::rows::SqlValue;
use fastsl::uistate::{UiOverlay, UiState, MAX_GROUPS};

fn json(s: &str) -> Json {
    parse_json(s).unwrap()
}

fn broken() -> Failure {
    Failure::Read("locked".to_string())
}

fn kept(_: &UiOverlay) -> Result<(), String> {
    Ok(())
}

fn refused(_: &UiOverlay) -> Result<(), String> {
    Err("disk full".to_string())
}

fn experiments() -> Result<Vec<(String, i64)>, Failure> {
    Ok(vec![("run-a".to_string(), 100), ("run-b".to_string(), 101)])
}

#[test]
fn texts_are_measured_in_bytes() {
    assert_eq!(validate_text("ok", "name", 2), None);
    assert_eq!(
        validate_text("", "name", 2),
        Some(params_error("Request parameter 'name' must be 1-2 bytes"))
    );
    assert_eq!(
        validate_text("éé", "run_id", 3),
        Some(params_error("Request parameter 'run_id' must be 1-3 bytes"))
    );
    assert_eq!(validate_text("éé", "run_id", 4), None);
}

#[test]
fn aliases_and_groups_are_listed() {
    let mut ui = UiState::load(None);
    ui.set_experiment_alias("run-a", Some("A".into()), kept).unwrap();
    ui.set_experiment_alias("run-b", Some("B".into()), kept).unwrap();
    ui.set_experiment_alias("run-a", Some("C".into()), kept).unwrap();
    ui.create_group("g".into(), &vec!["run-a".to_string()], kept).unwrap();
    assert_eq!(
        get_ui(&ui.snapshot()),
        success(json(
            "{\"aliases\":{\"run-b\":\"B\",\"run-a\":\"C\"},\
             \"groups\":[{\"id\":1,\"name\":\"g\",\"members\":[\"run-a\"]}]}"
        ))
    );
}

#[test]
fn alias_requests() {
    assert_eq!(read_alias("r", &json("{}")), Ok(None));
    assert_eq!(read_alias("r", &json("{\"alias\":null}")), Ok(None));
    assert_eq!(read_alias("r", &json("{\"alias\":\"x\"}")), Ok(Some("x".to_string())));
    assert_eq!(read_alias("r", &json("{\"alias\":\"\"}")), Ok(Some(String::new())));
    assert_eq!(
        read_alias("r", &json("{\"alias\":3}")),
        Err(params_error("Request parameter 'alias' must be a string"))
    );
    let long = Json::Str("x".repeat(MAX_ALIAS_BYTES + 1));
    let mut body = fastsl::json::JsonMap::new();
    body.append("alias", long);
    assert_eq!(
        read_alias("r", &Json::Object(body)),
        Err(params_error("Request parameter 'alias' is too long"))
    );
    assert_eq!(
        read_alias(&"r".repeat(MAX_RUN_ID_BYTES + 1), &json("{}")),
        Err(params_error("Request parameter 'run_id' is too long"))
    );
}

#[test]
fn aliases_are_set_and_cleared() {
    let mut ui = UiState::load(None);
    let body = json("{\"alias\":\"x\"}");
    assert_eq!(patch_alias(&mut ui, "r", &body, Ok(true), kept), success_empty());
    assert_eq!(ui.snapshot().alias("r"), Some("x"));
    assert_eq!(patch_alias(&mut ui, "r", &json("{}"), Ok(true), refused), data_error("disk full"));
    assert_eq!(ui.snapshot().alias("r"), Some("x"));
    assert_eq!(patch_alias(&mut ui, "r", &json("{}"), Ok(true), kept), success_empty());
    assert_eq!(ui.snapshot().alias("r"), None);
    assert_eq!(
        patch_alias(&mut ui, "r", &body, Ok(false), kept),
        not_found("experiment not found")
    );
    assert_eq!(patch_alias(&mut ui, "r", &body, Err(broken()), kept), data_error("locked"));
    assert_eq!(
        patch_alias(&mut ui, "r", &json("{\"alias\":[]}"), Ok(true), kept),
        params_error("Request parameter 'alias' must be a string")
    );
}

#[test]
fn group_requests() {
    assert_eq!(read_name(&json("{\"name\":\"  a b\\t\"}")), Ok("a b".to_string()));
    assert_eq!(
        read_name(&json("{\"name\":1}")),
        Err(params_error("Request parameter 'name' must be a string"))
    );
    assert_eq!(
        read_name(&json("{\"name\":\"  \"}")),
        Err(params_error("Request parameter 'name' must be 1-128 bytes"))
    );
    assert_eq!(MAX_GROUP_NAME_BYTES, 128);
    assert_eq!(read_members(&json("{}")), Ok(vec![]));
    assert_eq!(read_members(&json("{\"members\":null}")), Ok(vec![]));
    assert_eq!(
        read_members(&json("{\"members\":[\"b\",\"a\",\"b\"]}")),
        Ok(vec!["b".to_string(), "a".to_string()])
    );
    assert_eq!(
        read_members(&json("{\"members\":[\"b\",1,\"\"]}")),
        Err(params_error("Request parameter 'members' must contain strings"))
    );
    assert_eq!(
        read_members(&json("{\"members\":[\"b\",\"\",1]}")),
        Err(params_error("Request parameter 'run_id' must be 1-256 bytes"))
    );
    assert_eq!(
        read_members(&json("{\"members\":{}}")),
        Err(params_error("Request parameter 'members' must be an array"))
    );
    let mut body = fastsl::json::JsonMap::new();
    body.append("members", Json::Array((0..501).map(|_| Json::Null).collect()));
    assert_eq!(
        read_members(&Json::Object(body)),
        Err(params_error("Too many group members"))
    );
    let group = read_group(&json("{\"name\":\"g\",\"members\":[\"a\"]}")).unwrap();
    assert_eq!((group.name.as_str(), group.members), ("g", vec!["a".to_string()]));
    assert_eq!(
        read_run_id(&json("{\"run_id\":5}")),
        Err(params_error("Request parameter 'run_id' must be a string"))
    );
    assert_eq!(read_run_id(&json("{\"run_id\":\"r\"}")), Ok("r".to_string()));
}

#[test]
fn groups_are_created_with_members_that_exist() {
    let mut ui = UiState::load(None);
    let body = json("{\"name\":\" g \",\"members\":[\"run-b\",\"gone\",\"run-b\"]}");
    assert_eq!(
        create_group(&mut ui, &body, experiments(), kept),
        success(json("{\"group\":{\"id\":1,\"name\":\"g\",\"members\":[\"run-b\"]}}"))
    );
    assert_eq!(create_group(&mut ui, &body, Err(broken()), kept), data_error("locked"));
    assert_eq!(create_group(&mut ui, &body, experiments(), refused), data_error("disk full"));
    assert_eq!(
        create_group(&mut ui, &json("{}"), experiments(), kept),
        params_error("Request parameter 'name' must be a string")
    );
    let bare = json("{\"name\":\"h\"}");
    assert_eq!(
        create_group(&mut ui, &bare, Err(broken()), kept),
        success(json("{\"group\":{\"id\":2,\"name\":\"h\",\"members\":[]}}"))
    );
    for _ in 2..MAX_GROUPS {
        assert_eq!(create_group(&mut ui, &bare, experiments(), kept).status, 200);
    }
    assert_eq!(
        create_group(&mut ui, &bare, experiments(), kept),
        params_error("At most 100 groups are allowed")
    );
}

#[test]
fn groups_are_changed() {
    let mut ui = UiState::load(None);
    ui.create_group("g".into(), &vec![], kept).unwrap();
    let name = json("{\"name\":\"new\"}");
    assert_eq!(rename_group(&mut ui, 1, &name, kept), success_empty());
    assert_eq!(ui.snapshot().groups[0].name, "new");
    assert_eq!(rename_group(&mut ui, 9, &name, kept), not_found("Group with id 9 does not exist."));
    assert_eq!(
        rename_group(&mut ui, 1, &json("{}"), kept),
        params_error("Request parameter 'name' must be a string")
    );
    let member = json("{\"run_id\":\"run-a\"}");
    assert_eq!(add_member(&mut ui, 1, &member, Ok(true), kept), success_empty());
    assert_eq!(ui.snapshot().groups[0].members, vec!["run-a"]);
    assert_eq!(
        add_member(&mut ui, 9, &member, Ok(true), kept),
        not_found("Group with id 9 does not exist.")
    );
    assert_eq!(
        add_member(&mut ui, 1, &member, Ok(false), kept),
        not_found("experiment not found")
    );
    assert_eq!(add_member(&mut ui, 1, &member, Err(broken()), kept), data_error("locked"));
    assert_eq!(
        add_member(&mut ui, 1, &json("{}"), Ok(true), kept),
        params_error("Request parameter 'run_id' must be a string")
    );
    assert_eq!(remove_member(&mut ui, 1, "run-a", kept), success_empty());
    assert_eq!(remove_member(&mut ui, 1, "run-a", kept), success_empty());
    assert_eq!(
        remove_member(&mut ui, -9, "run-a", kept),
        not_found("Group with id -9 does not exist.")
    );
    assert_eq!(
        remove_member(&mut ui, 1, &"r".repeat(257), kept),
        params_error("Request parameter 'run_id' is too long")
    );
    assert_eq!(delete_group(&mut ui, 1, refused), data_error("disk full"));
    assert_eq!(delete_group(&mut ui, 1, kept), success_empty());
    assert_eq!(delete_group(&mut ui, 1, kept), not_found("Group with id 1 does not exist."));
    assert_eq!(group_ack(Err("e".to_string()), 4), data_error("e"));
}

fn project_rows() -> ProjectRows {
    let mut project = vec![SqlValue::Integer(1)];
    project.extend((0..10).map(|_| SqlValue::Null));
    let mut values = vec![SqlValue::Integer(50)];
    values.extend((0..3).map(|_| SqlValue::Null));
    values.push(SqlValue::Text(b"line".to_vec()));
    values.extend((0..7).map(|_| SqlValue::Null));
    let source = |name: &str, id: i64| RunSource { name: name.to_string(), id, error: None };
    ProjectRows {
        project: Some(project),
        charts: vec![ProjectChartRow {
            values,
            sources: vec![source("a", 100), source("b", 101)],
        }],
        namespaces: vec![],
    }
}

#[test]
fn charts_of_a_group() {
    let mut ui = UiState::load(None);
    let members = vec!["run-b".to_string(), "gone".to_string()];
    ui.create_group("g".into(), &members, kept).unwrap();
    ui.create_group("empty".into(), &vec![], kept).unwrap();
    let o = ui.snapshot();
    let answer = get_group_charts(&o, 1, &experiments(), &Ok(project_rows()));
    match answer.body.get("data").unwrap().get("charts") {
        Some(Json::Array(a)) => {
            assert_eq!(a.len(), 1);
            assert_eq!(a[0].get("source"), Some(&json("[\"b\"]")));
        }
        _ => panic!("no charts"),
    }
    assert_eq!(
        get_group_charts(&o, 2, &Err(broken()), &Ok(project_rows())),
        success(json("{\"charts\":[],\"namespaces\":[]}"))
    );
    assert_eq!(
        get_group_charts(&o, 3, &experiments(), &Ok(project_rows())),
        not_found("Group with id 3 does not exist.")
    );
    assert_eq!(
        get_group_charts(&o, 1, &Err(broken()), &Ok(project_rows())),
        data_error("locked")
    );
    assert_eq!(get_group_charts(&o, 1, &experiments(), &Err(broken())), data_error("locked"));
    let lost = ProjectRows { project: None, ..project_rows() };
    assert_eq!(get_group_charts(&o, 1, &experiments(), &Ok(lost)), data_error("project not found"));
}
