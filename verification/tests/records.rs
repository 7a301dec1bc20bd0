use fastsl::codec::{parse_json, parse_yaml, plain};
use fastsl::json::Json;
use fastsl::records::{
    color_list, document_or, experiment_dict, experiment_exists, experiment_full, experiment_info,
    experiment_page, experiment_run_id, find_run, ids_for_run_ids, load_config, load_meta,
    namespace_exists, nullify_charts, project_dict, project_exists, project_info, project_page,
    run_id_exists, DbError, ExperimentConfig, ExperimentFiles,
};
use fastsl::rows::{
    chart_base_cols, experiment_brief_cols, experiment_cols, namespace_cols, project_cols,
    query_one_object, row_object, select_sql, vref_to_json, SqlValue,
};
use fastsl::uistate::{UiOverlay, UiState};

fn text(s: &str) -> SqlValue {
    SqlValue::Text(s.as_bytes().to_vec())
}

fn json(s: &str) -> Json {
    parse_json(s).unwrap()
}

fn row_for(cols: &[&str], id: i64) -> Vec<SqlValue> {
    cols.iter()
        .map(|c| match *c {
            "id" => SqlValue::Integer(id),
            "run_id" => text("run-x"),
            "show" => SqlValue::Integer(1),
            _ => SqlValue::Null,
        })
        .collect()
}

fn hidden_overlay(id: i64) -> UiOverlay {
    let mut ui = UiState::load(None);
    ui.set_experiment_show(id, 0, |_| -> Result<(), String> { Ok(()) }).unwrap();
    ui.snapshot()
}

#[test]
fn column_values_as_json() {
    assert_eq!(vref_to_json(&SqlValue::Null), Json::Null);
    assert_eq!(vref_to_json(&SqlValue::Integer(-5)), Json::Int(-5));
    assert_eq!(vref_to_json(&SqlValue::Real(1.5f64.to_bits())), Json::Real(1.5f64.to_bits()));
    assert_eq!(vref_to_json(&SqlValue::Real(f64::MAX.to_bits())), Json::Real(f64::MAX.to_bits()));
    assert_eq!(vref_to_json(&SqlValue::Real(f64::NAN.to_bits())), Json::Null);
    assert_eq!(vref_to_json(&SqlValue::Real(f64::INFINITY.to_bits())), Json::Null);
    assert_eq!(vref_to_json(&SqlValue::Real(f64::NEG_INFINITY.to_bits())), Json::Null);
    assert_eq!(vref_to_json(&text("é")), Json::Str("é".to_string()));
    assert_eq!(
        vref_to_json(&SqlValue::Blob(vec![b'a', 0xff, b'b'])),
        Json::Str("a\u{fffd}b".to_string())
    );
}

#[test]
fn rows_become_objects_in_column_order() {
    let cols = vec!["b", "a"];
    let row = vec![SqlValue::Integer(1), SqlValue::Integer(2)];
    assert_eq!(Json::Object(row_object(&cols, &row)), json("{\"b\":1,\"a\":2}"));
    assert!(query_one_object(&cols, &None).is_none());
    assert_eq!(query_one_object(&cols, &Some(row)).unwrap().entries.len(), 2);
    assert_eq!(select_sql(&cols, "t", "id=1"), "SELECT b,a FROM t WHERE id=1");
    assert_eq!(select_sql(&vec!["id"], "t", "x"), "SELECT id FROM t WHERE x");
}

#[test]
fn columns_of_the_tables() {
    assert_eq!(project_cols().len(), 11);
    assert_eq!(experiment_cols().len(), 16);
    assert_eq!(experiment_brief_cols().len(), 12);
    assert_eq!(chart_base_cols().len(), 12);
    assert_eq!(chart_base_cols()[4], "type");
    assert_eq!(namespace_cols().len(), 8);
}

#[test]
fn documents_are_read_with_their_crates() {
    assert_eq!(
        plain(serde_json::Value::from(vec![1u64, u64::MAX])),
        Json::Array(vec![Json::Int(1), Json::UInt(u64::MAX)])
    );
    let order = json("{\"z\":[1,-2,2.5,true,null,\"t\"],\"a\":{\"k\":18446744073709551615}}");
    assert_eq!(order.get("z").unwrap(), &json("[1,-2,2.5,true,null,\"t\"]"));
    match &order {
        Json::Object(m) => {
            assert_eq!(m.entries[0].0, "z");
            assert_eq!(m.entries[1].0, "a");
        }
        _ => panic!("no object"),
    }
    assert_eq!(order.get("a").unwrap().get("k"), Some(&Json::UInt(u64::MAX)));
    assert_eq!(parse_json("{"), None);
    assert_eq!(parse_yaml("lr:\n  value: 0.5\nname: x\n"), Some(json("{\"lr\":{\"value\":0.5},\"name\":\"x\"}")));
    assert_eq!(parse_yaml("a: [1"), None);
}

#[test]
fn configuration_of_a_run() {
    assert_eq!(load_config(&None), None);
    assert_eq!(load_config(&Some("a: 1".to_string())), Some(json("{\"a\":1}")));
    assert_eq!(load_config(&Some("a: [1".to_string())), Some(Json::Null));
    assert_eq!(document_or(None, Json::Int(3)), Json::Int(3));
    assert_eq!(document_or(Some(Json::Int(4)), Json::Int(3)), Json::Int(4));
}

#[test]
fn metadata_of_a_run() {
    assert_eq!(load_meta(&None), json("{}"));
    assert_eq!(load_meta(&Some(" \n\t".to_string())), json("{}"));
    assert_eq!(load_meta(&Some("nope".to_string())), json("{}"));
    assert_eq!(load_meta(&Some(" [1] ".to_string())), json("[1]"));
}

#[test]
fn colors_are_the_same_on_both_pages() {
    let colors = color_list();
    assert_eq!(colors.get("light"), colors.get("dark"));
    match colors.get("light") {
        Some(Json::Array(a)) => {
            assert_eq!(a.len(), 16);
            assert_eq!(a[0], json("\"#528d59\""));
            assert_eq!(a[15], json("\"#989fa3\""));
        }
        _ => panic!("no colors"),
    }
}

#[test]
fn page_of_the_project() {
    let project = Some(row_for(&project_cols(), 1));
    let experiments = vec![
        ExperimentFiles { values: row_for(&experiment_cols(), 5), config: Some("a: 1".to_string()) },
        ExperimentFiles { values: row_for(&experiment_cols(), 6), config: None },
    ];
    let page = project_info(&project, "/logs", &experiments, &hidden_overlay(6)).unwrap();
    assert_eq!(page.get("id"), Some(&Json::Int(1)));
    assert_eq!(page.get("logdir"), Some(&json("\"/logs\"")));
    assert_eq!(page.get("colors"), Some(&color_list()));
    let list = match page.get("experiments") {
        Some(Json::Array(a)) => a.clone(),
        _ => panic!("no experiments"),
    };
    assert_eq!(list[0].get("experiment_id"), Some(&Json::Int(5)));
    assert_eq!(list[0].get("show"), Some(&Json::Int(1)));
    assert_eq!(list[0].get("config"), Some(&json("{\"a\":1}")));
    assert_eq!(list[1].get("show"), Some(&Json::Int(0)));
    assert_eq!(list[1].get("config"), None);
    assert_eq!(
        project_info(&None, "/logs", &experiments, &UiOverlay::empty()),
        Err(DbError::ProjectNotFound)
    );
    let values = row_for(&experiment_cols(), 5);
    let configs = vec![ExperimentConfig { values: &values, config: Some(Json::Int(9)) }];
    let page = project_page(&project, "/l", &configs, &UiOverlay::empty()).unwrap();
    match page.get("experiments") {
        Some(Json::Array(a)) => assert_eq!(a[0].get("config"), Some(&Json::Int(9))),
        _ => panic!("no experiments"),
    }
}

#[test]
fn page_of_an_experiment() {
    let row = Some(row_for(&experiment_brief_cols(), 6));
    let page = experiment_info(
        &row,
        6,
        &Some("a: 1".to_string()),
        &Some("{\"os\":\"x\"}".to_string()),
        &hidden_overlay(6),
    )
    .unwrap();
    assert_eq!(page.get("show"), Some(&Json::Int(0)));
    assert_eq!(page.get("config"), Some(&json("{\"a\":1}")));
    assert_eq!(page.get("system"), Some(&json("{\"os\":\"x\"}")));
    assert_eq!(experiment_info(&None, 6, &None, &None, &UiOverlay::empty()), None);
    let bare = experiment_page(&row, 6, None, Json::Null, &UiOverlay::empty()).unwrap();
    assert_eq!(bare.get("config"), None);
    assert_eq!(bare.get("show"), Some(&Json::Int(1)));
    let values = row.unwrap();
    assert_eq!(experiment_run_id(&experiment_brief_cols(), &values), "run-x");
}

#[test]
fn experiment_with_its_project() {
    let row = Some(row_for(&experiment_brief_cols(), 6));
    let project = Some(row_for(&project_cols(), 1));
    let dict = experiment_dict(&row, &project, 6, &hidden_overlay(6)).unwrap().unwrap();
    match &dict {
        Json::Object(m) => {
            let keys: Vec<&str> = m.entries.iter().map(|e| e.0.as_str()).collect();
            assert_eq!(
                keys,
                vec![
                    "id", "project_id", "run_id", "name", "description", "sort", "status", "show",
                    "more", "version", "create_time", "update_time", "finish_time"
                ]
            );
        }
        _ => panic!("no object"),
    }
    assert_eq!(dict.get("show"), Some(&Json::Int(0)));
    assert_eq!(dict.get("project_id"), Some(&project_dict(&project).unwrap()));
    assert_eq!(experiment_dict(&None, &None, 6, &UiOverlay::empty()), Ok(None));
    assert_eq!(
        experiment_dict(&row, &None, 6, &UiOverlay::empty()),
        Err(DbError::ProjectNotFound)
    );
}

#[test]
fn nested_projects_have_no_chart_count() {
    assert_eq!(nullify_charts(&json("{\"a\":1,\"charts\":5,\"b\":2}")), json("{\"a\":1,\"charts\":null,\"b\":2}"));
    assert_eq!(nullify_charts(&Json::Int(1)), Json::Int(1));
    let full = experiment_full(&Some(row_for(&experiment_cols(), 3)), &Json::Int(8)).unwrap();
    assert_eq!(full.get("project_id"), Some(&Json::Int(8)));
    assert_eq!(experiment_full(&None, &Json::Null), None);
}

#[test]
fn rows_that_exist() {
    assert!(namespace_exists(Some(1)) && !namespace_exists(None));
    assert!(project_exists(Some(1)) && !project_exists(None));
    assert!(experiment_exists(&Some("r".to_string())) && !experiment_exists(&None));
    let experiments = vec![("a".to_string(), 3), ("b".to_string(), 1), ("a".to_string(), 9)];
    assert_eq!(find_run(&experiments, "a"), Some(3));
    assert!(run_id_exists(&experiments, "b"));
    assert!(!run_id_exists(&experiments, "c"));
    let runs: Vec<String> = ["b", "gone", "a", "b"].iter().map(|s| s.to_string()).collect();
    assert_eq!(ids_for_run_ids(&runs, &experiments), vec![1, 3, 1]);
    assert_eq!(ids_for_run_ids(&vec![], &experiments), Vec::<i64>::new());
}
