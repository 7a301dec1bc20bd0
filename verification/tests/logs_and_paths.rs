use fastsl::codec::parse_json;
use fastsl::json::Json;
use fastsl::logs::{console_plan, recent_logs, requirements};
use fastsl::paths::{
    file_extension, is_normal, is_summary_relevant_path, media_file, media_path, safe_file_size,
    safe_is_dir, safe_join, safe_run_path, safe_to_read, within, FileMeta,
};
use fastsl::server::{
    asset_path, asset_reply, should_signal, spa_fallback, AssetReply, SWANLAB_VERSION,
};

fn json(s: &str) -> Json {
    parse_json(s).unwrap()
}

fn names(list: &[&str]) -> Vec<String> {
    list.iter().map(|s| s.to_string()).collect()
}

fn some(s: &str) -> Option<String> {
    Some(s.to_string())
}

#[test]
fn consoles_are_read_latest_first() {
    let plan =
        console_plan(&names(&["2024-01-02.log", "error.log", "2024-01-10.log", "2023-12-31.log"]));
    assert!(plan.has_error);
    assert_eq!(plan.consoles, names(&["2024-01-10.log", "2024-01-02.log", "2023-12-31.log"]));
    let plan = console_plan(&names(&["a.log"]));
    assert!(!plan.has_error);
    assert_eq!(plan.consoles, names(&["a.log"]));
    assert_eq!(console_plan(&vec![]).consoles, Vec::<String>::new());
}

#[test]
fn logs_are_shown_earliest_first() {
    let contents = vec![some("3 late\n4 end\n"), some("1 early\n2 mid")];
    assert_eq!(
        recent_logs(&None, &contents),
        Some(json(
            "{\"recent\":[\"1\",\"4\"],\
             \"logs\":[\"1 early\",\"2 mid\",\"3 late\",\"4 end\",\"\"]}"
        ))
    );
    assert_eq!(
        recent_logs(&some("boom\nbang"), &vec![some("5 only")]),
        Some(json("{\"recent\":[\"5\",\"5\"],\"logs\":[\"5 only\"],\"error\":[\"boom\",\"bang\"]}"))
    );
    assert_eq!(
        recent_logs(&None, &vec![some("x"), None]),
        Some(json("{\"recent\":[\"\",\"x\"],\"logs\":[\"\",\"x\"]}"))
    );
}

#[test]
fn a_single_empty_console_has_one_empty_line() {
    let page = json("{\"recent\":[\"\",\"\"],\"logs\":[\"\"]}");
    assert_eq!(recent_logs(&None, &vec![some("")]), Some(page.clone()));
    assert_eq!(recent_logs(&None, &vec![None]), Some(page));
    assert_eq!(
        recent_logs(&some("boom"), &vec![None]),
        Some(json("{\"recent\":[\"\",\"\"],\"logs\":[\"\"],\"error\":[\"boom\"]}"))
    );
    assert_eq!(
        recent_logs(&None, &vec![some("\n")]),
        Some(json("{\"recent\":[\"\",\"\"],\"logs\":[\"\",\"\"]}"))
    );
}

#[test]
fn errors_are_shown_without_consoles() {
    assert_eq!(recent_logs(&some("boom"), &vec![]), Some(json("{\"error\":[\"boom\"]}")));
    assert_eq!(recent_logs(&None, &vec![]), None);
}

#[test]
fn requirements_are_lines() {
    assert_eq!(
        requirements(&some("a==1\nb==2\n")),
        Some(json("{\"requirements\":[\"a==1\",\"b==2\",\"\"]}"))
    );
    assert_eq!(requirements(&None), None);
}

#[test]
fn parts_of_paths_only_go_down() {
    for good in ["a", "a/b", "a/./b", "", "a//b/", ".hidden", "a.b", "...", "a/..b"] {
        assert!(is_normal(good), "{good}");
    }
    for bad in ["/a", "/", "..", "a/../b", "./a", ".", "a/.."] {
        assert!(!is_normal(bad), "{bad}");
    }
}

#[test]
fn parts_agree_with_the_components_of_std() {
    for part in ["a", "a/b", "a/./b", "", "a//b/", ".x", "/a", "/", "..", "a/../b", "./a", ".", "a/.."] {
        let p = std::path::Path::new(part);
        let normal = p.components().all(|c| matches!(c, std::path::Component::Normal(_)));
        assert_eq!(is_normal(part), normal && !p.is_absolute(), "{part}");
    }
}

#[test]
fn joined_paths() {
    assert_eq!(safe_join("base", &vec!["a", "b"]), some("base/a/b"));
    assert_eq!(safe_join("base/", &vec!["a"]), some("base/a"));
    assert_eq!(safe_join("", &vec!["a", "", "b"]), some("a/b"));
    assert_eq!(safe_join("base", &vec!["a", "../b"]), None);
    assert_eq!(safe_run_path("run-1", &vec!["logs", "0"]), some("run-1/logs/0"));
    assert_eq!(safe_run_path("../run-1", &vec!["logs"]), None);
    assert_eq!(safe_run_path("run-1", &vec!["/etc"]), None);
    assert_eq!(media_path("r", "f", "x/y.png"), some("r/media/f/x/y.png"));
    assert_eq!(media_path("r", "f", "../y.png"), None);
}

#[test]
fn paths_in_directories() {
    let path = |s: &str| s.split('/').map(|c| c.as_bytes().to_vec()).collect::<Vec<_>>();
    assert!(within(&path("/a/b"), &path("/a/b/c")));
    assert!(within(&path("/a/b"), &path("/a/b")));
    assert!(!within(&path("/a/b"), &path("/a/bc")));
    assert!(!within(&path("/a/b"), &path("/a")));
}

#[test]
fn links_are_not_followed() {
    let meta = |is_symlink: bool, is_file: bool| {
        Some(FileMeta { is_symlink, is_file, is_dir: !is_file, len: 12 })
    };
    assert!(safe_to_read(&meta(false, true)));
    assert!(!safe_to_read(&meta(true, true)));
    assert!(!safe_to_read(&meta(false, false)));
    assert!(!safe_to_read(&None));
    assert!(safe_is_dir(&meta(false, false)));
    assert!(!safe_is_dir(&meta(true, false)));
    assert!(!safe_is_dir(&meta(false, true)));
    assert!(!safe_is_dir(&None));
    assert_eq!(safe_file_size(&meta(false, true)), Some(12));
    assert_eq!(safe_file_size(&meta(true, true)), None);
    assert_eq!(safe_file_size(&None), None);
    assert_eq!(media_file(Some(3), &meta(false, true)), Some(3));
    assert_eq!(media_file(Some(3), &meta(true, true)), None);
    assert_eq!(media_file(Some(3), &None), None);
}

#[test]
fn extensions_of_files() {
    for name in ["a.log", ".log", "log", "a.b.json", "a.", "x.LOG"] {
        let std = std::path::Path::new(name).extension().map(|e| e.to_str().unwrap().to_string());
        assert_eq!(file_extension(name), std, "{name}");
    }
    assert!(is_summary_relevant_path("1.log"));
    assert!(is_summary_relevant_path("_summary.json"));
    assert!(!is_summary_relevant_path("runs.swanlab-wal"));
    assert!(!is_summary_relevant_path(".json"));
}

#[test]
fn changes_are_signalled_at_most_every_two_seconds() {
    let log = names(&["a.txt", "b.log"]);
    assert!(should_signal(&log, 2_000_000_000));
    assert!(!should_signal(&log, 1_999_999_999));
    assert!(!should_signal(&names(&["a.txt"]), u128::MAX));
    assert!(!should_signal(&vec![], u128::MAX));
}

#[test]
fn assets_of_the_dashboard() {
    assert_eq!(asset_path("/assets/app.js"), "assets/app.js");
    assert_eq!(asset_path("//assets/a"), "assets/a");
    assert_eq!(asset_path("/"), "index.html");
    assert_eq!(asset_path("/experiment/3"), "index.html");
    assert_eq!(asset_path("/assets"), "index.html");
    assert_eq!(SWANLAB_VERSION, "0.1.10b2");
    assert_eq!(
        spa_fallback("/assets/app.css", Some(vec![1])),
        AssetReply::File { content_type: "text/css".to_string(), body: vec![1] }
    );
    assert_eq!(
        spa_fallback("/charts", Some(vec![2])),
        AssetReply::File { content_type: "text/html".to_string(), body: vec![2] }
    );
    assert_eq!(
        spa_fallback("/assets/data", Some(vec![])),
        AssetReply::File { content_type: "application/octet-stream".to_string(), body: vec![] }
    );
    assert_eq!(
        spa_fallback("/assets/gone.js", None),
        AssetReply::NotFound { message: "not found".to_string() }
    );
    assert_eq!(
        asset_reply(Some(vec![7]), "x/y".to_string()),
        AssetReply::File { content_type: "x/y".to_string(), body: vec![7] }
    );
}
