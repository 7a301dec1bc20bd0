use fastsl::codec::parse_json;
use fastsl::json::Json;
use fastsl::paths::FileMeta;
use fastsl::summaries::{
    cached_value, choose_shard, experiment_summary, last_shard, line_value, project_summaries,
    shard_step, summary_jobs, summary_key, tag_entry_folder, tag_last_value, tag_shards,
    tail_last_line, tail_start, ExperimentName, ShardStep, TagEntry, TagName, TagRead,
};
use fastsl::summary_cache::SummaryCache;

fn json(s: &str) -> Json {
    parse_json(s).unwrap()
}

fn names(list: &[&str]) -> Vec<String> {
    list.iter().map(|s| s.to_string()).collect()
}

fn experiment(id: i64, name: &str) -> ExperimentName {
    ExperimentName { id, name: name.to_string(), run_id: format!("run-{id}") }
}

fn tag(experiment_id: i64, name: &str, sort: i64) -> TagName {
    TagName { experiment_id, name: name.to_string(), sort }
}

fn entry(folder: Option<&str>, name: &str, sort: i64) -> TagEntry {
    TagEntry { folder: folder.map(|s| s.to_string()), name: name.to_string(), sort }
}

#[test]
fn shards_are_sorted_by_name() {
    let files = names(&["10.log", "9.log", "_summary.json", "log", "1.log", ".log"]);
    assert_eq!(tag_shards(&files), names(&[".log", "1.log", "10.log", "9.log"]));
    assert_eq!(last_shard(&files), Some("9.log".to_string()));
    assert_eq!(last_shard(&names(&["a.txt"])), None);
}

fn directory() -> FileMeta {
    FileMeta { is_symlink: false, is_file: false, is_dir: true, len: 0 }
}

fn file(len: u64) -> FileMeta {
    FileMeta { is_symlink: false, is_file: true, is_dir: false, len }
}

#[test]
fn a_tag_is_read_from_its_last_shard() {
    let listed = Some(names(&["1.log", "2.log", "x"]));
    assert_eq!(choose_shard(&Some(directory()), &listed), Ok("2.log".to_string()));
    assert_eq!(choose_shard(&None, &listed), Err(TagRead::MissingDir));
    assert_eq!(choose_shard(&Some(file(1)), &listed), Err(TagRead::MissingDir));
    let link = FileMeta { is_symlink: true, ..directory() };
    assert_eq!(choose_shard(&Some(link), &listed), Err(TagRead::MissingDir));
    assert_eq!(choose_shard(&Some(directory()), &None), Err(TagRead::ReadFail));
    assert_eq!(choose_shard(&Some(directory()), &Some(names(&["x"]))), Err(TagRead::ReadFail));
}

#[test]
fn a_shard_is_read_where_its_value_is_not_cached() {
    let mut cache = SummaryCache::new(10, false, "/l", None);
    let failed = ShardStep::Done(TagRead::ReadFail);
    assert_eq!(shard_step(&cache, "r", "0", &None, 7), failed);
    assert_eq!(shard_step(&cache, "r", "0", &Some(directory()), 7), failed);
    let link = FileMeta { is_symlink: true, ..file(12) };
    assert_eq!(shard_step(&cache, "r", "0", &Some(link), 7), failed);
    let key = "r/0/7/12".to_string();
    assert_eq!(
        shard_step(&cache, "r", "0", &Some(file(12)), 7),
        ShardStep::ReadTail { key: key.clone(), size: 12 }
    );
    let tail = Some(b"{\"data\":123}".to_vec());
    let read = TagRead::Value(Json::Int(123));
    assert_eq!(tag_last_value(&mut cache, key, &tail, 12), read);
    assert_eq!(shard_step(&cache, "r", "0", &Some(file(12)), 7), ShardStep::Done(read));
    assert_eq!(
        shard_step(&cache, "r", "0", &Some(file(13)), 7),
        ShardStep::ReadTail { key: "r/0/7/13".to_string(), size: 13 }
    );
}

#[test]
fn keys_of_shards() {
    assert_eq!(summary_key("run-1", "0", 123, 456), "run-1/0/123/456");
    assert_eq!(
        summary_key("r", "f", u128::MAX, u64::MAX),
        "r/f/340282366920938463463374607431768211455/18446744073709551615"
    );
    assert_ne!(summary_key("r", "f", 1, 23), summary_key("r", "f", 12, 3));
}

#[test]
fn tails_of_shards() {
    assert_eq!(tail_start(0), 0);
    assert_eq!(tail_start(65536), 0);
    assert_eq!(tail_start(65537), 1);
    assert_eq!(tail_last_line(&b"a\nb\r\n\n\n".to_vec(), 7), Some("b".to_string()));
    assert_eq!(tail_last_line(&b"a\nb".to_vec(), 0), None);
    assert_eq!(tail_last_line(&b"\n\n".to_vec(), 2), None);
    assert_eq!(tail_last_line(&vec![b'x', 0xff], 2), Some("x\u{fffd}".to_string()));
    let cut = b"\x82\xac\nlast\n".to_vec();
    assert_eq!(tail_last_line(&cut, 70000), Some("last".to_string()));
}

#[test]
fn values_of_lines() {
    assert_eq!(line_value(&None), TagRead::ReadFail);
    assert_eq!(line_value(&Some(json("{\"data\":3}"))), TagRead::Value(Json::Int(3)));
    assert_eq!(line_value(&Some(json("{}"))), TagRead::Value(Json::Null));
    assert_eq!(line_value(&Some(json("5"))), TagRead::Value(Json::Null));
}

#[test]
fn a_value_that_was_read_is_cached() {
    let mut cache = SummaryCache::new(10, false, "/l", None);
    let tail = Some(b"{\"data\":1}\n{\"data\":2.5}\n".to_vec());
    let key = summary_key("r", "0", 1, 24);
    assert_eq!(cached_value(&cache, &key), None);
    let two = Json::Real(2.5f64.to_bits());
    assert_eq!(tag_last_value(&mut cache, key.clone(), &tail, 24), TagRead::Value(two.clone()));
    assert_eq!(cached_value(&cache, &key), Some(two));
}

#[test]
fn a_value_that_cannot_be_read_is_not_cached() {
    let mut cache = SummaryCache::new(10, false, "/l", None);
    let tail = Some(b"broken".to_vec());
    assert_eq!(tag_last_value(&mut cache, "k".to_string(), &tail, 6), TagRead::ReadFail);
    assert_eq!(tag_last_value(&mut cache, "k".to_string(), &None, 6), TagRead::ReadFail);
    assert_eq!(tag_last_value(&mut cache, "k".to_string(), &tail, 0), TagRead::ReadFail);
    assert_eq!(cached_value(&cache, "k"), None);
}

#[test]
fn summaries_of_all_experiments() {
    let experiments = vec![experiment(1, "one"), experiment(2, "two"), experiment(3, "three")];
    let tags = vec![tag(1, "loss", 0), tag(1, "acc", 1), tag(2, "loss", -4), tag(9, "lost", 0)];
    let jobs = summary_jobs(&experiments, &tags);
    let places: Vec<(&str, &str)> =
        jobs.iter().map(|j| (j.run_id.as_str(), j.folder.as_str())).collect();
    assert_eq!(places, vec![("run-1", "0"), ("run-1", "1"), ("run-2", "-4")]);
    let reads = vec![TagRead::Value(Json::Int(5)), TagRead::ReadFail, TagRead::MissingDir];
    assert_eq!(
        project_summaries(&experiments, &tags, &reads),
        json(
            "{\"tags\":[\"loss\",\"acc\",\"lost\"],\"summaries\":{\"one\":{\"loss\":5},\
             \"two\":{\"loss\":\"TypeError\"},\"three\":{}}}"
        )
    );
}

#[test]
fn experiments_with_one_name_share_a_summary() {
    let experiments = vec![experiment(1, "same"), experiment(2, "same")];
    let tags = vec![tag(1, "loss", 0), tag(2, "loss", 0)];
    let reads = vec![TagRead::Value(Json::Int(5)), TagRead::Value(Json::Int(6))];
    assert_eq!(
        project_summaries(&experiments, &tags, &reads),
        json("{\"tags\":[\"loss\"],\"summaries\":{\"same\":{\"loss\":6}}}")
    );
}

#[test]
fn summary_of_an_experiment_by_sort() {
    let tags = Some(vec![
        entry(Some("b"), "second", 1),
        entry(None, "first", 0),
        entry(Some("gone"), "third", 2),
        entry(Some("b"), "odd", -1),
    ]);
    let reads = vec![
        TagRead::Value(Json::Int(2)),
        TagRead::Value(Json::Int(1)),
        TagRead::Value(Json::Int(3)),
        TagRead::ReadFail,
    ];
    assert_eq!(
        experiment_summary(&tags, &names(&["0", "b"]), &reads),
        Some(json(
            "{\"summaries\":[{\"key\":\"first\",\"value\":1},{\"key\":\"second\",\"value\":2},\
             {\"key\":\"third\",\"value\":\"TypeError\"},{\"key\":\"odd\",\"value\":null}]}"
        ))
    );
    assert_eq!(experiment_summary(&None, &vec![], &vec![]), None);
    assert_eq!(tag_entry_folder(&entry(None, "x", -7)), "-7");
    assert_eq!(tag_entry_folder(&entry(Some("f"), "x", 1)), "f");
}
