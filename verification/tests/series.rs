use fastsl::codec::parse_json;
use fastsl::json::Json;
use fastsl::series::{
    bucket_ranges, calc_bucket_capacity, lttb, point_index, read_all_tag_points, read_bounds,
    sample_a_bucket, series, summary_bounds, tag_data, tag_folder, LTTB_THRESHOLD,
};

fn json(s: &str) -> Json {
    parse_json(s).unwrap()
}

fn points(n: usize) -> Vec<Json> {
    (0..n).map(|i| json(&format!("{{\"index\":{i}}}"))).collect()
}

fn indices(list: &[Json]) -> Vec<i64> {
    list.iter().map(point_index).collect()
}

#[test]
fn index_of_a_point() {
    assert_eq!(point_index(&json("{\"index\":7,\"data\":1.5}")), 7);
    assert_eq!(point_index(&json("{\"index\":7.5}")), 0);
    assert_eq!(point_index(&json("{}")), 0);
    assert_eq!(point_index(&Json::Int(3)), 0);
}

#[test]
fn points_are_the_lines_that_are_documents() {
    let shards = vec![
        Some("{\"index\":1}\r\n\nbroken\n{\"index\":2}".to_string()),
        None,
        Some("[3]\n".to_string()),
    ];
    assert_eq!(
        read_all_tag_points(&shards),
        vec![json("{\"index\":1}"), json("{\"index\":2}"), json("[3]")]
    );
}

#[test]
fn a_series_is_sorted_and_its_end_marked() {
    let list = vec![
        json("{\"index\":2,\"k\":1}"),
        json("{\"index\":1}"),
        json("{\"index\":2,\"k\":2}"),
        json("{\"k\":0}"),
    ];
    assert_eq!(
        series(&list),
        vec![
            json("{\"k\":0}"),
            json("{\"index\":1}"),
            json("{\"index\":2,\"k\":1}"),
            json("{\"index\":2,\"k\":2,\"_last\":true}"),
        ]
    );
    assert_eq!(series(&vec![Json::Int(4)]), vec![Json::Int(4)]);
    assert_eq!(series(&vec![]), vec![]);
}

#[test]
fn capacities_of_buckets() {
    assert_eq!(calc_bucket_capacity(10, 4), vec![3, 3, 2, 2]);
    assert_eq!(calc_bucket_capacity(8, 4), vec![2, 2, 2, 2]);
    assert_eq!(calc_bucket_capacity(2, 3), vec![1, 1, 0]);
    assert_eq!(calc_bucket_capacity(1999, 1498).iter().sum::<usize>(), 1999);
}

#[test]
fn ranges_of_buckets() {
    assert_eq!(bucket_ranges(5, 5), vec![]);
    assert_eq!(bucket_ranges(10, 5), vec![(1, 4), (4, 7)]);
    assert_eq!(bucket_ranges(10, 3), vec![(1, 9)]);
    assert_eq!(bucket_ranges(2001, 1500).len(), 1497);
}

#[test]
fn the_farthest_point_stands_for_its_bucket() {
    let keys = vec![0, 9, 4, 7, 7, 9];
    assert_eq!(sample_a_bucket(&keys, 1, 6), 3);
    assert_eq!(sample_a_bucket(&keys, 1, 3), 1);
    assert_eq!(sample_a_bucket(&keys, 0, 1), 0);
    assert_eq!(sample_a_bucket(&vec![5, 0, 0, 5], 0, 4), 0);
}

#[test]
fn downsampling_keeps_the_ends_and_one_point_per_bucket() {
    let mut keys = vec![0u64; 10];
    keys[2] = 5;
    keys[5] = 1;
    assert_eq!(indices(&lttb(points(10), 5, &keys)), vec![0, 2, 5, 9]);
    assert_eq!(indices(&lttb(points(10), 5, &vec![0; 10])), vec![0, 1, 4, 9]);
    assert_eq!(indices(&lttb(points(10), 3, &keys)), vec![0, 2, 9]);
    assert_eq!(indices(&lttb(points(5), 5, &vec![0; 5])), vec![0, 1, 2, 3, 4]);
    let long = lttb(points(4000), LTTB_THRESHOLD, &vec![0; 4000]);
    assert_eq!(long.len(), 1499);
    assert!(indices(&long).windows(2).all(|w| w[0] < w[1]));
}

#[test]
fn bounds_come_from_the_summary() {
    assert_eq!(summary_bounds(&None), None);
    assert_eq!(
        summary_bounds(&Some(json("{\"max\":3,\"min\":1}"))),
        Some((Json::Int(3), Json::Int(1)))
    );
    assert_eq!(read_bounds(&None), None);
    assert_eq!(read_bounds(&Some("broken".to_string())), None);
    assert_eq!(read_bounds(&Some("[]".to_string())), Some((Json::Null, Json::Null)));
    assert_eq!(
        read_bounds(&Some("{\"max\":2.5}".to_string())),
        Some((Json::Real(2.5f64.to_bits()), Json::Null))
    );
}

#[test]
fn page_of_a_tag() {
    assert_eq!(
        tag_data(vec![], 4, Json::Null, Json::Null, &vec![]),
        json("{\"sum\":0,\"list\":[],\"experiment_id\":4}")
    );
    assert_eq!(
        tag_data(points(2), 4, Json::Int(1), Json::Int(0), &vec![0, 0]),
        json(
            "{\"sum\":2,\"max\":1,\"min\":0,\"list\":[{\"index\":0},{\"index\":1}],\
             \"experiment_id\":4}"
        )
    );
    let page = tag_data(points(3000), 4, Json::Null, Json::Null, &vec![0; 3000]);
    assert_eq!(page.get("sum"), Some(&Json::Int(3000)));
    match page.get("list") {
        Some(Json::Array(a)) => assert_eq!(a.len(), 1499),
        _ => panic!("no list"),
    }
}

#[test]
fn folder_of_a_tag() {
    let s = |x: &str| x.to_string();
    assert_eq!(
        tag_folder(Some(s("run")), Some(Some(s("0")))),
        Some((s("run"), s("0")))
    );
    assert_eq!(tag_folder(None, Some(Some(s("0")))), None);
    assert_eq!(tag_folder(Some(s("run")), Some(None)), None);
    assert_eq!(tag_folder(Some(s("run")), None), None);
}
