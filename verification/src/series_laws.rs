//! What holds of every time series and of every page of a tag.

use vstd::prelude::*;

use crate::codec;
use crate::json::{self, JsonV};
use crate::order;
use crate::series;
use crate::text;

verus! {

// ---------------------------------- points ----------------------------------

/// The index of a point is its member `index` where that is a 64-bit integer, and 0 otherwise.
pub proof fn law_index_is_the_member(v: JsonV, i: int)
    ensures
        i64::MIN <= i <= i64::MAX && json::field(v, "index"@) == Some(JsonV::Int(i))
            ==> series::index_of(v) == i,
        json::field(v, "index"@) is None ==> series::index_of(v) == 0,
        i64::MIN <= series::index_of(v) <= i64::MAX,
        series::index_of(v) != 0 ==> json::field(v, "index"@) == Some(
            JsonV::Int(series::index_of(v)),
        ),
{
}

/// The documents of some lines followed by others are those of the first followed by those of the
/// others; a line gives its document, and nothing where it is empty or no document.
pub proof fn law_documents_of_lines(a: Seq<Seq<char>>, b: Seq<Seq<char>>, line: Seq<char>)
    ensures
        series::documents(a + b) == series::documents(a) + series::documents(b),
        series::documents(Seq::empty()) == Seq::<JsonV>::empty(),
        line.len() > 0 ==> (codec::json_document(line) matches Some(v) ==> series::documents(
            seq![line],
        ) == seq![v]),
        line.len() == 0 || codec::json_document(line) is None ==> series::documents(seq![line])
            == Seq::<JsonV>::empty(),
    decreases b.len(),
{
    assert(seq![line].drop_last() =~= Seq::empty());
    assert(series::documents(Seq::empty()) =~= Seq::<JsonV>::empty());
    if codec::json_document(line) is Some {
        assert(series::documents(seq![line]) =~= if line.len() > 0 {
            seq![codec::json_document(line)->0]
        } else {
            Seq::empty()
        });
    }
    if b.len() == 0 {
        assert(a + b =~= a);
        assert(series::documents(a + b) =~= series::documents(a) + series::documents(b));
    } else {
        assert((a + b).drop_last() =~= a + b.drop_last());
        law_documents_of_lines(a, b.drop_last(), line);
        assert(series::documents(a + b) =~= series::documents(a) + series::documents(b));
    }
}

/// The points of some shards followed by others are those of the first followed by those of the
/// others; a shard gives the documents of its lines, and nothing where it cannot be read.
pub proof fn law_points_of_shards(a: Seq<Option<String>>, b: Seq<Option<String>>, shard: String)
    ensures
        series::points_of(a + b) == series::points_of(a) + series::points_of(b),
        series::points_of(Seq::empty()) == Seq::<JsonV>::empty(),
        series::points_of(seq![Some(shard)]) == series::documents(text::lines_of(shard@)),
        series::points_of(seq![None]) == Seq::<JsonV>::empty(),
    decreases b.len(),
{
    let one = seq![Some(shard)];
    let none = seq![None::<String>];
    assert(one.drop_last() =~= Seq::empty());
    assert(none.drop_last() =~= Seq::empty());
    assert(series::points_of(Seq::empty()) =~= Seq::<JsonV>::empty());
    assert(series::points_of(one) =~= series::documents(text::lines_of(shard@)));
    assert(series::points_of(none) =~= Seq::<JsonV>::empty());
    if b.len() == 0 {
        assert(a + b =~= a);
        assert(series::points_of(a + b) =~= series::points_of(a) + series::points_of(b));
    } else {
        assert((a + b).drop_last() =~= a + b.drop_last());
        law_points_of_shards(a, b.drop_last(), shard);
        assert(series::points_of(a + b) =~= series::points_of(a) + series::points_of(b));
    }
}

/// Every line of every shard that is a document is a point of the tag.
pub proof fn law_every_document_is_a_point(shards: Seq<Option<String>>, k: int, i: int)
    requires
        0 <= k < shards.len(),
        shards[k] is Some,
        0 <= i < text::lines_of(shards[k]->0@).len(),
        text::lines_of(shards[k]->0@)[i].len() > 0,
        codec::json_document(text::lines_of(shards[k]->0@)[i]) is Some,
    ensures
        series::points_of(shards).contains(
            codec::json_document(text::lines_of(shards[k]->0@)[i])->0,
        ),
{
    let s = shards[k]->0;
    let lines = text::lines_of(s@);
    let v = codec::json_document(lines[i])->0;
    let head = lines.take(i);
    let tail = lines.skip(i + 1);
    assert(lines =~= head + (seq![lines[i]] + tail));
    law_documents_of_lines(head, seq![lines[i]] + tail, lines[i]);
    law_documents_of_lines(seq![lines[i]], tail, lines[i]);
    let docs = series::documents(lines);
    assert(docs[series::documents(head).len() as int] == v);
    let before = shards.take(k);
    let after = shards.skip(k + 1);
    assert(shards =~= before + (seq![shards[k]] + after));
    law_points_of_shards(before, seq![shards[k]] + after, s);
    law_points_of_shards(seq![shards[k]], after, s);
    let n = series::points_of(before).len() + series::documents(head).len();
    assert(series::points_of(shards)[n as int] == v);
}

/// A series has every point that was read, each once: there is a way to number the points so that
/// the series lists them by index, and among points with one index the one read first first. All
/// but the last stand there as they were read.
pub proof fn law_series_orders_the_points(points: Seq<JsonV>)
    requires
        points.len() <= usize::MAX,
    ensures
        series::series_of(points).len() == points.len(),
        exists|place: Seq<int>|
            {
                &&& place.len() == points.len()
                &&& place.no_duplicates()
                &&& forall|i: int|
                    0 <= i < place.len() ==> 0 <= #[trigger] place[i] < points.len()
                &&& forall|i: int|
                    0 <= i < place.len() - 1 ==> series::series_of(points)[i]
                        == points[#[trigger] place[i]]
                &&& forall|i: int, j: int|
                    0 <= i < j < place.len() ==> series::index_of(points[#[trigger] place[i]])
                        < series::index_of(points[#[trigger] place[j]]) || (series::index_of(
                        points[place[i]],
                    ) == series::index_of(points[place[j]]) && place[i] < place[j])
                &&& points.len() > 0 ==> series::series_of(points).last() == series::marked(
                    points[place.last()],
                )
            },
{
    let keys = series::indices(points);
    order::lemma_stable_order_exists(keys);
    let p = order::stable_order(keys);
    let place = Seq::new(points.len(), |i: int| p[i] as int);
    assert forall|i: int, j: int| 0 <= i < j < place.len() implies series::index_of(
        points[#[trigger] place[i]],
    ) < series::index_of(points[#[trigger] place[j]]) || (series::index_of(points[place[i]])
        == series::index_of(points[place[j]]) && place[i] < place[j]) by {
        assert(order::goes_before(keys, p[i] as int, p[j] as int));
        assert(keys[p[i] as int] == series::index_of(points[p[i] as int]) as i64);
        assert(keys[p[j] as int] == series::index_of(points[p[j] as int]) as i64);
    }
    assert(place.no_duplicates());
    if points.len() > 0 {
        assert(series::series_of(points).last() == series::marked(points[place.last()]));
    }
}

/// The last point of a series that is an object has the member `_last`, and keeps its others; what
/// is no object stays as it is.
pub proof fn law_last_point_is_marked(v: JsonV, key: Seq<char>)
    ensures
        v is Object ==> json::field(series::marked(v), "_last"@) == Some(JsonV::Bool(true)),
        key != "_last"@ ==> json::field(series::marked(v), key) == json::field(v, key),
        !(v is Object) ==> series::marked(v) == v,
{
    match v {
        JsonV::Object(o) => {
            json::lemma_member_set(o, "_last"@, JsonV::Bool(true), key);
        },
        _ => {},
    }
}

// ---------------------------------- downsampling ----------------------------------

/// A series above the threshold keeps its first point, one point for each bucket but the last, and
/// its last point. Bucket `b` holds the positions from `start` to `end`: all points but the first
/// and the last are shared out evenly, and what is left over goes to the first buckets. The point of
/// a bucket is the first of its inner points with the greatest distance, or its first point where no
/// inner point has any distance.
pub proof fn law_each_bucket_gives_its_farthest(
    data: Seq<JsonV>,
    threshold: nat,
    keys: Seq<u64>,
    b: int,
)
    requires
        threshold >= 3,
        data.len() > threshold,
        keys.len() == data.len(),
        0 <= b,
        b < threshold - 3 || (threshold == 3 && b == 0),
    ensures
        ({
            let each = (data.len() - 2) / (threshold - 2);
            let over = (data.len() - 2) % (threshold - 2);
            let start = 1 + b * each + if b < over {
                b
            } else {
                over
            };
            let end = start + each + if b < over {
                1int
            } else {
                0int
            };
            let kept = series::downsampled(data, threshold, keys);
            &&& kept.len() == threshold - 1 || (threshold == 3 && kept.len() == 3)
            &&& kept[0] == data[0]
            &&& kept.last() == data.last()
            &&& 1 <= start < end < data.len()
            &&& exists|p: int|
                {
                    &&& start <= p < end
                    &&& kept[b + 1] == #[trigger] data[p]
                    &&& p == start || p < end - 1
                    &&& forall|j: int|
                        start < j < end - 1 ==> if p == start {
                            #[trigger] keys[j] == 0
                        } else {
                            keys[j] <= keys[p] && (j < p ==> keys[j] < keys[p])
                        }
                }
        }),
{
    let n = data.len();
    let m = (n - 2) as nat;
    let q = (threshold - 2) as nat;
    let each = m / q;
    let over = m % q;
    series::lemma_bucket_bounds(n, threshold, b as nat);
    series::lemma_partial_sum(m, q, b as nat);
    series::lemma_partial_sum(m, q, (b + 1) as nat);
    assert((b + 1) * each == b * each + each) by (nonlinear_arith);
    let start = series::bucket_start(n, threshold, b as nat);
    let end = series::bucket_start(n, threshold, (b + 1) as nat);
    let p = series::farthest(keys, start, end - 1);
    series::lemma_farthest_bounds(keys, start, end - 1);
    assert forall|j: int| start < j < end - 1 implies if p == start {
        #[trigger] keys[j] == 0
    } else {
        keys[j] <= keys[p] && (j < p ==> keys[j] < keys[p])
    } by {
        series::law_farthest_is_greatest(keys, start, end - 1, j);
    }
    let kept = series::downsampled(data, threshold, keys);
    assert(series::picks(n, threshold, keys)[b + 1] == p);
    assert(kept[b + 1] == data[p]);
    assert(kept.last() == data[n - 1]);
}

/// A series with no more points than the threshold stays as it is.
pub proof fn law_short_series_stay(data: Seq<JsonV>, threshold: nat, keys: Seq<u64>)
    requires
        data.len() <= threshold,
    ensures
        series::downsampled(data, threshold, keys) == data,
{
}

// ---------------------------------- the page of a tag ----------------------------------

/// The greatest and the least value are what the summary has under `max` and `min`, null where it
/// lacks one; without a summary there are none.
pub proof fn law_bounds_are_the_members(s: JsonV, v: JsonV)
    ensures
        series::bounds_of(None) is None,
        series::bounds_of(Some(s)) matches Some((max, min)) && {
            &&& json::field(s, "max"@) == Some(v) ==> max == v
            &&& json::field(s, "max"@) is None ==> max == JsonV::Null
            &&& json::field(s, "min"@) == Some(v) ==> min == v
            &&& json::field(s, "min"@) is None ==> min == JsonV::Null
        },
{
}

/// The page of a tag with points has their number, the bounds and the experiment; up to 1500 points
/// are all listed, in order, and of more the first and the last and one for each of 1497 buckets.
pub proof fn law_page_of_a_tag(
    points: Seq<JsonV>,
    id: i64,
    max: JsonV,
    min: JsonV,
    keys: Seq<u64>,
)
    requires
        keys.len() == points.len(),
        points.len() > 0,
    ensures
        ({
            let page = series::tag_page(points, id, max, min, keys);
            &&& json::field(page, "sum"@) == Some(JsonV::Int(points.len() as int))
            &&& json::field(page, "max"@) == Some(max)
            &&& json::field(page, "min"@) == Some(min)
            &&& json::field(page, "experiment_id"@) == Some(JsonV::Int(id as int))
            &&& json::field(page, "list"@) matches Some(JsonV::Array(list)) && {
                &&& points.len() <= 1500 ==> list == points
                &&& points.len() > 1500 ==> list == series::downsampled(points, 1500, keys)
                    && list.len() == 1499
            }
        }),
{
    lemma_page_names();
    let o = series::tag_page(points, id, max, min, keys)->Object_0;
    json::lemma_find_key_is(o, "sum"@, 0);
    json::lemma_find_key_is(o, "max"@, 1);
    json::lemma_find_key_is(o, "min"@, 2);
    json::lemma_find_key_is(o, "list"@, 3);
    json::lemma_find_key_is(o, "experiment_id"@, 4);
}

/// The page of a tag without points has an empty list, and neither a greatest nor a least value.
pub proof fn law_page_of_an_empty_tag(id: i64, max: JsonV, min: JsonV, keys: Seq<u64>)
    ensures
        ({
            let page = series::tag_page(Seq::empty(), id, max, min, keys);
            &&& json::field(page, "sum"@) == Some(JsonV::Int(0))
            &&& json::field(page, "list"@) == Some(JsonV::Array(Seq::empty()))
            &&& json::field(page, "experiment_id"@) == Some(JsonV::Int(id as int))
            &&& json::field(page, "max"@) is None
            &&& json::field(page, "min"@) is None
        }),
{
    lemma_page_names();
    let o = series::tag_page(Seq::empty(), id, max, min, keys)->Object_0;
    json::lemma_find_key_is(o, "sum"@, 0);
    json::lemma_find_key_is(o, "list"@, 1);
    json::lemma_find_key_is(o, "experiment_id"@, 2);
    json::lemma_find_key_is(o, "max"@, 3);
    json::lemma_find_key_is(o, "min"@, 3);
}

proof fn lemma_page_names()
    ensures
        "sum"@ != "max"@ && "sum"@ != "min"@ && "sum"@ != "list"@ && "sum"@ != "experiment_id"@,
        "max"@ != "min"@ && "max"@ != "list"@ && "max"@ != "experiment_id"@,
        "min"@ != "list"@ && "min"@ != "experiment_id"@,
        "list"@ != "experiment_id"@,
{
    reveal_strlit("sum");
    reveal_strlit("max");
    reveal_strlit("min");
    reveal_strlit("list");
    reveal_strlit("experiment_id");
    assert("sum"@[0] != "max"@[0]);
    assert("sum"@[0] != "min"@[0]);
    assert("max"@[1] != "min"@[1]);
    assert("sum"@.len() == 3 && "max"@.len() == 3 && "min"@.len() == 3 && "list"@.len() == 4);
    assert("experiment_id"@.len() == 13);
}

} // verus!
