//! The time series of a tag: its points in order, and fewer of them where there are many.

use vstd::prelude::*;

use crate::codec::{self, parse_json};
use crate::json::{self, Json, JsonMap, JsonV, json_count};
use crate::order::{self, order_by};
use crate::text::{self, split_lines};

verus! {

/// The number of points above which a series is downsampled.
pub const LTTB_THRESHOLD: usize = 1500;

// ---------------------------------- points ----------------------------------

/// The index of a point, 0 where it has none.
pub open spec fn index_of(v: JsonV) -> int {
    json::int_at(v, "index"@, 0)
}

/// The index of a point.
pub fn point_index(v: &Json) -> (r: i64)
    ensures
        r == index_of(v@),
{
    v.i64_at("index", 0)
}

/// The values of the lines that are JSON documents.
pub open spec fn documents(lines: Seq<Seq<char>>) -> Seq<JsonV>
    decreases lines.len(),
{
    if lines.len() == 0 {
        Seq::empty()
    } else {
        let before = documents(lines.drop_last());
        if lines.last().len() == 0 {
            before
        } else {
            match codec::json_document(lines.last()) {
                Some(v) => before.push(v),
                None => before,
            }
        }
    }
}

/// The points of the shards of a tag, in the order of the shards; a shard that cannot be read has
/// none.
pub open spec fn points_of(shards: Seq<Option<String>>) -> Seq<JsonV>
    decreases shards.len(),
{
    if shards.len() == 0 {
        Seq::empty()
    } else {
        let before = points_of(shards.drop_last());
        match shards.last() {
            Some(s) => before + documents(text::lines_of(s@)),
            None => before,
        }
    }
}

fn push_documents(data: &mut Vec<Json>, s: &str)
    ensures
        json::list_view(*final(data)) == json::list_view(*old(data)) + documents(
            text::lines_of(s@),
        ),
{
    let lines = split_lines(s);
    let ghost all = text::texts(lines@);
    let ghost start = json::list_view(*data);
    let mut i: usize = 0;
    proof {
        assert(start + documents(all.take(0)) =~= start);
    }
    while i < lines.len()
        invariant
            i <= lines.len(),
            all == text::texts(lines@),
            json::list_view(*data) == start + documents(all.take(i as int)),
        decreases lines.len() - i,
    {
        proof {
            assert(all.take(i + 1).drop_last() =~= all.take(i as int));
            assert(all.take(i + 1).last() == lines@[i as int]@);
        }
        if !lines[i].as_str().is_empty() {
            match parse_json(lines[i].as_str()) {
                Some(v) => {
                    let ghost before = *data;
                    data.push(v);
                    proof {
                        json::lemma_list_push(before, *data, v);
                        let done = documents(all.take(i as int));
                        assert(start + done.push(v@) =~= (start + done).push(v@));
                    }
                },
                None => {},
            }
        }
        i += 1;
    }
    proof {
        assert(all.take(all.len() as int) =~= all);
    }
}

/// Reads the points of the shards of a tag: every line that is a JSON document. Empty lines and
/// lines that are none are skipped.
pub fn read_all_tag_points(shards: &Vec<Option<String>>) -> (r: Vec<Json>)
    ensures
        json::list_view(r) == points_of(shards@),
{
    let mut data: Vec<Json> = Vec::new();
    let mut i: usize = 0;
    proof {
        assert(json::list_view(data) =~= points_of(shards@.take(0)));
    }
    while i < shards.len()
        invariant
            i <= shards.len(),
            json::list_view(data) == points_of(shards@.take(i as int)),
        decreases shards.len() - i,
    {
        proof {
            assert(shards@.take(i + 1).drop_last() =~= shards@.take(i as int));
            assert(shards@.take(i + 1).last() == shards@[i as int]);
        }
        match &shards[i] {
            Some(s) => {
                push_documents(&mut data, s.as_str());
            },
            None => {},
        }
        i += 1;
    }
    proof {
        assert(shards@.take(shards@.len() as int) =~= shards@);
    }
    data
}

/// The indices of points.
pub open spec fn indices(points: Seq<JsonV>) -> Seq<i64> {
    points.map_values(|v: JsonV| index_of(v) as i64)
}

/// The points by index; points with one index stay in order.
pub open spec fn sorted_points(points: Seq<JsonV>) -> Seq<JsonV> {
    order::stable_order(indices(points)).map_values(|i: usize| points[i as int])
}

/// The point marked as the last one, where it is an object.
pub open spec fn marked(v: JsonV) -> JsonV {
    match v {
        JsonV::Object(o) => JsonV::Object(json::with_member(o, "_last"@, JsonV::Bool(true))),
        _ => v,
    }
}

/// The series of some points: sorted, with the last one marked.
pub open spec fn series_of(points: Seq<JsonV>) -> Seq<JsonV> {
    let s = sorted_points(points);
    if s.len() == 0 {
        s
    } else {
        s.update(s.len() - 1, marked(s.last()))
    }
}

/// Sorts points by index and marks the last one.
pub fn series(points: &Vec<Json>) -> (r: Vec<Json>)
    ensures
        json::list_view(r) == series_of(json::list_view(*points)),
        r.len() == points.len(),
{
    let ghost all = json::list_view(*points);
    let mut keys: Vec<i64> = Vec::new();
    let mut i: usize = 0;
    while i < points.len()
        invariant
            i <= points.len(),
            keys.len() == i,
            forall|j: int| 0 <= j < i ==> #[trigger] keys@[j] == index_of(points@[j]@) as i64,
        decreases points.len() - i,
    {
        keys.push(point_index(&points[i]));
        i += 1;
    }
    proof {
        assert(keys@ =~= indices(all));
    }
    let places = order_by(&keys);
    let mut r: Vec<Json> = Vec::new();
    let mut k: usize = 0;
    while k < places.len()
        invariant
            k <= places.len(),
            order::is_stable_order(keys@, places@),
            keys.len() == points.len(),
            r.len() == k,
            forall|j: int| 0 <= j < k ==> (#[trigger] r@[j])@ == points@[places@[j] as int]@,
        decreases places.len() - k,
    {
        let p: usize = places[k];
        r.push(points[p].copy());
        k += 1;
    }
    proof {
        assert(json::list_view(r) =~= sorted_points(all));
    }
    if r.len() > 0 {
        let n: usize = r.len() - 1;
        let ghost sorted = json::list_view(r);
        let last = match &r[n] {
            Json::Object(o) => {
                let mut m = o.copy();
                m.set("_last", Json::Bool(true));
                Json::Object(m)
            },
            v => v.copy(),
        };
        r.set(n, last);
        proof {
            assert(json::list_view(r) =~= sorted.update(n as int, last@));
        }
    }
    r
}

/// Marking a point as the last one keeps its index.
pub proof fn lemma_marked_keeps_index(v: JsonV)
    ensures
        index_of(marked(v)) == index_of(v),
{
    reveal_strlit("index");
    reveal_strlit("_last");
    match v {
        JsonV::Object(o) => {
            assert("index"@[0] != "_last"@[0]);
            json::lemma_member_set(o, "_last"@, JsonV::Bool(true), "index"@);
        },
        _ => {},
    }
}

/// A series has as many points as were read, and no point stands behind one with a greater index.
pub proof fn law_series_is_sorted(points: Seq<JsonV>, i: int, j: int)
    requires
        points.len() <= usize::MAX,
        0 <= i < j < points.len(),
    ensures
        series_of(points).len() == points.len(),
        index_of(series_of(points)[i]) <= index_of(series_of(points)[j]),
{
    let keys = indices(points);
    order::lemma_stable_order_exists(keys);
    let p = order::stable_order(keys);
    assert(order::goes_before(keys, p[i] as int, p[j] as int));
    lemma_marked_keeps_index(sorted_points(points).last());
    assert(keys[p[i] as int] == index_of(points[p[i] as int]) as i64);
    assert(keys[p[j] as int] == index_of(points[p[j] as int]) as i64);
}

// ---------------------------------- downsampling ----------------------------------

/// The sizes of `target` buckets for `total` points: equal, with what is left over spread over the
/// first buckets.
pub open spec fn capacities(total: nat, target: nat) -> Seq<nat> {
    Seq::new(
        target,
        |i: int|
            total / target + if i < total % target {
                1nat
            } else {
                0nat
            },
    )
}

/// The sizes of `target` buckets for `total` points.
pub fn calc_bucket_capacity(total: usize, target: usize) -> (r: Vec<usize>)
    requires
        target > 0,
    ensures
        r@.map_values(|c: usize| c as nat) == capacities(total as nat, target as nat),
{
    let cap: usize = total / target;
    let rem: usize = total % target;
    proof {
        assert(rem > 0 ==> cap < total) by (nonlinear_arith)
            requires
                target > 0,
                cap == total as int / target as int,
                rem == total as int % target as int,
        ;
    }
    let mut r: Vec<usize> = Vec::new();
    let mut i: usize = 0;
    while i < target
        invariant
            i <= target,
            cap == total / target,
            rem == total % target,
            rem > 0 ==> cap < total,
            r.len() == i,
            forall|j: int|
                0 <= j < i ==> #[trigger] r@[j] as nat == capacities(
                    total as nat,
                    target as nat,
                )[j],
        decreases target - i,
    {
        if i < rem {
            r.push(cap + 1);
        } else {
            r.push(cap);
        }
        i += 1;
    }
    proof {
        assert(r@.map_values(|c: usize| c as nat) =~= capacities(total as nat, target as nat));
    }
    r
}

/// The sum of the first `n` sizes.
pub open spec fn sum_of(caps: Seq<nat>, n: nat) -> nat
    decreases n,
{
    if n == 0 {
        0
    } else {
        sum_of(caps, (n - 1) as nat) + caps[n - 1]
    }
}

pub proof fn lemma_partial_sum(total: nat, target: nat, n: nat)
    requires
        target > 0,
        n <= target,
    ensures
        sum_of(capacities(total, target), n) == n * (total / target) + if n < total % target {
            n
        } else {
            total % target
        },
    decreases n,
{
    let cap = total / target;
    if n > 0 {
        lemma_partial_sum(total, target, (n - 1) as nat);
        assert(n * cap == (n - 1) * cap + cap) by (nonlinear_arith)
            requires
                n > 0,
        ;
    } else {
        assert(0 * cap == 0) by (nonlinear_arith);
    }
}

/// The buckets hold all points: their sizes sum up to the number of points.
pub proof fn law_capacities_sum_up(total: nat, target: nat)
    requires
        target > 0,
    ensures
        sum_of(capacities(total, target), target) == total,
{
    lemma_partial_sum(total, target, target);
    assert(target * (total / target) + total % target == total) by (nonlinear_arith)
        requires
            target > 0,
    ;
    assert(total % target < target) by (nonlinear_arith)
        requires
            target > 0,
    ;
}

/// How many buckets give a point: all but the last one, or the only one.
pub open spec fn sampled_buckets(threshold: nat) -> nat {
    if threshold == 3 {
        1
    } else {
        (threshold - 3) as nat
    }
}

/// Where the bucket `b` begins. The first and the last point are in no bucket.
pub open spec fn bucket_start(n: nat, threshold: nat, b: nat) -> int {
    1int + sum_of(capacities((n - 2) as nat, (threshold - 2) as nat), b)
}

pub proof fn lemma_bucket_bounds(n: nat, threshold: nat, b: nat)
    requires
        threshold >= 3,
        n > threshold,
        b < threshold - 2,
    ensures
        bucket_start(n, threshold, b) + capacities((n - 2) as nat, (threshold - 2) as nat)[b as int]
            == bucket_start(n, threshold, b + 1),
        1 <= bucket_start(n, threshold, b) < bucket_start(n, threshold, b + 1) <= n - 1,
    decreases threshold - b,
{
    let total = (n - 2) as nat;
    let target = (threshold - 2) as nat;
    assert(total / target >= 1) by (nonlinear_arith)
        requires
            total >= target,
            target > 0,
    ;
    if b + 1 == target {
        law_capacities_sum_up(total, target);
    } else {
        lemma_bucket_bounds(n, threshold, b + 1);
    }
}

/// The buckets that give a point, as ranges of positions; none where no point is dropped.
pub fn bucket_ranges(n: usize, threshold: usize) -> (r: Vec<(usize, usize)>)
    requires
        n > threshold ==> threshold >= 3,
    ensures
        r.len() == if n <= threshold {
            0
        } else {
            sampled_buckets(threshold as nat)
        },
        forall|b: int|
            0 <= b < r.len() ==> (#[trigger] r@[b]).0 == bucket_start(
                n as nat,
                threshold as nat,
                b as nat,
            ) && r@[b].1 == bucket_start(n as nat, threshold as nat, (b + 1) as nat) && 1
                <= r@[b].0 < r@[b].1 <= n - 1,
{
    let mut r: Vec<(usize, usize)> = Vec::new();
    if n <= threshold {
        return r;
    }
    let caps = calc_bucket_capacity(n - 2, threshold - 2);
    let m: usize = if threshold == 3 {
        1
    } else {
        threshold - 3
    };
    let mut start: usize = 1;
    let mut b: usize = 0;
    proof {
        assert(caps@.len() == caps@.map_values(|c: usize| c as nat).len());
    }
    while b < m
        invariant
            threshold >= 3,
            n > threshold,
            m == sampled_buckets(threshold as nat),
            m <= threshold - 2,
            caps.len() == threshold - 2,
            caps@.map_values(|c: usize| c as nat) == capacities(
                (n - 2) as nat,
                (threshold - 2) as nat,
            ),
            b <= m,
            r.len() == b,
            start == bucket_start(n as nat, threshold as nat, b as nat),
            forall|k: int|
                0 <= k < b ==> (#[trigger] r@[k]).0 == bucket_start(
                    n as nat,
                    threshold as nat,
                    k as nat,
                ) && r@[k].1 == bucket_start(n as nat, threshold as nat, (k + 1) as nat) && 1
                    <= r@[k].0 < r@[k].1 <= n - 1,
        decreases m - b,
    {
        proof {
            lemma_bucket_bounds(n as nat, threshold as nat, b as nat);
            assert(caps@.map_values(|c: usize| c as nat)[b as int] == caps@[b as int] as nat);
        }
        let end: usize = start + caps[b];
        r.push((start, end));
        start = end;
        b += 1;
    }
    r
}

/// The first position with the greatest positive key between `from` and `to`, both left out;
/// `from` where there is none.
pub open spec fn farthest(keys: Seq<u64>, from: int, to: int) -> int
    decreases to - from,
{
    if to <= from + 1 {
        from
    } else {
        let b = farthest(keys, from, to - 1);
        if keys[to - 1] > if b == from {
            0
        } else {
            keys[b]
        } {
            to - 1
        } else {
            b
        }
    }
}

/// The point that stands for the bucket `from..to`: the one farthest from the line through the two
/// ends of the bucket, or its first. The keys are the distances of the points from that line, in
/// any unit that keeps their order.
pub fn sample_a_bucket(keys: &Vec<u64>, from: usize, to: usize) -> (r: usize)
    requires
        from < to <= keys.len(),
    ensures
        r == farthest(keys@, from as int, to - 1),
        from <= r < to,
{
    let mut best: usize = from;
    let mut greatest: u64 = 0;
    let mut i: usize = from;
    while i < to - 1
        invariant
            from <= i <= to - 1,
            to <= keys.len(),
            from <= best <= i,
            best == farthest(keys@, from as int, i as int),
            greatest == if best == from {
                0
            } else {
                keys@[best as int]
            },
        decreases to - 1 - i,
    {
        if i > from && keys[i] > greatest {
            greatest = keys[i];
            best = i;
        }
        i += 1;
    }
    best
}

/// The positions of the points that a downsampled series keeps.
pub open spec fn picks(n: nat, threshold: nat, keys: Seq<u64>) -> Seq<int> {
    seq![0int] + Seq::new(
        sampled_buckets(threshold),
        |b: int|
            farthest(
                keys,
                bucket_start(n, threshold, b as nat),
                bucket_start(n, threshold, (b + 1) as nat) - 1,
            ),
    ) + seq![n - 1]
}

/// The series with at most about `threshold` points.
pub open spec fn downsampled(data: Seq<JsonV>, threshold: nat, keys: Seq<u64>) -> Seq<JsonV> {
    if data.len() <= threshold {
        data
    } else {
        picks(data.len(), threshold, keys).map_values(|i: int| data[i])
    }
}

/// Largest-Triangle-Three-Buckets downsampling: the first point, one point for each sampled bucket,
/// and the last point. `keys` holds for every point its distance from the line of its bucket.
pub fn lttb(data: Vec<Json>, threshold: usize, keys: &Vec<u64>) -> (r: Vec<Json>)
    requires
        data.len() > threshold ==> threshold >= 3,
        keys.len() == data.len(),
    ensures
        json::list_view(r) == downsampled(json::list_view(data), threshold as nat, keys@),
{
    let n: usize = data.len();
    if n <= threshold {
        return data;
    }
    let ghost all = json::list_view(data);
    let ranges = bucket_ranges(n, threshold);
    let mut sampled: Vec<Json> = Vec::new();
    sampled.push(data[0].copy());
    let mut b: usize = 0;
    while b < ranges.len()
        invariant
            b <= ranges.len(),
            n == data.len(),
            n > threshold >= 3,
            keys.len() == n,
            ranges.len() == sampled_buckets(threshold as nat),
            forall|k: int|
                0 <= k < ranges.len() ==> (#[trigger] ranges@[k]).0 == bucket_start(
                    n as nat,
                    threshold as nat,
                    k as nat,
                ) && ranges@[k].1 == bucket_start(n as nat, threshold as nat, (k + 1) as nat) && 1
                    <= ranges@[k].0 < ranges@[k].1 <= n - 1,
            sampled.len() == b + 1,
            sampled@[0]@ == data@[0]@,
            forall|k: int|
                1 <= k < sampled.len() ==> (#[trigger] sampled@[k])@ == data@[farthest(
                    keys@,
                    bucket_start(n as nat, threshold as nat, (k - 1) as nat),
                    bucket_start(n as nat, threshold as nat, k as nat) - 1,
                )]@,
        decreases ranges.len() - b,
    {
        let range = ranges[b];
        let p: usize = sample_a_bucket(keys, range.0, range.1);
        sampled.push(data[p].copy());
        b += 1;
    }
    sampled.push(data[n - 1].copy());
    proof {
        let made = downsampled(all, threshold as nat, keys@);
        let list = json::list_view(sampled);
        assert(list.len() == made.len());
        assert forall|k: int| 0 <= k < list.len() implies list[k] == made[k] by {
            assert(list[k] == sampled@[k]@);
            if 0 < k < list.len() - 1 {
                let from = bucket_start(n as nat, threshold as nat, (k - 1) as nat);
                let to = bucket_start(n as nat, threshold as nat, k as nat) - 1;
                lemma_bucket_bounds(n as nat, threshold as nat, (k - 1) as nat);
                lemma_farthest_bounds(keys@, from, to);
                assert(picks(n as nat, threshold as nat, keys@)[k] == farthest(keys@, from, to));
            }
        }
        assert(list =~= made);
    }
    sampled
}

pub proof fn lemma_farthest_bounds(keys: Seq<u64>, from: int, to: int)
    ensures
        from <= farthest(keys, from, to),
        farthest(keys, from, to) > from ==> farthest(keys, from, to) < to,
    decreases to - from,
{
    if to > from + 1 {
        lemma_farthest_bounds(keys, from, to - 1);
    }
}

/// The point that stands for a bucket has the greatest distance of the inner points of the bucket,
/// and is the first with it; it is the first point of the bucket where no inner point has any
/// distance.
pub proof fn law_farthest_is_greatest(keys: Seq<u64>, from: int, to: int, j: int)
    requires
        from < j < to,
    ensures
        farthest(keys, from, to) == from ==> keys[j] == 0,
        farthest(keys, from, to) > from ==> keys[j] <= keys[farthest(keys, from, to)] && 0
            < keys[farthest(keys, from, to)],
        from < j < farthest(keys, from, to) ==> keys[j] < keys[farthest(keys, from, to)],
    decreases to - from,
{
    lemma_farthest_bounds(keys, from, to);
    lemma_farthest_bounds(keys, from, to - 1);
    if j < to - 1 {
        law_farthest_is_greatest(keys, from, to - 1, j);
    }
    if to - 1 > from + 1 && farthest(keys, from, to - 1) > from {
        law_farthest_is_greatest(keys, from, to - 1, from + 1);
    }
}

/// A downsampled series keeps the first and the last point, and the points that it keeps stand in
/// their order.
pub proof fn law_downsampling_keeps_order(n: nat, threshold: nat, keys: Seq<u64>, i: int, j: int)
    requires
        threshold >= 3,
        n > threshold,
        0 <= i < j < picks(n, threshold, keys).len(),
    ensures
        picks(n, threshold, keys)[0] == 0,
        picks(n, threshold, keys).last() == n - 1,
        0 <= picks(n, threshold, keys)[i] < picks(n, threshold, keys)[j] < n,
    decreases j - i,
{
    let p = picks(n, threshold, keys);
    if i > 0 {
        lemma_bucket_bounds(n, threshold, (i - 1) as nat);
        lemma_farthest_bounds(
            keys,
            bucket_start(n, threshold, (i - 1) as nat),
            bucket_start(n, threshold, i as nat) - 1,
        );
    }
    if j < p.len() - 1 {
        lemma_bucket_bounds(n, threshold, (j - 1) as nat);
        lemma_farthest_bounds(
            keys,
            bucket_start(n, threshold, (j - 1) as nat),
            bucket_start(n, threshold, j as nat) - 1,
        );
    }
    if j > i + 1 {
        law_downsampling_keeps_order(n, threshold, keys, i, j - 1);
        law_downsampling_keeps_order(n, threshold, keys, j - 1, j);
    }
}

/// A downsampled series never has more points than the threshold.
pub proof fn law_downsampling_respects_threshold(
    data: Seq<JsonV>,
    threshold: nat,
    keys: Seq<u64>,
)
    requires
        data.len() > threshold ==> threshold >= 3,
    ensures
        downsampled(data, threshold, keys).len() <= threshold,
        data.len() <= threshold ==> downsampled(data, threshold, keys) == data,
{
}

// ---------------------------------- the page of a tag ----------------------------------

/// The run and the folder of a tag: nothing where the experiment does not exist, where the tag does
/// not, or where it has no folder.
pub fn tag_folder(run_id: Option<String>, folder: Option<Option<String>>) -> (r: Option<
    (String, String),
>)
    ensures
        r == (match (run_id, folder) {
            (Some(run), Some(Some(f))) => Some((run, f)),
            _ => None,
        }),
{
    match (run_id, folder) {
        (Some(run), Some(Some(f))) => Some((run, f)),
        _ => None,
    }
}

/// The greatest and the least value that a summary gives, null where it lacks one.
pub open spec fn bounds_of(summary: Option<JsonV>) -> Option<(JsonV, JsonV)> {
    match summary {
        Some(s) => Some(
            (
                json::value_or(json::field(s, "max"@), JsonV::Null),
                json::value_or(json::field(s, "min"@), JsonV::Null),
            ),
        ),
        None => None,
    }
}

/// What optional bounds say.
pub open spec fn bounds_view(b: Option<(Json, Json)>) -> Option<(JsonV, JsonV)> {
    match b {
        Some(p) => Some((p.0@, p.1@)),
        None => None,
    }
}

/// The greatest and the least value that a summary gives.
pub fn summary_bounds(summary: &Option<Json>) -> (r: Option<(Json, Json)>)
    ensures
        bounds_view(r) == bounds_of(codec::optional(*summary)),
{
    match summary {
        Some(s) => Some((s.copy_at("max", Json::Null), s.copy_at("min", Json::Null))),
        None => None,
    }
}

/// The greatest and the least value of a tag, from the text of its summary file; nothing where there
/// is no such document.
pub fn read_bounds(text: &Option<String>) -> (r: Option<(Json, Json)>)
    ensures
        bounds_view(r) == bounds_of(
            match *text {
                Some(s) => codec::json_document(s@),
                None => None,
            },
        ),
{
    let summary = match text {
        Some(s) => parse_json(s.as_str()),
        None => None,
    };
    summary_bounds(&summary)
}

/// The page of a tag of the experiment `id`.
pub open spec fn tag_page(
    series: Seq<JsonV>,
    id: i64,
    max: JsonV,
    min: JsonV,
    keys: Seq<u64>,
) -> JsonV {
    if series.len() == 0 {
        JsonV::Object(
            seq![
                ("sum"@, JsonV::Int(0)),
                ("list"@, JsonV::Array(Seq::empty())),
                ("experiment_id"@, JsonV::Int(id as int)),
            ],
        )
    } else {
        JsonV::Object(
            seq![
                ("sum"@, JsonV::Int(series.len() as int)),
                ("max"@, max),
                ("min"@, min),
                ("list"@, JsonV::Array(downsampled(series, LTTB_THRESHOLD as nat, keys))),
                ("experiment_id"@, JsonV::Int(id as int)),
            ],
        )
    }
}

/// The page of a tag of the experiment `id`: the number of its points, its greatest and least value
/// and its downsampled series. A tag without points has no greatest and least value.
pub fn tag_data(series: Vec<Json>, id: i64, max: Json, min: Json, keys: &Vec<u64>) -> (r: Json)
    requires
        keys.len() == series.len(),
    ensures
        r@ == tag_page(json::list_view(series), id, max@, min@, keys@),
{
    let ghost made = tag_page(json::list_view(series), id, max@, min@, keys@);
    let mut m = JsonMap::new();
    if series.len() == 0 {
        let none: Vec<Json> = Vec::new();
        m.append("sum", Json::Int(0));
        proof {
            assert(json::list_view(none) =~= Seq::empty());
        }
        m.append("list", Json::Array(none));
        m.append("experiment_id", Json::Int(id));
        proof {
            assert(m@ =~= made->Object_0);
        }
        return Json::Object(m);
    }
    m.append("sum", json_count(series.len()));
    m.append("max", max);
    m.append("min", min);
    m.append("list", Json::Array(lttb(series, LTTB_THRESHOLD, keys)));
    m.append("experiment_id", Json::Int(id));
    proof {
        assert(m@ =~= made->Object_0);
    }
    Json::Object(m)
}

} // verus!
