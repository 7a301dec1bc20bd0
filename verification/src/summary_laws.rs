//! What holds of every summary of last values.

use vstd::prelude::*;

use crate::codec;
use crate::json::{self, JsonV};
use crate::overlay_laws;
use crate::summaries::{self, ExperimentName, SummaryJobV, TagEntry, TagName, TagReadV};
use crate::summary_cache;
use crate::tails;
use crate::text;
use crate::uistate;

verus! {

// ---------------------------------- the last value of a tag ----------------------------------

/// The last value is what the document of the line has under `data`, whatever else it has, and null
/// where it has no such member; what is no document cannot be read.
pub proof fn law_logged_value_is_the_data(v: JsonV, d: JsonV)
    ensures
        json::field(v, "data"@) == Some(d) ==> summaries::logged_value(Some(v)) == TagReadV::Value(
            d,
        ),
        json::field(v, "data"@) is None ==> summaries::logged_value(Some(v)) == TagReadV::Value(
            JsonV::Null,
        ),
        summaries::logged_value(None) is ReadFail,
{
}

/// A shard gives the `data` of its last line that is not empty. It cannot be read where it is empty,
/// where its last bytes could not be read, where it has no such line, or where the line is no
/// document.
pub proof fn law_shard_gives_the_data_of_its_last_line(
    tail: Vec<u8>,
    size: u64,
    line: Seq<char>,
    v: JsonV,
    d: JsonV,
)
    ensures
        size > 0 && tails::last_line(tail@) == Some(line) && codec::json_document(line) == Some(v)
            && json::field(v, "data"@) == Some(d) ==> summaries::tail_read(Some(tail), size)
            == TagReadV::Value(d),
        size > 0 && tails::last_line(tail@) == Some(line) && codec::json_document(line) == Some(v)
            && json::field(v, "data"@) is None ==> summaries::tail_read(Some(tail), size)
            == TagReadV::Value(JsonV::Null),
        size > 0 && tails::last_line(tail@) == Some(line) && codec::json_document(line) is None
            ==> summaries::tail_read(Some(tail), size) is ReadFail,
        tails::last_line(tail@) is None ==> summaries::tail_read(Some(tail), size) is ReadFail,
        summaries::tail_read(Some(tail), 0) is ReadFail,
        summaries::tail_read(None, size) is ReadFail,
{
}

/// The last line of a line of bytes alone is that line.
pub proof fn law_last_line_is_decoded(bytes: Seq<u8>, line: Seq<u8>)
    ensures
        tails::last_line_bytes(bytes, false) == Some(line) ==> tails::last_line(bytes) == Some(
            codec::utf8_lossy(line),
        ),
        tails::last_line_bytes(bytes, false) is None ==> tails::last_line(bytes) is None,
{
}

/// A value that was read is cached under its key, and nothing else changes; what could not be read
/// is not cached.
pub proof fn law_only_values_are_cached(
    c: summary_cache::SummaryCacheV,
    key: Seq<char>,
    v: JsonV,
    other: Seq<char>,
)
    ensures
        ({
            let after = summaries::after_read(c, key, TagReadV::Value(v));
            &&& after.given.contains_key(key) && after.given[key] == v
            &&& other != key ==> after.given.contains_key(other) == c.given.contains_key(other)
                && (c.given.contains_key(other) ==> after.given[other] == c.given[other])
            &&& after.limit == c.limit && after.persistent == c.persistent
        }),
        summaries::after_read(c, key, TagReadV::ReadFail) == c,
        summaries::after_read(c, key, TagReadV::MissingDir) == c,
{
}

/// The key of a cached value tells runs, folders and states of the last shard apart.
pub proof fn law_keys_tell_tags_apart(
    run: Seq<char>,
    folder: Seq<char>,
    mtime: nat,
    len: nat,
    other_run: Seq<char>,
    other_folder: Seq<char>,
    other_mtime: nat,
    other_len: nat,
)
    requires
        forall|k: int| 0 <= k < run.len() ==> #[trigger] run[k] != '/',
        forall|k: int| 0 <= k < folder.len() ==> #[trigger] folder[k] != '/',
        forall|k: int| 0 <= k < other_run.len() ==> #[trigger] other_run[k] != '/',
        forall|k: int| 0 <= k < other_folder.len() ==> #[trigger] other_folder[k] != '/',
        summaries::key_text(run, folder, mtime, len) == summaries::key_text(
            other_run,
            other_folder,
            other_mtime,
            other_len,
        ),
    ensures
        run == other_run,
        folder == other_folder,
        mtime == other_mtime,
        len == other_len,
{
    let x = folder + "/"@ + text::nat_text(mtime) + "/"@ + text::nat_text(len);
    let y = other_folder + "/"@ + text::nat_text(other_mtime) + "/"@ + text::nat_text(other_len);
    let a = summaries::key_text(run, folder, mtime, len);
    let b = summaries::key_text(other_run, other_folder, other_mtime, other_len);
    assert(a =~= run + "/"@ + x);
    assert(b =~= other_run + "/"@ + y);
    summaries::lemma_same_prefix(run, x, other_run, y);
    let z = text::nat_text(mtime) + "/"@ + text::nat_text(len);
    let w = text::nat_text(other_mtime) + "/"@ + text::nat_text(other_len);
    assert(x =~= folder + "/"@ + z);
    assert(y =~= other_folder + "/"@ + w);
    summaries::lemma_same_prefix(folder, z, other_folder, w);
    if mtime != other_mtime || len != other_len {
        summaries::law_key_changes_with_the_shard(run, folder, mtime, len, other_mtime, other_len);
    }
}

// ---------------------------------- jobs ----------------------------------

/// The jobs of an experiment: one for each of its tags, in order, which reads the folder named by
/// the sort number of the tag in the run of the experiment; tags of other experiments give none.
pub proof fn law_jobs_of_an_experiment(
    e: ExperimentName,
    a: Seq<TagName>,
    b: Seq<TagName>,
    tag: TagName,
)
    ensures
        summaries::experiment_jobs(e, a + b) == summaries::experiment_jobs(e, a)
            + summaries::experiment_jobs(e, b),
        summaries::experiment_jobs(e, Seq::empty()) == Seq::<SummaryJobV>::empty(),
        tag.experiment_id != e.id ==> summaries::experiment_jobs(e, seq![tag]) == Seq::<
            SummaryJobV,
        >::empty(),
        tag.experiment_id == e.id ==> {
            let jobs = summaries::experiment_jobs(e, seq![tag]);
            &&& jobs.len() == 1
            &&& jobs[0].experiment == e.name@
            &&& jobs[0].tag == tag.name@
            &&& jobs[0].run_id == e.run_id@
            &&& jobs[0].folder == text::int_text(tag.sort as int)
        },
    decreases b.len(),
{
    assert(seq![tag].drop_last() =~= Seq::empty());
    assert(summaries::experiment_jobs(e, Seq::empty()) =~= Seq::empty());
    if b.len() == 0 {
        assert(a + b =~= a);
        assert(summaries::experiment_jobs(e, a + b) =~= summaries::experiment_jobs(e, a)
            + summaries::experiment_jobs(e, b));
    } else {
        assert((a + b).drop_last() =~= a + b.drop_last());
        law_jobs_of_an_experiment(e, a, b.drop_last(), tag);
        assert(summaries::experiment_jobs(e, a + b) =~= summaries::experiment_jobs(e, a)
            + summaries::experiment_jobs(e, b));
    }
}

/// The jobs of the project are those of its experiments, experiment by experiment.
pub proof fn law_jobs_of_the_project(
    a: Seq<ExperimentName>,
    b: Seq<ExperimentName>,
    e: ExperimentName,
    tags: Seq<TagName>,
)
    ensures
        summaries::project_jobs(a + b, tags) == summaries::project_jobs(a, tags)
            + summaries::project_jobs(b, tags),
        summaries::project_jobs(Seq::empty(), tags) == Seq::<SummaryJobV>::empty(),
        summaries::project_jobs(seq![e], tags) == summaries::experiment_jobs(e, tags),
    decreases b.len(),
{
    assert(seq![e].drop_last() =~= Seq::empty());
    assert(summaries::project_jobs(Seq::empty(), tags) =~= Seq::empty());
    assert(summaries::project_jobs(seq![e], tags) =~= summaries::experiment_jobs(e, tags));
    if b.len() == 0 {
        assert(a + b =~= a);
        assert(summaries::project_jobs(a + b, tags) =~= summaries::project_jobs(a, tags)
            + summaries::project_jobs(b, tags));
    } else {
        assert((a + b).drop_last() =~= a + b.drop_last());
        law_jobs_of_the_project(a, b.drop_last(), e, tags);
        assert(summaries::project_jobs(a + b, tags) =~= summaries::project_jobs(a, tags)
            + summaries::project_jobs(b, tags));
    }
}

/// Every tag of every experiment has its job.
pub proof fn law_every_tag_has_a_job(
    experiments: Seq<ExperimentName>,
    tags: Seq<TagName>,
    x: int,
    y: int,
)
    requires
        0 <= x < experiments.len(),
        0 <= y < tags.len(),
        tags[y].experiment_id == experiments[x].id,
    ensures
        exists|i: int|
            0 <= i < summaries::project_jobs(experiments, tags).len() && {
                let job = #[trigger] summaries::project_jobs(experiments, tags)[i];
                &&& job.experiment == experiments[x].name@
                &&& job.tag == tags[y].name@
                &&& job.run_id == experiments[x].run_id@
                &&& job.folder == text::int_text(tags[y].sort as int)
            },
{
    let e = experiments[x];
    let t = tags[y];
    let head = tags.take(y);
    let tail = tags.skip(y + 1);
    assert(tags =~= head + (seq![t] + tail));
    law_jobs_of_an_experiment(e, head, seq![t] + tail, t);
    law_jobs_of_an_experiment(e, seq![t], tail, t);
    let before = experiments.take(x);
    let after = experiments.skip(x + 1);
    assert(experiments =~= before + (seq![e] + after));
    law_jobs_of_the_project(before, seq![e] + after, e, tags);
    law_jobs_of_the_project(seq![e], after, e, tags);
    let i = summaries::project_jobs(before, tags).len() + summaries::experiment_jobs(e, head).len();
    let job = summaries::experiment_jobs(e, seq![t])[0];
    assert(summaries::project_jobs(experiments, tags)[i as int] == job);
}

// ---------------------------------- all experiments ----------------------------------

/// What is shown for an experiment and a tag is what the last job for them that did not fail to read
/// gave: its value, or `TypeError` where its folder is missing. Where no job is for them, nothing is
/// shown.
pub proof fn law_last_job_is_shown(
    experiments: Seq<ExperimentName>,
    tags: Seq<TagName>,
    reads: Seq<TagReadV>,
    i: int,
    v: JsonV,
)
    requires
        0 <= i < summaries::project_jobs(experiments, tags).len(),
        forall|j: int|
            i < j < summaries::project_jobs(experiments, tags).len() ==> {
                let job = #[trigger] summaries::project_jobs(experiments, tags)[j];
                ||| job.experiment != summaries::project_jobs(experiments, tags)[i].experiment
                ||| job.tag != summaries::project_jobs(experiments, tags)[i].tag
                ||| reads[j] is ReadFail
            },
    ensures
        ({
            let job = summaries::project_jobs(experiments, tags)[i];
            let page = summaries::summaries_page(experiments, tags, reads);
            &&& json::field(page, "summaries"@) matches Some(all) && {
                &&& reads[i] == TagReadV::Value(v) ==> (json::field(all, job.experiment) matches Some(
                    own,
                ) && json::field(own, job.tag) == Some(v))
                &&& reads[i] is MissingDir ==> (json::field(all, job.experiment) matches Some(own)
                    && json::field(own, job.tag) == Some(JsonV::Str("TypeError"@)))
            }
        }),
{
    let jobs = summaries::project_jobs(experiments, tags);
    let start = summaries::empty_summaries(experiments);
    lemma_page_fields(experiments, tags, reads);
    if !(reads[i] is ReadFail) {
        lemma_last_shown(start, jobs, reads, i);
        let all = summaries::with_reads(start, jobs, reads);
        assert(summaries::value_for(all, jobs[i].experiment, jobs[i].tag) is Some);
        if !(json::member(all, jobs[i].experiment) matches Some(JsonV::Object(_))) {
            json::lemma_find_key(Seq::empty(), jobs[i].tag);
        }
    }
}

proof fn lemma_last_shown(
    o: Seq<(Seq<char>, JsonV)>,
    jobs: Seq<SummaryJobV>,
    reads: Seq<TagReadV>,
    i: int,
)
    requires
        0 <= i < jobs.len(),
        !(reads[i] is ReadFail),
        forall|j: int|
            i < j < jobs.len() ==> (#[trigger] jobs[j]).experiment != jobs[i].experiment
                || jobs[j].tag != jobs[i].tag || reads[j] is ReadFail,
    ensures
        summaries::value_for(
            summaries::with_reads(o, jobs, reads),
            jobs[i].experiment,
            jobs[i].tag,
        ) == summaries::shown_read(reads[i]),
    decreases jobs.len(),
{
    let t = jobs.drop_last();
    let n = jobs.len() - 1;
    let before = summaries::with_reads(o, t, reads);
    if i < n {
        assert(t[i] == jobs[i]);
        assert forall|j: int| i < j < t.len() implies (#[trigger] t[j]).experiment
            != t[i].experiment || t[j].tag != t[i].tag || reads[j] is ReadFail by {
            assert(t[j] == jobs[j]);
        }
        lemma_last_shown(o, t, reads, i);
        assert(jobs[n] == jobs.last());
        if !(reads[n] is ReadFail) {
            summaries::lemma_read_elsewhere(before, jobs.last(), reads[n], jobs[i]);
        }
    } else {
        match reads[n] {
            TagReadV::Value(v) => {
                summaries::law_last_read_is_shown(before, jobs.last(), v);
            },
            _ => {
                summaries::law_last_read_is_shown(before, jobs.last(), JsonV::Null);
            },
        }
    }
}

proof fn lemma_page_fields(
    experiments: Seq<ExperimentName>,
    tags: Seq<TagName>,
    reads: Seq<TagReadV>,
)
    ensures
        ({
            let page = summaries::summaries_page(experiments, tags, reads);
            &&& json::field(page, "summaries"@) == Some(
                JsonV::Object(
                    summaries::with_reads(
                        summaries::empty_summaries(experiments),
                        summaries::project_jobs(experiments, tags),
                        reads,
                    ),
                ),
            )
            &&& json::field(page, "tags"@) == Some(
                json::strings(uistate::dedup(summaries::tag_names(tags))),
            )
        }),
{
    reveal_strlit("tags");
    reveal_strlit("summaries");
    assert("tags"@.len() != "summaries"@.len());
    let o = summaries::summaries_page(experiments, tags, reads)->Object_0;
    json::lemma_find_key_is(o, "tags"@, 0);
    json::lemma_find_key_is(o, "summaries"@, 1);
}

/// Where no job is for an experiment and a tag, or all of them failed to read, nothing is shown for
/// them; every experiment is there all the same.
pub proof fn law_nothing_else_is_shown(
    experiments: Seq<ExperimentName>,
    tags: Seq<TagName>,
    reads: Seq<TagReadV>,
    experiment: Seq<char>,
    tag: Seq<char>,
    x: int,
)
    requires
        forall|j: int|
            0 <= j < summaries::project_jobs(experiments, tags).len() ==> {
                let job = #[trigger] summaries::project_jobs(experiments, tags)[j];
                job.experiment != experiment || job.tag != tag
            },
    ensures
        ({
            let page = summaries::summaries_page(experiments, tags, reads);
            &&& json::field(page, "summaries"@) matches Some(all) && {
                &&& json::field(all, experiment) matches Some(own) ==> json::field(own, tag) is None
                &&& 0 <= x < experiments.len() ==> json::field(all, experiments[x].name@) is Some
            }
        }),
{
    lemma_page_fields(experiments, tags, reads);
    let jobs = summaries::project_jobs(experiments, tags);
    let start = summaries::empty_summaries(experiments);
    let other = SummaryJobV { experiment, tag, run_id: Seq::empty(), folder: Seq::empty() };
    summaries::lemma_nothing_at_start(experiments, experiment, tag);
    summaries::lemma_reads_elsewhere(start, jobs, reads, other);
    if 0 <= x < experiments.len() {
        summaries::lemma_started(experiments, x);
        summaries::lemma_reads_keep_experiments(start, jobs, reads, experiments[x].name@);
    }
}

/// The page lists the name of every tag, each once, and no other name; a name that first comes before
/// another stands before it.
pub proof fn law_page_lists_the_tags(
    experiments: Seq<ExperimentName>,
    tags: Seq<TagName>,
    reads: Seq<TagReadV>,
    y: int,
)
    requires
        0 <= y < tags.len(),
    ensures
        json::field(summaries::summaries_page(experiments, tags, reads), "tags"@) matches Some(
            JsonV::Array(list),
        ) && {
            &&& list.no_duplicates()
            &&& list.contains(JsonV::Str(tags[y].name@))
            &&& list.len() <= tags.len()
            &&& forall|i: int|
                0 <= i < list.len() ==> exists|k: int|
                    0 <= k < tags.len() && #[trigger] list[i] == JsonV::Str(
                        (#[trigger] tags[k]).name@,
                    )
            &&& list == json::strings(
                uistate::dedup(tags.map_values(|t: TagName| t.name@)),
            )->Array_0
        },
{
    lemma_page_fields(experiments, tags, reads);
    let names = summaries::tag_names(tags);
    assert(names =~= tags.map_values(|t: TagName| t.name@));
    let d = uistate::dedup(names);
    overlay_laws::law_dedup_keeps_each_once(names);
    let list = json::strings(d)->Array_0;
    assert(names[y] == tags[y].name@);
    assert(names.contains(tags[y].name@));
    let k = choose|k: int| 0 <= k < d.len() && d[k] == tags[y].name@;
    assert(list[k] == JsonV::Str(tags[y].name@));
    assert forall|i: int, j: int| 0 <= i < list.len() && 0 <= j < list.len() && i != j implies list[i]
        != list[j] by {
        assert(d[i] != d[j]);
        assert(list[i] == JsonV::Str(d[i]));
        assert(list[j] == JsonV::Str(d[j]));
    }
    assert forall|i: int| 0 <= i < list.len() implies exists|k: int|
        0 <= k < tags.len() && #[trigger] list[i] == JsonV::Str((#[trigger] tags[k]).name@) by {
        assert(d.contains(d[i]));
        assert(names.contains(d[i]));
        let k = choose|k: int| 0 <= k < names.len() && names[k] == d[i];
        assert(tags[k].name@ == d[i]);
    }
}

// ---------------------------------- one experiment ----------------------------------

/// A tag is shown under its name with the value that was read; with `TypeError` where its folder is
/// missing; with null where it could not be read. Its folder is the one that it names, or its sort
/// number.
pub proof fn law_shown_tag(t: TagEntry, existing: Seq<Seq<char>>, read: TagReadV, v: JsonV)
    ensures
        ({
            let folder = match t.folder {
                Some(f) => f@,
                None => text::int_text(t.sort as int),
            };
            let item = summaries::summary_item(t, existing, read);
            &&& json::field(item, "key"@) == Some(JsonV::Str(t.name@))
            &&& !existing.contains(folder) ==> json::field(item, "value"@) == Some(
                JsonV::Str("TypeError"@),
            )
            &&& existing.contains(folder) && read == TagReadV::Value(v) ==> json::field(
                item,
                "value"@,
            ) == Some(v)
            &&& existing.contains(folder) && !(read is Value) ==> json::field(item, "value"@)
                == Some(JsonV::Null)
            &&& summaries::entry_folder(t) == folder
        }),
{
    reveal_strlit("key");
    reveal_strlit("value");
    assert("key"@.len() != "value"@.len());
    let o = summaries::summary_item(t, existing, read)->Object_0;
    json::lemma_find_key_is(o, "key"@, 0);
    json::lemma_find_key_is(o, "value"@, 1);
}

/// The test that tags pass whose sort number is none of `n` places.
pub open spec fn beyond(n: nat) -> spec_fn(TagEntry) -> bool {
    |t: TagEntry| !(0 <= t.sort < n)
}

/// A tag whose sort number is a place of the list stands there, unless a later tag has the same
/// number.
pub proof fn law_tag_stands_at_its_number(
    n: nat,
    tags: Seq<TagEntry>,
    existing: Seq<Seq<char>>,
    reads: Seq<TagReadV>,
    k: int,
)
    requires
        0 <= k < tags.len(),
        0 <= tags[k].sort < n,
        forall|j: int| k < j < tags.len() ==> (#[trigger] tags[j]).sort != tags[k].sort,
    ensures
        summaries::slots_of(n, tags, existing, reads)[tags[k].sort as int] == Some(
            summaries::summary_item(tags[k], existing, reads[k]),
        ),
    decreases tags.len(),
{
    let t = tags.drop_last();
    lemma_enough_slots(n, t, existing, reads);
    if k < t.len() {
        assert(t[k] == tags[k]);
        assert forall|j: int| k < j < t.len() implies (#[trigger] t[j]).sort != t[k].sort by {
            assert(t[j] == tags[j]);
        }
        law_tag_stands_at_its_number(n, t, existing, reads, k);
        assert(tags[tags.len() - 1].sort != tags[k].sort);
    }
}

proof fn lemma_enough_slots(
    n: nat,
    tags: Seq<TagEntry>,
    existing: Seq<Seq<char>>,
    reads: Seq<TagReadV>,
)
    ensures
        summaries::slots_of(n, tags, existing, reads).len() == n + tags.filter(beyond(n)).len(),
    decreases tags.len(),
{
    reveal(Seq::filter);
    if tags.len() > 0 {
        lemma_enough_slots(n, tags.drop_last(), existing, reads);
    }
}

/// A tag whose sort number is no place of the list stands behind all places, in the order of such
/// tags; and nothing else is added to the places.
pub proof fn law_other_tags_stand_behind(
    n: nat,
    tags: Seq<TagEntry>,
    existing: Seq<Seq<char>>,
    reads: Seq<TagReadV>,
    k: int,
)
    requires
        0 <= k < tags.len(),
        !(0 <= tags[k].sort < n),
    ensures
        summaries::slots_of(n, tags, existing, reads).len() == n + tags.filter(beyond(n)).len(),
        summaries::slots_of(n, tags, existing, reads)[n as int + tags.take(k).filter(
            beyond(n),
        ).len()] == Some(summaries::summary_item(tags[k], existing, reads[k])),
        tags.take(k).filter(beyond(n)).len() < tags.filter(beyond(n)).len(),
    decreases tags.len(),
{
    let t = tags.drop_last();
    reveal(Seq::filter);
    lemma_enough_slots(n, tags, existing, reads);
    lemma_enough_slots(n, t, existing, reads);
    if k < t.len() {
        assert(t[k] == tags[k]);
        assert(t.take(k) =~= tags.take(k));
        law_other_tags_stand_behind(n, t, existing, reads, k);
    } else {
        assert(tags.take(k) =~= t);
    }
}

/// A place that no tag has as its number stays empty.
pub proof fn law_free_places_stay_empty(
    n: nat,
    tags: Seq<TagEntry>,
    existing: Seq<Seq<char>>,
    reads: Seq<TagReadV>,
    p: int,
)
    requires
        0 <= p < n,
        forall|j: int| 0 <= j < tags.len() ==> (#[trigger] tags[j]).sort != p,
    ensures
        summaries::slots_of(n, tags, existing, reads)[p] is None,
    decreases tags.len(),
{
    if tags.len() > 0 {
        let t = tags.drop_last();
        lemma_enough_slots(n, t, existing, reads);
        assert forall|j: int| 0 <= j < t.len() implies (#[trigger] t[j]).sort != p by {
            assert(t[j] == tags[j]);
        }
        assert(tags[tags.len() - 1].sort != p);
        law_free_places_stay_empty(n, t, existing, reads, p);
    }
}

/// The page of one experiment lists the items of the places that have one, in order, with as many
/// places as there are tags.
pub proof fn law_summary_page_lists_the_filled_places(
    tags: Seq<TagEntry>,
    existing: Seq<Seq<char>>,
    reads: Seq<TagReadV>,
    a: Seq<Option<JsonV>>,
    b: Seq<Option<JsonV>>,
    v: JsonV,
)
    ensures
        json::field(summaries::summary_page(tags, existing, reads), "summaries"@) == Some(
            JsonV::Array(
                summaries::filled(summaries::slots_of(tags.len(), tags, existing, reads)),
            ),
        ),
        summaries::filled(a + b) == summaries::filled(a) + summaries::filled(b),
        summaries::filled(seq![Some(v)]) == seq![v],
        summaries::filled(seq![None]) == Seq::<JsonV>::empty(),
        summaries::filled(Seq::empty()) == Seq::<JsonV>::empty(),
    decreases b.len(),
{
    let o = summaries::summary_page(tags, existing, reads)->Object_0;
    json::lemma_find_key_is(o, "summaries"@, 0);
    let some = seq![Some(v)];
    let none = seq![None::<JsonV>];
    assert(some.drop_last() =~= Seq::empty());
    assert(none.drop_last() =~= Seq::empty());
    assert(summaries::filled(Seq::empty()) =~= Seq::empty());
    assert(summaries::filled(some) =~= seq![v]);
    assert(summaries::filled(none) =~= Seq::empty());
    if b.len() == 0 {
        assert(a + b =~= a);
        assert(summaries::filled(a + b) =~= summaries::filled(a) + summaries::filled(b));
    } else {
        assert((a + b).drop_last() =~= a + b.drop_last());
        law_summary_page_lists_the_filled_places(tags, existing, reads, a, b.drop_last(), v);
        assert(summaries::filled(a + b) =~= summaries::filled(a) + summaries::filled(b));
    }
}

} // verus!
