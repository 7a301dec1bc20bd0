//! The last logged values of tags, for all experiments or for one.

use std::sync::Arc;

use vstd::prelude::*;

use crate::codec::{self, parse_json};
use crate::json::{self, Json, JsonMap, JsonV, json_text, json_texts};
use crate::order::{self, sort_texts};
use crate::paths::{FileMeta, safe_file_size, safe_is_dir};
use crate::seqs;
use crate::summary_cache::{self, SummaryCache};
use crate::tails::{self, read_last_line};
use crate::text::{self, has_suffix, has_text, signed_text, unsigned_text};
use crate::uistate::{self, dedup_preserve};

verus! {

/// Bytes that are read from the end of a shard to find its last line.
pub const TAIL_BYTES: u64 = 65536;

/// What reading the last value of a tag gave.
#[derive(Debug, PartialEq)]
pub enum TagRead {
    /// The folder of the tag is missing.
    MissingDir,
    /// The folder is there, but its last line cannot be read.
    ReadFail,
    /// The last logged value.
    Value(Json),
}

/// What a read says.
pub enum TagReadV {
    MissingDir,
    ReadFail,
    Value(JsonV),
}

impl View for TagRead {
    type V = TagReadV;

    open spec fn view(&self) -> TagReadV {
        match *self {
            TagRead::MissingDir => TagReadV::MissingDir,
            TagRead::ReadFail => TagReadV::ReadFail,
            TagRead::Value(v) => TagReadV::Value(v@),
        }
    }
}

/// What the reads of a list say.
pub open spec fn reads_view(s: Seq<TagRead>) -> Seq<TagReadV> {
    s.map_values(|r: TagRead| r@)
}

// ---------------------------------- the last value of a tag ----------------------------------

/// The test that the names of shards pass.
pub open spec fn is_shard() -> spec_fn(String) -> bool {
    |n: String| text::finishes_with(n@, ".log"@)
}

/// The names of the shards among the files of a folder, in dictionary order.
pub open spec fn shards_of(names: Seq<String>) -> Seq<Seq<char>> {
    order::in_order(names.filter(is_shard()))
}

fn shard_names(names: &Vec<String>) -> (r: Vec<String>)
    ensures
        r@ == names@.filter(is_shard()),
{
    let mut r: Vec<String> = Vec::new();
    let mut i: usize = 0;
    proof {
        reveal(Seq::filter);
        assert(r@ =~= names@.take(0).filter(is_shard()));
    }
    while i < names.len()
        invariant
            i <= names.len(),
            r@ == names@.take(i as int).filter(is_shard()),
        decreases names.len() - i,
    {
        proof {
            seqs::lemma_filter_push(names@.take(i as int), is_shard(), names@[i as int]);
            assert(names@.take(i + 1) =~= names@.take(i as int).push(names@[i as int]));
        }
        if has_suffix(names[i].as_str(), ".log") {
            r.push(names[i].clone());
        }
        i += 1;
    }
    proof {
        assert(names@.take(names@.len() as int) =~= names@);
    }
    r
}

/// The names of the shards among the files of a folder, in dictionary order.
pub fn tag_shards(names: &Vec<String>) -> (r: Vec<String>)
    ensures
        text::texts(r@) == shards_of(names@),
{
    sort_texts(&shard_names(names))
}

/// The shard with the latest values: the last one in dictionary order. Nothing where there is none.
pub fn last_shard(names: &Vec<String>) -> (r: Option<String>)
    ensures
        text::optional_text(r) == (if shards_of(names@).len() == 0 {
            None
        } else {
            Some(shards_of(names@).last())
        }),
{
    let shards = tag_shards(names);
    let ghost all = text::texts(shards@);
    if shards.len() == 0 {
        None
    } else {
        let last = shards[shards.len() - 1].clone();
        proof {
            assert(all.last() == last@);
        }
        Some(last)
    }
}

/// The key under which the last value of a tag is cached.
pub open spec fn key_text(run_id: Seq<char>, folder: Seq<char>, mtime: nat, len: nat) -> Seq<char> {
    run_id + "/"@ + folder + "/"@ + text::nat_text(mtime) + "/"@ + text::nat_text(len)
}

/// The key under which the last value of a tag is cached: the run, the folder, and the time of the
/// last change and the length of the last shard.
pub fn summary_key(run_id: &str, folder: &str, mtime_ns: u128, len: u64) -> (r: String)
    ensures
        r@ == key_text(run_id@, folder@, mtime_ns as nat, len as nat),
{
    let mut r = run_id.to_owned();
    r.append("/");
    r.append(folder);
    r.append("/");
    r.append(unsigned_text(mtime_ns).as_str());
    r.append("/");
    r.append(unsigned_text(len as u128).as_str());
    r
}

/// The shard to read for a tag, from what is at the path of its folder and the names in it; or why
/// there is none: no folder is there, or it cannot be listed or holds no shard.
pub open spec fn shard_to_read(folder: Option<FileMeta>, names: Option<Vec<String>>) -> Result<
    Seq<char>,
    TagReadV,
> {
    if !(folder matches Some(m) && !m.is_symlink && m.is_dir) {
        Err(TagReadV::MissingDir)
    } else {
        match names {
            Some(n) => if shards_of(n@).len() > 0 {
                Ok(shards_of(n@).last())
            } else {
                Err(TagReadV::ReadFail)
            },
            None => Err(TagReadV::ReadFail),
        }
    }
}

/// What the choice of a shard says.
pub open spec fn choice_view(r: Result<String, TagRead>) -> Result<Seq<char>, TagReadV> {
    match r {
        Ok(s) => Ok(s@),
        Err(e) => Err(e@),
    }
}

/// The shard to read for a tag, from what is at the path of its folder, links not followed, and the
/// names in it, if those could be listed; or why there is none.
pub fn choose_shard(folder: &Option<FileMeta>, names: &Option<Vec<String>>) -> (r: Result<
    String,
    TagRead,
>)
    ensures
        choice_view(r) == shard_to_read(*folder, *names),
{
    if !safe_is_dir(folder) {
        return Err(TagRead::MissingDir);
    }
    let last = match names {
        Some(n) => last_shard(n),
        None => None,
    };
    match last {
        Some(shard) => Ok(shard),
        None => Err(TagRead::ReadFail),
    }
}

/// Where the last bytes of a shard of `size` bytes begin.
pub fn tail_start(size: u64) -> (r: u64)
    ensures
        r == (if size > TAIL_BYTES {
            size - TAIL_BYTES
        } else {
            0
        }),
{
    size.saturating_sub(TAIL_BYTES)
}

/// The last line of a shard that is not empty, from its last bytes; nothing where the shard is
/// empty.
pub fn tail_last_line(tail: &Vec<u8>, size: u64) -> (r: Option<String>)
    ensures
        text::optional_text(r) == (if size == 0 {
            None
        } else {
            tails::last_line(tail@)
        }),
        tails::last_line_bytes(tail@, false) matches Some(line) ==> size > 0
            && vstd::utf8::valid_utf8(line) ==> text::optional_text(r) == Some(
            vstd::utf8::decode_utf8(line),
        ),
        size > 0 && vstd::utf8::valid_utf8(tail@) ==> text::optional_text(r)
            == tails::encoded_last_line(tail@),
        size > 0 ==> forall|i: int|
            0 <= i < tail@.len() && #[trigger] tail@[i] == tails::LF && vstd::utf8::valid_utf8(
                tail@.skip(i + 1),
            ) && tails::encoded_last_line(tail@.skip(i + 1)) is Some ==> text::optional_text(r)
                == tails::encoded_last_line(tail@.skip(i + 1)),
{
    if size == 0 {
        return None;
    }
    read_last_line(tail.as_slice())
}

/// What the document of a line says of the last value of a tag.
pub open spec fn logged_value(document: Option<JsonV>) -> TagReadV {
    match document {
        Some(v) => TagReadV::Value(json::value_or(json::field(v, "data"@), JsonV::Null)),
        None => TagReadV::ReadFail,
    }
}

/// The value that the document of a line has under `data`, null where it has none. A line that is
/// no document cannot be read.
pub fn line_value(document: &Option<Json>) -> (r: TagRead)
    ensures
        r@ == logged_value(codec::optional(*document)),
{
    match document {
        Some(v) => TagRead::Value(v.copy_at("data", Json::Null)),
        None => TagRead::ReadFail,
    }
}

/// The cached last value of a tag. It may be missing though it was stored.
pub fn cached_value(cache: &SummaryCache, key: &str) -> (r: Option<Json>)
    requires
        cache.wf(),
    ensures
        r is Some ==> cache@.given.contains_key(key@) && r->0@ == cache@.given[key@],
        cache@.given.contains_key(key@) && cache@.given.dom().len() <= cache@.limit ==> r is Some,
{
    match cache.get(key) {
        Some(v) => Some((*v).copy()),
        None => None,
    }
}

/// What is next for a tag whose shard was chosen.
#[derive(Debug, PartialEq)]
pub enum ShardStep {
    /// The read is done.
    Done(TagRead),
    /// The last bytes of the shard, which has `size` bytes, are to be read. Their value belongs under
    /// `key` in the cache.
    ReadTail { key: String, size: u64 },
}

/// What is next for a tag, from what is at the path of its shard, links not followed, with the time
/// of its last change: a shard that is no file cannot be read; a value that the cache holds is
/// taken from it, which may be missing though it was stored; else the shard is read.
pub fn shard_step(
    cache: &SummaryCache,
    run_id: &str,
    folder: &str,
    shard: &Option<FileMeta>,
    mtime_ns: u128,
) -> (r: ShardStep)
    requires
        cache.wf(),
    ensures
        match *shard {
            Some(m) if !m.is_symlink && m.is_file => {
                let wanted = key_text(run_id@, folder@, mtime_ns as nat, m.len as nat);
                match r {
                    ShardStep::Done(TagRead::Value(v)) => cache@.given.contains_key(wanted) && v@
                        == cache@.given[wanted],
                    ShardStep::Done(_) => false,
                    ShardStep::ReadTail { key, size } => key@ == wanted && size == m.len && !(
                    cache@.given.contains_key(wanted) && cache@.given.dom().len() <= cache@.limit),
                }
            },
            _ => r == ShardStep::Done(TagRead::ReadFail),
        },
{
    match safe_file_size(shard) {
        Some(size) => {
            let key = summary_key(run_id, folder, mtime_ns, size);
            match cached_value(cache, key.as_str()) {
                Some(v) => ShardStep::Done(TagRead::Value(v)),
                None => ShardStep::ReadTail { key, size },
            }
        },
        None => ShardStep::Done(TagRead::ReadFail),
    }
}

/// What the last line of a shard, if it has one, says of the last value of its tag.
pub open spec fn line_read(line: Option<Seq<char>>) -> TagReadV {
    match line {
        Some(l) => logged_value(codec::json_document(l)),
        None => TagReadV::ReadFail,
    }
}

/// What a shard that is not cached says of the last value of its tag.
pub open spec fn tail_read(tail: Option<Vec<u8>>, size: u64) -> TagReadV {
    match tail {
        Some(t) => if size == 0 {
            TagReadV::ReadFail
        } else {
            line_read(tails::last_line(t@))
        },
        None => TagReadV::ReadFail,
    }
}

/// The cache after a value was read for `key`; nothing is stored where none was.
pub open spec fn after_read(
    c: summary_cache::SummaryCacheV,
    key: Seq<char>,
    read: TagReadV,
) -> summary_cache::SummaryCacheV {
    match read {
        TagReadV::Value(v) => summary_cache::with_value(c, key, v),
        _ => c,
    }
}

/// The last value of a tag that is not cached, from the last bytes of its last shard, if those could
/// be read. The value is cached under `key`.
pub fn tag_last_value(
    cache: &mut SummaryCache,
    key: String,
    tail: &Option<Vec<u8>>,
    size: u64,
) -> (r: TagRead)
    requires
        old(cache).wf(),
    ensures
        final(cache).wf(),
        r@ == tail_read(*tail, size),
        *tail matches Some(t) ==> tails::last_line_bytes(t@, false) matches Some(line) ==> size > 0
            && vstd::utf8::valid_utf8(line) ==> r@ == line_read(
            Some(vstd::utf8::decode_utf8(line)),
        ),
        *tail matches Some(t) ==> size > 0 && vstd::utf8::valid_utf8(t@) ==> r@ == line_read(
            tails::encoded_last_line(t@),
        ),
        *tail matches Some(t) ==> size > 0 ==> forall|i: int|
            0 <= i < t@.len() && #[trigger] t@[i] == tails::LF && vstd::utf8::valid_utf8(
                t@.skip(i + 1),
            ) && tails::encoded_last_line(t@.skip(i + 1)) is Some ==> r@ == line_read(
                tails::encoded_last_line(t@.skip(i + 1)),
            ),
        final(cache)@ == after_read(old(cache)@, key@, r@),
{
    let line = match tail {
        Some(t) => tail_last_line(t, size),
        None => None,
    };
    let document = match &line {
        Some(l) => parse_json(l.as_str()),
        None => None,
    };
    let read = line_value(&document);
    match &read {
        TagRead::Value(v) => {
            cache.insert(key, Arc::new(v.copy()));
        },
        _ => {},
    }
    read
}

// ---------------------------------- all experiments ----------------------------------

/// An experiment of the project.
#[derive(Debug, PartialEq)]
pub struct ExperimentName {
    pub id: i64,
    pub name: String,
    pub run_id: String,
}

/// A tag of an experiment.
#[derive(Debug, PartialEq)]
pub struct TagName {
    pub experiment_id: i64,
    pub name: String,
    pub sort: i64,
}

/// A value to read: the experiment and the tag that it is for, and where it stands.
#[derive(Debug, PartialEq)]
pub struct SummaryJob {
    pub experiment: String,
    pub tag: String,
    pub run_id: String,
    pub folder: String,
}

/// What a job says.
pub struct SummaryJobV {
    pub experiment: Seq<char>,
    pub tag: Seq<char>,
    pub run_id: Seq<char>,
    pub folder: Seq<char>,
}

impl View for SummaryJob {
    type V = SummaryJobV;

    open spec fn view(&self) -> SummaryJobV {
        SummaryJobV {
            experiment: self.experiment@,
            tag: self.tag@,
            run_id: self.run_id@,
            folder: self.folder@,
        }
    }
}

/// What the jobs of a list say.
pub open spec fn jobs_view(s: Seq<SummaryJob>) -> Seq<SummaryJobV> {
    s.map_values(|j: SummaryJob| j@)
}

/// The jobs for the tags of one experiment. On this page the folder of a tag is its sort number.
pub open spec fn experiment_jobs(e: ExperimentName, tags: Seq<TagName>) -> Seq<SummaryJobV>
    decreases tags.len(),
{
    if tags.len() == 0 {
        Seq::empty()
    } else {
        let before = experiment_jobs(e, tags.drop_last());
        let t = tags.last();
        if t.experiment_id == e.id {
            before.push(
                SummaryJobV {
                    experiment: e.name@,
                    tag: t.name@,
                    run_id: e.run_id@,
                    folder: text::int_text(t.sort as int),
                },
            )
        } else {
            before
        }
    }
}

/// The jobs for the tags of all experiments, experiment by experiment.
pub open spec fn project_jobs(experiments: Seq<ExperimentName>, tags: Seq<TagName>) -> Seq<
    SummaryJobV,
>
    decreases experiments.len(),
{
    if experiments.len() == 0 {
        Seq::empty()
    } else {
        project_jobs(experiments.drop_last(), tags) + experiment_jobs(experiments.last(), tags)
    }
}

fn push_jobs(jobs: &mut Vec<SummaryJob>, e: &ExperimentName, tags: &Vec<TagName>)
    ensures
        jobs_view(final(jobs)@) == jobs_view(old(jobs)@) + experiment_jobs(*e, tags@),
{
    let ghost start = jobs_view(jobs@);
    let mut i: usize = 0;
    proof {
        assert(start + experiment_jobs(*e, tags@.take(0)) =~= start);
    }
    while i < tags.len()
        invariant
            i <= tags.len(),
            jobs_view(jobs@) == start + experiment_jobs(*e, tags@.take(i as int)),
        decreases tags.len() - i,
    {
        let ghost before = jobs@;
        let ghost done = experiment_jobs(*e, tags@.take(i as int));
        let t = &tags[i];
        proof {
            assert(tags@.take(i + 1).drop_last() =~= tags@.take(i as int));
            assert(tags@.take(i + 1).last() == tags@[i as int]);
        }
        if t.experiment_id == e.id {
            let job = SummaryJob {
                experiment: e.name.clone(),
                tag: t.name.clone(),
                run_id: e.run_id.clone(),
                folder: signed_text(t.sort),
            };
            jobs.push(job);
            proof {
                assert(jobs_view(jobs@) =~= jobs_view(before).push(job@));
                assert(start + done.push(job@) =~= (start + done).push(job@));
            }
        }
        i += 1;
    }
    proof {
        assert(tags@.take(tags@.len() as int) =~= tags@);
    }
}

/// The values to read for the summaries of all experiments.
pub fn summary_jobs(experiments: &Vec<ExperimentName>, tags: &Vec<TagName>) -> (r: Vec<SummaryJob>)
    ensures
        jobs_view(r@) == project_jobs(experiments@, tags@),
{
    let mut r: Vec<SummaryJob> = Vec::new();
    let mut i: usize = 0;
    proof {
        assert(jobs_view(r@) =~= project_jobs(experiments@.take(0), tags@));
    }
    while i < experiments.len()
        invariant
            i <= experiments.len(),
            jobs_view(r@) == project_jobs(experiments@.take(i as int), tags@),
        decreases experiments.len() - i,
    {
        push_jobs(&mut r, &experiments[i], tags);
        proof {
            assert(experiments@.take(i + 1).drop_last() =~= experiments@.take(i as int));
            assert(experiments@.take(i + 1).last() == experiments@[i as int]);
        }
        i += 1;
    }
    proof {
        assert(experiments@.take(experiments@.len() as int) =~= experiments@);
    }
    r
}

/// The names of tags.
pub open spec fn tag_names(tags: Seq<TagName>) -> Seq<Seq<char>> {
    tags.map_values(|t: TagName| t.name@)
}

/// An empty summary for each experiment under its name.
pub open spec fn empty_summaries(experiments: Seq<ExperimentName>) -> Seq<(Seq<char>, JsonV)>
    decreases experiments.len(),
{
    if experiments.len() == 0 {
        Seq::empty()
    } else {
        let before = empty_summaries(experiments.drop_last());
        let name = experiments.last().name@;
        if json::member(before, name) is Some {
            before
        } else {
            json::with_member(before, name, JsonV::Object(Seq::empty()))
        }
    }
}

/// The members of the object at `key`, none where there is no object.
pub open spec fn members_at(o: Seq<(Seq<char>, JsonV)>, key: Seq<char>) -> Seq<
    (Seq<char>, JsonV),
> {
    match json::member(o, key) {
        Some(JsonV::Object(m)) => m,
        _ => Seq::empty(),
    }
}

/// The summaries with the value that a job read. A missing folder is shown as `TypeError`; a value
/// that cannot be read is not shown.
pub open spec fn with_read(
    o: Seq<(Seq<char>, JsonV)>,
    job: SummaryJobV,
    read: TagReadV,
) -> Seq<(Seq<char>, JsonV)> {
    match read {
        TagReadV::Value(v) => json::with_member(
            o,
            job.experiment,
            JsonV::Object(json::with_member(members_at(o, job.experiment), job.tag, v)),
        ),
        TagReadV::MissingDir => json::with_member(
            o,
            job.experiment,
            JsonV::Object(
                json::with_member(
                    members_at(o, job.experiment),
                    job.tag,
                    JsonV::Str("TypeError"@),
                ),
            ),
        ),
        TagReadV::ReadFail => o,
    }
}

/// The summaries with the values that jobs read.
pub open spec fn with_reads(
    o: Seq<(Seq<char>, JsonV)>,
    jobs: Seq<SummaryJobV>,
    reads: Seq<TagReadV>,
) -> Seq<(Seq<char>, JsonV)>
    decreases jobs.len(),
{
    if jobs.len() == 0 {
        o
    } else {
        with_read(with_reads(o, jobs.drop_last(), reads), jobs.last(), reads[jobs.len() - 1])
    }
}

/// The tags and the summaries of all experiments.
pub open spec fn summaries_page(
    experiments: Seq<ExperimentName>,
    tags: Seq<TagName>,
    reads: Seq<TagReadV>,
) -> JsonV {
    JsonV::Object(
        seq![
            ("tags"@, json::strings(uistate::dedup(tag_names(tags)))),
            (
                "summaries"@,
                JsonV::Object(
                    with_reads(
                        empty_summaries(experiments),
                        project_jobs(experiments, tags),
                        reads,
                    ),
                ),
            ),
        ],
    )
}

fn unique_tags(tags: &Vec<TagName>) -> (r: Vec<String>)
    ensures
        text::texts(r@) == uistate::dedup(tag_names(tags@)),
{
    let mut names: Vec<String> = Vec::new();
    let mut i: usize = 0;
    while i < tags.len()
        invariant
            i <= tags.len(),
            names.len() == i,
            forall|j: int| 0 <= j < i ==> (#[trigger] names@[j])@ == tags@[j].name@,
        decreases tags.len() - i,
    {
        names.push(tags[i].name.clone());
        i += 1;
    }
    proof {
        assert(text::texts(names@) =~= tag_names(tags@));
    }
    dedup_preserve(&names)
}

fn start_summaries(experiments: &Vec<ExperimentName>) -> (r: JsonMap)
    ensures
        r@ == empty_summaries(experiments@),
{
    let mut o = JsonMap::new();
    let mut i: usize = 0;
    proof {
        assert(experiments@.take(0).len() == 0);
    }
    while i < experiments.len()
        invariant
            i <= experiments.len(),
            o@ == empty_summaries(experiments@.take(i as int)),
        decreases experiments.len() - i,
    {
        proof {
            assert(experiments@.take(i + 1).drop_last() =~= experiments@.take(i as int));
            assert(experiments@.take(i + 1).last() == experiments@[i as int]);
        }
        let name = experiments[i].name.as_str();
        if o.get(name).is_none() {
            o.set(name, Json::Object(JsonMap::new()));
        }
        i += 1;
    }
    proof {
        assert(experiments@.take(experiments@.len() as int) =~= experiments@);
    }
    o
}

fn put_value(o: &mut JsonMap, job: &SummaryJob, value: Json)
    ensures
        final(o)@ == json::with_member(
            old(o)@,
            job.experiment@,
            JsonV::Object(
                json::with_member(members_at(old(o)@, job.experiment@), job.tag@, value@),
            ),
        ),
{
    let mut m = match o.get(job.experiment.as_str()) {
        Some(Json::Object(m)) => m.copy(),
        _ => JsonMap::new(),
    };
    m.set(job.tag.as_str(), value);
    o.set(job.experiment.as_str(), Json::Object(m));
}

/// The page of all summaries: the names of the tags, each once, and the last values by experiment
/// and tag. `reads` holds what was read for each job of `summary_jobs`.
pub fn project_summaries(
    experiments: &Vec<ExperimentName>,
    tags: &Vec<TagName>,
    reads: &Vec<TagRead>,
) -> (r: Json)
    requires
        reads.len() == project_jobs(experiments@, tags@).len(),
    ensures
        r@ == summaries_page(experiments@, tags@, reads_view(reads@)),
{
    let jobs = summary_jobs(experiments, tags);
    let ghost all = jobs_view(jobs@);
    let ghost read = reads_view(reads@);
    let mut o = start_summaries(experiments);
    let ghost start = o@;
    let mut i: usize = 0;
    proof {
        assert(jobs@.len() == all.len());
        assert(all.take(0).len() == 0);
    }
    while i < jobs.len()
        invariant
            i <= jobs.len(),
            all == jobs_view(jobs@),
            read == reads_view(reads@),
            reads.len() == jobs.len(),
            o@ == with_reads(start, all.take(i as int), read),
        decreases jobs.len() - i,
    {
        proof {
            assert(all.take(i + 1).drop_last() =~= all.take(i as int));
            assert(all.take(i + 1).last() == jobs@[i as int]@);
            assert(read[i as int] == reads@[i as int]@);
        }
        match &reads[i] {
            TagRead::Value(v) => {
                put_value(&mut o, &jobs[i], v.copy());
            },
            TagRead::MissingDir => {
                put_value(&mut o, &jobs[i], json_text("TypeError"));
            },
            TagRead::ReadFail => {},
        }
        i += 1;
    }
    let ghost made = summaries_page(experiments@, tags@, read);
    let mut page = JsonMap::new();
    page.append("tags", json_texts(&unique_tags(tags)));
    page.append("summaries", Json::Object(o));
    proof {
        assert(all.take(all.len() as int) =~= all);
        assert(page@ =~= made->Object_0);
    }
    Json::Object(page)
}

// ---------------------------------- one experiment ----------------------------------

/// A tag of one experiment.
#[derive(Debug, PartialEq)]
pub struct TagEntry {
    pub folder: Option<String>,
    pub name: String,
    pub sort: i64,
}

/// The folder of a tag: its own, or its sort number where it has none.
pub open spec fn entry_folder(t: TagEntry) -> Seq<char> {
    match t.folder {
        Some(f) => f@,
        None => text::int_text(t.sort as int),
    }
}

/// The folder of a tag.
pub fn tag_entry_folder(t: &TagEntry) -> (r: String)
    ensures
        r@ == entry_folder(*t),
{
    match &t.folder {
        Some(f) => f.clone(),
        None => signed_text(t.sort),
    }
}

/// The value that is shown for a tag: `TypeError` where its folder is not among those that exist,
/// null where the value cannot be read.
pub open spec fn shown_value(t: TagEntry, existing: Seq<Seq<char>>, read: TagReadV) -> JsonV {
    if existing.contains(entry_folder(t)) {
        match read {
            TagReadV::Value(v) => v,
            _ => JsonV::Null,
        }
    } else {
        JsonV::Str("TypeError"@)
    }
}

/// The item that is shown for a tag.
pub open spec fn summary_item(t: TagEntry, existing: Seq<Seq<char>>, read: TagReadV) -> JsonV {
    JsonV::Object(
        seq![("key"@, JsonV::Str(t.name@)), ("value"@, shown_value(t, existing, read))],
    )
}

/// The slots after items were put in: each at its sort number where there is such a slot, else
/// behind all others. Of two items for one slot the later stays.
pub open spec fn slots_of(
    n: nat,
    tags: Seq<TagEntry>,
    existing: Seq<Seq<char>>,
    reads: Seq<TagReadV>,
) -> Seq<Option<JsonV>>
    decreases tags.len(),
{
    if tags.len() == 0 {
        Seq::new(n, |i: int| None)
    } else {
        let before = slots_of(n, tags.drop_last(), existing, reads);
        let t = tags.last();
        let item = Some(summary_item(t, existing, reads[tags.len() - 1]));
        if 0 <= t.sort < n {
            before.update(t.sort as int, item)
        } else {
            before.push(item)
        }
    }
}

/// The items of the slots that have one.
pub open spec fn filled(slots: Seq<Option<JsonV>>) -> Seq<JsonV>
    decreases slots.len(),
{
    if slots.len() == 0 {
        Seq::empty()
    } else {
        match slots.last() {
            Some(v) => filled(slots.drop_last()).push(v),
            None => filled(slots.drop_last()),
        }
    }
}

/// The summary of an experiment.
pub open spec fn summary_page(
    tags: Seq<TagEntry>,
    existing: Seq<Seq<char>>,
    reads: Seq<TagReadV>,
) -> JsonV {
    JsonV::Object(
        seq![
            ("summaries"@, JsonV::Array(filled(slots_of(tags.len(), tags, existing, reads)))),
        ],
    )
}

fn build_item(t: &TagEntry, existing: &Vec<String>, read: &TagRead) -> (r: Json)
    ensures
        r@ == summary_item(*t, text::texts(existing@), read@),
{
    let folder = tag_entry_folder(t);
    let value = if has_text(existing, folder.as_str()) {
        match read {
            TagRead::Value(v) => v.copy(),
            _ => Json::Null,
        }
    } else {
        json_text("TypeError")
    };
    let mut m = JsonMap::new();
    m.append("key", Json::Str(t.name.clone()));
    m.append("value", value);
    proof {
        let made = summary_item(*t, text::texts(existing@), read@);
        assert(m@ =~= made->Object_0);
    }
    Json::Object(m)
}

/// What the slots of a list say.
pub open spec fn slots_view(s: Seq<Option<Json>>) -> Seq<Option<JsonV>> {
    s.map_values(|o: Option<Json>| codec::optional(o))
}

fn fill_slots(tags: &Vec<TagEntry>, existing: &Vec<String>, reads: &Vec<TagRead>) -> (r: Vec<
    Option<Json>,
>)
    requires
        reads.len() == tags.len(),
    ensures
        slots_view(r@) == slots_of(
            tags@.len(),
            tags@,
            text::texts(existing@),
            reads_view(reads@),
        ),
{
    let n: usize = tags.len();
    let ghost folders = text::texts(existing@);
    let ghost read = reads_view(reads@);
    let mut slots: Vec<Option<Json>> = Vec::new();
    let mut k: usize = 0;
    while k < n
        invariant
            k <= n,
            slots.len() == k,
            forall|j: int| 0 <= j < k ==> #[trigger] slots@[j] is None,
        decreases n - k,
    {
        slots.push(None);
        k += 1;
    }
    let mut i: usize = 0;
    proof {
        assert(slots_view(slots@) =~= slots_of(n as nat, tags@.take(0), folders, read));
    }
    while i < tags.len()
        invariant
            i <= tags.len(),
            n == tags.len(),
            reads.len() == tags.len(),
            folders == text::texts(existing@),
            read == reads_view(reads@),
            slots.len() >= n,
            slots_view(slots@) == slots_of(n as nat, tags@.take(i as int), folders, read),
        decreases tags.len() - i,
    {
        let ghost before = slots@;
        proof {
            assert(tags@.take(i + 1).drop_last() =~= tags@.take(i as int));
            assert(tags@.take(i + 1).last() == tags@[i as int]);
            assert(read[i as int] == reads@[i as int]@);
        }
        let item = Some(build_item(&tags[i], existing, &reads[i]));
        let sort: i64 = tags[i].sort;
        if sort >= 0 && (sort as u64) < (n as u64) {
            slots.set(sort as usize, item);
            proof {
                assert(slots_view(slots@) =~= slots_view(before).update(
                    sort as int,
                    codec::optional(item),
                ));
            }
        } else {
            slots.push(item);
            proof {
                assert(slots_view(slots@) =~= slots_view(before).push(codec::optional(item)));
            }
        }
        i += 1;
    }
    proof {
        assert(tags@.take(tags@.len() as int) =~= tags@);
    }
    slots
}

fn filled_slots(slots: &Vec<Option<Json>>) -> (r: Vec<Json>)
    ensures
        json::list_view(r) == filled(slots_view(slots@)),
{
    let ghost all = slots_view(slots@);
    let mut r: Vec<Json> = Vec::new();
    let mut i: usize = 0;
    proof {
        assert(json::list_view(r) =~= filled(all.take(0)));
    }
    while i < slots.len()
        invariant
            i <= slots.len(),
            all == slots_view(slots@),
            json::list_view(r) == filled(all.take(i as int)),
        decreases slots.len() - i,
    {
        let ghost before = r;
        proof {
            assert(all.take(i + 1).drop_last() =~= all.take(i as int));
            assert(all.take(i + 1).last() == codec::optional(slots@[i as int]));
        }
        match &slots[i] {
            Some(v) => {
                let c = v.copy();
                r.push(c);
                proof {
                    json::lemma_list_push(before, r, c);
                }
            },
            None => {},
        }
        i += 1;
    }
    proof {
        assert(all.take(all.len() as int) =~= all);
    }
    r
}

/// The summary of an experiment, its tags in the order of their sort numbers; nothing where the
/// experiment does not exist. `existing` names the folders that exist, and `reads` holds what was
/// read for each tag.
pub fn experiment_summary(
    tags: &Option<Vec<TagEntry>>,
    existing: &Vec<String>,
    reads: &Vec<TagRead>,
) -> (r: Option<Json>)
    requires
        tags is Some ==> reads.len() == tags->0.len(),
    ensures
        codec::optional(r) == (match *tags {
            Some(t) => Some(
                summary_page(t@, text::texts(existing@), reads_view(reads@)),
            ),
            None => None,
        }),
{
    let list = match tags {
        Some(t) => t,
        None => {
            return None;
        },
    };
    let slots = fill_slots(list, existing, reads);
    let ghost made = summary_page(list@, text::texts(existing@), reads_view(reads@));
    let mut m = JsonMap::new();
    m.append("summaries", Json::Array(filled_slots(&slots)));
    proof {
        assert(m@ =~= made->Object_0);
    }
    Some(Json::Object(m))
}

// ---------------------------------- laws ----------------------------------

pub(crate) proof fn lemma_same_prefix(a: Seq<char>, x: Seq<char>, b: Seq<char>, y: Seq<char>)
    requires
        a + "/"@ + x == b + "/"@ + y,
        forall|i: int| 0 <= i < a.len() ==> #[trigger] a[i] != '/',
        forall|i: int| 0 <= i < b.len() ==> #[trigger] b[i] != '/',
    ensures
        a == b,
        x == y,
{
    reveal_strlit("/");
    let p = a + "/"@ + x;
    let q = b + "/"@ + y;
    assert(p[a.len() as int] == '/');
    assert(q[b.len() as int] == '/');
    if a.len() < b.len() {
        assert(q[a.len() as int] == b[a.len() as int]);
    } else if b.len() < a.len() {
        assert(p[b.len() as int] == a[b.len() as int]);
    }
    assert(p.take(a.len() as int) =~= a);
    assert(q.take(b.len() as int) =~= b);
    assert(p.skip(a.len() + 1int) =~= x);
    assert(q.skip(b.len() + 1int) =~= y);
}

/// The key of a tag tells the states of its last shard apart: when the time of the last change or
/// the length of the shard changes, so does the key.
pub proof fn law_key_changes_with_the_shard(
    run_id: Seq<char>,
    folder: Seq<char>,
    mtime: nat,
    len: nat,
    other_mtime: nat,
    other_len: nat,
)
    requires
        mtime != other_mtime || len != other_len,
    ensures
        key_text(run_id, folder, mtime, len) != key_text(run_id, folder, other_mtime, other_len),
{
    let a = key_text(run_id, folder, mtime, len);
    let b = key_text(run_id, folder, other_mtime, other_len);
    if a == b {
        let start = run_id + "/"@ + folder + "/"@;
        let n = start.len() as int;
        let x = text::nat_text(mtime) + "/"@ + text::nat_text(len);
        let y = text::nat_text(other_mtime) + "/"@ + text::nat_text(other_len);
        assert(a.skip(n) =~= x);
        assert(b.skip(n) =~= y);
        text::lemma_nat_text_digits(mtime);
        text::lemma_nat_text_digits(other_mtime);
        lemma_same_prefix(
            text::nat_text(mtime),
            text::nat_text(len),
            text::nat_text(other_mtime),
            text::nat_text(other_len),
        );
        text::lemma_nat_text_injective(mtime, other_mtime);
        text::lemma_nat_text_injective(len, other_len);
    }
}

pub(crate) proof fn lemma_started(experiments: Seq<ExperimentName>, i: int)
    requires
        0 <= i < experiments.len(),
    ensures
        json::member(empty_summaries(experiments), experiments[i].name@) is Some,
    decreases experiments.len(),
{
    let t = experiments.drop_last();
    let before = empty_summaries(t);
    json::lemma_member_set(
        before,
        experiments.last().name@,
        JsonV::Object(Seq::empty()),
        experiments[i].name@,
    );
    if i < t.len() {
        assert(t[i] == experiments[i]);
        lemma_started(t, i);
    }
}

pub(crate) proof fn lemma_reads_keep_experiments(
    o: Seq<(Seq<char>, JsonV)>,
    jobs: Seq<SummaryJobV>,
    reads: Seq<TagReadV>,
    name: Seq<char>,
)
    requires
        json::member(o, name) is Some,
    ensures
        json::member(with_reads(o, jobs, reads), name) is Some,
    decreases jobs.len(),
{
    if jobs.len() > 0 {
        let before = with_reads(o, jobs.drop_last(), reads);
        lemma_reads_keep_experiments(o, jobs.drop_last(), reads, name);
        match reads[jobs.len() - 1] {
            TagReadV::Value(v) => {
                let set = JsonV::Object(
                    json::with_member(
                        members_at(before, jobs.last().experiment),
                        jobs.last().tag,
                        v,
                    ),
                );
                json::lemma_member_set(before, jobs.last().experiment, set, name);
            },
            TagReadV::MissingDir => {
                let set = JsonV::Object(
                    json::with_member(
                        members_at(before, jobs.last().experiment),
                        jobs.last().tag,
                        JsonV::Str("TypeError"@),
                    ),
                );
                json::lemma_member_set(before, jobs.last().experiment, set, name);
            },
            TagReadV::ReadFail => {},
        }
    }
}

/// Every experiment has its summary on the page, also where it has no tags.
pub proof fn law_every_experiment_has_a_summary(
    experiments: Seq<ExperimentName>,
    tags: Seq<TagName>,
    reads: Seq<TagReadV>,
    i: int,
)
    requires
        0 <= i < experiments.len(),
    ensures
        json::member(
            with_reads(empty_summaries(experiments), project_jobs(experiments, tags), reads),
            experiments[i].name@,
        ) is Some,
{
    lemma_started(experiments, i);
    lemma_reads_keep_experiments(
        empty_summaries(experiments),
        project_jobs(experiments, tags),
        reads,
        experiments[i].name@,
    );
}

/// The value that the last job for an experiment and a tag read is the one on the page.
pub proof fn law_last_read_is_shown(
    o: Seq<(Seq<char>, JsonV)>,
    job: SummaryJobV,
    value: JsonV,
)
    ensures
        json::member(
            members_at(with_read(o, job, TagReadV::Value(value)), job.experiment),
            job.tag,
        ) == Some(value),
        json::member(
            members_at(with_read(o, job, TagReadV::MissingDir), job.experiment),
            job.tag,
        ) == Some(JsonV::Str("TypeError"@)),
        with_read(o, job, TagReadV::ReadFail) == o,
{
    let m = members_at(o, job.experiment);
    let set = JsonV::Object(json::with_member(m, job.tag, value));
    json::lemma_member_set(m, job.tag, value, job.tag);
    json::lemma_member_set(o, job.experiment, set, job.experiment);
    let missing = JsonV::Str("TypeError"@);
    let set_missing = JsonV::Object(json::with_member(m, job.tag, missing));
    json::lemma_member_set(m, job.tag, missing, job.tag);
    json::lemma_member_set(o, job.experiment, set_missing, job.experiment);
}

/// The value that summaries show for an experiment and a tag.
pub open spec fn value_for(
    o: Seq<(Seq<char>, JsonV)>,
    experiment: Seq<char>,
    tag: Seq<char>,
) -> Option<JsonV> {
    json::member(members_at(o, experiment), tag)
}

/// Whether two jobs are for one experiment and one tag.
pub open spec fn same_target(a: SummaryJobV, b: SummaryJobV) -> bool {
    a.experiment == b.experiment && a.tag == b.tag
}

/// What is shown of a read.
pub open spec fn shown_read(read: TagReadV) -> Option<JsonV> {
    match read {
        TagReadV::Value(v) => Some(v),
        TagReadV::MissingDir => Some(JsonV::Str("TypeError"@)),
        TagReadV::ReadFail => None,
    }
}

pub(crate) proof fn lemma_read_elsewhere(
    o: Seq<(Seq<char>, JsonV)>,
    job: SummaryJobV,
    read: TagReadV,
    other: SummaryJobV,
)
    requires
        !same_target(job, other),
    ensures
        value_for(with_read(o, job, read), other.experiment, other.tag) == value_for(
            o,
            other.experiment,
            other.tag,
        ),
{
    match shown_read(read) {
        Some(v) => {
            let m = members_at(o, job.experiment);
            let set = JsonV::Object(json::with_member(m, job.tag, v));
            json::lemma_member_set(o, job.experiment, set, other.experiment);
            json::lemma_member_set(m, job.tag, v, other.tag);
        },
        None => {},
    }
}

pub(crate) proof fn lemma_reads_elsewhere(
    o: Seq<(Seq<char>, JsonV)>,
    jobs: Seq<SummaryJobV>,
    reads: Seq<TagReadV>,
    other: SummaryJobV,
)
    requires
        forall|j: int| 0 <= j < jobs.len() ==> !same_target(#[trigger] jobs[j], other),
    ensures
        value_for(with_reads(o, jobs, reads), other.experiment, other.tag) == value_for(
            o,
            other.experiment,
            other.tag,
        ),
    decreases jobs.len(),
{
    if jobs.len() > 0 {
        let t = jobs.drop_last();
        assert forall|j: int| 0 <= j < t.len() implies !same_target(#[trigger] t[j], other) by {
            assert(t[j] == jobs[j]);
        }
        lemma_reads_elsewhere(o, t, reads, other);
        assert(!same_target(jobs[jobs.len() - 1], other));
        lemma_read_elsewhere(
            with_reads(o, t, reads),
            jobs.last(),
            reads[jobs.len() - 1],
            other,
        );
    }
}

pub(crate) proof fn lemma_read_shown(
    o: Seq<(Seq<char>, JsonV)>,
    jobs: Seq<SummaryJobV>,
    reads: Seq<TagReadV>,
    i: int,
)
    requires
        0 <= i < jobs.len(),
        forall|j: int|
            0 <= j < jobs.len() && j != i ==> !same_target(#[trigger] jobs[j], jobs[i]),
        value_for(o, jobs[i].experiment, jobs[i].tag) is None,
    ensures
        value_for(with_reads(o, jobs, reads), jobs[i].experiment, jobs[i].tag) == shown_read(
            reads[i],
        ),
    decreases jobs.len(),
{
    let t = jobs.drop_last();
    let n = jobs.len() - 1;
    assert forall|j: int| 0 <= j < t.len() && j != i implies !same_target(
        #[trigger] t[j],
        jobs[i],
    ) by {
        assert(t[j] == jobs[j]);
    }
    if i < n {
        assert(t[i] == jobs[i]);
        lemma_read_shown(o, t, reads, i);
        assert(!same_target(jobs[n], jobs[i]));
        lemma_read_elsewhere(with_reads(o, t, reads), jobs.last(), reads[n], jobs[i]);
    } else {
        lemma_reads_elsewhere(o, t, reads, jobs[i]);
        match shown_read(reads[n]) {
            Some(v) => {
                law_last_read_is_shown(with_reads(o, t, reads), jobs.last(), v);
            },
            None => {},
        }
    }
}

pub(crate) proof fn lemma_nothing_at_start(
    experiments: Seq<ExperimentName>,
    experiment: Seq<char>,
    tag: Seq<char>,
)
    ensures
        value_for(empty_summaries(experiments), experiment, tag) is None,
    decreases experiments.len(),
{
    assert(json::find_key(Seq::<(Seq<char>, JsonV)>::empty(), tag) == 0);
    assert(json::member(Seq::<(Seq<char>, JsonV)>::empty(), tag) is None);
    if experiments.len() > 0 {
        lemma_nothing_at_start(experiments.drop_last(), experiment, tag);
        json::lemma_member_set(
            empty_summaries(experiments.drop_last()),
            experiments.last().name@,
            JsonV::Object(Seq::empty()),
            experiment,
        );
    } else {
        assert(json::find_key(Seq::<(Seq<char>, JsonV)>::empty(), experiment) == 0);
    }
}

/// What a job read is what the page shows for its experiment and tag, where no other job is for the
/// same: the value, `TypeError` for a missing folder, and nothing where it could not be read. So
/// where no two jobs are for one experiment and one tag, the page shows every value that was read.
pub proof fn law_every_read_is_shown(
    experiments: Seq<ExperimentName>,
    tags: Seq<TagName>,
    reads: Seq<TagReadV>,
    i: int,
)
    requires
        0 <= i < project_jobs(experiments, tags).len(),
        forall|j: int|
            0 <= j < project_jobs(experiments, tags).len() && j != i ==> !same_target(
                #[trigger] project_jobs(experiments, tags)[j],
                project_jobs(experiments, tags)[i],
            ),
    ensures
        value_for(
            with_reads(empty_summaries(experiments), project_jobs(experiments, tags), reads),
            project_jobs(experiments, tags)[i].experiment,
            project_jobs(experiments, tags)[i].tag,
        ) == shown_read(reads[i]),
{
    let jobs = project_jobs(experiments, tags);
    lemma_nothing_at_start(experiments, jobs[i].experiment, jobs[i].tag);
    lemma_read_shown(empty_summaries(experiments), jobs, reads, i);
}

proof fn lemma_slots(
    n: nat,
    tags: Seq<TagEntry>,
    existing: Seq<Seq<char>>,
    reads: Seq<TagReadV>,
    k: int,
)
    requires
        forall|i: int| 0 <= i < tags.len() ==> 0 <= (#[trigger] tags[i]).sort < n,
        forall|i: int, j: int|
            0 <= i < j < tags.len() ==> (#[trigger] tags[i]).sort != (#[trigger] tags[j]).sort,
        0 <= k < tags.len(),
    ensures
        slots_of(n, tags, existing, reads).len() == n,
        slots_of(n, tags, existing, reads)[tags[k].sort as int] == Some(
            summary_item(tags[k], existing, reads[k]),
        ),
    decreases tags.len(),
{
    let t = tags.drop_last();
    assert forall|i: int| 0 <= i < t.len() implies 0 <= (#[trigger] t[i]).sort < n by {
        assert(t[i] == tags[i]);
    }
    assert forall|i: int, j: int| 0 <= i < j < t.len() implies (#[trigger] t[i]).sort != (
    #[trigger] t[j]).sort by {
        assert(t[i] == tags[i] && t[j] == tags[j]);
    }
    let before = slots_of(n, t, existing, reads);
    assert(tags[tags.len() - 1] == tags.last());
    if t.len() > 0 {
        lemma_slots(n, t, existing, reads, 0);
    } else {
        assert(before.len() == n);
    }
    assert(slots_of(n, tags, existing, reads) == before.update(
        tags.last().sort as int,
        Some(summary_item(tags.last(), existing, reads[tags.len() - 1])),
    ));
    if k < t.len() {
        assert(t[k] == tags[k]);
        lemma_slots(n, t, existing, reads, k);
        assert(tags[k].sort != tags[tags.len() - 1].sort);
    }
}

proof fn lemma_filled(slots: Seq<Option<JsonV>>, i: int)
    requires
        forall|j: int| 0 <= j < slots.len() ==> #[trigger] slots[j] is Some,
        0 <= i < slots.len(),
    ensures
        filled(slots).len() == slots.len(),
        filled(slots)[i] == slots[i]->0,
    decreases slots.len(),
{
    let t = slots.drop_last();
    assert forall|j: int| 0 <= j < t.len() implies #[trigger] t[j] is Some by {
        assert(t[j] == slots[j]);
    }
    assert(slots[slots.len() - 1] is Some);
    assert(t.len() == 0 ==> filled(t).len() == 0);
    if t.len() > 0 {
        lemma_filled(t, 0);
    }
    if i < t.len() {
        lemma_filled(t, i);
    }
}

proof fn lemma_every_place_taken(tags: Seq<TagEntry>, p: int)
    requires
        forall|i: int| 0 <= i < tags.len() ==> 0 <= (#[trigger] tags[i]).sort < tags.len(),
        forall|i: int, j: int|
            0 <= i < j < tags.len() ==> (#[trigger] tags[i]).sort != (#[trigger] tags[j]).sort,
        0 <= p < tags.len(),
    ensures
        exists|i: int| 0 <= i < tags.len() && (#[trigger] tags[i]).sort == p,
{
    let places = Seq::new(tags.len(), |i: int| tags[i].sort as int);
    let all = vstd::set_lib::set_int_range(0, tags.len() as int);
    assert forall|i: int, j: int| 0 <= i < places.len() && 0 <= j < places.len() && i
        != j implies places[i] != places[j] by {
        if i < j {
            assert(tags[i].sort != tags[j].sort);
        } else {
            assert(tags[j].sort != tags[i].sort);
        }
    }
    places.unique_seq_to_set();
    vstd::set_lib::lemma_int_range(0, tags.len() as int);
    vstd::seq_lib::seq_to_set_is_finite(places);
    assert(places.to_set().subset_of(all));
    vstd::set_lib::lemma_subset_equality(places.to_set(), all);
    assert(places.to_set().contains(p));
    let i = choose|i: int| 0 <= i < places.len() && places[i] == p;
    assert(tags[i].sort == p);
}

/// Where no two tags have one sort number, and there is a place for each, every tag stands at its
/// own.
pub proof fn law_summary_is_ordered_by_sort(
    tags: Seq<TagEntry>,
    existing: Seq<Seq<char>>,
    reads: Seq<TagReadV>,
    k: int,
)
    requires
        forall|i: int| 0 <= i < tags.len() ==> 0 <= (#[trigger] tags[i]).sort < tags.len(),
        forall|i: int, j: int|
            0 <= i < j < tags.len() ==> (#[trigger] tags[i]).sort != (#[trigger] tags[j]).sort,
        0 <= k < tags.len(),
    ensures
        filled(slots_of(tags.len(), tags, existing, reads)).len() == tags.len(),
        filled(slots_of(tags.len(), tags, existing, reads))[tags[k].sort as int] == summary_item(
            tags[k],
            existing,
            reads[k],
        ),
{
    let slots = slots_of(tags.len(), tags, existing, reads);
    lemma_slots(tags.len(), tags, existing, reads, k);
    assert forall|p: int| 0 <= p < slots.len() implies #[trigger] slots[p] is Some by {
        lemma_every_place_taken(tags, p);
        let i = choose|i: int| 0 <= i < tags.len() && (#[trigger] tags[i]).sort == p;
        lemma_slots(tags.len(), tags, existing, reads, i);
    }
    lemma_filled(slots, tags[k].sort as int);
}

} // verus!
