//! Cache of the last logged value of each tag, in memory and in a document that outlives the
//! process.
//!
//! A key names the run, the folder of the tag and the state of the tag's last shard. What was
//! stored under a key can therefore not go stale: when the shard changes, so does the key.

use std::sync::Arc;

use moka::sync::Cache;
use vstd::hash_map::StringHashMap;
use vstd::prelude::*;

use crate::json::{Json, JsonV};
use crate::text::{self, hex8, same_text, to_chars};

verus! {

/// First part of the name of the document.
pub const SUMMARY_CACHE_PREFIX: &'static str = "fastsl-summary-cache";

/// A cache that may drop what it holds.
#[verifier::external_type_specification]
#[verifier::external_body]
#[verifier::reject_recursive_types(K)]
#[verifier::reject_recursive_types(V)]
#[verifier::reject_recursive_types(S)]
pub struct ExCache<K, V, S>(moka::sync::Cache<K, V, S>);

/// What a cache was last given for each key.
pub uninterp spec fn given(c: Cache<String, Arc<Json>>) -> Map<Seq<char>, JsonV>;

/// How many entries a cache holds at most.
pub uninterp spec fn limit(c: Cache<String, Arc<Json>>) -> u64;

/// `moka::sync::Cache::new`: a cache that was given nothing yet, for up to `max_capacity` entries.
#[verifier::external_body]
fn memory_new(max_capacity: u64) -> (r: Cache<String, Arc<Json>>)
    ensures
        given(r) == (Map::<Seq<char>, JsonV>::empty()),
        limit(r) == max_capacity,
{
    Cache::new(max_capacity)
}

/// `moka::sync::Cache::insert`: the cache is given a value for a key, in the place of what it was
/// given for that key before.
#[verifier::external_body]
fn memory_insert(c: &mut Cache<String, Arc<Json>>, key: String, value: Arc<Json>)
    ensures
        given(*final(c)) == given(*old(c)).insert(key@, value@),
        limit(*final(c)) == limit(*old(c)),
{
    c.insert(key, value);
}

/// `moka::sync::Cache::get`: nothing, or the value that the cache was last given for the key. An
/// entry without an expiry leaves the cache only to keep it within its limit, so while the cache
/// was given no more keys than that, it finds each of them.
#[verifier::external_body]
fn memory_get(c: &Cache<String, Arc<Json>>, key: &str) -> (r: Option<Arc<Json>>)
    ensures
        r is Some ==> given(*c).contains_key(key@) && r->0@ == given(*c)[key@],
        given(*c).contains_key(key@) && given(*c).dom().finite() && given(*c).dom().len() <= limit(
            *c,
        ) ==> r is Some,
{
    c.get(key)
}

// ---------------------------------- the document ----------------------------------

/// The document: the log directory that it belongs to, and the values by key.
#[derive(Debug, PartialEq)]
pub struct PersistedSummaryCache {
    pub logdir: String,
    pub entries: Vec<(String, Json)>,
}

/// What a document says.
#[verifier::ext_equal]
pub struct PersistedV {
    pub logdir: Seq<char>,
    pub entries: Map<Seq<char>, JsonV>,
}

/// The values of a list of entries by key; of two entries with one key the later counts.
pub open spec fn entries_map(s: Seq<(String, Json)>) -> Map<Seq<char>, JsonV>
    decreases s.len(),
{
    if s.len() == 0 {
        Map::empty()
    } else {
        entries_map(s.drop_last()).insert(s.last().0@, s.last().1@)
    }
}

impl View for PersistedSummaryCache {
    type V = PersistedV;

    open spec fn view(&self) -> PersistedV {
        PersistedV { logdir: self.logdir@, entries: entries_map(self.entries@) }
    }
}

proof fn lemma_entries_update(s: Seq<(String, Json)>, n: int, e: (String, Json))
    requires
        0 <= n < s.len(),
        e.0@ == s[n].0@,
        forall|i: int, j: int| 0 <= i < j < s.len() ==> (#[trigger] s[i]).0@ != (#[trigger] s[j]).0@,
    ensures
        entries_map(s.update(n, e)) == entries_map(s).insert(e.0@, e.1@),
    decreases s.len(),
{
    let t = s.drop_last();
    let u = s.update(n, e);
    if n == s.len() - 1 {
        assert(u.drop_last() =~= t);
        assert(entries_map(u) =~= entries_map(s).insert(e.0@, e.1@));
    } else {
        assert(u.drop_last() =~= t.update(n, e));
        assert forall|i: int, j: int| 0 <= i < j < t.len() implies (#[trigger] t[i]).0@ != (
        #[trigger] t[j]).0@ by {
            assert(s[i].0@ != s[j].0@);
        }
        lemma_entries_update(t, n, e);
        assert(s[n].0@ != s[s.len() - 1].0@);
        assert(entries_map(u) =~= entries_map(s).insert(e.0@, e.1@));
    }
}

// ---------------------------------- the cache ----------------------------------

/// The cache. Where it has a document, what it is given is kept for the document too.
pub struct SummaryCache {
    memory: Cache<String, Arc<Json>>,
    persistent: bool,
    persisted: PersistedSummaryCache,
    places: StringHashMap<usize>,
}

/// What a cache says.
#[verifier::ext_equal]
pub struct SummaryCacheV {
    /// What it was last given for each key.
    pub given: Map<Seq<char>, JsonV>,
    /// How many entries it holds at most in memory.
    pub limit: u64,
    /// Whether it has a document.
    pub persistent: bool,
    /// What it keeps for its document.
    pub persisted: PersistedV,
}

impl View for SummaryCache {
    type V = SummaryCacheV;

    closed spec fn view(&self) -> SummaryCacheV {
        SummaryCacheV {
            given: given(self.memory),
            limit: limit(self.memory),
            persistent: self.persistent,
            persisted: self.persisted@,
        }
    }
}

/// A new cache, which was given nothing.
pub open spec fn new_cache(max_capacity: u64, persistent: bool, logdir: Seq<char>) -> SummaryCacheV {
    SummaryCacheV {
        given: Map::empty(),
        limit: max_capacity,
        persistent,
        persisted: PersistedV { logdir, entries: Map::empty() },
    }
}

/// The cache after it was given a value.
pub open spec fn with_value(c: SummaryCacheV, key: Seq<char>, value: JsonV) -> SummaryCacheV {
    SummaryCacheV {
        given: c.given.insert(key, value),
        persisted: if c.persistent {
            PersistedV { entries: c.persisted.entries.insert(key, value), ..c.persisted }
        } else {
            c.persisted
        },
        ..c
    }
}

/// A cache that starts with what its document holds, if that document is its own.
pub open spec fn loaded_cache(
    max_capacity: u64,
    persistent: bool,
    logdir: Seq<char>,
    document: Option<PersistedV>,
) -> SummaryCacheV {
    match document {
        Some(d) => if persistent && d.logdir == logdir {
            SummaryCacheV { given: d.entries, limit: max_capacity, persistent, persisted: d }
        } else {
            new_cache(max_capacity, persistent, logdir)
        },
        None => new_cache(max_capacity, persistent, logdir),
    }
}

/// What an optional document says.
pub open spec fn optional_document(d: Option<PersistedSummaryCache>) -> Option<PersistedV> {
    match d {
        Some(p) => Some(p@),
        None => None,
    }
}

impl SummaryCache {
    /// Whether the entries are found by their keys, and only a finite number of keys was given.
    pub closed spec fn wf(&self) -> bool {
        let e = self.persisted.entries@;
        &&& given(self.memory).dom().finite()
        &&& forall|k: Seq<char>|
            #[trigger] self.places@.contains_key(k) ==> self.places@[k] < e.len()
                && e[self.places@[k] as int].0@ == k
        &&& forall|i: int|
            0 <= i < e.len() ==> self.places@.contains_key((#[trigger] e[i]).0@)
                && self.places@[e[i].0@] == i
    }

    fn empty(max_capacity: u64, persistent: bool, logdir_key: &str) -> (r: SummaryCache)
        ensures
            r.wf(),
            r@ == new_cache(max_capacity, persistent, logdir_key@),
    {
        let r = SummaryCache {
            memory: memory_new(max_capacity),
            persistent,
            persisted: PersistedSummaryCache {
                logdir: logdir_key.to_owned(),
                entries: Vec::new(),
            },
            places: StringHashMap::new(),
        };
        proof {
            assert(r@ =~= new_cache(max_capacity, persistent, logdir_key@));
        }
        r
    }

    /// A cache for up to `max_capacity` values of the log directory `logdir_key`. Where it is
    /// persistent it starts with what `document` holds, unless that belongs to another log
    /// directory.
    pub fn new(
        max_capacity: u64,
        persistent: bool,
        logdir_key: &str,
        document: Option<PersistedSummaryCache>,
    ) -> (r: SummaryCache)
        ensures
            r.wf(),
            r@ == loaded_cache(
                max_capacity,
                persistent,
                logdir_key@,
                optional_document(document),
            ),
    {
        let mut r = SummaryCache::empty(max_capacity, persistent, logdir_key);
        match document {
            Some(d) => if persistent && same_text(d.logdir.as_str(), logdir_key) {
                let ghost all = d.entries@;
                let mut i: usize = 0;
                proof {
                    assert(all.take(0).len() == 0);
                }
                while i < d.entries.len()
                    invariant
                        i <= d.entries.len(),
                        all == d.entries@,
                        r.wf(),
                        r@.given == entries_map(all.take(i as int)),
                        r@.limit == max_capacity,
                        r@.persistent == persistent,
                        persistent,
                        r@.persisted.logdir == logdir_key@,
                        r@.persisted.entries == entries_map(all.take(i as int)),
                    decreases d.entries.len() - i,
                {
                    let value = Arc::new(d.entries[i].1.copy());
                    r.insert(d.entries[i].0.clone(), value);
                    proof {
                        assert(all.take(i + 1).drop_last() =~= all.take(i as int));
                        assert(all.take(i + 1).last() == all[i as int]);
                    }
                    i += 1;
                }
                proof {
                    assert(all.take(all.len() as int) =~= all);
                }
            },
            None => {},
        }
        r
    }

    /// The value that was last stored under `key`. It may be missing: the memory is bounded, and
    /// drops values to stay so. While no more keys were stored than fit, none is dropped.
    pub fn get(&self, key: &str) -> (r: Option<Arc<Json>>)
        requires
            self.wf(),
        ensures
            r is Some ==> self@.given.contains_key(key@) && r->0@ == self@.given[key@],
            self@.given.contains_key(key@) && self@.given.dom().len() <= self@.limit ==> r is Some,
    {
        memory_get(&self.memory, key)
    }

    /// Stores a value under `key`.
    pub fn insert(&mut self, key: String, value: Arc<Json>)
        requires
            old(self).wf(),
        ensures
            final(self).wf(),
            final(self)@ == with_value(old(self)@, key@, value@),
    {
        let ghost before = *self;
        memory_insert(&mut self.memory, key.clone(), value.clone());
        if self.persistent {
            let ghost e = self.persisted.entries@;
            let place: Option<usize> = match self.places.get(key.as_str()) {
                Some(n) => Some(*n),
                None => None,
            };
            let copied = (*value).copy();
            match place {
                Some(n) => {
                    let entry = (key.clone(), copied);
                    self.persisted.entries.set(n, entry);
                    proof {
                        lemma_entries_update(e, n as int, entry);
                    }
                },
                None => {
                    let n: usize = self.persisted.entries.len();
                    self.places.insert(key.clone(), n);
                    let entry = (key.clone(), copied);
                    self.persisted.entries.push(entry);
                    proof {
                        assert(self.persisted.entries@.drop_last() =~= e);
                    }
                },
            }
        }
        proof {
            assert(self@ =~= with_value(before@, key@, value@));
        }
    }

    /// Hands the document to `store`, where the cache has one.
    pub fn flush<E, F: FnOnce(&PersistedSummaryCache) -> Result<(), E>>(&self, store: F) -> (r:
        Result<(), E>)
        requires
            self@.persistent ==> keepable(store, self@.persisted),
        ensures
            self@.persistent ==> kept(store, self@.persisted, r),
            !self@.persistent ==> r is Ok,
    {
        if self.persistent {
            store(&self.persisted)
        } else {
            Ok(())
        }
    }
}

/// Whether `store` can be handed the document `d`.
pub open spec fn keepable<E, F: FnOnce(&PersistedSummaryCache) -> Result<(), E>>(
    store: F,
    d: PersistedV,
) -> bool {
    forall|p: &PersistedSummaryCache| p@ == d ==> #[trigger] store.requires((p,))
}

/// Whether `store` was handed the document `d` and answered `answer`.
pub open spec fn kept<E, F: FnOnce(&PersistedSummaryCache) -> Result<(), E>>(
    store: F,
    d: PersistedV,
    answer: Result<(), E>,
) -> bool {
    exists|p: &PersistedSummaryCache| p@ == d && #[trigger] store.ensures((p,), answer)
}

// ---------------------------------- file names ----------------------------------

/// Whether a character stays in a file name.
pub open spec fn is_plain(c: char) -> bool {
    ||| 'a' <= c <= 'z'
    ||| 'A' <= c <= 'Z'
    ||| '0' <= c <= '9'
    ||| c == '.'
    ||| c == '_'
    ||| c == '-'
}

/// The character that a file name has for `c`.
pub open spec fn plain_char(c: char) -> char {
    if is_plain(c) {
        c
    } else {
        '_'
    }
}

/// The first characters of a name, with an underscore for every one that is not plain.
pub open spec fn sanitized(name: Seq<char>) -> Seq<char> {
    let n = if name.len() < 40 {
        name.len() as int
    } else {
        40
    };
    name.take(n).map_values(|c: char| plain_char(c))
}

/// Keeps letters, digits, dots, underscores and hyphens, puts an underscore for every other
/// character, and keeps no more than 40 characters.
pub fn sanitize_basename(name: &str) -> (r: String)
    ensures
        r@ == sanitized(name@),
{
    let chars = to_chars(name);
    let n: usize = if chars.len() < 40 {
        chars.len()
    } else {
        40
    };
    let mut r = String::new();
    let mut i: usize = 0;
    proof {
        assert(r@ =~= sanitized(name@).take(0));
    }
    while i < n
        invariant
            i <= n,
            chars@ == name@,
            n == sanitized(name@).len(),
            n <= chars.len(),
            n <= 40,
            chars.len() < 40 ==> n == chars.len(),
            chars.len() >= 40 ==> n == 40,
            r@ == sanitized(name@).take(i as int),
        decreases n - i,
    {
        let c: char = chars[i];
        let plain: bool = ('a' <= c && c <= 'z') || ('A' <= c && c <= 'Z') || ('0' <= c && c
            <= '9') || c == '.' || c == '_' || c == '-';
        r.push(
            if plain {
                c
            } else {
                '_'
            },
        );
        proof {
            assert(sanitized(name@)[i as int] == plain_char(c));
            assert(sanitized(name@).take(i + 1) =~= sanitized(name@).take(i as int).push(
                plain_char(c),
            ));
        }
        i += 1;
    }
    proof {
        assert(sanitized(name@).take(n as int) =~= sanitized(name@));
    }
    r
}

/// The 32-bit FNV-1a hash of bytes.
pub open spec fn fnv1a(bytes: Seq<u8>) -> u32
    decreases bytes.len(),
{
    if bytes.len() == 0 {
        0x811c_9dc5
    } else {
        (((fnv1a(bytes.drop_last()) ^ (bytes.last() as u32)) * 0x0100_0193) % 0x1_0000_0000) as u32
    }
}

/// The 32-bit FNV-1a hash of bytes.
pub fn fnv1a_32(bytes: &[u8]) -> (r: u32)
    ensures
        r == fnv1a(bytes@),
{
    let mut hash: u32 = 0x811c_9dc5;
    let mut i: usize = 0;
    proof {
        assert(bytes@.take(0).len() == 0);
    }
    while i < bytes.len()
        invariant
            i <= bytes.len(),
            hash == fnv1a(bytes@.take(i as int)),
        decreases bytes.len() - i,
    {
        proof {
            assert(bytes@.take(i + 1).drop_last() =~= bytes@.take(i as int));
            assert(bytes@.take(i + 1).last() == bytes@[i as int]);
        }
        let mixed: u32 = hash ^ (bytes[i] as u32);
        hash = mixed.wrapping_mul(0x0100_0193);
        i += 1;
    }
    proof {
        assert(bytes@.take(bytes@.len() as int) =~= bytes@);
    }
    hash
}

/// The part of the file name that is made from the last part of the log directory.
pub open spec fn name_part(basename: Option<Seq<char>>) -> Seq<char> {
    match basename {
        Some(b) => if sanitized(b).len() == 0 {
            "root"@
        } else {
            sanitized(b)
        },
        None => "root"@,
    }
}

/// The name of the document of a log directory.
pub open spec fn file_name(logdir_key: Seq<char>, basename: Option<Seq<char>>) -> Seq<char> {
    SUMMARY_CACHE_PREFIX@ + "-"@ + name_part(basename) + "-"@ + text::hex_text(
        fnv1a(vstd::utf8::encode_utf8(logdir_key)) as nat,
        8,
    ) + ".json"@
}

/// The name of the document of a log directory, so that several log directories can share one
/// directory of documents: it shows the last part of the path, and a hash of the whole path tells
/// log directories with one last part from each other.
pub fn cache_file_name(logdir_key: &str, basename: &Option<String>) -> (r: String)
    ensures
        r@ == file_name(logdir_key@, text::optional_text(*basename)),
{
    let clean = match basename {
        Some(b) => sanitize_basename(b.as_str()),
        None => String::new(),
    };
    let mut r = SUMMARY_CACHE_PREFIX.to_owned();
    r.append("-");
    if clean.as_str().is_empty() {
        r.append("root");
    } else {
        r.append(clean.as_str());
    }
    r.append("-");
    let hash: u32 = fnv1a_32(logdir_key.as_bytes());
    r.append(hex8(hash).as_str());
    r.append(".json");
    r
}

// ---------------------------------- laws ----------------------------------

/// A value that was stored is what the cache was given for its key; other keys keep theirs.
pub proof fn law_stored_value_is_given(
    c: SummaryCacheV,
    key: Seq<char>,
    value: JsonV,
    other: Seq<char>,
)
    ensures
        with_value(c, key, value).given.contains_key(key),
        with_value(c, key, value).given[key] == value,
        other != key ==> with_value(c, key, value).given.contains_key(other)
            == c.given.contains_key(other),
        other != key && c.given.contains_key(other) ==> with_value(c, key, value).given[other]
            == c.given[other],
{
}

/// What a run of stores leaves in a cache that starts as `c`.
pub open spec fn after_stores(c: SummaryCacheV, stores: Seq<(Seq<char>, JsonV)>) -> SummaryCacheV
    decreases stores.len(),
{
    if stores.len() == 0 {
        c
    } else {
        with_value(after_stores(c, stores.drop_last()), stores.last().0, stores.last().1)
    }
}

/// The document of a persistent cache holds all that the cache was given, whatever was stored.
pub proof fn law_document_holds_all(
    max_capacity: u64,
    logdir: Seq<char>,
    document: Option<PersistedV>,
    stores: Seq<(Seq<char>, JsonV)>,
)
    ensures
        ({
            let c = after_stores(loaded_cache(max_capacity, true, logdir, document), stores);
            &&& c.persisted.entries == c.given
            &&& c.persisted.logdir == logdir
            &&& c.persistent
            &&& c.limit == max_capacity
        }),
    decreases stores.len(),
{
    if stores.len() > 0 {
        law_document_holds_all(max_capacity, logdir, document, stores.drop_last());
    }
}

/// A cache that is loaded from the document of another one for the same log directory was given all
/// that the other one was given.
pub proof fn law_reload_gives_back(
    max_capacity: u64,
    logdir: Seq<char>,
    document: Option<PersistedV>,
    stores: Seq<(Seq<char>, JsonV)>,
    again: u64,
)
    ensures
        ({
            let c = after_stores(loaded_cache(max_capacity, true, logdir, document), stores);
            let d = loaded_cache(again, true, logdir, Some(c.persisted));
            d.given == c.given && d.persisted == c.persisted
        }),
{
    law_document_holds_all(max_capacity, logdir, document, stores);
}

/// The document of another log directory is ignored.
pub proof fn law_foreign_document_is_ignored(
    max_capacity: u64,
    persistent: bool,
    logdir: Seq<char>,
    document: PersistedV,
)
    requires
        document.logdir != logdir,
    ensures
        loaded_cache(max_capacity, persistent, logdir, Some(document)) == new_cache(
            max_capacity,
            persistent,
            logdir,
        ),
{
}

/// A cache without a document keeps nothing for one.
pub proof fn law_memory_only_keeps_no_document(
    max_capacity: u64,
    logdir: Seq<char>,
    stores: Seq<(Seq<char>, JsonV)>,
)
    ensures
        after_stores(new_cache(max_capacity, false, logdir), stores).persisted.entries
            == Map::<Seq<char>, JsonV>::empty(),
        !after_stores(new_cache(max_capacity, false, logdir), stores).persistent,
    decreases stores.len(),
{
    if stores.len() > 0 {
        law_memory_only_keeps_no_document(max_capacity, logdir, stores.drop_last());
    }
}

/// A sanitized name is short and holds only plain characters.
pub proof fn law_sanitized_is_plain(name: Seq<char>, i: int)
    requires
        0 <= i < sanitized(name).len(),
    ensures
        sanitized(name).len() <= 40,
        is_plain(sanitized(name)[i]),
{
}

/// A short name of plain characters is kept as it is.
pub proof fn law_plain_name_is_kept(name: Seq<char>)
    requires
        name.len() <= 40,
        forall|i: int| 0 <= i < name.len() ==> is_plain(#[trigger] name[i]),
    ensures
        sanitized(name) == name,
{
    assert(sanitized(name) =~= name);
}

/// Log directories have different documents exactly where their hashes differ or what is shown of
/// their last parts does.
pub proof fn law_file_names_differ(
    a: Seq<char>,
    a_name: Option<Seq<char>>,
    b: Seq<char>,
    b_name: Option<Seq<char>>,
)
    ensures
        file_name(a, a_name) != file_name(b, b_name) <==> fnv1a(vstd::utf8::encode_utf8(a)) != fnv1a(
            vstd::utf8::encode_utf8(b),
        ) || name_part(a_name) != name_part(b_name),
{
    let m = fnv1a(vstd::utf8::encode_utf8(a)) as nat;
    let n = fnv1a(vstd::utf8::encode_utf8(b)) as nat;
    text::lemma_hex_len(m, 8);
    text::lemma_hex_len(n, 8);
    text::lemma_hex8_injective(m, n);
    if file_name(a, a_name) == file_name(b, b_name) {
        let tail = 8 + ".json"@.len();
        let x = file_name(a, a_name);
        let y = file_name(b, b_name);
        assert(x.skip(x.len() - tail).take(8) =~= text::hex_text(m, 8));
        assert(y.skip(y.len() - tail).take(8) =~= text::hex_text(n, 8));
        let start = SUMMARY_CACHE_PREFIX@.len() + "-"@.len();
        let rest = "-"@.len() + tail;
        assert(x.subrange(start as int, x.len() - rest) =~= name_part(a_name));
        assert(y.subrange(start as int, y.len() - rest) =~= name_part(b_name));
    }
}

} // verus!
