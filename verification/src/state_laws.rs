//! What every change of an overlay does, and what it leaves as it was.

use vstd::prelude::*;

use crate::json::{Json, JsonV};
use crate::seqs;
use crate::summary_cache;
use crate::text;
use crate::uistate::{self, GroupV, OverlayV};

verus! {

// ---------------------------------- overrides ----------------------------------

/// An override that is set is there with its value, and all other overrides of its kind stay.
pub open spec fn sets_one(before: Map<i64, i64>, after: Map<i64, i64>, id: i64, value: i64) -> bool {
    &&& after.contains_key(id)
    &&& after[id] == value
    &&& forall|k: i64|
        k != id ==> #[trigger] after.contains_key(k) == before.contains_key(k) && (
        before.contains_key(k) ==> after[k] == before[k])
}

/// Setting an override changes one entry of its own map, and nothing else of the overlay.
pub proof fn law_override_changes_one_entry(o: OverlayV, id: i64, value: i64)
    ensures
        ({
            let p = uistate::with_chart_status(o, id, value);
            sets_one(o.chart_status, p.chart_status, id, value) && p == (OverlayV {
                chart_status: p.chart_status,
                ..o
            })
        }),
        ({
            let p = uistate::with_namespace_opened(o, id, value);
            sets_one(o.namespace_opened, p.namespace_opened, id, value) && p == (OverlayV {
                namespace_opened: p.namespace_opened,
                ..o
            })
        }),
        ({
            let p = uistate::with_experiment_show(o, id, value);
            sets_one(o.experiment_show, p.experiment_show, id, value) && p == (OverlayV {
                experiment_show: p.experiment_show,
                ..o
            })
        }),
        ({
            let p = uistate::with_experiment_pinned_opened(o, id, value);
            sets_one(o.experiment_pinned_opened, p.experiment_pinned_opened, id, value) && p == (
            OverlayV { experiment_pinned_opened: p.experiment_pinned_opened, ..o })
        }),
        ({
            let p = uistate::with_experiment_hidden_opened(o, id, value);
            sets_one(o.experiment_hidden_opened, p.experiment_hidden_opened, id, value) && p == (
            OverlayV { experiment_hidden_opened: p.experiment_hidden_opened, ..o })
        }),
        ({
            let p = uistate::with_project_pinned_opened(o, id, value);
            sets_one(o.project_pinned_opened, p.project_pinned_opened, id, value) && p == (
            OverlayV { project_pinned_opened: p.project_pinned_opened, ..o })
        }),
        ({
            let p = uistate::with_project_hidden_opened(o, id, value);
            sets_one(o.project_hidden_opened, p.project_hidden_opened, id, value) && p == (
            OverlayV { project_hidden_opened: p.project_hidden_opened, ..o })
        }),
{
}

/// An override is used exactly where there is one; without one the value of the database is.
pub proof fn law_overrides_are_used(m: Map<i64, i64>, id: i64, value: JsonV, status: i64)
    ensures
        m.contains_key(id) ==> uistate::overridden(m, id, value) == JsonV::Int(m[id] as int)
            && uistate::overridden_int(m, id, status) == m[id],
        !m.contains_key(id) ==> uistate::overridden(m, id, value) == value
            && uistate::overridden_int(m, id, status) == status,
{
}

/// The values that count as false: null, false, zero, and an empty text, list or object.
pub proof fn law_false_values(v: JsonV)
    ensures
        !uistate::truthy(v) <==> {
            ||| v is Null
            ||| v == JsonV::Bool(false)
            ||| v == JsonV::Int(0)
            ||| v == JsonV::Real(0)
            ||| v == JsonV::Real(0x8000_0000_0000_0000)
            ||| v matches JsonV::Str(s) && s.len() == 0
            ||| v matches JsonV::Array(a) && a.len() == 0
            ||| v matches JsonV::Object(m) && m.len() == 0
        },
{
}

// ---------------------------------- aliases ----------------------------------

/// Of the pairs of an overlay the last one for a run id is its alias; a run id without a pair has
/// none.
pub proof fn law_last_pair_is_the_alias(pairs: Seq<(String, String)>, k: int, run_id: Seq<char>)
    ensures
        0 <= k < pairs.len() && (forall|j: int|
            k < j < pairs.len() ==> (#[trigger] pairs[j]).0@ != pairs[k].0@) ==> {
            &&& uistate::alias_map(pairs).contains_key(pairs[k].0@)
            &&& uistate::alias_map(pairs)[pairs[k].0@] == pairs[k].1@
        },
        (forall|j: int| 0 <= j < pairs.len() ==> (#[trigger] pairs[j]).0@ != run_id)
            ==> !uistate::alias_map(pairs).contains_key(run_id),
    decreases pairs.len(),
{
    if pairs.len() > 0 {
        let t = pairs.drop_last();
        let n = pairs.len() - 1;
        law_last_pair_is_the_alias(t, k, run_id);
        if 0 <= k < n {
            assert(t[k] == pairs[k]);
            if forall|j: int| k < j < pairs.len() ==> (#[trigger] pairs[j]).0@ != pairs[k].0@ {
                assert forall|j: int| k < j < t.len() implies (#[trigger] t[j]).0@ != t[k].0@ by {
                    assert(t[j] == pairs[j]);
                }
                assert(pairs[n].0@ != pairs[k].0@);
            }
        }
        if forall|j: int| 0 <= j < pairs.len() ==> (#[trigger] pairs[j]).0@ != run_id {
            assert forall|j: int| 0 <= j < t.len() implies (#[trigger] t[j]).0@ != run_id by {
                assert(t[j] == pairs[j]);
            }
            assert(pairs[n].0@ != run_id);
        }
    }
}

/// Setting an alias changes that of one experiment, and nothing else of the overlay. Nothing and an
/// empty text take it away.
pub proof fn law_alias_changes_one_experiment(
    o: OverlayV,
    run_id: Seq<char>,
    alias: Option<Seq<char>>,
)
    ensures
        ({
            let p = uistate::with_alias(o, run_id, alias);
            &&& p == (OverlayV { experiment_alias: p.experiment_alias, ..o })
            &&& alias is Some && alias->0.len() > 0 ==> p.experiment_alias
                == o.experiment_alias.insert(run_id, alias->0)
            &&& !(alias is Some && alias->0.len() > 0) ==> p.experiment_alias
                == o.experiment_alias.remove(run_id)
        }),
{
}

// ---------------------------------- groups ----------------------------------

/// A group is created exactly where there are fewer than 100 and it has no more than 500 distinct
/// members. It gets the next id, one at least, the name, and the members without repetitions; it comes
/// behind the other groups, which stay, and the next id is the one after its own.
pub proof fn law_created_group(o: OverlayV, name: Seq<char>, members: Seq<Seq<char>>)
    requires
        o.next_group_id < i64::MAX,
    ensures
        ({
            let p = uistate::with_group(o, name, members);
            let fits = o.groups.len() < 100 && uistate::dedup(members).len() <= 500;
            &&& uistate::created_group(o, name, members) is Some <==> fits
            &&& !fits ==> p == o
            &&& fits ==> {
                let g = uistate::created_group(o, name, members)->0;
                &&& g.id == (if o.next_group_id < 1 {
                    1
                } else {
                    o.next_group_id
                })
                &&& g.name == name
                &&& g.members == uistate::dedup(members)
                &&& p.groups == o.groups.push(g)
                &&& p.next_group_id == g.id + 1
                &&& p == (OverlayV { groups: p.groups, next_group_id: p.next_group_id, ..o })
            }
        }),
{
}

/// Whether `after` has the group at `i` changed, and all other groups as they were.
pub open spec fn changes_one(before: Seq<GroupV>, after: Seq<GroupV>, i: int) -> bool {
    &&& after.len() == before.len()
    &&& after[i].id == before[i].id
    &&& forall|k: int| 0 <= k < before.len() && k != i ==> #[trigger] after[k] == before[k]
}

/// A change of a group changes the first group with its id: a new name in place of the old one, one
/// more member behind the others, or all members but one. All other groups, and all else of the
/// overlay, stay.
pub proof fn law_group_changes(
    o: OverlayV,
    gid: i64,
    i: int,
    name: Seq<char>,
    run_id: Seq<char>,
)
    requires
        0 <= i < o.groups.len(),
        o.groups[i].id == gid,
        forall|k: int| 0 <= k < i ==> (#[trigger] o.groups[k]).id != gid,
    ensures
        ({
            let p = uistate::with_group_name(o, gid, name);
            &&& changes_one(o.groups, p.groups, i)
            &&& p.groups[i].name == name
            &&& p.groups[i].members == o.groups[i].members
            &&& p == (OverlayV { groups: p.groups, ..o })
        }),
        ({
            let p = uistate::with_group_member(o, gid, run_id);
            let there = o.groups[i].members.contains(run_id);
            &&& changes_one(o.groups, p.groups, i)
            &&& p.groups[i].name == o.groups[i].name
            &&& there || o.groups[i].members.len() >= 500 ==> p == o
            &&& !there && o.groups[i].members.len() < 500 ==> p.groups[i].members
                == o.groups[i].members.push(run_id)
            &&& uistate::member_fits(o, gid, run_id) <==> there || o.groups[i].members.len() < 500
            &&& p == (OverlayV { groups: p.groups, ..o })
        }),
        ({
            let p = uistate::without_group_member(o, gid, run_id);
            &&& changes_one(o.groups, p.groups, i)
            &&& p.groups[i].name == o.groups[i].name
            &&& p.groups[i].members == o.groups[i].members.filter(|m: Seq<char>| m != run_id)
            &&& p == (OverlayV { groups: p.groups, ..o })
        }),
{
    uistate::lemma_group_place(o.groups, gid);
    let n = uistate::group_place(o.groups, gid);
    if n < i {
        assert(o.groups[n].id != gid);
    } else if i < n {
        assert(o.groups[i].id != gid);
    }
    assert(uistate::other_than(run_id) =~= (|m: Seq<char>| m != run_id));
}

/// A change of a group that does not exist changes nothing.
pub proof fn law_missing_groups_stay_missing(
    o: OverlayV,
    gid: i64,
    name: Seq<char>,
    run_id: Seq<char>,
)
    requires
        forall|k: int| 0 <= k < o.groups.len() ==> (#[trigger] o.groups[k]).id != gid,
    ensures
        uistate::with_group_name(o, gid, name) == o,
        uistate::with_group_member(o, gid, run_id) == o,
        uistate::without_group_member(o, gid, run_id) == o,
        uistate::without_group(o, gid) == o,
        !uistate::member_fits(o, gid, run_id),
        !uistate::has_group(o.groups, gid),
{
    uistate::lemma_group_place(o.groups, gid);
    seqs::lemma_filter_all(o.groups, |g: GroupV| g.id != gid);
    assert(uistate::without_group(o, gid).groups =~= o.groups);
}

/// Deleting a group takes away the groups with its id, and leaves all others in their order, and all
/// else of the overlay.
pub proof fn law_deletion(a: Seq<GroupV>, b: Seq<GroupV>, g: GroupV, o: OverlayV, gid: i64)
    ensures
        uistate::groups_without(a + b, gid) == uistate::groups_without(a, gid)
            + uistate::groups_without(b, gid),
        g.id == gid ==> uistate::groups_without(seq![g], gid) == Seq::<GroupV>::empty(),
        g.id != gid ==> uistate::groups_without(seq![g], gid) == seq![g],
        uistate::without_group(o, gid) == (OverlayV {
            groups: uistate::groups_without(o.groups, gid),
            ..o
        }),
    decreases b.len(),
{
    reveal(Seq::filter);
    let one = seq![g];
    assert(one.drop_last() =~= Seq::empty());
    assert(uistate::groups_without(Seq::empty(), gid) =~= Seq::empty());
    if g.id != gid {
        assert(uistate::groups_without(one, gid) =~= one);
    } else {
        assert(uistate::groups_without(one, gid) =~= Seq::empty());
    }
    if b.len() == 0 {
        assert(a + b =~= a);
        assert(uistate::groups_without(a + b, gid) =~= uistate::groups_without(a, gid)
            + uistate::groups_without(b, gid));
    } else {
        assert((a + b).drop_last() =~= a + b.drop_last());
        law_deletion(a, b.drop_last(), g, o, gid);
        assert(uistate::groups_without(a + b, gid) =~= uistate::groups_without(a, gid)
            + uistate::groups_without(b, gid));
    }
}

// ---------------------------------- the cache of summaries ----------------------------------

/// Of the entries of a document the last one for a key counts; a key without an entry has no value.
pub proof fn law_last_entry_counts(entries: Seq<(String, Json)>, k: int, key: Seq<char>)
    ensures
        0 <= k < entries.len() && (forall|j: int|
            k < j < entries.len() ==> (#[trigger] entries[j]).0@ != entries[k].0@) ==> {
            &&& summary_cache::entries_map(entries).contains_key(entries[k].0@)
            &&& summary_cache::entries_map(entries)[entries[k].0@] == entries[k].1@
        },
        (forall|j: int| 0 <= j < entries.len() ==> (#[trigger] entries[j]).0@ != key)
            ==> !summary_cache::entries_map(entries).contains_key(key),
    decreases entries.len(),
{
    if entries.len() > 0 {
        let t = entries.drop_last();
        let n = entries.len() - 1;
        law_last_entry_counts(t, k, key);
        if 0 <= k < n {
            assert(t[k] == entries[k]);
            if forall|j: int| k < j < entries.len() ==> (#[trigger] entries[j]).0@ != entries[k].0@ {
                assert forall|j: int| k < j < t.len() implies (#[trigger] t[j]).0@ != t[k].0@ by {
                    assert(t[j] == entries[j]);
                }
                assert(entries[n].0@ != entries[k].0@);
            }
        }
        if forall|j: int| 0 <= j < entries.len() ==> (#[trigger] entries[j]).0@ != key {
            assert forall|j: int| 0 <= j < t.len() implies (#[trigger] t[j]).0@ != key by {
                assert(t[j] == entries[j]);
            }
            assert(entries[n].0@ != key);
        }
    }
}

/// A cache starts with what the document of its own log directory holds, and else with nothing; it has
/// the limit that it was made with.
pub proof fn law_cache_starts_with_its_document(
    max_capacity: u64,
    persistent: bool,
    logdir: Seq<char>,
    document: summary_cache::PersistedV,
)
    ensures
        ({
            let c = summary_cache::loaded_cache(max_capacity, persistent, logdir, Some(document));
            let own = persistent && document.logdir == logdir;
            &&& own ==> c.given == document.entries && c.persisted.entries == document.entries
            &&& !own ==> c.given == Map::<Seq<char>, JsonV>::empty() && c.persisted.entries == Map::<
                Seq<char>,
                JsonV,
            >::empty()
            &&& c.limit == max_capacity
            &&& c.persistent == persistent
            &&& c.persisted.logdir == logdir
        }),
        ({
            let c = summary_cache::loaded_cache(max_capacity, persistent, logdir, None);
            &&& c.given == Map::<Seq<char>, JsonV>::empty()
            &&& c.persisted.entries == Map::<Seq<char>, JsonV>::empty()
            &&& c.limit == max_capacity
            &&& c.persistent == persistent
            &&& c.persisted.logdir == logdir
        }),
{
}

/// What is stored in a cache with a document is stored in the document too; one without keeps nothing
/// for it.
pub proof fn law_stores_reach_the_document(
    c: summary_cache::SummaryCacheV,
    key: Seq<char>,
    value: JsonV,
)
    ensures
        ({
            let d = summary_cache::with_value(c, key, value);
            &&& d.given == c.given.insert(key, value)
            &&& c.persistent ==> d.persisted.entries == c.persisted.entries.insert(key, value)
            &&& !c.persistent ==> d.persisted.entries == c.persisted.entries
            &&& d.persisted.logdir == c.persisted.logdir
            &&& d.limit == c.limit && d.persistent == c.persistent
        }),
{
}

/// A name is made plain character by character: plain ones stay, and any other becomes `_`; what is
/// behind the first 40 is cut off.
pub proof fn law_sanitized_characters(name: Seq<char>, i: int)
    ensures
        summary_cache::sanitized(name).len() == (if name.len() < 40 {
            name.len()
        } else {
            40
        }),
        0 <= i < summary_cache::sanitized(name).len() ==> {
            let c = name[i];
            let plain = 'a' <= c <= 'z' || 'A' <= c <= 'Z' || '0' <= c <= '9' || c == '.' || c
                == '_' || c == '-';
            summary_cache::sanitized(name)[i] == (if plain {
                c
            } else {
                '_'
            })
        },
{
}

/// The hash of no bytes is the offset basis; with each byte behind them the hash is mixed with the
/// byte and multiplied by the prime, and only its last 32 bits stay.
pub proof fn law_hash_goes_byte_by_byte(bytes: Seq<u8>, b: u8)
    ensures
        summary_cache::fnv1a(Seq::empty()) == 2166136261,
        summary_cache::fnv1a(bytes.push(b)) as int == ((summary_cache::fnv1a(bytes) ^ (b as u32))
            * 16777619) % 4294967296,
{
    assert(bytes.push(b).drop_last() =~= bytes);
}

/// The name of a document shows the last part of the log directory, made plain, or `root` where
/// there is nothing to show, and behind it the eight digits of the hash of the whole path.
pub proof fn law_name_of_a_document(logdir: Seq<char>, last: Option<Seq<char>>)
    ensures
        ({
            let shown = match last {
                Some(name) if name.len() > 0 => summary_cache::sanitized(name),
                _ => seq!['r', 'o', 'o', 't'],
            };
            let hash = summary_cache::fnv1a(vstd::utf8::encode_utf8(logdir));
            let name = summary_cache::file_name(logdir, last);
            &&& text::begins_with(
                name,
                summary_cache::SUMMARY_CACHE_PREFIX@ + seq!['-'] + shown + seq!['-'],
            )
            &&& text::finishes_with(name, text::hex_text(hash as nat, 8) + ".json"@)
            &&& name.len() == summary_cache::SUMMARY_CACHE_PREFIX@.len() + shown.len() + 15
        }),
{
    reveal_strlit("root");
    reveal_strlit("-");
    reveal_strlit(".json");
    assert("root"@ =~= seq!['r', 'o', 'o', 't']);
    assert("-"@ =~= seq!['-']);
    let shown = summary_cache::name_part(last);
    let hash = summary_cache::fnv1a(vstd::utf8::encode_utf8(logdir)) as nat;
    let name = summary_cache::file_name(logdir, last);
    text::lemma_hex_len(hash, 8);
    let front = summary_cache::SUMMARY_CACHE_PREFIX@ + "-"@ + shown + "-"@;
    let back = text::hex_text(hash, 8) + ".json"@;
    assert(name =~= front + back);
    assert(name.take(front.len() as int) =~= front);
    assert(name.skip(name.len() - back.len()) =~= back);
}

} // verus!
