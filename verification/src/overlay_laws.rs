//! What holds of every overlay and of every run of changes to one.

use vstd::prelude::*;

use crate::json::JsonV;
use crate::seqs;
use crate::uistate::{self, GroupV, MAX_GROUPS, MAX_GROUP_MEMBERS, OverlayV};

verus! {

/// An empty overlay changes nothing: every value is the database value, and no experiment has an
/// alias.
pub proof fn law_empty_overlay_is_no_op(id: i64, value: JsonV, status: i64, run_id: Seq<char>)
    ensures
        uistate::overridden_int(uistate::empty_overlay().chart_status, id, status) == status,
        uistate::overridden(uistate::empty_overlay().namespace_opened, id, value) == value,
        uistate::overridden(uistate::empty_overlay().experiment_show, id, value) == value,
        uistate::overridden(uistate::empty_overlay().experiment_pinned_opened, id, value) == value,
        uistate::overridden(uistate::empty_overlay().experiment_hidden_opened, id, value) == value,
        uistate::overridden(uistate::empty_overlay().project_pinned_opened, id, value) == value,
        uistate::overridden(uistate::empty_overlay().project_hidden_opened, id, value) == value,
        uistate::alias_of(uistate::empty_overlay(), run_id) is None,
{
}

/// An override that was set is read back in place of the database value, and the entries of other
/// rows stay as they were.
pub proof fn law_override_is_read_back(
    o: OverlayV,
    id: i64,
    v: i64,
    other: i64,
    value: JsonV,
    status: i64,
)
    ensures
        uistate::overridden_int(uistate::with_chart_status(o, id, v).chart_status, id, status) == v,
        uistate::overridden(uistate::with_namespace_opened(o, id, v).namespace_opened, id, value)
            == JsonV::Int(v as int),
        uistate::overridden(uistate::with_experiment_show(o, id, v).experiment_show, id, value)
            == JsonV::Int(v as int),
        uistate::overridden(
            uistate::with_experiment_pinned_opened(o, id, v).experiment_pinned_opened,
            id,
            value,
        ) == JsonV::Int(v as int),
        uistate::overridden(
            uistate::with_experiment_hidden_opened(o, id, v).experiment_hidden_opened,
            id,
            value,
        ) == JsonV::Int(v as int),
        uistate::overridden(
            uistate::with_project_pinned_opened(o, id, v).project_pinned_opened,
            id,
            value,
        ) == JsonV::Int(v as int),
        uistate::overridden(
            uistate::with_project_hidden_opened(o, id, v).project_hidden_opened,
            id,
            value,
        ) == JsonV::Int(v as int),
        other != id ==> {
            &&& uistate::overridden_int(
                uistate::with_chart_status(o, id, v).chart_status,
                other,
                status,
            ) == uistate::overridden_int(o.chart_status, other, status)
            &&& uistate::overridden(
                uistate::with_namespace_opened(o, id, v).namespace_opened,
                other,
                value,
            ) == uistate::overridden(o.namespace_opened, other, value)
            &&& uistate::overridden(
                uistate::with_experiment_show(o, id, v).experiment_show,
                other,
                value,
            ) == uistate::overridden(o.experiment_show, other, value)
            &&& uistate::overridden(
                uistate::with_experiment_pinned_opened(o, id, v).experiment_pinned_opened,
                other,
                value,
            ) == uistate::overridden(o.experiment_pinned_opened, other, value)
            &&& uistate::overridden(
                uistate::with_experiment_hidden_opened(o, id, v).experiment_hidden_opened,
                other,
                value,
            ) == uistate::overridden(o.experiment_hidden_opened, other, value)
            &&& uistate::overridden(
                uistate::with_project_pinned_opened(o, id, v).project_pinned_opened,
                other,
                value,
            ) == uistate::overridden(o.project_pinned_opened, other, value)
            &&& uistate::overridden(
                uistate::with_project_hidden_opened(o, id, v).project_hidden_opened,
                other,
                value,
            ) == uistate::overridden(o.project_hidden_opened, other, value)
        },
{
}

/// An alias that is not empty is read back; nothing or an empty text clears it; the aliases of
/// other experiments stay as they were.
pub proof fn law_alias_is_read_back(
    o: OverlayV,
    run_id: Seq<char>,
    alias: Option<Seq<char>>,
    other: Seq<char>,
)
    ensures
        uistate::alias_of(uistate::with_alias(o, run_id, alias), run_id) == (match alias {
            Some(a) => if a.len() > 0 {
                Some(a)
            } else {
                None
            },
            None => None,
        }),
        other != run_id ==> uistate::alias_of(uistate::with_alias(o, run_id, alias), other)
            == uistate::alias_of(o, other),
{
}

// ---------------------------------- lists ----------------------------------

/// Dropping duplicates leaves every run id exactly once.
pub proof fn law_dedup_keeps_each_once(s: Seq<Seq<char>>)
    ensures
        uistate::dedup(s).no_duplicates(),
        forall|x: Seq<char>| uistate::dedup(s).contains(x) <==> s.contains(x),
        uistate::dedup(s).len() <= s.len(),
    decreases s.len(),
{
    if s.len() > 0 {
        let t = s.drop_last();
        law_dedup_keeps_each_once(t);
        let d = uistate::dedup(t);
        assert forall|x: Seq<char>| uistate::dedup(s).contains(x) <==> s.contains(x) by {
            if s.contains(x) {
                let k = choose|k: int| 0 <= k < s.len() && s[k] == x;
                if k < t.len() {
                    assert(t[k] == x);
                    assert(t.contains(x));
                    assert(d.contains(x));
                    let m = choose|m: int| 0 <= m < d.len() && d[m] == x;
                    assert(uistate::dedup(s)[m] == x);
                } else if d.contains(s.last()) {
                } else {
                    assert(uistate::dedup(s)[d.len() as int] == x);
                }
            }
            if uistate::dedup(s).contains(x) {
                let k = choose|k: int| 0 <= k < uistate::dedup(s).len() && uistate::dedup(s)[k] == x;
                if k < d.len() {
                    assert(d[k] == x);
                    assert(t.contains(x));
                    let m = choose|m: int| 0 <= m < t.len() && t[m] == x;
                    assert(s[m] == x);
                } else {
                    assert(s[s.len() - 1] == x);
                }
            }
        }
    }
}

/// The place where `x` first stands in `s`, or the length of `s`.
pub open spec fn first_place(s: Seq<Seq<char>>, x: Seq<char>) -> int
    decreases s.len(),
{
    if s.len() == 0 {
        0
    } else if s.drop_last().contains(x) || s.last() == x {
        if s.drop_last().contains(x) {
            first_place(s.drop_last(), x)
        } else {
            s.len() - 1
        }
    } else {
        s.len() as int
    }
}

proof fn lemma_first_place(s: Seq<Seq<char>>, x: Seq<char>)
    requires
        s.contains(x),
    ensures
        0 <= first_place(s, x) < s.len(),
        s[first_place(s, x)] == x,
        forall|j: int| 0 <= j < first_place(s, x) ==> #[trigger] s[j] != x,
    decreases s.len(),
{
    let t = s.drop_last();
    let k = choose|k: int| 0 <= k < s.len() && s[k] == x;
    if t.contains(x) {
        lemma_first_place(t, x);
        assert forall|j: int| 0 <= j < first_place(s, x) implies #[trigger] s[j] != x by {
            assert(t[j] == s[j]);
        }
    } else {
        if k < t.len() {
            assert(t[k] == x);
        }
        assert forall|j: int| 0 <= j < first_place(s, x) implies #[trigger] s[j] != x by {
            assert(t[j] == s[j]);
        }
    }
}

/// Dropping duplicates keeps the order in which the run ids were first seen.
pub proof fn law_dedup_keeps_order(s: Seq<Seq<char>>)
    ensures
        forall|i: int, j: int|
            0 <= i < j < uistate::dedup(s).len() ==> first_place(s, #[trigger] uistate::dedup(s)[i])
                < first_place(s, #[trigger] uistate::dedup(s)[j]),
    decreases s.len(),
{
    if s.len() > 0 {
        let t = s.drop_last();
        let d = uistate::dedup(t);
        let e = uistate::dedup(s);
        law_dedup_keeps_order(t);
        law_dedup_keeps_each_once(t);
        assert forall|i: int, j: int| 0 <= i < j < e.len() implies first_place(s, #[trigger] e[i])
            < first_place(s, #[trigger] e[j]) by {
            assert(e[i] == d[i]);
            assert(d.contains(d[i]));
            lemma_first_place(t, d[i]);
            if j < d.len() {
                assert(e[j] == d[j]);
                assert(d.contains(d[j]));
                assert(first_place(t, d[i]) < first_place(t, d[j]));
            } else {
                assert(e[j] == s.last());
                assert(!t.contains(s.last()));
            }
        }
    }
}

/// Dropping duplicates once is enough.
pub proof fn law_dedup_is_idempotent(s: Seq<Seq<char>>)
    ensures
        uistate::dedup(uistate::dedup(s)) == uistate::dedup(s),
{
    law_dedup_keeps_each_once(s);
    lemma_dedup_of_distinct(uistate::dedup(s));
}

proof fn lemma_dedup_of_distinct(s: Seq<Seq<char>>)
    requires
        s.no_duplicates(),
    ensures
        uistate::dedup(s) == s,
    decreases s.len(),
{
    if s.len() > 0 {
        let t = s.drop_last();
        lemma_dedup_of_distinct(t);
        if t.contains(s.last()) {
            let k = choose|k: int| 0 <= k < t.len() && t[k] == s.last();
            assert(s[k] == s[s.len() - 1]);
        }
        assert(t.push(s.last()) =~= s);
    }
}

// ---------------------------------- groups ----------------------------------

/// Adding a member twice is adding it once, and the second time it is in the group.
pub proof fn law_add_member_is_idempotent(o: OverlayV, gid: i64, run_id: Seq<char>)
    ensures
        uistate::with_group_member(uistate::with_group_member(o, gid, run_id), gid, run_id)
            == uistate::with_group_member(o, gid, run_id),
        uistate::member_fits(o, gid, run_id) ==> uistate::member_fits(
            uistate::with_group_member(o, gid, run_id),
            gid,
            run_id,
        ),
{
    let p = uistate::with_group_member(o, gid, run_id);
    uistate::lemma_group_place(o.groups, gid);
    lemma_place_after_update(o.groups, p.groups, gid);
    let i = uistate::group_place(o.groups, gid);
    if uistate::member_fits(o, gid, run_id) && !o.groups[i].members.contains(run_id) {
        assert(p.groups[i].members[o.groups[i].members.len() as int] == run_id);
    }
}

/// Removing a member twice is removing it once.
pub proof fn law_remove_member_is_idempotent(o: OverlayV, gid: i64, run_id: Seq<char>)
    ensures
        uistate::without_group_member(uistate::without_group_member(o, gid, run_id), gid, run_id)
            == uistate::without_group_member(o, gid, run_id),
{
    let p = uistate::without_group_member(o, gid, run_id);
    uistate::lemma_group_place(o.groups, gid);
    lemma_place_after_update(o.groups, p.groups, gid);
    let i = uistate::group_place(o.groups, gid);
    if i < o.groups.len() {
        seqs::lemma_filter_holds(o.groups[i].members, uistate::other_than(run_id));
        seqs::lemma_filter_all(p.groups[i].members, uistate::other_than(run_id));
        let q = uistate::without_group_member(p, gid, run_id);
        assert(q.groups[i].members == p.groups[i].members);
        assert(q.groups =~= p.groups);
    }
}

/// Removing a member that was just added restores the overlay.
pub proof fn law_remove_undoes_add(o: OverlayV, gid: i64, run_id: Seq<char>)
    requires
        uistate::member_fits(o, gid, run_id),
        !o.groups[uistate::group_place(o.groups, gid)].members.contains(run_id),
    ensures
        uistate::without_group_member(uistate::with_group_member(o, gid, run_id), gid, run_id)
            == o,
{
    let p = uistate::with_group_member(o, gid, run_id);
    uistate::lemma_group_place(o.groups, gid);
    lemma_place_after_update(o.groups, p.groups, gid);
    let i = uistate::group_place(o.groups, gid);
    let members = o.groups[i].members;
    seqs::lemma_filter_push(members, uistate::other_than(run_id), run_id);
    seqs::lemma_filter_all(members, uistate::other_than(run_id));
    let q = uistate::without_group_member(p, gid, run_id);
    assert(p.groups[i].members == members.push(run_id));
    assert(q.groups[i].members == members);
    assert(q.groups =~= o.groups);
}

/// A member that left a group is not in it.
pub proof fn law_removed_member_is_gone(o: OverlayV, gid: i64, run_id: Seq<char>)
    requires
        uistate::has_group(o.groups, gid),
    ensures
        ({
            let p = uistate::without_group_member(o, gid, run_id);
            !p.groups[uistate::group_place(p.groups, gid)].members.contains(run_id)
        }),
{
    let p = uistate::without_group_member(o, gid, run_id);
    uistate::lemma_group_place(o.groups, gid);
    lemma_place_after_update(o.groups, p.groups, gid);
    let i = uistate::group_place(o.groups, gid);
    seqs::lemma_filter_holds(o.groups[i].members, uistate::other_than(run_id));
}

proof fn lemma_place_after_update(a: Seq<GroupV>, b: Seq<GroupV>, gid: i64)
    requires
        a.len() == b.len(),
        forall|k: int| 0 <= k < a.len() ==> (#[trigger] a[k]).id == (#[trigger] b[k]).id,
    ensures
        uistate::group_place(a, gid) == uistate::group_place(b, gid),
{
    uistate::lemma_group_place(a, gid);
    uistate::lemma_group_place(b, gid);
    let i = uistate::group_place(a, gid);
    let j = uistate::group_place(b, gid);
    if i < j {
        assert(b[i].id == a[i].id);
    } else if j < i {
        assert(a[j].id == b[j].id);
    }
}

/// Deleting a group leaves none with its id, and every group with another id.
pub proof fn law_deleted_group_is_gone(o: OverlayV, gid: i64, other: i64)
    ensures
        !uistate::has_group(uistate::without_group(o, gid).groups, gid),
        other != gid ==> uistate::has_group(uistate::without_group(o, gid).groups, other)
            == uistate::has_group(o.groups, other),
{
    let keep = |g: GroupV| g.id != gid;
    seqs::lemma_filter_holds(o.groups, keep);
    if other != gid {
        let kept = uistate::without_group(o, gid).groups;
        if uistate::has_group(kept, other) {
            let i = choose|i: int| 0 <= i < kept.len() && (#[trigger] kept[i]).id == other;
            assert(o.groups.contains(kept[i]));
            let k = choose|k: int| 0 <= k < o.groups.len() && o.groups[k] == kept[i];
            assert(o.groups[k].id == other);
        }
        if uistate::has_group(o.groups, other) {
            let i = choose|i: int| 0 <= i < o.groups.len() && (#[trigger] o.groups[i]).id == other;
            seqs::lemma_filter_keeps(o.groups, keep, i);
            let k = choose|k: int| 0 <= k < kept.len() && kept[k] == o.groups[i];
            assert(kept[k].id == other);
        }
    }
}

// ---------------------------------- runs of changes ----------------------------------

/// A change to an overlay.
pub enum Change {
    ChartStatus(i64, i64),
    NamespaceOpened(i64, i64),
    ExperimentShow(i64, i64),
    ExperimentPinned(i64, i64),
    ExperimentHidden(i64, i64),
    ProjectPinned(i64, i64),
    ProjectHidden(i64, i64),
    Alias(Seq<char>, Option<Seq<char>>),
    CreateGroup(Seq<char>, Seq<Seq<char>>),
    RenameGroup(i64, Seq<char>),
    DeleteGroup(i64),
    AddMember(i64, Seq<char>),
    RemoveMember(i64, Seq<char>),
}

/// The overlay after one change.
pub open spec fn changed(o: OverlayV, c: Change) -> OverlayV {
    match c {
        Change::ChartStatus(id, v) => uistate::with_chart_status(o, id, v),
        Change::NamespaceOpened(id, v) => uistate::with_namespace_opened(o, id, v),
        Change::ExperimentShow(id, v) => uistate::with_experiment_show(o, id, v),
        Change::ExperimentPinned(id, v) => uistate::with_experiment_pinned_opened(o, id, v),
        Change::ExperimentHidden(id, v) => uistate::with_experiment_hidden_opened(o, id, v),
        Change::ProjectPinned(id, v) => uistate::with_project_pinned_opened(o, id, v),
        Change::ProjectHidden(id, v) => uistate::with_project_hidden_opened(o, id, v),
        Change::Alias(run_id, a) => uistate::with_alias(o, run_id, a),
        Change::CreateGroup(name, members) => uistate::with_group(o, name, members),
        Change::RenameGroup(gid, name) => uistate::with_group_name(o, gid, name),
        Change::DeleteGroup(gid) => uistate::without_group(o, gid),
        Change::AddMember(gid, run_id) => uistate::with_group_member(o, gid, run_id),
        Change::RemoveMember(gid, run_id) => uistate::without_group_member(o, gid, run_id),
    }
}

/// Whether the group ids have not run out for a change.
pub open spec fn possible(o: OverlayV, c: Change) -> bool {
    c matches Change::CreateGroup(name, members) ==> uistate::created_group(o, name, members) is Some
        ==> o.next_group_id < i64::MAX
}

/// Whether `h` lists the overlays of a run of the changes `cs`, the first one first.
pub open spec fn is_run(h: Seq<OverlayV>, cs: Seq<Change>) -> bool {
    &&& h.len() == cs.len() + 1
    &&& forall|k: int|
        0 <= k < cs.len() ==> possible(h[k], #[trigger] cs[k]) && h[k + 1] == changed(h[k], cs[k])
}

/// Whether every group has an id below the next one.
pub open spec fn ids_below_next(o: OverlayV) -> bool {
    forall|i: int| 0 <= i < o.groups.len() ==> (#[trigger] o.groups[i]).id < uistate::next_id(o)
}

/// Whether every group has an id of its own, below the next one, there are no more groups than the
/// limit, no group holds a member twice, and none holds more members than the limit.
pub open spec fn sound(o: OverlayV) -> bool {
    &&& ids_below_next(o)
    &&& forall|i: int, j: int|
        0 <= i < j < o.groups.len() ==> (#[trigger] o.groups[i]).id != (#[trigger] o.groups[j]).id
    &&& o.groups.len() <= MAX_GROUPS
    &&& forall|i: int| 0 <= i < o.groups.len() ==> (#[trigger] o.groups[i]).members.no_duplicates()
    &&& forall|i: int|
        0 <= i < o.groups.len() ==> (#[trigger] o.groups[i]).members.len() <= MAX_GROUP_MEMBERS
}

/// The empty overlay is sound.
pub proof fn law_empty_overlay_is_sound()
    ensures
        sound(uistate::empty_overlay()),
{
}

/// Every change keeps an overlay sound and never lowers the next group id.
pub proof fn law_change_keeps_sound(o: OverlayV, c: Change)
    requires
        sound(o),
        possible(o, c),
    ensures
        sound(changed(o, c)),
        uistate::next_id(o) <= uistate::next_id(changed(o, c)),
{
    let p = changed(o, c);
    match c {
        Change::CreateGroup(name, members) => {
            law_dedup_keeps_each_once(members);
            assert forall|i: int| 0 <= i < p.groups.len() implies (
            #[trigger] p.groups[i]).members.no_duplicates() && p.groups[i].members.len()
                <= MAX_GROUP_MEMBERS by {
                if i < o.groups.len() {
                    assert(p.groups[i] == o.groups[i]);
                }
            }
        },
        Change::RenameGroup(gid, name) => {
            uistate::lemma_group_place(o.groups, gid);
        },
        Change::DeleteGroup(gid) => {
            let keep = |g: GroupV| g.id != gid;
            seqs::lemma_filter_holds(o.groups, keep);
            assert(o.groups.no_duplicates());
            seqs::lemma_filter_distinct(o.groups, keep);
            assert forall|i: int, j: int| 0 <= i < j < p.groups.len() implies (
            #[trigger] p.groups[i]).id != (#[trigger] p.groups[j]).id by {
                let a = choose|a: int| 0 <= a < o.groups.len() && o.groups[a] == p.groups[i];
                let b = choose|b: int| 0 <= b < o.groups.len() && o.groups[b] == p.groups[j];
                assert(o.groups.contains(p.groups[i]) && o.groups.contains(p.groups[j]));
                if a < b {
                    assert(o.groups[a].id != o.groups[b].id);
                } else if b < a {
                    assert(o.groups[b].id != o.groups[a].id);
                }
            }
            assert forall|i: int| 0 <= i < p.groups.len() implies (#[trigger] p.groups[i]).id
                < uistate::next_id(p) && p.groups[i].members.no_duplicates()
                && p.groups[i].members.len() <= MAX_GROUP_MEMBERS by {
                assert(o.groups.contains(p.groups[i]));
                let a = choose|a: int| 0 <= a < o.groups.len() && o.groups[a] == p.groups[i];
                assert(o.groups[a].id < uistate::next_id(o));
            }
        },
        Change::AddMember(gid, run_id) => {
            uistate::lemma_group_place(o.groups, gid);
        },
        Change::RemoveMember(gid, run_id) => {
            uistate::lemma_group_place(o.groups, gid);
            let i = uistate::group_place(o.groups, gid);
            if i < o.groups.len() {
                seqs::lemma_filter_distinct(o.groups[i].members, uistate::other_than(run_id));
                seqs::lemma_filter_holds(o.groups[i].members, uistate::other_than(run_id));
            }
        },
        _ => {},
    }
}

proof fn lemma_next_id_monotonic(h: Seq<OverlayV>, cs: Seq<Change>, i: int, j: int)
    requires
        is_run(h, cs),
        sound(h[0]),
        0 <= i <= j < h.len(),
    ensures
        sound(h[j]),
        uistate::next_id(h[i]) <= uistate::next_id(h[j]),
    decreases j,
{
    if j > 0 {
        let k = if i < j {
            i
        } else {
            j - 1
        };
        lemma_next_id_monotonic(h, cs, k, j - 1);
        assert(possible(h[j - 1], cs[j - 1]));
        assert(h[j - 1 + 1] == changed(h[j - 1], cs[j - 1]));
        law_change_keeps_sound(h[j - 1], cs[j - 1]);
    }
}

/// In every run of changes each overlay is sound.
pub proof fn law_runs_stay_sound(h: Seq<OverlayV>, cs: Seq<Change>, i: int)
    requires
        is_run(h, cs),
        sound(h[0]),
        0 <= i < h.len(),
    ensures
        sound(h[i]),
{
    lemma_next_id_monotonic(h, cs, 0, i);
}

/// Group ids are given in increasing order: whatever happens between two creations, deletions
/// included, the later group gets a greater id than the earlier one, and an id that no group has.
pub proof fn law_group_ids_are_never_reused(h: Seq<OverlayV>, cs: Seq<Change>, i: int, j: int)
    requires
        is_run(h, cs),
        sound(h[0]),
        0 <= i < j < cs.len(),
        cs[i] is CreateGroup,
        uistate::created_group(h[i], cs[i]->CreateGroup_0, cs[i]->CreateGroup_1) is Some,
        cs[j] is CreateGroup,
        uistate::created_group(h[j], cs[j]->CreateGroup_0, cs[j]->CreateGroup_1) is Some,
    ensures
        uistate::created_group(h[i], cs[i]->CreateGroup_0, cs[i]->CreateGroup_1)->0.id
            < uistate::created_group(h[j], cs[j]->CreateGroup_0, cs[j]->CreateGroup_1)->0.id,
        !uistate::has_group(
            h[j].groups,
            uistate::created_group(h[j], cs[j]->CreateGroup_0, cs[j]->CreateGroup_1)->0.id,
        ),
{
    lemma_next_id_monotonic(h, cs, 0, i);
    assert(possible(h[i], cs[i]) && h[i + 1] == changed(h[i], cs[i]));
    lemma_next_id_monotonic(h, cs, i + 1, j);
}

/// Deleting a group that was just created restores the groups; the next id stays advanced.
pub proof fn law_delete_undoes_create(o: OverlayV, name: Seq<char>, members: Seq<Seq<char>>)
    requires
        ids_below_next(o),
        uistate::created_group(o, name, members) is Some,
        o.next_group_id < i64::MAX,
    ensures
        ({
            let p = uistate::without_group(
                uistate::with_group(o, name, members),
                uistate::next_id(o),
            );
            &&& p.groups == o.groups
            &&& p.next_group_id == uistate::next_id(o) + 1
            &&& p == (OverlayV { next_group_id: p.next_group_id, ..o })
        }),
{
    let id = uistate::next_id(o);
    let keep = |g: GroupV| g.id != id;
    let g = uistate::created_group(o, name, members)->0;
    seqs::lemma_filter_push(o.groups, keep, g);
    seqs::lemma_filter_all(o.groups, keep);
}

/// No group is created above the limit on members: more distinct members than that create nothing,
/// and the overlay stays as it is.
pub proof fn law_created_group_respects_limit(o: OverlayV, name: Seq<char>, members: Seq<Seq<char>>)
    ensures
        uistate::created_group(o, name, members) matches Some(g) ==> g.members.len()
            <= MAX_GROUP_MEMBERS,
        uistate::dedup(members).len() > MAX_GROUP_MEMBERS ==> uistate::created_group(
            o,
            name,
            members,
        ) is None && uistate::with_group(o, name, members) == o,
{
}

/// Adding members never takes a group above the limit.
pub proof fn law_add_member_respects_limit(o: OverlayV, gid: i64, run_id: Seq<char>, i: int)
    requires
        0 <= i < o.groups.len(),
        o.groups[i].members.len() <= MAX_GROUP_MEMBERS,
    ensures
        uistate::with_group_member(o, gid, run_id).groups[i].members.len() <= MAX_GROUP_MEMBERS,
{
    uistate::lemma_group_place(o.groups, gid);
}

} // verus!
