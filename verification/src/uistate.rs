//! View preferences laid over the database: pinned and hidden charts, collapsed namespaces,
//! experiment visibility, aliases and comparison groups.
//!
//! The database itself is never written. The overrides are kept in a document of their own and
//! merged on top of the database values when they are read; an empty overlay changes nothing.

use std::collections::HashMap;

use vstd::prelude::*;

use crate::json::{self, Json, JsonV};
use crate::seqs;
use crate::text::{self, copy_texts, has_text, same_text};

verus! {

/// Name of the document, stored in the log directory.
pub const SIDECAR_NAME: &'static str = "fastsl-ui.json";

/// Maximum number of comparison groups.
pub const MAX_GROUPS: usize = 100;

/// Maximum number of experiments in one comparison group.
pub const MAX_GROUP_MEMBERS: usize = 500;

/// The overrides. The maps are keyed by row id; absence means "use the database value".
#[derive(Debug)]
pub struct UiOverlay {
    pub chart_status: HashMap<i64, i64>,
    pub namespace_opened: HashMap<i64, i64>,
    pub experiment_show: HashMap<i64, i64>,
    pub experiment_pinned_opened: HashMap<i64, i64>,
    pub experiment_hidden_opened: HashMap<i64, i64>,
    pub project_pinned_opened: HashMap<i64, i64>,
    pub project_hidden_opened: HashMap<i64, i64>,
    /// Display aliases of experiments, as pairs of run id and alias; of two pairs with one run id
    /// the later counts.
    pub experiment_alias: Vec<(String, String)>,
    /// Comparison groups, in the order of their creation.
    pub groups: Vec<Group>,
    /// The next group id; ids are never used again.
    pub next_group_id: i64,
}

/// A comparison group. The members are run ids of experiments, in order.
#[derive(Debug, PartialEq)]
pub struct Group {
    pub id: i64,
    pub name: String,
    pub members: Vec<String>,
}

/// What an overlay says.
#[verifier::ext_equal]
pub struct OverlayV {
    pub chart_status: Map<i64, i64>,
    pub namespace_opened: Map<i64, i64>,
    pub experiment_show: Map<i64, i64>,
    pub experiment_pinned_opened: Map<i64, i64>,
    pub experiment_hidden_opened: Map<i64, i64>,
    pub project_pinned_opened: Map<i64, i64>,
    pub project_hidden_opened: Map<i64, i64>,
    pub experiment_alias: Map<Seq<char>, Seq<char>>,
    pub groups: Seq<GroupV>,
    pub next_group_id: i64,
}

/// What a group says.
#[verifier::ext_equal]
pub struct GroupV {
    pub id: i64,
    pub name: Seq<char>,
    pub members: Seq<Seq<char>>,
}

/// The aliases that a list of pairs gives.
pub open spec fn alias_map(s: Seq<(String, String)>) -> Map<Seq<char>, Seq<char>>
    decreases s.len(),
{
    if s.len() == 0 {
        Map::empty()
    } else {
        alias_map(s.drop_last()).insert(s.last().0@, s.last().1@)
    }
}

/// What the groups of a list say.
pub open spec fn groups_view(s: Seq<Group>) -> Seq<GroupV> {
    s.map_values(|g: Group| g@)
}

impl View for Group {
    type V = GroupV;

    open spec fn view(&self) -> GroupV {
        GroupV { id: self.id, name: self.name@, members: text::texts(self.members@) }
    }
}

impl View for UiOverlay {
    type V = OverlayV;

    open spec fn view(&self) -> OverlayV {
        OverlayV {
            chart_status: self.chart_status@,
            namespace_opened: self.namespace_opened@,
            experiment_show: self.experiment_show@,
            experiment_pinned_opened: self.experiment_pinned_opened@,
            experiment_hidden_opened: self.experiment_hidden_opened@,
            project_pinned_opened: self.project_pinned_opened@,
            project_hidden_opened: self.project_hidden_opened@,
            experiment_alias: alias_map(self.experiment_alias@),
            groups: groups_view(self.groups@),
            next_group_id: self.next_group_id,
        }
    }
}

/// The overlay without any override.
pub open spec fn empty_overlay() -> OverlayV {
    OverlayV {
        chart_status: Map::empty(),
        namespace_opened: Map::empty(),
        experiment_show: Map::empty(),
        experiment_pinned_opened: Map::empty(),
        experiment_hidden_opened: Map::empty(),
        project_pinned_opened: Map::empty(),
        project_hidden_opened: Map::empty(),
        experiment_alias: Map::empty(),
        groups: Seq::empty(),
        next_group_id: 0,
    }
}

/// The override of `id` as JSON, or the database value where there is none.
pub open spec fn overridden(m: Map<i64, i64>, id: i64, db_value: JsonV) -> JsonV {
    if m.contains_key(id) {
        JsonV::Int(m[id] as int)
    } else {
        db_value
    }
}

/// The override of `id`, or the database value where there is none.
pub open spec fn overridden_int(m: Map<i64, i64>, id: i64, db_value: i64) -> i64 {
    if m.contains_key(id) {
        m[id]
    } else {
        db_value
    }
}

/// The members of an object with the override of `id` in the place of the member `key`.
pub open spec fn overlaid_member(
    o: Seq<(Seq<char>, JsonV)>,
    key: Seq<char>,
    m: Map<i64, i64>,
    id: i64,
) -> Seq<(Seq<char>, JsonV)> {
    match json::member(o, key) {
        Some(v) => json::with_member(o, key, overridden(m, id, v)),
        None => o,
    }
}

fn overlaid(m: &HashMap<i64, i64>, id: i64, db_value: Json) -> (r: Json)
    ensures
        r@ == overridden(m@, id, db_value@),
{
    match m.get(&id) {
        Some(v) => Json::Int(*v),
        None => db_value,
    }
}

/// A copy of a group.
pub fn copy_group(g: &Group) -> (r: Group)
    ensures
        r@ == g@,
{
    Group { id: g.id, name: g.name.clone(), members: copy_texts(&g.members) }
}

fn copy_groups(groups: &Vec<Group>) -> (r: Vec<Group>)
    ensures
        groups_view(r@) == groups_view(groups@),
{
    let mut r: Vec<Group> = Vec::new();
    let mut i: usize = 0;
    while i < groups.len()
        invariant
            i <= groups.len(),
            r.len() == i,
            forall|j: int| 0 <= j < i ==> (#[trigger] r@[j])@ == groups@[j]@,
        decreases groups.len() - i,
    {
        r.push(copy_group(&groups[i]));
        i += 1;
    }
    proof {
        assert(groups_view(r@) =~= groups_view(groups@));
    }
    r
}

/// The pairs whose run id is not `run_id`.
fn aliases_without(s: &Vec<(String, String)>, run_id: &str) -> (r: Vec<(String, String)>)
    ensures
        alias_map(r@) == alias_map(s@).remove(run_id@),
{
    let mut r: Vec<(String, String)> = Vec::new();
    let mut i: usize = 0;
    proof {
        assert(alias_map(r@) =~= alias_map(s@.take(0)).remove(run_id@));
    }
    while i < s.len()
        invariant
            i <= s.len(),
            alias_map(r@) == alias_map(s@.take(i as int)).remove(run_id@),
        decreases s.len() - i,
    {
        let ghost before = r@;
        proof {
            assert(s@.take(i + 1).drop_last() =~= s@.take(i as int));
        }
        if !same_text(s[i].0.as_str(), run_id) {
            let pair = (s[i].0.clone(), s[i].1.clone());
            r.push(pair);
            proof {
                assert(r@.drop_last() =~= before);
            }
        }
        proof {
            assert(alias_map(r@) =~= alias_map(s@.take(i + 1)).remove(run_id@));
        }
        i += 1;
    }
    proof {
        assert(s@.take(s@.len() as int) =~= s@);
    }
    r
}

impl UiOverlay {
    /// The overlay without any override.
    pub fn empty() -> (r: UiOverlay)
        ensures
            r@ == empty_overlay(),
    {
        let r = UiOverlay {
            chart_status: HashMap::new(),
            namespace_opened: HashMap::new(),
            experiment_show: HashMap::new(),
            experiment_pinned_opened: HashMap::new(),
            experiment_hidden_opened: HashMap::new(),
            project_pinned_opened: HashMap::new(),
            project_hidden_opened: HashMap::new(),
            experiment_alias: Vec::new(),
            groups: Vec::new(),
            next_group_id: 0,
        };
        proof {
            assert(r@ =~= empty_overlay());
        }
        r
    }

    /// The same overlay again.
    pub fn copy(&self) -> (r: UiOverlay)
        ensures
            r@ == self@,
    {
        let r = UiOverlay {
            chart_status: self.chart_status.clone(),
            namespace_opened: self.namespace_opened.clone(),
            experiment_show: self.experiment_show.clone(),
            experiment_pinned_opened: self.experiment_pinned_opened.clone(),
            experiment_hidden_opened: self.experiment_hidden_opened.clone(),
            project_pinned_opened: self.project_pinned_opened.clone(),
            project_hidden_opened: self.project_hidden_opened.clone(),
            experiment_alias: copy_aliases(&self.experiment_alias),
            groups: copy_groups(&self.groups),
            next_group_id: self.next_group_id,
        };
        proof {
            assert(r@ =~= self@);
        }
        r
    }

    /// Overridden chart status, or the database value when no override exists.
    pub fn chart_status(&self, id: i64, db_value: i64) -> (r: i64)
        ensures
            r == overridden_int(self@.chart_status, id, db_value),
    {
        match self.chart_status.get(&id) {
            Some(v) => *v,
            None => db_value,
        }
    }

    /// Overridden namespace `opened`, or the database value.
    pub fn apply_namespace_opened(&self, id: i64, db_value: Json) -> (r: Json)
        ensures
            r@ == overridden(self@.namespace_opened, id, db_value@),
    {
        overlaid(&self.namespace_opened, id, db_value)
    }

    /// Overridden experiment `show`, or the database value.
    pub fn apply_experiment_show(&self, id: i64, db_value: Json) -> (r: Json)
        ensures
            r@ == overridden(self@.experiment_show, id, db_value@),
    {
        overlaid(&self.experiment_show, id, db_value)
    }

    /// Overridden `pinned_opened` of an experiment, or the database value.
    pub fn apply_experiment_pinned(&self, id: i64, db_value: Json) -> (r: Json)
        ensures
            r@ == overridden(self@.experiment_pinned_opened, id, db_value@),
    {
        overlaid(&self.experiment_pinned_opened, id, db_value)
    }

    /// Overridden `hidden_opened` of an experiment, or the database value.
    pub fn apply_experiment_hidden(&self, id: i64, db_value: Json) -> (r: Json)
        ensures
            r@ == overridden(self@.experiment_hidden_opened, id, db_value@),
    {
        overlaid(&self.experiment_hidden_opened, id, db_value)
    }

    /// Overridden `pinned_opened` of a project, or the database value.
    pub fn apply_project_pinned(&self, id: i64, db_value: Json) -> (r: Json)
        ensures
            r@ == overridden(self@.project_pinned_opened, id, db_value@),
    {
        overlaid(&self.project_pinned_opened, id, db_value)
    }

    /// Overridden `hidden_opened` of a project, or the database value.
    pub fn apply_project_hidden(&self, id: i64, db_value: Json) -> (r: Json)
        ensures
            r@ == overridden(self@.project_hidden_opened, id, db_value@),
    {
        overlaid(&self.project_hidden_opened, id, db_value)
    }

    /// The alias of an experiment where there is one that is not empty.
    pub fn alias(&self, run_id: &str) -> (r: Option<&str>)
        ensures
            (match r {
                Some(a) => alias_of(self@, run_id@) == Some(a@),
                None => alias_of(self@, run_id@) is None,
            }),
    {
        let ghost all = self.experiment_alias@;
        let mut n: usize = self.experiment_alias.len();
        proof {
            assert(all.take(n as int) =~= all);
        }
        while n > 0
            invariant
                n <= self.experiment_alias.len(),
                all == self.experiment_alias@,
                alias_map(all).contains_key(run_id@) == alias_map(
                    all.take(n as int),
                ).contains_key(run_id@),
                alias_map(all).contains_key(run_id@) ==> alias_map(all)[run_id@] == alias_map(
                    all.take(n as int),
                )[run_id@],
            decreases n,
        {
            proof {
                assert(all.take(n as int).drop_last() =~= all.take(n - 1));
            }
            if same_text(self.experiment_alias[n - 1].0.as_str(), run_id) {
                let a = self.experiment_alias[n - 1].1.as_str();
                if a.is_empty() {
                    return None;
                } else {
                    return Some(a);
                }
            }
            n -= 1;
        }
        None
    }
}

fn copy_aliases(s: &Vec<(String, String)>) -> (r: Vec<(String, String)>)
    ensures
        alias_map(r@) == alias_map(s@),
{
    let mut r: Vec<(String, String)> = Vec::new();
    let mut i: usize = 0;
    while i < s.len()
        invariant
            i <= s.len(),
            alias_map(r@) == alias_map(s@.take(i as int)),
        decreases s.len() - i,
    {
        let ghost before = r@;
        let pair = (s[i].0.clone(), s[i].1.clone());
        r.push(pair);
        proof {
            assert(s@.take(i + 1).drop_last() =~= s@.take(i as int));
            assert(r@.drop_last() =~= before);
        }
        i += 1;
    }
    proof {
        assert(s@.take(s@.len() as int) =~= s@);
    }
    r
}

/// The alias of `run_id` where there is one that is not empty.
pub open spec fn alias_of(o: OverlayV, run_id: Seq<char>) -> Option<Seq<char>> {
    if o.experiment_alias.contains_key(run_id) && o.experiment_alias[run_id].len() > 0 {
        Some(o.experiment_alias[run_id])
    } else {
        None
    }
}

// ---------------------------------- changes to an overlay ----------------------------------

/// The overlay with one entry of `chart_status` set.
pub open spec fn with_chart_status(o: OverlayV, id: i64, value: i64) -> OverlayV {
    OverlayV { chart_status: o.chart_status.insert(id, value), ..o }
}

/// The overlay with one entry of `namespace_opened` set.
pub open spec fn with_namespace_opened(o: OverlayV, id: i64, value: i64) -> OverlayV {
    OverlayV { namespace_opened: o.namespace_opened.insert(id, value), ..o }
}

/// The overlay with one entry of `experiment_show` set.
pub open spec fn with_experiment_show(o: OverlayV, id: i64, value: i64) -> OverlayV {
    OverlayV { experiment_show: o.experiment_show.insert(id, value), ..o }
}

/// The overlay with one entry of `experiment_pinned_opened` set.
pub open spec fn with_experiment_pinned_opened(o: OverlayV, id: i64, value: i64) -> OverlayV {
    OverlayV { experiment_pinned_opened: o.experiment_pinned_opened.insert(id, value), ..o }
}

/// The overlay with one entry of `experiment_hidden_opened` set.
pub open spec fn with_experiment_hidden_opened(o: OverlayV, id: i64, value: i64) -> OverlayV {
    OverlayV { experiment_hidden_opened: o.experiment_hidden_opened.insert(id, value), ..o }
}

/// The overlay with one entry of `project_pinned_opened` set.
pub open spec fn with_project_pinned_opened(o: OverlayV, id: i64, value: i64) -> OverlayV {
    OverlayV { project_pinned_opened: o.project_pinned_opened.insert(id, value), ..o }
}

/// The overlay with one entry of `project_hidden_opened` set.
pub open spec fn with_project_hidden_opened(o: OverlayV, id: i64, value: i64) -> OverlayV {
    OverlayV { project_hidden_opened: o.project_hidden_opened.insert(id, value), ..o }
}

/// The place of the first group with the id `gid`, or the number of groups when there is none.
pub open spec fn group_place(groups: Seq<GroupV>, gid: i64) -> int
    decreases groups.len(),
{
    if groups.len() == 0 || groups[0].id == gid {
        0
    } else {
        1 + group_place(groups.drop_first(), gid)
    }
}

/// Whether some group has the id `gid`.
pub open spec fn has_group(groups: Seq<GroupV>, gid: i64) -> bool {
    exists|i: int| 0 <= i < groups.len() && (#[trigger] groups[i]).id == gid
}

/// What `group_place` finds.
pub proof fn lemma_group_place(groups: Seq<GroupV>, gid: i64)
    ensures
        0 <= group_place(groups, gid) <= groups.len(),
        group_place(groups, gid) < groups.len() ==> groups[group_place(groups, gid)].id == gid,
        forall|j: int| 0 <= j < group_place(groups, gid) ==> (#[trigger] groups[j]).id != gid,
        has_group(groups, gid) <==> group_place(groups, gid) < groups.len(),
    decreases groups.len(),
{
    if groups.len() > 0 && groups[0].id != gid {
        lemma_group_place(groups.drop_first(), gid);
        assert forall|j: int| 0 <= j < group_place(groups, gid) implies (
        #[trigger] groups[j]).id != gid by {
            if j > 0 {
                assert(groups.drop_first()[j - 1] == groups[j]);
            }
        }
    }
}

/// The run ids of `s`, each where it first stands.
pub open spec fn dedup(s: Seq<Seq<char>>) -> Seq<Seq<char>>
    decreases s.len(),
{
    if s.len() == 0 {
        Seq::empty()
    } else {
        let d = dedup(s.drop_last());
        if d.contains(s.last()) {
            d
        } else {
            d.push(s.last())
        }
    }
}

/// The id that the next group gets: one at least.
pub open spec fn next_id(o: OverlayV) -> i64 {
    if o.next_group_id > 1 {
        o.next_group_id
    } else {
        1
    }
}

/// The group that is created, where the limits on groups and on their members allow it.
pub open spec fn created_group(o: OverlayV, name: Seq<char>, members: Seq<Seq<char>>) -> Option<
    GroupV,
> {
    if o.groups.len() >= MAX_GROUPS || dedup(members).len() > MAX_GROUP_MEMBERS {
        None
    } else {
        Some(GroupV { id: next_id(o), name, members: dedup(members) })
    }
}

/// The overlay after the creation of a group.
pub open spec fn with_group(o: OverlayV, name: Seq<char>, members: Seq<Seq<char>>) -> OverlayV {
    match created_group(o, name, members) {
        Some(g) => OverlayV {
            groups: o.groups.push(g),
            next_group_id: (next_id(o) + 1) as i64,
            ..o
        },
        None => o,
    }
}

/// The overlay with another name for the group `gid`.
pub open spec fn with_group_name(o: OverlayV, gid: i64, name: Seq<char>) -> OverlayV {
    let i = group_place(o.groups, gid);
    if i < o.groups.len() {
        OverlayV { groups: o.groups.update(i, GroupV { name, ..o.groups[i] }), ..o }
    } else {
        o
    }
}

/// The groups whose id is not `gid`.
pub open spec fn groups_without(groups: Seq<GroupV>, gid: i64) -> Seq<GroupV> {
    groups.filter(|g: GroupV| g.id != gid)
}

/// The overlay without the group `gid`.
pub open spec fn without_group(o: OverlayV, gid: i64) -> OverlayV {
    OverlayV { groups: groups_without(o.groups, gid), ..o }
}

/// Whether `run_id` is in the group `gid` once it was asked to join: the group exists, and holds
/// it already or has room.
pub open spec fn member_fits(o: OverlayV, gid: i64, run_id: Seq<char>) -> bool {
    let i = group_place(o.groups, gid);
    i < o.groups.len() && (o.groups[i].members.contains(run_id) || o.groups[i].members.len()
        < MAX_GROUP_MEMBERS)
}

/// The overlay after `run_id` joined the group `gid`, where it can.
pub open spec fn with_group_member(o: OverlayV, gid: i64, run_id: Seq<char>) -> OverlayV {
    let i = group_place(o.groups, gid);
    if member_fits(o, gid, run_id) && !o.groups[i].members.contains(run_id) {
        OverlayV {
            groups: o.groups.update(
                i,
                GroupV { members: o.groups[i].members.push(run_id), ..o.groups[i] },
            ),
            ..o
        }
    } else {
        o
    }
}

/// The test that every text but `x` passes.
pub open spec fn other_than(x: Seq<char>) -> spec_fn(Seq<char>) -> bool {
    |m: Seq<char>| m != x
}

/// The overlay after `run_id` left the group `gid`.
pub open spec fn without_group_member(o: OverlayV, gid: i64, run_id: Seq<char>) -> OverlayV {
    let i = group_place(o.groups, gid);
    if i < o.groups.len() {
        OverlayV {
            groups: o.groups.update(
                i,
                GroupV {
                    members: o.groups[i].members.filter(other_than(run_id)),
                    ..o.groups[i]
                },
            ),
            ..o
        }
    } else {
        o
    }
}

/// The overlay after an experiment's alias was set, or cleared by nothing or an empty text.
pub open spec fn with_alias(o: OverlayV, run_id: Seq<char>, alias: Option<Seq<char>>) -> OverlayV {
    OverlayV {
        experiment_alias: match alias {
            Some(a) => if a.len() > 0 {
                o.experiment_alias.insert(run_id, a)
            } else {
                o.experiment_alias.remove(run_id)
            },
            None => o.experiment_alias.remove(run_id),
        },
        ..o
    }
}

/// What an optional group says.
pub open spec fn optional_group(g: Option<Group>) -> Option<GroupV> {
    match g {
        Some(x) => Some(x@),
        None => None,
    }
}

/// Drops duplicate run ids while preserving first-seen order.
pub fn dedup_preserve(items: &Vec<String>) -> (r: Vec<String>)
    ensures
        text::texts(r@) == dedup(text::texts(items@)),
{
    let ghost all = text::texts(items@);
    let mut r: Vec<String> = Vec::new();
    let mut i: usize = 0;
    proof {
        assert(text::texts(r@) =~= dedup(all.take(0)));
    }
    while i < items.len()
        invariant
            i <= items.len(),
            all == text::texts(items@),
            text::texts(r@) == dedup(all.take(i as int)),
        decreases items.len() - i,
    {
        let ghost before = r@;
        proof {
            assert(all.take(i + 1).drop_last() =~= all.take(i as int));
            assert(all.take(i + 1).last() == items@[i as int]@);
        }
        if !has_text(&r, items[i].as_str()) {
            r.push(items[i].clone());
            proof {
                assert(text::texts(r@) =~= text::texts(before).push(items@[i as int]@));
            }
        }
        i += 1;
    }
    proof {
        assert(all.take(all.len() as int) =~= all);
    }
    r
}

/// The place of the group with the id `gid`, or the number of groups.
pub fn place_of_group(groups: &Vec<Group>, gid: i64) -> (n: usize)
    ensures
        n == group_place(groups_view(groups@), gid),
        n <= groups.len(),
{
    let ghost all = groups_view(groups@);
    let mut n: usize = 0;
    while n < groups.len()
        invariant
            n <= groups.len(),
            all == groups_view(groups@),
            forall|j: int| 0 <= j < n ==> (#[trigger] all[j]).id != gid,
        decreases groups.len() - n,
    {
        if groups[n].id == gid {
            proof {
                lemma_group_place(all, gid);
                assert(all[n as int].id == gid);
            }
            return n;
        }
        n += 1;
    }
    proof {
        lemma_group_place(all, gid);
    }
    n
}

fn groups_except(groups: &Vec<Group>, gid: i64) -> (r: Vec<Group>)
    ensures
        groups_view(r@) == groups_without(groups_view(groups@), gid),
{
    let ghost all = groups_view(groups@);
    let ghost keep = |g: GroupV| g.id != gid;
    let mut r: Vec<Group> = Vec::new();
    let mut i: usize = 0;
    proof {
        reveal(Seq::filter);
        assert(groups_view(r@) =~= all.take(0).filter(keep));
    }
    while i < groups.len()
        invariant
            i <= groups.len(),
            all == groups_view(groups@),
            keep == (|g: GroupV| g.id != gid),
            groups_view(r@) == all.take(i as int).filter(keep),
        decreases groups.len() - i,
    {
        let ghost before = r@;
        proof {
            seqs::lemma_filter_push(all.take(i as int), keep, all[i as int]);
            assert(all.take(i + 1) =~= all.take(i as int).push(all[i as int]));
        }
        if groups[i].id != gid {
            r.push(copy_group(&groups[i]));
            proof {
                assert(groups_view(r@) =~= groups_view(before).push(all[i as int]));
            }
        }
        i += 1;
    }
    proof {
        assert(all.take(all.len() as int) =~= all);
    }
    r
}

fn texts_except(items: &Vec<String>, drop: &str) -> (r: Vec<String>)
    ensures
        text::texts(r@) == text::texts(items@).filter(other_than(drop@)),
{
    let ghost all = text::texts(items@);
    let ghost keep = other_than(drop@);
    let mut r: Vec<String> = Vec::new();
    let mut i: usize = 0;
    proof {
        reveal(Seq::filter);
        assert(text::texts(r@) =~= all.take(0).filter(keep));
    }
    while i < items.len()
        invariant
            i <= items.len(),
            all == text::texts(items@),
            keep == other_than(drop@),
            text::texts(r@) == all.take(i as int).filter(keep),
        decreases items.len() - i,
    {
        let ghost before = r@;
        proof {
            seqs::lemma_filter_push(all.take(i as int), keep, all[i as int]);
            assert(all.take(i + 1) =~= all.take(i as int).push(all[i as int]));
        }
        if !same_text(items[i].as_str(), drop) {
            r.push(items[i].clone());
            proof {
                assert(text::texts(r@) =~= text::texts(before).push(all[i as int]));
            }
        }
        i += 1;
    }
    proof {
        assert(all.take(all.len() as int) =~= all);
    }
    r
}

// ---------------------------------- the state ----------------------------------

/// The overlay in force. A change takes effect only once it has been stored: each of the changing
/// methods hands the changed overlay to `store`, and keeps it only where that succeeds.
#[derive(Debug)]
pub struct UiState {
    inner: UiOverlay,
}

impl View for UiState {
    type V = OverlayV;

    closed spec fn view(&self) -> OverlayV {
        self.inner@
    }
}

/// Whether `store` can be handed the overlay `next`.
pub open spec fn storable<E, F: FnOnce(&UiOverlay) -> Result<(), E>>(
    store: F,
    next: OverlayV,
) -> bool {
    forall|o: &UiOverlay| o@ == next ==> #[trigger] store.requires((o,))
}

/// Whether `store` was handed the overlay `next` and answered `answer`.
pub open spec fn stored<E, F: FnOnce(&UiOverlay) -> Result<(), E>>(
    store: F,
    next: OverlayV,
    answer: Result<(), E>,
) -> bool {
    exists|o: &UiOverlay| o@ == next && #[trigger] store.ensures((o,), answer)
}

impl UiState {
    /// The state that starts from the stored overlay, or from an empty one where none was stored
    /// or it could not be read.
    pub fn load(stored: Option<UiOverlay>) -> (r: UiState)
        ensures
            r@ == (match stored {
                Some(o) => o@,
                None => empty_overlay(),
            }),
    {
        match stored {
            Some(o) => UiState { inner: o },
            None => UiState { inner: UiOverlay::empty() },
        }
    }

    /// A copy of the current overlay.
    pub fn snapshot(&self) -> (r: UiOverlay)
        ensures
            r@ == self@,
    {
        self.inner.copy()
    }

    /// Hands `next` to `store` and keeps it only after that succeeded.
    fn mutate<E, F: FnOnce(&UiOverlay) -> Result<(), E>>(
        &mut self,
        next: UiOverlay,
        store: F,
    ) -> (r: Result<(), E>)
        requires
            storable(store, next@),
        ensures
            stored(store, next@, r),
            r is Ok ==> final(self)@ == next@,
            r is Err ==> final(self)@ == old(self)@,
    {
        let r = store(&next);
        if r.is_ok() {
            self.inner = next;
        }
        r
    }

    /// Overrides the status of a chart: 1 pinned, 0 normal, -1 hidden.
    pub fn set_chart_status<E, F: FnOnce(&UiOverlay) -> Result<(), E>>(
        &mut self,
        chart_id: i64,
        value: i64,
        store: F,
    ) -> (r: Result<(), E>)
        requires
            storable(store, with_chart_status(old(self)@, chart_id, value)),
        ensures
            stored(store, with_chart_status(old(self)@, chart_id, value), r),
            r is Ok ==> final(self)@ == with_chart_status(old(self)@, chart_id, value),
            r is Err ==> final(self)@ == old(self)@,
    {
        let mut next = self.snapshot();
        next.chart_status.insert(chart_id, value);
        proof {
            assert(next@ =~= with_chart_status(self@, chart_id, value));
        }
        self.mutate(next, store)
    }

    /// Overrides whether a namespace is open.
    pub fn set_namespace_opened<E, F: FnOnce(&UiOverlay) -> Result<(), E>>(
        &mut self,
        namespace_id: i64,
        value: i64,
        store: F,
    ) -> (r: Result<(), E>)
        requires
            storable(store, with_namespace_opened(old(self)@, namespace_id, value)),
        ensures
            stored(store, with_namespace_opened(old(self)@, namespace_id, value), r),
            r is Ok ==> final(self)@ == with_namespace_opened(old(self)@, namespace_id, value),
            r is Err ==> final(self)@ == old(self)@,
    {
        let mut next = self.snapshot();
        next.namespace_opened.insert(namespace_id, value);
        proof {
            assert(next@ =~= with_namespace_opened(self@, namespace_id, value));
        }
        self.mutate(next, store)
    }

    /// Overrides whether an experiment is shown.
    pub fn set_experiment_show<E, F: FnOnce(&UiOverlay) -> Result<(), E>>(
        &mut self,
        experiment_id: i64,
        value: i64,
        store: F,
    ) -> (r: Result<(), E>)
        requires
            storable(store, with_experiment_show(old(self)@, experiment_id, value)),
        ensures
            stored(store, with_experiment_show(old(self)@, experiment_id, value), r),
            r is Ok ==> final(self)@ == with_experiment_show(old(self)@, experiment_id, value),
            r is Err ==> final(self)@ == old(self)@,
    {
        let mut next = self.snapshot();
        next.experiment_show.insert(experiment_id, value);
        proof {
            assert(next@ =~= with_experiment_show(self@, experiment_id, value));
        }
        self.mutate(next, store)
    }

    /// Overrides whether the pinned charts of an experiment are open.
    pub fn set_experiment_pinned<E, F: FnOnce(&UiOverlay) -> Result<(), E>>(
        &mut self,
        experiment_id: i64,
        value: i64,
        store: F,
    ) -> (r: Result<(), E>)
        requires
            storable(store, with_experiment_pinned_opened(old(self)@, experiment_id, value)),
        ensures
            stored(store, with_experiment_pinned_opened(old(self)@, experiment_id, value), r),
            r is Ok ==> final(self)@ == with_experiment_pinned_opened(old(self)@, experiment_id, value),
            r is Err ==> final(self)@ == old(self)@,
    {
        let mut next = self.snapshot();
        next.experiment_pinned_opened.insert(experiment_id, value);
        proof {
            assert(next@ =~= with_experiment_pinned_opened(self@, experiment_id, value));
        }
        self.mutate(next, store)
    }

    /// Overrides whether the hidden charts of an experiment are open.
    pub fn set_experiment_hidden<E, F: FnOnce(&UiOverlay) -> Result<(), E>>(
        &mut self,
        experiment_id: i64,
        value: i64,
        store: F,
    ) -> (r: Result<(), E>)
        requires
            storable(store, with_experiment_hidden_opened(old(self)@, experiment_id, value)),
        ensures
            stored(store, with_experiment_hidden_opened(old(self)@, experiment_id, value), r),
            r is Ok ==> final(self)@ == with_experiment_hidden_opened(old(self)@, experiment_id, value),
            r is Err ==> final(self)@ == old(self)@,
    {
        let mut next = self.snapshot();
        next.experiment_hidden_opened.insert(experiment_id, value);
        proof {
            assert(next@ =~= with_experiment_hidden_opened(self@, experiment_id, value));
        }
        self.mutate(next, store)
    }

    /// Overrides whether the pinned charts of a project are open.
    pub fn set_project_pinned<E, F: FnOnce(&UiOverlay) -> Result<(), E>>(
        &mut self,
        project_id: i64,
        value: i64,
        store: F,
    ) -> (r: Result<(), E>)
        requires
            storable(store, with_project_pinned_opened(old(self)@, project_id, value)),
        ensures
            stored(store, with_project_pinned_opened(old(self)@, project_id, value), r),
            r is Ok ==> final(self)@ == with_project_pinned_opened(old(self)@, project_id, value),
            r is Err ==> final(self)@ == old(self)@,
    {
        let mut next = self.snapshot();
        next.project_pinned_opened.insert(project_id, value);
        proof {
            assert(next@ =~= with_project_pinned_opened(self@, project_id, value));
        }
        self.mutate(next, store)
    }

    /// Overrides whether the hidden charts of a project are open.
    pub fn set_project_hidden<E, F: FnOnce(&UiOverlay) -> Result<(), E>>(
        &mut self,
        project_id: i64,
        value: i64,
        store: F,
    ) -> (r: Result<(), E>)
        requires
            storable(store, with_project_hidden_opened(old(self)@, project_id, value)),
        ensures
            stored(store, with_project_hidden_opened(old(self)@, project_id, value), r),
            r is Ok ==> final(self)@ == with_project_hidden_opened(old(self)@, project_id, value),
            r is Err ==> final(self)@ == old(self)@,
    {
        let mut next = self.snapshot();
        next.project_hidden_opened.insert(project_id, value);
        proof {
            assert(next@ =~= with_project_hidden_opened(self@, project_id, value));
        }
        self.mutate(next, store)
    }

    /// Sets or clears an experiment's alias. A text that is not empty sets it; nothing or an empty
    /// text removes it, so that the experiment has its database name again.
    pub fn set_experiment_alias<E, F: FnOnce(&UiOverlay) -> Result<(), E>>(
        &mut self,
        run_id: &str,
        alias: Option<String>,
        store: F,
    ) -> (r: Result<(), E>)
        requires
            storable(store, with_alias(old(self)@, run_id@, text::optional_text(alias))),
        ensures
            stored(store, with_alias(old(self)@, run_id@, text::optional_text(alias)), r),
            r is Ok ==> final(self)@ == with_alias(old(self)@, run_id@, text::optional_text(alias)),
            r is Err ==> final(self)@ == old(self)@,
    {
        let ghost wanted = with_alias(self@, run_id@, text::optional_text(alias));
        let mut next = self.snapshot();
        next.experiment_alias = aliases_without(&next.experiment_alias, run_id);
        match alias {
            Some(a) => {
                if !a.as_str().is_empty() {
                    let ghost before = next.experiment_alias@;
                    next.experiment_alias.push((run_id.to_owned(), a));
                    proof {
                        assert(next.experiment_alias@.drop_last() =~= before);
                    }
                }
            },
            None => {},
        }
        proof {
            assert(next@.experiment_alias =~= wanted.experiment_alias);
            assert(next@ =~= wanted);
        }
        self.mutate(next, store)
    }

    /// Creates a group with a fresh id. Returns nothing, and creates nothing, once the limit on groups
    /// is reached or where there are more distinct members than a group can hold.
    pub fn create_group<E, F: FnOnce(&UiOverlay) -> Result<(), E>>(
        &mut self,
        name: String,
        members: &Vec<String>,
        store: F,
    ) -> (r: Result<Option<Group>, E>)
        requires
            created_group(old(self)@, name@, text::texts(members@)) is Some
                ==> old(self)@.next_group_id < i64::MAX,
            storable(store, with_group(old(self)@, name@, text::texts(members@))),
        ensures
            (match r {
                Ok(g) => {
                    &&& stored(
                        store,
                        with_group(old(self)@, name@, text::texts(members@)),
                        Ok::<(), E>(()),
                    )
                    &&& final(self)@ == with_group(old(self)@, name@, text::texts(members@))
                    &&& optional_group(g) == created_group(
                        old(self)@,
                        name@,
                        text::texts(members@),
                    )
                },
                Err(e) => {
                    &&& stored(
                        store,
                        with_group(old(self)@, name@, text::texts(members@)),
                        Err::<(), E>(e),
                    )
                    &&& final(self)@ == old(self)@
                },
            }),
            r matches Ok(Some(g)) ==> g.members.len() <= MAX_GROUP_MEMBERS,
    {
        let ghost wanted = with_group(self@, name@, text::texts(members@));
        let mut next = self.snapshot();
        let mut created: Option<Group> = None;
        let distinct = dedup_preserve(members);
        if next.groups.len() < MAX_GROUPS && distinct.len() <= MAX_GROUP_MEMBERS {
            let id: i64 = if next.next_group_id > 1 {
                next.next_group_id
            } else {
                1
            };
            next.next_group_id = id + 1;
            let g = Group { id, name, members: distinct };
            let ghost before = next.groups@;
            created = Some(copy_group(&g));
            next.groups.push(g);
            proof {
                assert(groups_view(next.groups@) =~= groups_view(before).push(g@));
            }
        }
        proof {
            assert(next@ =~= wanted);
        }
        match self.mutate(next, store) {
            Ok(u) => {
                assert(u == ());
                Ok(created)
            },
            Err(e) => Err(e),
        }
    }

    /// Renames a group. Returns `false` if no group has that id.
    pub fn rename_group<E, F: FnOnce(&UiOverlay) -> Result<(), E>>(
        &mut self,
        gid: i64,
        name: String,
        store: F,
    ) -> (r: Result<bool, E>)
        requires
            storable(store, with_group_name(old(self)@, gid, name@)),
        ensures
            (match r {
                Ok(found) => {
                    &&& stored(store, with_group_name(old(self)@, gid, name@), Ok::<(), E>(()))
                    &&& final(self)@ == with_group_name(old(self)@, gid, name@)
                    &&& found == has_group(old(self)@.groups, gid)
                },
                Err(e) => {
                    &&& stored(store, with_group_name(old(self)@, gid, name@), Err::<(), E>(e))
                    &&& final(self)@ == old(self)@
                },
            }),
    {
        let ghost wanted = with_group_name(self@, gid, name@);
        let mut next = self.snapshot();
        let i = place_of_group(&next.groups, gid);
        let found: bool = i < next.groups.len();
        proof {
            lemma_group_place(self@.groups, gid);
        }
        if found {
            let ghost before = next.groups@;
            let g = Group {
                id: next.groups[i].id,
                name,
                members: copy_texts(&next.groups[i].members),
            };
            next.groups.set(i, g);
            proof {
                assert(groups_view(next.groups@) =~= groups_view(before).update(i as int, g@));
            }
        }
        proof {
            assert(next@ =~= wanted);
        }
        match self.mutate(next, store) {
            Ok(u) => {
                assert(u == ());
                Ok(found)
            },
            Err(e) => Err(e),
        }
    }

    /// Deletes a group. Returns `false` if no group has that id.
    pub fn delete_group<E, F: FnOnce(&UiOverlay) -> Result<(), E>>(
        &mut self,
        gid: i64,
        store: F,
    ) -> (r: Result<bool, E>)
        requires
            storable(store, without_group(old(self)@, gid)),
        ensures
            (match r {
                Ok(found) => {
                    &&& stored(store, without_group(old(self)@, gid), Ok::<(), E>(()))
                    &&& final(self)@ == without_group(old(self)@, gid)
                    &&& found == has_group(old(self)@.groups, gid)
                },
                Err(e) => {
                    &&& stored(store, without_group(old(self)@, gid), Err::<(), E>(e))
                    &&& final(self)@ == old(self)@
                },
            }),
    {
        let ghost wanted = without_group(self@, gid);
        let mut next = self.snapshot();
        let i = place_of_group(&next.groups, gid);
        let found: bool = i < next.groups.len();
        proof {
            lemma_group_place(self@.groups, gid);
        }
        next.groups = groups_except(&next.groups, gid);
        proof {
            assert(next@ =~= wanted);
        }
        match self.mutate(next, store) {
            Ok(u) => {
                assert(u == ());
                Ok(found)
            },
            Err(e) => Err(e),
        }
    }

    /// Adds a member to a group, once. Returns `false` if the group is missing or full.
    pub fn add_member<E, F: FnOnce(&UiOverlay) -> Result<(), E>>(
        &mut self,
        gid: i64,
        run_id: &str,
        store: F,
    ) -> (r: Result<bool, E>)
        requires
            storable(store, with_group_member(old(self)@, gid, run_id@)),
        ensures
            (match r {
                Ok(done) => {
                    &&& stored(store, with_group_member(old(self)@, gid, run_id@), Ok::<(), E>(()))
                    &&& final(self)@ == with_group_member(old(self)@, gid, run_id@)
                    &&& done == member_fits(old(self)@, gid, run_id@)
                },
                Err(e) => {
                    &&& stored(store, with_group_member(old(self)@, gid, run_id@), Err::<(), E>(e))
                    &&& final(self)@ == old(self)@
                },
            }),
    {
        let ghost wanted = with_group_member(self@, gid, run_id@);
        let mut next = self.snapshot();
        let i = place_of_group(&next.groups, gid);
        let mut done: bool = false;
        if i < next.groups.len() {
            proof {
                assert(self@.groups[i as int] == next.groups@[i as int]@);
            }
            if has_text(&next.groups[i].members, run_id) {
                done = true;
            } else if next.groups[i].members.len() < MAX_GROUP_MEMBERS {
                let ghost before = next.groups@;
                let mut members = copy_texts(&next.groups[i].members);
                let ghost earlier = members@;
                members.push(run_id.to_owned());
                proof {
                    assert(text::texts(members@) =~= text::texts(earlier).push(run_id@));
                }
                let g = Group { id: next.groups[i].id, name: next.groups[i].name.clone(), members };
                next.groups.set(i, g);
                proof {
                    assert(groups_view(next.groups@) =~= groups_view(before).update(i as int, g@));
                }
                done = true;
            }
        }
        proof {
            assert(next@ =~= wanted);
        }
        match self.mutate(next, store) {
            Ok(u) => {
                assert(u == ());
                Ok(done)
            },
            Err(e) => Err(e),
        }
    }

    /// Removes a member from a group. Returns `false` if the group is missing; removing a member
    /// that is not there changes nothing.
    pub fn remove_member<E, F: FnOnce(&UiOverlay) -> Result<(), E>>(
        &mut self,
        gid: i64,
        run_id: &str,
        store: F,
    ) -> (r: Result<bool, E>)
        requires
            storable(store, without_group_member(old(self)@, gid, run_id@)),
        ensures
            (match r {
                Ok(found) => {
                    &&& stored(
                        store,
                        without_group_member(old(self)@, gid, run_id@),
                        Ok::<(), E>(()),
                    )
                    &&& final(self)@ == without_group_member(old(self)@, gid, run_id@)
                    &&& found == has_group(old(self)@.groups, gid)
                },
                Err(e) => {
                    &&& stored(
                        store,
                        without_group_member(old(self)@, gid, run_id@),
                        Err::<(), E>(e),
                    )
                    &&& final(self)@ == old(self)@
                },
            }),
    {
        let ghost wanted = without_group_member(self@, gid, run_id@);
        let mut next = self.snapshot();
        let i = place_of_group(&next.groups, gid);
        let found: bool = i < next.groups.len();
        proof {
            lemma_group_place(self@.groups, gid);
        }
        if found {
            let ghost before = next.groups@;
            proof {
                assert(self@.groups[i as int] == next.groups@[i as int]@);
            }
            let g = Group {
                id: next.groups[i].id,
                name: next.groups[i].name.clone(),
                members: texts_except(&next.groups[i].members, run_id),
            };
            next.groups.set(i, g);
            proof {
                assert(groups_view(next.groups@) =~= groups_view(before).update(i as int, g@));
            }
        }
        proof {
            assert(next@ =~= wanted);
        }
        match self.mutate(next, store) {
            Ok(u) => {
                assert(u == ());
                Ok(found)
            },
            Err(e) => Err(e),
        }
    }
}

// ---------------------------------- truth values ----------------------------------

/// Whether a JSON value counts as true: `true`, a number other than zero, and a text, list or
/// object that is not empty.
pub open spec fn truthy(j: JsonV) -> bool {
    match j {
        JsonV::Null => false,
        JsonV::Bool(b) => b,
        JsonV::Int(i) => i != 0,
        JsonV::Real(bits) => bits != 0 && bits != 0x8000_0000_0000_0000,
        JsonV::Str(s) => s.len() > 0,
        JsonV::Array(a) => a.len() > 0,
        JsonV::Object(o) => o.len() > 0,
    }
}

/// 1 where the value counts as true, else 0.
pub fn truthy_to_int(v: &Json) -> (r: i64)
    ensures
        r == (if truthy(v@) {
            1int
        } else {
            0
        }),
{
    let yes: bool = match v {
        Json::Null => false,
        Json::Bool(b) => *b,
        Json::Int(i) => *i != 0,
        Json::UInt(u) => *u != 0,
        Json::Real(bits) => *bits != 0 && *bits != 0x8000_0000_0000_0000,
        Json::Str(s) => !s.as_str().is_empty(),
        Json::Array(a) => a.len() > 0,
        Json::Object(m) => m.entries.len() > 0,
    };
    if yes {
        1
    } else {
        0
    }
}

} // verus!
