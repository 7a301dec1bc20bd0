//! Which namespace shows a chart: pinned and hidden charts leave their own namespaces for two
//! dynamic ones.

use std::collections::HashSet;

use vstd::prelude::*;

use crate::json::{self, Json, JsonMap, JsonV, json_ints, json_text};
use crate::order::{self, order_by};
use crate::seqs;

verus! {

/// A namespace: its members but for `charts`, and the ids of its charts.
#[derive(Debug, PartialEq)]
pub struct Namespace {
    pub fields: JsonMap,
    pub charts: Vec<i64>,
}

/// What a namespace says.
pub struct NamespaceV {
    pub fields: Seq<(Seq<char>, JsonV)>,
    pub charts: Seq<i64>,
}

impl View for Namespace {
    type V = NamespaceV;

    open spec fn view(&self) -> NamespaceV {
        NamespaceV { fields: self.fields@, charts: self.charts@ }
    }
}

/// What the namespaces of a list say.
pub open spec fn namespaces_view(s: Seq<Namespace>) -> Seq<NamespaceV> {
    s.map_values(|n: Namespace| n@)
}

/// The object of a namespace.
pub open spec fn namespace_json(n: NamespaceV) -> JsonV {
    JsonV::Object(json::with_member(n.fields, "charts"@, json::integers(n.charts)))
}

/// The objects of namespaces.
pub open spec fn namespaces_json(s: Seq<NamespaceV>) -> Seq<JsonV> {
    s.map_values(|n: NamespaceV| namespace_json(n))
}

/// The test that charts with a status pass. A chart is its id, its status and its sort key.
pub open spec fn has_status(status: int) -> spec_fn((i64, i64, i64)) -> bool {
    |c: (i64, i64, i64)| c.1 == status
}

/// The sort keys of charts.
pub open spec fn sort_keys(charts: Seq<(i64, i64, i64)>) -> Seq<i64> {
    charts.map_values(|c: (i64, i64, i64)| c.2)
}

/// The ids of charts, taken in some order.
pub open spec fn ids_in_order(charts: Seq<(i64, i64, i64)>, places: Seq<usize>) -> Seq<i64> {
    places.map_values(|i: usize| charts[i as int].0)
}

/// The ids of the charts that have `status`, by sort key; charts with one key stay in order.
pub open spec fn ids_with_status(charts: Seq<(i64, i64, i64)>, status: int) -> Seq<i64> {
    let chosen = charts.filter(has_status(status));
    ids_in_order(chosen, order::stable_order(sort_keys(chosen)))
}

/// Whether a chart with the id `id` has a status other than the normal one.
pub open spec fn is_moved(charts: Seq<(i64, i64, i64)>, id: i64) -> bool {
    exists|k: int| 0 <= k < charts.len() && (#[trigger] charts[k]).0 == id && charts[k].1 != 0
}

/// The test that the ids of charts that stay in their namespaces pass.
pub open spec fn stays(charts: Seq<(i64, i64, i64)>) -> spec_fn(i64) -> bool {
    |id: i64| !is_moved(charts, id)
}

/// The namespaces with the charts that stay there; a namespace without any is dropped.
pub open spec fn remaining(charts: Seq<(i64, i64, i64)>, list: Seq<NamespaceV>) -> Seq<NamespaceV>
    decreases list.len(),
{
    if list.len() == 0 {
        Seq::empty()
    } else {
        let before = remaining(charts, list.drop_last());
        let ids = list.last().charts.filter(stays(charts));
        if ids.len() == 0 {
            before
        } else {
            before.push(NamespaceV { fields: list.last().fields, charts: ids })
        }
    }
}

/// The dynamic namespace for charts of one status; nothing where there are none.
pub open spec fn dynamic(
    id: int,
    name: Seq<char>,
    ids: Seq<i64>,
    opened: JsonV,
    experiment: JsonV,
    project: JsonV,
) -> Seq<JsonV> {
    if ids.len() == 0 {
        Seq::empty()
    } else {
        seq![
            JsonV::Object(
                seq![
                    ("id"@, JsonV::Int(id)),
                    ("name"@, JsonV::Str(name)),
                    ("charts"@, json::integers(ids)),
                    ("opened"@, opened),
                    ("experiment_id"@, experiment),
                    ("project_id"@, project),
                ],
            ),
        ]
    }
}

/// The namespaces as they are shown: the pinned charts first, then what remains of the namespaces,
/// and the hidden charts last.
pub open spec fn pinned_hidden(
    charts: Seq<(i64, i64, i64)>,
    list: Seq<NamespaceV>,
    experiment: JsonV,
    project: JsonV,
    pinned_opened: JsonV,
    hidden_opened: JsonV,
) -> Seq<JsonV> {
    if charts.len() == 0 || list.len() == 0 {
        namespaces_json(list)
    } else {
        dynamic(-1, "pinned"@, ids_with_status(charts, 1), pinned_opened, experiment, project)
            + namespaces_json(remaining(charts, list)) + dynamic(
            -2,
            "hidden"@,
            ids_with_status(charts, -1),
            hidden_opened,
            experiment,
            project,
        )
    }
}

fn charts_with_status(charts: &Vec<(i64, i64, i64)>, status: i64) -> (r: Vec<(i64, i64, i64)>)
    ensures
        r@ == charts@.filter(has_status(status as int)),
{
    let mut r: Vec<(i64, i64, i64)> = Vec::new();
    let mut i: usize = 0;
    proof {
        reveal(Seq::filter);
        assert(r@ =~= charts@.take(0).filter(has_status(status as int)));
    }
    while i < charts.len()
        invariant
            i <= charts.len(),
            r@ == charts@.take(i as int).filter(has_status(status as int)),
        decreases charts.len() - i,
    {
        proof {
            seqs::lemma_filter_push(charts@.take(i as int), has_status(status as int), charts@[i as int]);
            assert(charts@.take(i + 1) =~= charts@.take(i as int).push(charts@[i as int]));
        }
        if charts[i].1 == status {
            r.push(charts[i]);
        }
        i += 1;
    }
    proof {
        assert(charts@.take(charts@.len() as int) =~= charts@);
    }
    r
}

fn placed(charts: &Vec<(i64, i64, i64)>, status: i64) -> (r: Vec<i64>)
    ensures
        r@ == ids_with_status(charts@, status as int),
{
    let chosen = charts_with_status(charts, status);
    let mut keys: Vec<i64> = Vec::new();
    let mut i: usize = 0;
    while i < chosen.len()
        invariant
            i <= chosen.len(),
            keys.len() == i,
            forall|j: int| 0 <= j < i ==> #[trigger] keys@[j] == chosen@[j].2,
        decreases chosen.len() - i,
    {
        keys.push(chosen[i].2);
        i += 1;
    }
    proof {
        assert(keys@ =~= sort_keys(chosen@));
    }
    let places = order_by(&keys);
    let mut r: Vec<i64> = Vec::new();
    let mut k: usize = 0;
    while k < places.len()
        invariant
            k <= places.len(),
            order::is_stable_order(keys@, places@),
            keys.len() == chosen.len(),
            r.len() == k,
            forall|j: int| 0 <= j < k ==> #[trigger] r@[j] == chosen@[places@[j] as int].0,
        decreases places.len() - k,
    {
        let p: usize = places[k];
        r.push(chosen[p].0);
        k += 1;
    }
    proof {
        assert(r@ =~= ids_in_order(chosen@, places@));
    }
    r
}

fn moved_ids(charts: &Vec<(i64, i64, i64)>) -> (r: HashSet<i64>)
    ensures
        forall|id: i64| #[trigger] r@.contains(id) <==> is_moved(charts@, id),
{
    let mut r: HashSet<i64> = HashSet::new();
    let mut i: usize = 0;
    while i < charts.len()
        invariant
            i <= charts.len(),
            forall|id: i64| #[trigger] r@.contains(id) <==> is_moved(charts@.take(i as int), id),
        decreases charts.len() - i,
    {
        let ghost before = charts@.take(i as int);
        let ghost after = charts@.take(i + 1);
        let c = charts[i];
        if c.1 != 0 {
            r.insert(c.0);
        }
        proof {
            assert forall|id: i64| #[trigger] r@.contains(id) <==> is_moved(after, id) by {
                if is_moved(before, id) {
                    let k = choose|k: int|
                        0 <= k < before.len() && (#[trigger] before[k]).0 == id && before[k].1 != 0;
                    assert(after[k] == before[k]);
                }
                if is_moved(after, id) {
                    let k = choose|k: int|
                        0 <= k < after.len() && (#[trigger] after[k]).0 == id && after[k].1 != 0;
                    if k < i {
                        assert(before[k] == after[k]);
                    }
                }
                assert(after[i as int] == c);
            }
        }
        i += 1;
    }
    proof {
        assert(charts@.take(charts@.len() as int) =~= charts@);
    }
    r
}

fn staying(ids: &Vec<i64>, moved: &HashSet<i64>, Ghost(charts): Ghost<Seq<(i64, i64, i64)>>) -> (r:
    Vec<i64>)
    requires
        forall|id: i64| #[trigger] moved@.contains(id) <==> is_moved(charts, id),
    ensures
        r@ == ids@.filter(stays(charts)),
{
    let mut r: Vec<i64> = Vec::new();
    let mut i: usize = 0;
    proof {
        reveal(Seq::filter);
        assert(r@ =~= ids@.take(0).filter(stays(charts)));
    }
    while i < ids.len()
        invariant
            i <= ids.len(),
            forall|id: i64| #[trigger] moved@.contains(id) <==> is_moved(charts, id),
            r@ == ids@.take(i as int).filter(stays(charts)),
        decreases ids.len() - i,
    {
        let id: i64 = ids[i];
        proof {
            seqs::lemma_filter_push(ids@.take(i as int), stays(charts), id);
            assert(ids@.take(i + 1) =~= ids@.take(i as int).push(id));
        }
        if !moved.contains(&id) {
            r.push(id);
        }
        i += 1;
    }
    proof {
        assert(ids@.take(ids@.len() as int) =~= ids@);
    }
    r
}

fn remaining_namespaces(charts: &Vec<(i64, i64, i64)>, list: &Vec<Namespace>) -> (r: Vec<Namespace>)
    ensures
        namespaces_view(r@) == remaining(charts@, namespaces_view(list@)),
{
    let moved = moved_ids(charts);
    let ghost all = namespaces_view(list@);
    let mut r: Vec<Namespace> = Vec::new();
    let mut i: usize = 0;
    proof {
        assert(namespaces_view(r@) =~= remaining(charts@, all.take(0)));
    }
    while i < list.len()
        invariant
            i <= list.len(),
            all == namespaces_view(list@),
            forall|id: i64| #[trigger] moved@.contains(id) <==> is_moved(charts@, id),
            namespaces_view(r@) == remaining(charts@, all.take(i as int)),
        decreases list.len() - i,
    {
        let ghost before = r@;
        let ids = staying(&list[i].charts, &moved, Ghost(charts@));
        proof {
            assert(all.take(i + 1).drop_last() =~= all.take(i as int));
            assert(all.take(i + 1).last() == list@[i as int]@);
        }
        if ids.len() > 0 {
            let n = Namespace { fields: list[i].fields.copy(), charts: ids };
            r.push(n);
            proof {
                assert(namespaces_view(r@) =~= namespaces_view(before).push(n@));
            }
        }
        i += 1;
    }
    proof {
        assert(all.take(all.len() as int) =~= all);
    }
    r
}

fn push_namespaces(out: &mut Vec<Json>, list: Vec<Namespace>)
    ensures
        json::list_view(*final(out)) == json::list_view(*old(out)) + namespaces_json(
            namespaces_view(list@),
        ),
{
    let ghost start = json::list_view(*out);
    let ghost all = namespaces_json(namespaces_view(list@));
    let mut i: usize = 0;
    proof {
        assert(start + all.take(0) =~= start);
    }
    while i < list.len()
        invariant
            i <= list.len(),
            all == namespaces_json(namespaces_view(list@)),
            json::list_view(*out) == start + all.take(i as int),
        decreases list.len() - i,
    {
        let ghost before = *out;
        let mut m = list[i].fields.copy();
        m.set("charts", json_ints(&list[i].charts));
        let v = Json::Object(m);
        out.push(v);
        proof {
            json::lemma_list_push(before, *out, v);
            assert(v@ == all[i as int]);
            assert(start + all.take(i + 1) =~= (start + all.take(i as int)).push(all[i as int]));
        }
        i += 1;
    }
    proof {
        assert(all.take(all.len() as int) =~= all);
    }
}

fn push_dynamic(
    out: &mut Vec<Json>,
    id: i64,
    name: &str,
    ids: &Vec<i64>,
    opened: &Json,
    experiment: &Json,
    project: &Json,
)
    ensures
        json::list_view(*final(out)) == json::list_view(*old(out)) + dynamic(
            id as int,
            name@,
            ids@,
            opened@,
            experiment@,
            project@,
        ),
{
    let ghost before = *out;
    if ids.len() > 0 {
        let mut m = JsonMap::new();
        m.append("id", Json::Int(id));
        m.append("name", json_text(name));
        m.append("charts", json_ints(ids));
        m.append("opened", opened.copy());
        m.append("experiment_id", experiment.copy());
        m.append("project_id", project.copy());
        let ghost made = dynamic(id as int, name@, ids@, opened@, experiment@, project@);
        let v = Json::Object(m);
        out.push(v);
        proof {
            json::lemma_list_push(before, *out, v);
            assert(made[0]->Object_0 =~= m@);
            assert(json::list_view(before) + made =~= json::list_view(before).push(v@));
        }
    } else {
        proof {
            assert(json::list_view(before) + Seq::<JsonV>::empty() =~= json::list_view(before));
        }
    }
}

/// Places the charts `(id, status, sort)`: status 1 goes to the dynamic namespace `pinned` with the
/// id -1, status -1 to `hidden` with the id -2, and no chart with a status other than 0 stays in
/// its own namespace.
pub fn apply_pinned_hidden(
    charts: &Vec<(i64, i64, i64)>,
    ns_list: Vec<Namespace>,
    dyn_expid: &Json,
    dyn_projid: &Json,
    pinned_opened: &Json,
    hidden_opened: &Json,
) -> (r: Vec<Json>)
    ensures
        json::list_view(r) == pinned_hidden(
            charts@,
            namespaces_view(ns_list@),
            dyn_expid@,
            dyn_projid@,
            pinned_opened@,
            hidden_opened@,
        ),
{
    let mut out: Vec<Json> = Vec::new();
    proof {
        assert(json::list_view(out) =~= Seq::empty());
        assert(forall|s: Seq<JsonV>| Seq::<JsonV>::empty() + s =~= s);
    }
    if charts.len() == 0 || ns_list.len() == 0 {
        push_namespaces(&mut out, ns_list);
        return out;
    }
    let pinned = placed(charts, 1);
    let hidden = placed(charts, -1);
    push_dynamic(&mut out, -1, "pinned", &pinned, pinned_opened, dyn_expid, dyn_projid);
    push_namespaces(&mut out, remaining_namespaces(charts, &ns_list));
    push_dynamic(&mut out, -2, "hidden", &hidden, hidden_opened, dyn_expid, dyn_projid);
    out
}

// ---------------------------------- laws ----------------------------------

/// Whether some chart has the id `id` and the status `status`.
pub open spec fn chart_has(charts: Seq<(i64, i64, i64)>, id: i64, status: int) -> bool {
    exists|k: int| 0 <= k < charts.len() && (#[trigger] charts[k]).0 == id && charts[k].1 == status
}

/// A dynamic namespace shows exactly the charts that have its status.
pub proof fn law_dynamic_shows_its_status(charts: Seq<(i64, i64, i64)>, status: int, id: i64)
    requires
        charts.len() <= usize::MAX,
    ensures
        ids_with_status(charts, status).len() == charts.filter(has_status(status)).len(),
        ids_with_status(charts, status).contains(id) <==> chart_has(charts, id, status),
{
    let chosen = charts.filter(has_status(status));
    let keys = sort_keys(chosen);
    seqs::lemma_filter_holds(charts, has_status(status));
    order::lemma_stable_order_exists(keys);
    let p = order::stable_order(keys);
    let ids = ids_with_status(charts, status);
    if ids.contains(id) {
        let i = choose|i: int| 0 <= i < ids.len() && ids[i] == id;
        assert(0 <= p[i] < keys.len());
        assert(charts.contains(chosen[p[i] as int]));
        let k = choose|k: int| 0 <= k < charts.len() && charts[k] == chosen[p[i] as int];
        assert(charts[k].0 == id);
    }
    if chart_has(charts, id, status) {
        let k = choose|k: int|
            0 <= k < charts.len() && (#[trigger] charts[k]).0 == id && charts[k].1 == status;
        seqs::lemma_filter_keeps(charts, has_status(status), k);
        let m = choose|m: int| 0 <= m < chosen.len() && chosen[m] == charts[k];
        assert(p.contains(m as usize));
        let i = choose|i: int| 0 <= i < p.len() && p[i] == m as usize;
        assert(ids[i] == id);
    }
}

/// A dynamic namespace shows its charts by sort key.
pub proof fn law_dynamic_is_sorted(charts: Seq<(i64, i64, i64)>, status: int, i: int, j: int)
    requires
        charts.len() <= usize::MAX,
        0 <= i < j < ids_with_status(charts, status).len(),
    ensures
        ({
            let chosen = charts.filter(has_status(status));
            let p = order::stable_order(sort_keys(chosen));
            &&& ids_with_status(charts, status)[i] == chosen[p[i] as int].0
            &&& ids_with_status(charts, status)[j] == chosen[p[j] as int].0
            &&& chosen[p[i] as int].2 <= chosen[p[j] as int].2
            &&& chosen[p[i] as int].2 == chosen[p[j] as int].2 ==> p[i] < p[j]
        }),
{
    let chosen = charts.filter(has_status(status));
    let keys = sort_keys(chosen);
    seqs::lemma_filter_holds(charts, has_status(status));
    order::lemma_stable_order_exists(keys);
    let p = order::stable_order(keys);
    assert(order::goes_before(keys, p[i] as int, p[j] as int));
}

/// A namespace that remains is not empty, shows no chart whose status is not the normal one, and
/// shows none that it did not hold before.
pub proof fn law_remaining_are_normal(
    charts: Seq<(i64, i64, i64)>,
    list: Seq<NamespaceV>,
    i: int,
    id: i64,
)
    requires
        0 <= i < remaining(charts, list).len(),
    ensures
        remaining(charts, list)[i].charts.len() > 0,
        remaining(charts, list)[i].charts.contains(id) ==> !is_moved(charts, id),
        exists|k: int|
            0 <= k < list.len() && (#[trigger] list[k]).fields == remaining(charts, list)[i].fields
                && remaining(charts, list)[i].charts == list[k].charts.filter(stays(charts)),
    decreases list.len(),
{
    let t = list.drop_last();
    let before = remaining(charts, t);
    seqs::lemma_filter_holds(list.last().charts, stays(charts));
    if i < before.len() {
        law_remaining_are_normal(charts, t, i, id);
        let k = choose|k: int|
            0 <= k < t.len() && (#[trigger] t[k]).fields == before[i].fields && before[i].charts
                == t[k].charts.filter(stays(charts));
        assert(list[k] == t[k]);
    } else {
        assert(list[list.len() - 1] == list.last());
    }
}

/// A chart with the normal status stays in every namespace that holds it.
pub proof fn law_normal_charts_stay(
    charts: Seq<(i64, i64, i64)>,
    list: Seq<NamespaceV>,
    k: int,
    id: i64,
)
    requires
        0 <= k < list.len(),
        list[k].charts.contains(id),
        !is_moved(charts, id),
    ensures
        exists|i: int|
            0 <= i < remaining(charts, list).len() && (#[trigger] remaining(
                charts,
                list,
            )[i]).fields == list[k].fields && remaining(charts, list)[i].charts.contains(id),
    decreases list.len(),
{
    let t = list.drop_last();
    let before = remaining(charts, t);
    let after = remaining(charts, list);
    if k < t.len() {
        assert(t[k] == list[k]);
        law_normal_charts_stay(charts, t, k, id);
        let i = choose|i: int|
            0 <= i < before.len() && (#[trigger] before[i]).fields == t[k].fields
                && before[i].charts.contains(id);
        assert(after[i] == before[i]);
    } else {
        let n = choose|n: int| 0 <= n < list[k].charts.len() && list[k].charts[n] == id;
        seqs::lemma_filter_keeps(list[k].charts, stays(charts), n);
        assert(list[k].charts.filter(stays(charts)).len() > 0);
        assert(after[before.len() as int].charts.contains(id));
    }
}

/// No chart is shown twice: one that is pinned or hidden is in no namespace that remains.
pub proof fn law_pinned_and_hidden_leave(
    charts: Seq<(i64, i64, i64)>,
    list: Seq<NamespaceV>,
    i: int,
    id: i64,
)
    requires
        charts.len() <= usize::MAX,
        0 <= i < remaining(charts, list).len(),
        remaining(charts, list)[i].charts.contains(id),
    ensures
        !ids_with_status(charts, 1).contains(id),
        !ids_with_status(charts, -1).contains(id),
{
    law_remaining_are_normal(charts, list, i, id);
    law_dynamic_shows_its_status(charts, 1, id);
    law_dynamic_shows_its_status(charts, -1, id);
}

/// Where every chart has the normal status, namespaces that hold charts are shown as they are.
pub proof fn law_all_normal_is_no_op(
    charts: Seq<(i64, i64, i64)>,
    list: Seq<NamespaceV>,
    experiment: JsonV,
    project: JsonV,
    pinned_opened: JsonV,
    hidden_opened: JsonV,
)
    requires
        charts.len() <= usize::MAX,
        forall|k: int| 0 <= k < charts.len() ==> (#[trigger] charts[k]).1 == 0,
        forall|k: int| 0 <= k < list.len() ==> (#[trigger] list[k]).charts.len() > 0,
    ensures
        pinned_hidden(charts, list, experiment, project, pinned_opened, hidden_opened)
            == namespaces_json(list),
{
    lemma_all_remain(charts, list);
    seqs::lemma_filter_holds(charts, has_status(1));
    seqs::lemma_filter_holds(charts, has_status(-1));
    if charts.filter(has_status(1)).len() > 0 {
        assert(charts.contains(charts.filter(has_status(1))[0]));
    }
    if charts.filter(has_status(-1)).len() > 0 {
        assert(charts.contains(charts.filter(has_status(-1))[0]));
    }
    law_dynamic_shows_its_status(charts, 1, 0);
    law_dynamic_shows_its_status(charts, -1, 0);
    assert(Seq::<JsonV>::empty() + namespaces_json(list) + Seq::<JsonV>::empty()
        =~= namespaces_json(list));
}

proof fn lemma_all_remain(charts: Seq<(i64, i64, i64)>, list: Seq<NamespaceV>)
    requires
        forall|k: int| 0 <= k < charts.len() ==> (#[trigger] charts[k]).1 == 0,
        forall|k: int| 0 <= k < list.len() ==> (#[trigger] list[k]).charts.len() > 0,
    ensures
        remaining(charts, list) == list,
    decreases list.len(),
{
    if list.len() > 0 {
        let t = list.drop_last();
        assert forall|k: int| 0 <= k < t.len() implies (#[trigger] t[k]).charts.len() > 0 by {
            assert(list[k] == t[k]);
        }
        lemma_all_remain(charts, t);
        seqs::lemma_filter_all(list.last().charts, stays(charts));
        assert(list[list.len() - 1].charts.len() > 0);
        assert(t.push(list.last()) =~= list);
    }
}

} // verus!
