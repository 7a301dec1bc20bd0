//! What requests ask for, and what they are answered.

use vstd::prelude::*;

use crate::api::{self, DictRows, Failure, OpenTarget};
use crate::api_fastsl;
use crate::charts::ProjectRows;
use crate::comparisons::{self, OwnerRows};
use crate::json::{self, Json, JsonV};
use crate::overlay_laws;
use crate::records;
use crate::resp;
use crate::seqs;
use crate::text;
use crate::uistate::{self, GroupV, OverlayV, UiOverlay};

verus! {

// ---------------------------------- answers ----------------------------------

/// An answer has the code and the message of its kind, and data where it succeeds with some.
pub proof fn law_answers(data: JsonV, message: Seq<char>)
    ensures
        ({
            let r = resp::success_reply(data);
            &&& r.status == 200
            &&& json::field(r.body, "code"@) == Some(JsonV::Int(0))
            &&& json::field(r.body, "message"@) == Some(JsonV::Str("success"@))
            &&& json::field(r.body, "data"@) == Some(data)
        }),
        ({
            let r = resp::empty_reply();
            &&& r.status == 200
            &&& json::field(r.body, "code"@) == Some(JsonV::Int(0))
            &&& json::field(r.body, "message"@) == Some(JsonV::Str("success"@))
            &&& json::field(r.body, "data"@) is None
        }),
        ({
            let r = resp::params_reply(message);
            &&& r.status == 422
            &&& json::field(r.body, "code"@) == Some(JsonV::Int(3422))
            &&& json::field(r.body, "message"@) == Some(JsonV::Str(message))
        }),
        ({
            let r = resp::missing_reply(message);
            &&& r.status == 404
            &&& json::field(r.body, "code"@) == Some(JsonV::Int(3404))
            &&& json::field(r.body, "message"@) == Some(JsonV::Str(message))
        }),
        ({
            let r = resp::failure_reply(message);
            &&& r.status == 500
            &&& json::field(r.body, "code"@) == Some(JsonV::Int(3500))
            &&& json::field(r.body, "message"@) == Some(JsonV::Str(message))
        }),
{
    reveal_strlit("code");
    reveal_strlit("message");
    reveal_strlit("data");
    assert("code"@.len() == 4);
    assert("message"@.len() == 7);
    assert("data"@.len() == 4);
    assert("code"@[0] != "data"@[0]);
    lemma_envelope(resp::success_reply(data).body->Object_0);
    lemma_envelope(resp::empty_reply().body->Object_0);
    lemma_envelope(resp::params_reply(message).body->Object_0);
    lemma_envelope(resp::missing_reply(message).body->Object_0);
    lemma_envelope(resp::failure_reply(message).body->Object_0);
}

proof fn lemma_envelope(o: Seq<(Seq<char>, JsonV)>)
    requires
        o.len() == 2 || (o.len() == 3 && o[2].0 == "data"@),
        o[0].0 == "code"@,
        o[1].0 == "message"@,
        "code"@ != "message"@ && "code"@ != "data"@ && "message"@ != "data"@,
    ensures
        json::member(o, "code"@) == Some(o[0].1),
        json::member(o, "message"@) == Some(o[1].1),
        o.len() == 3 ==> json::member(o, "data"@) == Some(o[2].1),
        o.len() == 2 ==> json::member(o, "data"@) is None,
{
    json::lemma_find_key_is(o, "code"@, 0);
    json::lemma_find_key_is(o, "message"@, 1);
    json::lemma_find_key_is(o, "data"@, 2);
}

/// A page that was read is the data of a success; one that does not exist is answered as missing; a
/// failure is answered with its own text.
pub proof fn law_answers_with_pages(j: Json, f: Failure, missing: Seq<char>)
    ensures
        api::payload_reply(Ok(j)) == resp::success_reply(j@),
        api::payload_reply(Err(f)) == resp::failure_reply(api::failure_text(f)),
        api::optional_reply(Ok(Some(j)), missing) == resp::success_reply(j@),
        api::optional_reply(Ok(None), missing) == resp::missing_reply(missing),
        api::optional_reply(Err(f), missing) == resp::failure_reply(api::failure_text(f)),
        f matches Failure::Read(e) ==> api::failure_text(f) == e@,
        f matches Failure::Task(e) ==> api::failure_text(f) == e@,
{
}

/// A change is either stored and answered as done, or refused by the store, answered as a failure, and
/// leaves the overlay as it was.
pub proof fn law_settled<F: FnOnce(&UiOverlay) -> Result<(), String>>(
    store: F,
    before: OverlayV,
    next: OverlayV,
    after: OverlayV,
    done: resp::ResponseV,
    r: resp::ResponseV,
)
    requires
        api::settled(store, before, next, after, done, r),
    ensures
        (after == next && r == done) || (after == before && r.status == 500),
{
}

// ---------------------------------- opening namespaces ----------------------------------

/// A request to open or close a namespace sets exactly what it names: the pinned charts (-1) or the
/// hidden ones (-2) of the experiment, or of the project where no experiment is given, or else the
/// namespace itself. It opens where its member `opened` counts as true, and closes else.
pub proof fn law_request_opens_what_it_names(
    o: OverlayV,
    namespace_id: i64,
    body: JsonV,
    opened: JsonV,
    id: i64,
)
    requires
        json::field(body, "opened"@) == Some(opened),
        !(opened is Null),
    ensures
        ({
            let value = if uistate::truthy(opened) {
                1i64
            } else {
                0i64
            };
            let q = api::open_request(namespace_id, body);
            let by_experiment = json::field(body, "experiment_id"@) == Some(JsonV::Int(id as int));
            let by_project = json::field(body, "experiment_id"@) is None && json::field(
                body,
                "project_id"@,
            ) == Some(JsonV::Int(id as int));
            &&& namespace_id == -1 && by_experiment ==> (q matches Ok(x) && api::with_opened(o, x)
                == uistate::with_experiment_pinned_opened(o, id, value))
            &&& namespace_id == -2 && by_experiment ==> (q matches Ok(x) && api::with_opened(o, x)
                == uistate::with_experiment_hidden_opened(o, id, value))
            &&& namespace_id == -1 && by_project ==> (q matches Ok(x) && api::with_opened(o, x)
                == uistate::with_project_pinned_opened(o, id, value))
            &&& namespace_id == -2 && by_project ==> (q matches Ok(x) && api::with_opened(o, x)
                == uistate::with_project_hidden_opened(o, id, value))
            &&& namespace_id != -1 && namespace_id != -2 ==> (q matches Ok(x) && api::with_opened(
                o,
                x,
            ) == uistate::with_namespace_opened(o, namespace_id, value))
        }),
{
}

/// A request without `opened` is refused, and so is one for pinned or hidden charts that names neither
/// an experiment nor a project.
pub proof fn law_refused_open_requests(namespace_id: i64, body: JsonV)
    ensures
        json::field(body, "opened"@) is None || json::field(body, "opened"@) == Some(JsonV::Null)
            ==> (api::open_request(namespace_id, body) matches Err(r) && r.status == 422),
        (namespace_id == -1 || namespace_id == -2) && json::field(body, "experiment_id"@) is None
            && json::field(body, "project_id"@) is None ==> (api::open_request(
            namespace_id,
            body,
        ) matches Err(r) && r.status == 422),
{
}

/// What is missing is named: the namespace, or the experiment.
pub proof fn law_missing_targets_are_named(id: i64)
    ensures
        api::missing_target(OpenTarget::Namespace(id)) == "Namespace with id "@ + text::int_text(
            id as int,
        ) + " does not exist."@,
        api::missing_target(OpenTarget::ExperimentPinned(id)) == "Experiment or project with id "@
            + text::int_text(id as int) + " does not exist."@,
        api::missing_target(OpenTarget::ExperimentHidden(id)) == "Experiment or project with id "@
            + text::int_text(id as int) + " does not exist."@,
{
}

// ---------------------------------- charts and experiments ----------------------------------

/// A request for the status of a chart gives the integer under `status`, and is refused without one.
pub proof fn law_status_request(body: JsonV, status: i64)
    ensures
        json::field(body, "status"@) == Some(JsonV::Int(status as int)) ==> api::status_request(body)
            == Ok::<i64, resp::ResponseV>(status),
        json::field(body, "status"@) is None ==> (api::status_request(body) matches Err(r)
            && r.status == 422),
        json::field(body, "status"@) matches Some(v) ==> !(v is Int) ==> (api::status_request(
            body,
        ) matches Err(r) && r.status == 422),
{
}

/// A change of a chart is answered with the groups of its owner, as the overlay now has them.
pub proof fn law_groups_answer(
    rows: Result<Option<OwnerRows>, Failure>,
    overlay: OverlayV,
    v: JsonV,
)
    ensures
        rows matches Err(f) ==> api::groups_reply(rows, overlay) == resp::failure_reply(
            api::failure_text(f),
        ),
        rows matches Ok(owner) ==> (comparisons::groups_outcome(owner, overlay) == Ok::<
            Option<JsonV>,
            records::DbError,
        >(Some(v)) ==> api::groups_reply(rows, overlay) == resp::success_reply(v)),
        rows matches Ok(owner) ==> (comparisons::groups_outcome(owner, overlay) == Ok::<
            Option<JsonV>,
            records::DbError,
        >(None) ==> api::groups_reply(rows, overlay).status == 422),
        rows matches Ok(owner) ==> (comparisons::groups_outcome(owner, overlay) is Err
            ==> api::groups_reply(rows, overlay).status == 500),
{
}

/// A value counts as 1 where it is true, and as 0 else; a member is missing where it is not there or
/// null.
pub proof fn law_truth(v: JsonV, body: JsonV, key: Seq<char>)
    ensures
        uistate::truthy(v) ==> api::truth(v) == 1,
        !uistate::truthy(v) ==> api::truth(v) == 0,
        api::is_missing(body, key) <==> json::field(body, key) is None || json::field(body, key)
            == Some(JsonV::Null),
{
}

/// A change of an experiment is answered with the experiment, as the overlay now has it; one that does
/// not exist is answered as missing.
pub proof fn law_shown_answer(id: i64, d: DictRows, overlay: OverlayV)
    ensures
        d.experiment is None ==> api::shown_reply(id, Ok(d), overlay).status == 404,
        d.experiment is Some && d.project is None ==> api::shown_reply(id, Ok(d), overlay).status
            == 500,
        d.experiment is Some && d.project is Some ==> ({
            let r = api::shown_reply(id, Ok(d), overlay);
            &&& r.status == 200
            &&& json::field(r.body, "data"@) matches Some(data) && json::field(
                data,
                "experiment"@,
            ) == Some(
                records::experiment_dict_view(
                    d.experiment->0@,
                    id,
                    records::project_json(d.project->0@),
                    overlay,
                ),
            )
        }),
{
    if d.experiment is Some && d.project is Some {
        let made = records::experiment_dict_view(
            d.experiment->0@,
            id,
            records::project_json(d.project->0@),
            overlay,
        );
        let data = JsonV::Object(seq![("experiment"@, made)]);
        law_answers(data, Seq::empty());
        json::lemma_find_key_is(data->Object_0, "experiment"@, 0);
    }
}

// ---------------------------------- texts of requests ----------------------------------

/// A text is refused exactly where it is empty or has too many bytes.
pub proof fn law_text_refusal(value: Seq<char>, field: Seq<char>, max_bytes: nat)
    ensures
        api_fastsl::text_refusal(value, field, max_bytes) is None <==> 1 <= value.len()
            && vstd::utf8::encode_utf8(value).len() <= max_bytes,
        api_fastsl::text_refusal(value, field, max_bytes) matches Some(r) ==> r.status == 422,
{
}

/// An alias is the text under `alias`; nothing and null take it away; any other value, and a text or a
/// run id of more than 256 bytes, are refused.
pub proof fn law_alias_request(run_id: Seq<char>, body: JsonV, s: Seq<char>)
    ensures
        ({
            let made = api_fastsl::alias_request(run_id, body);
            let given = json::field(body, "alias"@);
            let fits = vstd::utf8::encode_utf8(run_id).len() <= 256;
            &&& !fits ==> (made matches Err(r) && r.status == 422)
            &&& fits && given == Some(JsonV::Str(s)) && vstd::utf8::encode_utf8(s).len() <= 256
                ==> made == Ok::<Option<Seq<char>>, resp::ResponseV>(Some(s))
            &&& given == Some(JsonV::Str(s)) && vstd::utf8::encode_utf8(s).len() > 256 ==> (
            made matches Err(r) && r.status == 422)
            &&& fits && (given is None || given == Some(JsonV::Null)) ==> made == Ok::<
                Option<Seq<char>>,
                resp::ResponseV,
            >(None)
            &&& given is Some && !(given->0 is Null) && !(given->0 is Str) ==> (made matches Err(r)
                && r.status == 422)
        }),
{
}

/// The name of a group is the text under `name` without white space at its ends, where that is neither
/// empty nor too long.
pub proof fn law_name_request(body: JsonV, s: Seq<char>)
    ensures
        json::field(body, "name"@) == Some(JsonV::Str(s)) ==> {
            let t = text::trimmed(s);
            if 1 <= t.len() && vstd::utf8::encode_utf8(t).len() <= 128 {
                api_fastsl::name_request(body) == Ok::<Seq<char>, resp::ResponseV>(t)
            } else {
                api_fastsl::name_request(body) matches Err(r) && r.status == 422
            }
        },
        !(json::field(body, "name"@) matches Some(JsonV::Str(_))) ==> (api_fastsl::name_request(
            body,
        ) matches Err(r) && r.status == 422),
{
}

/// The run id of a request is the text under `run_id`, where that is neither empty nor too long.
pub proof fn law_run_id_request(body: JsonV, s: Seq<char>)
    ensures
        json::field(body, "run_id"@) == Some(JsonV::Str(s)) ==> {
            if 1 <= s.len() && vstd::utf8::encode_utf8(s).len() <= 256 {
                api_fastsl::run_id_request(body) == Ok::<Seq<char>, resp::ResponseV>(s)
            } else {
                api_fastsl::run_id_request(body) matches Err(r) && r.status == 422
            }
        },
        !(json::field(body, "run_id"@) matches Some(JsonV::Str(_))) ==> (api_fastsl::run_id_request(
            body,
        ) matches Err(r) && r.status == 422),
{
}

// ---------------------------------- members of requests ----------------------------------

/// Members that are all texts of an allowed length are all taken, without repetitions, in the order in
/// which they first come.
pub proof fn law_all_members_are_taken(items: Seq<JsonV>, texts: Seq<Seq<char>>)
    requires
        items.len() == texts.len(),
        forall|i: int| 0 <= i < items.len() ==> #[trigger] items[i] == JsonV::Str(texts[i]),
        forall|i: int|
            0 <= i < texts.len() ==> 1 <= (#[trigger] texts[i]).len() && vstd::utf8::encode_utf8(
                texts[i],
            ).len() <= 256,
    ensures
        api_fastsl::member_list(items) == Ok::<Seq<Seq<char>>, resp::ResponseV>(
            uistate::dedup(texts),
        ),
    decreases items.len(),
{
    if items.len() > 0 {
        let t = items.drop_last();
        let u = texts.drop_last();
        assert forall|i: int| 0 <= i < t.len() implies #[trigger] t[i] == JsonV::Str(u[i]) by {
            assert(t[i] == items[i]);
        }
        assert forall|i: int| 0 <= i < u.len() implies 1 <= (#[trigger] u[i]).len()
            && vstd::utf8::encode_utf8(u[i]).len() <= 256 by {
            assert(u[i] == texts[i]);
        }
        law_all_members_are_taken(t, u);
        assert(items[items.len() - 1] == JsonV::Str(texts[texts.len() - 1]));
    }
}

/// One member that is no text of an allowed length has the request refused.
pub proof fn law_bad_members_are_refused(items: Seq<JsonV>, i: int)
    requires
        0 <= i < items.len(),
        !(items[i] matches JsonV::Str(s) && 1 <= s.len() && vstd::utf8::encode_utf8(s).len()
            <= 256),
    ensures
        api_fastsl::member_list(items) matches Err(r) && r.status == 422,
    decreases items.len(),
{
    let t = items.drop_last();
    if i < t.len() {
        assert(t[i] == items[i]);
        law_bad_members_are_refused(t, i);
    } else {
        lemma_refusals(t);
    }
}

proof fn lemma_refusals(items: Seq<JsonV>)
    ensures
        api_fastsl::member_list(items) matches Err(r) ==> r.status == 422,
    decreases items.len(),
{
    if items.len() > 0 {
        lemma_refusals(items.drop_last());
    }
}

/// The members of a request are those of the list under `members`, none without a list, and the
/// request is refused where the list has more than 500 items or is no list.
pub proof fn law_members_request(body: JsonV, items: Seq<JsonV>)
    ensures
        json::field(body, "members"@) == Some(JsonV::Array(items)) && items.len() <= 500
            ==> api_fastsl::members_request(body) == api_fastsl::member_list(items),
        json::field(body, "members"@) == Some(JsonV::Array(items)) && items.len() > 500 ==> (
        api_fastsl::members_request(body) matches Err(r) && r.status == 422),
        json::field(body, "members"@) is None || json::field(body, "members"@) == Some(JsonV::Null)
            ==> api_fastsl::members_request(body) == Ok::<Seq<Seq<char>>, resp::ResponseV>(
            Seq::empty(),
        ),
        json::field(body, "members"@) matches Some(v) ==> !(v is Null) && !(v is Array) ==> (
        api_fastsl::members_request(body) matches Err(r) && r.status == 422),
{
}

/// A request for a group gives its name and its members, and is refused where either is.
pub proof fn law_group_request(body: JsonV)
    ensures
        api_fastsl::name_request(body) matches Ok(n) ==> (api_fastsl::members_request(body) matches Ok(
            m,
        ) ==> api_fastsl::group_request(body) == Ok::<(Seq<char>, Seq<Seq<char>>), resp::ResponseV>(
            (n, m),
        )),
        api_fastsl::name_request(body) matches Err(r) ==> api_fastsl::group_request(body) == Err::<
            (Seq<char>, Seq<Seq<char>>),
            resp::ResponseV,
        >(r),
        api_fastsl::name_request(body) is Ok ==> (api_fastsl::members_request(body) matches Err(r)
            ==> api_fastsl::group_request(body) == Err::<
            (Seq<char>, Seq<Seq<char>>),
            resp::ResponseV,
        >(r)),
{
}

/// A member of a request is kept exactly where an experiment has its run id, and the members that are
/// kept stand in their order.
pub proof fn law_existing_members(
    members: Seq<Seq<char>>,
    experiments: Vec<(String, i64)>,
    i: int,
)
    requires
        0 <= i < members.len(),
    ensures
        api_fastsl::existing_members(members, Ok(experiments)) matches Ok(kept) && {
            &&& kept.contains(members[i]) <==> exists|k: int|
                0 <= k < experiments@.len() && (#[trigger] experiments@[k]).0@ == members[i]
            &&& kept == members.filter(
                |m: Seq<char>| records::id_of_run(experiments@, m) is Some,
            )
        },
{
    let keep = api_fastsl::known(experiments@);
    assert(keep =~= (|m: Seq<char>| records::id_of_run(experiments@, m) is Some));
    let kept = members.filter(keep);
    seqs::lemma_filter_holds(members, keep);
    records::lemma_run_place(experiments@, members[i]);
    let n = records::run_place(experiments@, members[i]);
    if exists|k: int| 0 <= k < experiments@.len() && (#[trigger] experiments@[k]).0@ == members[i] {
        let k = choose|k: int|
            0 <= k < experiments@.len() && (#[trigger] experiments@[k]).0@ == members[i];
        if n >= experiments@.len() {
            assert(experiments@[k].0@ != members[i]);
        }
        seqs::lemma_filter_keeps(members, keep, i);
    }
    if kept.contains(members[i]) {
        let m = choose|m: int| 0 <= m < kept.len() && kept[m] == members[i];
        assert(keep(kept[m]));
        assert(experiments@[n].0@ == members[i]);
    }
}

// ---------------------------------- groups ----------------------------------

/// A group is shown with its id, its name and all its members in order.
pub proof fn law_shown_group(g: GroupV)
    ensures
        json::field(api_fastsl::group_json(g), "id"@) == Some(JsonV::Int(g.id as int)),
        json::field(api_fastsl::group_json(g), "name"@) == Some(JsonV::Str(g.name)),
        json::field(api_fastsl::group_json(g), "members"@) == Some(json::strings(g.members)),
{
    reveal_strlit("id");
    reveal_strlit("name");
    reveal_strlit("members");
    assert("id"@.len() == 2);
    assert("name"@.len() == 4);
    assert("members"@.len() == 7);
    let o = api_fastsl::group_json(g)->Object_0;
    json::lemma_find_key_is(o, "id"@, 0);
    json::lemma_find_key_is(o, "name"@, 1);
    json::lemma_find_key_is(o, "members"@, 2);
}

/// The preferences show every group, in order, and the aliases.
pub proof fn law_shown_preferences(pairs: Seq<(String, String)>, groups: Seq<GroupV>, i: int)
    ensures
        ({
            let page = api_fastsl::ui_payload(pairs, groups);
            &&& json::field(page, "aliases"@) == Some(
                JsonV::Object(api_fastsl::alias_members(pairs)),
            )
            &&& json::field(page, "groups"@) matches Some(JsonV::Array(list)) && {
                &&& list.len() == groups.len()
                &&& 0 <= i < groups.len() ==> list[i] == api_fastsl::group_json(groups[i])
            }
        }),
{
    reveal_strlit("aliases");
    reveal_strlit("groups");
    assert("aliases"@.len() == 7);
    assert("groups"@.len() == 6);
    let o = api_fastsl::ui_payload(pairs, groups)->Object_0;
    json::lemma_find_key_is(o, "aliases"@, 0);
    json::lemma_find_key_is(o, "groups"@, 1);
}

/// A group that was created is the answer; where none was, the request is refused. A change of a group
/// is acknowledged where the group was found, and else answered as missing.
pub proof fn law_group_answers(g: GroupV, gid: i64)
    ensures
        api_fastsl::created_reply(None).status == 422,
        ({
            let r = api_fastsl::created_reply(Some(g));
            &&& r.status == 200
            &&& json::field(r.body, "data"@) matches Some(data) && json::field(data, "group"@)
                == Some(api_fastsl::group_json(g))
        }),
        api_fastsl::ack_reply(true, gid) == resp::empty_reply(),
        api_fastsl::ack_reply(false, gid).status == 404,
        api_fastsl::ack_reply(false, gid) == resp::missing_reply(
            "Group with id "@ + text::int_text(gid as int) + " does not exist."@,
        ),
{
    let data = JsonV::Object(seq![("group"@, api_fastsl::group_json(g))]);
    law_answers(data, Seq::empty());
    json::lemma_find_key_is(data->Object_0, "group"@, 0);
}

/// The charts of a group are the comparison of the experiments of its members, in the order of the
/// members, without those that no experiment has; a group that does not exist is missing.
pub proof fn law_charts_of_a_group(
    overlay: OverlayV,
    gid: i64,
    experiments: Vec<(String, i64)>,
    rows: ProjectRows,
    i: int,
    page: JsonV,
)
    ensures
        (forall|k: int| 0 <= k < overlay.groups.len() ==> (#[trigger] overlay.groups[k]).id != gid)
            ==> api_fastsl::group_charts_reply(overlay, gid, Ok(experiments), Ok(rows)).status
            == 404,
        0 <= i < overlay.groups.len() && overlay.groups[i].id == gid && (forall|k: int|
            0 <= k < i ==> (#[trigger] overlay.groups[k]).id != gid)
            && comparisons::comparison_outcome(
            rows,
            overlay,
            Some(records::ids_of_runs(overlay.groups[i].members, experiments@)),
        ) == Ok::<JsonV, records::DbError>(page) ==> api_fastsl::group_charts_reply(
            overlay,
            gid,
            Ok(experiments),
            Ok(rows),
        ) == resp::success_reply(page),
{
    uistate::lemma_group_place(overlay.groups, gid);
    let n = uistate::group_place(overlay.groups, gid);
    if 0 <= i < overlay.groups.len() && overlay.groups[i].id == gid && (forall|k: int|
        0 <= k < i ==> (#[trigger] overlay.groups[k]).id != gid) {
        if n < i {
            assert(overlay.groups[n].id != gid);
        } else if i < n {
            assert(overlay.groups[i].id != gid);
        }
        let members = overlay.groups[i].members;
        if members.len() == 0 {
            assert(members =~= Seq::empty());
            assert(records::ids_of_runs(members, experiments@) =~= Seq::empty());
        }
    }
}

/// The members of a new group are distinct, and each is one of those that the request names.
pub proof fn law_created_members(members: Seq<Seq<char>>, m: Seq<char>)
    ensures
        uistate::dedup(members).no_duplicates(),
        uistate::dedup(members).contains(m) <==> members.contains(m),
{
    overlay_laws::law_dedup_keeps_each_once(members);
}

} // verus!
