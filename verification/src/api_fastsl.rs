//! Answers to the requests for experiment aliases and comparison groups.

use vstd::prelude::*;

use crate::api::{self, Failure, failed};
use crate::charts::ProjectRows;
use crate::comparisons::{self, project_charts_filtered};
use crate::json::{self, Json, JsonMap, JsonV, json_text, json_texts};
use crate::overlay_laws;
use crate::records::{self, ids_for_run_ids, run_id_exists};
use crate::resp::{
    self, Response, ResponseV, data_error, not_found, params_error, success, success_empty,
};
use crate::seqs;
use crate::text::{self, copy_texts, has_text, signed_text, trim_text, unsigned_text};
use crate::uistate::{
    self, Group, GroupV, MAX_GROUP_MEMBERS, MAX_GROUPS, OverlayV, UiOverlay, UiState,
    place_of_group,
};

verus! {

/// Longest alias, in bytes.
pub const MAX_ALIAS_BYTES: usize = 256;

/// Longest name of a group, in bytes.
pub const MAX_GROUP_NAME_BYTES: usize = 128;

/// Longest run id, in bytes.
pub const MAX_RUN_ID_BYTES: usize = 256;

/// The length of a text in bytes.
pub open spec fn byte_len(s: Seq<char>) -> nat {
    vstd::utf8::encode_utf8(s).len()
}

fn bytes_of(s: &str) -> (r: usize)
    ensures
        r == byte_len(s@),
{
    s.as_bytes().len()
}

/// What an optional answer says.
pub open spec fn optional_refusal(r: Option<Response>) -> Option<ResponseV> {
    match r {
        Some(v) => Some(v@),
        None => None,
    }
}

/// The refusal of a text that is empty or too long.
pub open spec fn text_refusal(value: Seq<char>, field: Seq<char>, max_bytes: nat) -> Option<
    ResponseV,
> {
    if value.len() == 0 || byte_len(value) > max_bytes {
        Some(
            resp::params_reply(
                "Request parameter '"@ + field + "' must be 1-"@ + text::nat_text(max_bytes)
                    + " bytes"@,
            ),
        )
    } else {
        None
    }
}

/// Refuses a text that is empty or longer than `max_bytes`.
pub fn validate_text(value: &str, field: &str, max_bytes: usize) -> (r: Option<Response>)
    ensures
        optional_refusal(r) == text_refusal(value@, field@, max_bytes as nat),
{
    if value.is_empty() || bytes_of(value) > max_bytes {
        let mut m = "Request parameter '".to_owned();
        m.append(field);
        m.append("' must be 1-");
        m.append(unsigned_text(max_bytes as u128).as_str());
        m.append(" bytes");
        Some(params_error(m.as_str()))
    } else {
        None
    }
}

// ---------------------------------- aliases and groups ----------------------------------

/// The aliases of experiments under their run ids.
pub open spec fn alias_members(pairs: Seq<(String, String)>) -> Seq<(Seq<char>, JsonV)>
    decreases pairs.len(),
{
    if pairs.len() == 0 {
        Seq::empty()
    } else {
        json::with_member(
            alias_members(pairs.drop_last()),
            pairs.last().0@,
            JsonV::Str(pairs.last().1@),
        )
    }
}

fn aliases_json(pairs: &Vec<(String, String)>) -> (r: JsonMap)
    ensures
        r@ == alias_members(pairs@),
{
    let mut o = JsonMap::new();
    let mut i: usize = 0;
    proof {
        assert(pairs@.take(0).len() == 0);
    }
    while i < pairs.len()
        invariant
            i <= pairs.len(),
            o@ == alias_members(pairs@.take(i as int)),
        decreases pairs.len() - i,
    {
        o.set(pairs[i].0.as_str(), json_text(pairs[i].1.as_str()));
        proof {
            assert(pairs@.take(i + 1).drop_last() =~= pairs@.take(i as int));
            assert(pairs@.take(i + 1).last() == pairs@[i as int]);
        }
        i += 1;
    }
    proof {
        assert(pairs@.take(pairs@.len() as int) =~= pairs@);
    }
    o
}

/// The object of a group.
pub open spec fn group_json(g: GroupV) -> JsonV {
    JsonV::Object(
        seq![
            ("id"@, JsonV::Int(g.id as int)),
            ("name"@, JsonV::Str(g.name)),
            ("members"@, json::strings(g.members)),
        ],
    )
}

fn build_group(g: &Group) -> (r: Json)
    ensures
        r@ == group_json(g@),
{
    let mut m = JsonMap::new();
    m.append("id", Json::Int(g.id));
    m.append("name", json_text(g.name.as_str()));
    m.append("members", json_texts(&g.members));
    proof {
        assert(m@ =~= group_json(g@)->Object_0);
    }
    Json::Object(m)
}

/// The aliases and the groups.
pub open spec fn ui_payload(pairs: Seq<(String, String)>, groups: Seq<GroupV>) -> JsonV {
    JsonV::Object(
        seq![
            ("aliases"@, JsonV::Object(alias_members(pairs))),
            ("groups"@, JsonV::Array(groups.map_values(|g: GroupV| group_json(g)))),
        ],
    )
}

/// The aliases and the groups of an overlay.
pub fn get_ui(snapshot: &UiOverlay) -> (r: Response)
    ensures
        r@ == resp::success_reply(ui_payload(snapshot.experiment_alias@, snapshot@.groups)),
{
    let mut groups: Vec<Json> = Vec::new();
    let mut i: usize = 0;
    while i < snapshot.groups.len()
        invariant
            i <= snapshot.groups.len(),
            groups.len() == i,
            forall|j: int|
                0 <= j < i ==> (#[trigger] groups@[j])@ == group_json(snapshot.groups@[j]@),
        decreases snapshot.groups.len() - i,
    {
        groups.push(build_group(&snapshot.groups[i]));
        i += 1;
    }
    let mut m = JsonMap::new();
    m.append("aliases", Json::Object(aliases_json(&snapshot.experiment_alias)));
    proof {
        assert(json::list_view(groups) =~= snapshot@.groups.map_values(
            |g: GroupV| group_json(g),
        ));
    }
    m.append("groups", Json::Array(groups));
    proof {
        let made = ui_payload(snapshot.experiment_alias@, snapshot@.groups);
        assert(m@ =~= made->Object_0);
    }
    success(Json::Object(m))
}

/// The object of aliases holds exactly the aliases of the overlay, each once.
pub proof fn law_aliases_are_shown(pairs: Seq<(String, String)>, run_id: Seq<char>)
    ensures
        json::distinct_keys(alias_members(pairs)),
        json::member(alias_members(pairs), run_id) == (if uistate::alias_map(
            pairs,
        ).contains_key(run_id) {
            Some(JsonV::Str(uistate::alias_map(pairs)[run_id]))
        } else {
            None
        }),
    decreases pairs.len(),
{
    if pairs.len() > 0 {
        let t = pairs.drop_last();
        law_aliases_are_shown(t, run_id);
        let value = JsonV::Str(pairs.last().1@);
        json::lemma_member_set(alias_members(t), pairs.last().0@, value, run_id);
        json::lemma_set_keeps_distinct(alias_members(t), pairs.last().0@, value);
    }
}

// ---------------------------------- aliases ----------------------------------

/// The alias that a request gives, or the refusal of the request. Nothing, null and an empty text
/// clear the alias.
pub open spec fn alias_request(run_id: Seq<char>, body: JsonV) -> Result<
    Option<Seq<char>>,
    ResponseV,
> {
    if byte_len(run_id) > MAX_RUN_ID_BYTES {
        Err(resp::params_reply("Request parameter 'run_id' is too long"@))
    } else {
        match json::field(body, "alias"@) {
            None => Ok(None),
            Some(JsonV::Null) => Ok(None),
            Some(JsonV::Str(s)) => if byte_len(s) <= MAX_ALIAS_BYTES {
                Ok(Some(s))
            } else {
                Err(resp::params_reply("Request parameter 'alias' is too long"@))
            },
            Some(_) => Err(resp::params_reply("Request parameter 'alias' must be a string"@)),
        }
    }
}

/// What a request for an optional text says.
pub open spec fn optional_text_request(r: Result<Option<String>, Response>) -> Result<
    Option<Seq<char>>,
    ResponseV,
> {
    match r {
        Ok(s) => Ok(text::optional_text(s)),
        Err(e) => Err(e@),
    }
}

/// Reads the alias that a request gives, or refuses the request.
pub fn read_alias(run_id: &str, body: &Json) -> (r: Result<Option<String>, Response>)
    ensures
        optional_text_request(r) == alias_request(run_id@, body@),
{
    if bytes_of(run_id) > MAX_RUN_ID_BYTES {
        return Err(params_error("Request parameter 'run_id' is too long"));
    }
    match body.get("alias") {
        None => Ok(None),
        Some(Json::Null) => Ok(None),
        Some(Json::Str(s)) => if bytes_of(s.as_str()) <= MAX_ALIAS_BYTES {
            Ok(Some(s.clone()))
        } else {
            Err(params_error("Request parameter 'alias' is too long"))
        },
        Some(_) => Err(params_error("Request parameter 'alias' must be a string")),
    }
}

/// Sets or clears the alias of an experiment. `exists` says whether the experiment exists.
pub fn patch_alias<F: FnOnce(&UiOverlay) -> Result<(), String>>(
    ui: &mut UiState,
    run_id: &str,
    body: &Json,
    exists: Result<bool, Failure>,
    store: F,
) -> (r: Response)
    requires
        alias_request(run_id@, body@) matches Ok(a) ==> exists == Ok::<bool, Failure>(true)
            ==> uistate::storable(store, uistate::with_alias(old(ui)@, run_id@, a)),
    ensures
        match alias_request(run_id@, body@) {
            Err(refused) => r@ == refused && final(ui)@ == old(ui)@,
            Ok(a) => match exists {
                Err(f) => r@ == resp::failure_reply(api::failure_text(f)) && final(ui)@
                    == old(ui)@,
                Ok(false) => r@ == resp::missing_reply("experiment not found"@) && final(ui)@
                    == old(ui)@,
                Ok(true) => api::settled(
                    store,
                    old(ui)@,
                    uistate::with_alias(old(ui)@, run_id@, a),
                    final(ui)@,
                    resp::empty_reply(),
                    r@,
                ),
            },
        },
{
    let alias = match read_alias(run_id, body) {
        Ok(a) => a,
        Err(refused) => {
            return refused;
        },
    };
    match exists {
        Err(f) => failed(&f),
        Ok(false) => not_found("experiment not found"),
        Ok(true) => match ui.set_experiment_alias(run_id, alias, store) {
            Ok(u) => {
                assert(u == ());
                success_empty()
            },
            Err(e) => data_error(e.as_str()),
        },
    }
}

// ---------------------------------- groups ----------------------------------

/// The name that a request gives for a group, without white space at its ends, or the refusal of the
/// request.
pub open spec fn name_request(body: JsonV) -> Result<Seq<char>, ResponseV> {
    match json::field(body, "name"@) {
        Some(JsonV::Str(s)) => match text_refusal(
            text::trimmed(s),
            "name"@,
            MAX_GROUP_NAME_BYTES as nat,
        ) {
            Some(refused) => Err(refused),
            None => Ok(text::trimmed(s)),
        },
        _ => Err(resp::params_reply("Request parameter 'name' must be a string"@)),
    }
}

/// What a request for a text says.
pub open spec fn text_request(r: Result<String, Response>) -> Result<Seq<char>, ResponseV> {
    match r {
        Ok(s) => Ok(s@),
        Err(e) => Err(e@),
    }
}

/// Reads the name that a request gives for a group, or refuses the request.
pub fn read_name(body: &Json) -> (r: Result<String, Response>)
    ensures
        text_request(r) == name_request(body@),
{
    match body.get("name") {
        Some(Json::Str(s)) => {
            let name = trim_text(s.as_str());
            match validate_text(name.as_str(), "name", MAX_GROUP_NAME_BYTES) {
                Some(refused) => Err(refused),
                None => Ok(name),
            }
        },
        _ => Err(params_error("Request parameter 'name' must be a string")),
    }
}

/// The run ids that a list gives, each once, or the refusal of the first that is not one.
pub open spec fn member_list(items: Seq<JsonV>) -> Result<Seq<Seq<char>>, ResponseV>
    decreases items.len(),
{
    if items.len() == 0 {
        Ok(Seq::empty())
    } else {
        match member_list(items.drop_last()) {
            Err(refused) => Err(refused),
            Ok(list) => match items.last() {
                JsonV::Str(s) => match text_refusal(s, "run_id"@, MAX_RUN_ID_BYTES as nat) {
                    Some(refused) => Err(refused),
                    None => if list.contains(s) {
                        Ok(list)
                    } else {
                        Ok(list.push(s))
                    },
                },
                _ => Err(
                    resp::params_reply("Request parameter 'members' must contain strings"@),
                ),
            },
        }
    }
}

/// The members that a request gives for a group, or the refusal of the request.
pub open spec fn members_request(body: JsonV) -> Result<Seq<Seq<char>>, ResponseV> {
    match json::field(body, "members"@) {
        None => Ok(Seq::empty()),
        Some(JsonV::Null) => Ok(Seq::empty()),
        Some(JsonV::Array(items)) => if items.len() <= MAX_GROUP_MEMBERS {
            member_list(items)
        } else {
            Err(resp::params_reply("Too many group members"@))
        },
        Some(_) => Err(resp::params_reply("Request parameter 'members' must be an array"@)),
    }
}

/// What a request for a list of texts says.
pub open spec fn texts_request(r: Result<Vec<String>, Response>) -> Result<
    Seq<Seq<char>>,
    ResponseV,
> {
    match r {
        Ok(s) => Ok(text::texts(s@)),
        Err(e) => Err(e@),
    }
}

proof fn lemma_refused_stays(items: Seq<JsonV>, n: int)
    requires
        0 <= n <= items.len(),
        member_list(items.take(n)) is Err,
    ensures
        member_list(items) == member_list(items.take(n)),
    decreases items.len() - n,
{
    if n < items.len() {
        assert(items.take(n + 1).drop_last() =~= items.take(n));
        lemma_refused_stays(items, n + 1);
    } else {
        assert(items.take(n) =~= items);
    }
}

fn read_member_list(items: &Vec<Json>) -> (r: Result<Vec<String>, Response>)
    ensures
        texts_request(r) == member_list(json::list_view(*items)),
{
    let ghost all = json::list_view(*items);
    let mut members: Vec<String> = Vec::new();
    let mut i: usize = 0;
    proof {
        assert(text::texts(members@) =~= Seq::empty());
        assert(all.take(0).len() == 0);
    }
    while i < items.len()
        invariant
            i <= items.len(),
            all == json::list_view(*items),
            member_list(all.take(i as int)) == Ok::<Seq<Seq<char>>, ResponseV>(
                text::texts(members@),
            ),
        decreases items.len() - i,
    {
        proof {
            assert(all.take(i + 1).drop_last() =~= all.take(i as int));
            assert(all.take(i + 1).last() == items@[i as int]@);
        }
        match &items[i] {
            Json::Str(s) => match validate_text(s.as_str(), "run_id", MAX_RUN_ID_BYTES) {
                Some(refused) => {
                    proof {
                        lemma_refused_stays(all, i + 1);
                    }
                    return Err(refused);
                },
                None => if !has_text(&members, s.as_str()) {
                    let ghost before = members@;
                    members.push(s.clone());
                    proof {
                        assert(text::texts(members@) =~= text::texts(before).push(s@));
                    }
                },
            },
            _ => {
                proof {
                    lemma_refused_stays(all, i + 1);
                }
                return Err(params_error("Request parameter 'members' must contain strings"));
            },
        }
        i += 1;
    }
    proof {
        assert(all.take(all.len() as int) =~= all);
    }
    Ok(members)
}

/// Reads the members that a request gives for a group, or refuses the request.
pub fn read_members(body: &Json) -> (r: Result<Vec<String>, Response>)
    ensures
        texts_request(r) == members_request(body@),
{
    match body.get("members") {
        Some(Json::Array(items)) => if items.len() <= MAX_GROUP_MEMBERS {
            read_member_list(items)
        } else {
            Err(params_error("Too many group members"))
        },
        Some(Json::Null) | None => {
            let none: Vec<String> = Vec::new();
            proof {
                assert(text::texts(none@) =~= Seq::empty());
            }
            Ok(none)
        },
        Some(_) => Err(params_error("Request parameter 'members' must be an array")),
    }
}

/// The test that the run ids of experiments pass.
pub open spec fn known(experiments: Seq<(String, i64)>) -> spec_fn(Seq<char>) -> bool {
    |m: Seq<char>| records::id_of_run(experiments, m) is Some
}

fn known_members(members: &Vec<String>, experiments: &Vec<(String, i64)>) -> (r: Vec<String>)
    ensures
        text::texts(r@) == text::texts(members@).filter(known(experiments@)),
{
    let ghost all = text::texts(members@);
    let ghost keep = known(experiments@);
    let mut r: Vec<String> = Vec::new();
    let mut i: usize = 0;
    proof {
        reveal(Seq::filter);
        assert(text::texts(r@) =~= all.take(0).filter(keep));
    }
    while i < members.len()
        invariant
            i <= members.len(),
            all == text::texts(members@),
            keep == known(experiments@),
            text::texts(r@) == all.take(i as int).filter(keep),
        decreases members.len() - i,
    {
        let ghost before = r@;
        proof {
            seqs::lemma_filter_push(all.take(i as int), keep, all[i as int]);
            assert(all.take(i + 1) =~= all.take(i as int).push(all[i as int]));
        }
        if run_id_exists(experiments, members[i].as_str()) {
            r.push(members[i].clone());
            proof {
                assert(text::texts(r@) =~= text::texts(before).push(all[i as int]));
            }
        }
        i += 1;
    }
    proof {
        assert(all.take(all.len() as int) =~= all);
    }
    r
}

/// A request for a new group.
#[derive(Debug, PartialEq)]
pub struct GroupRequest {
    pub name: String,
    pub members: Vec<String>,
}

/// The name and the members that a request gives for a new group, or the refusal of the request.
pub open spec fn group_request(body: JsonV) -> Result<(Seq<char>, Seq<Seq<char>>), ResponseV> {
    match name_request(body) {
        Err(refused) => Err(refused),
        Ok(name) => match members_request(body) {
            Err(refused) => Err(refused),
            Ok(members) => Ok((name, members)),
        },
    }
}

/// What a request for a new group says.
pub open spec fn group_request_view(r: Result<GroupRequest, Response>) -> Result<
    (Seq<char>, Seq<Seq<char>>),
    ResponseV,
> {
    match r {
        Ok(q) => Ok((q.name@, text::texts(q.members@))),
        Err(e) => Err(e@),
    }
}

/// Reads a request for a new group, or refuses it.
pub fn read_group(body: &Json) -> (r: Result<GroupRequest, Response>)
    ensures
        group_request_view(r) == group_request(body@),
{
    let name = match read_name(body) {
        Ok(n) => n,
        Err(refused) => {
            return Err(refused);
        },
    };
    match read_members(body) {
        Ok(members) => Ok(GroupRequest { name, members }),
        Err(refused) => Err(refused),
    }
}

/// The members of a new group that exist: those among the experiments. Where no member is given, the
/// experiments are not needed.
pub open spec fn existing_members(
    members: Seq<Seq<char>>,
    experiments: Result<Vec<(String, i64)>, Failure>,
) -> Result<Seq<Seq<char>>, Failure> {
    if members.len() == 0 {
        Ok(members)
    } else {
        match experiments {
            Ok(e) => Ok(members.filter(known(e@))),
            Err(f) => Err(f),
        }
    }
}

/// The answer to the creation of a group.
pub open spec fn created_reply(group: Option<GroupV>) -> ResponseV {
    match group {
        Some(g) => resp::success_reply(JsonV::Object(seq![("group"@, group_json(g))])),
        None => resp::params_reply(
            "At most "@ + text::nat_text(MAX_GROUPS as nat) + " groups are allowed"@,
        ),
    }
}

fn answer_created(group: &Option<Group>) -> (r: Response)
    ensures
        r@ == created_reply(uistate::optional_group(*group)),
{
    match group {
        Some(g) => {
            let mut m = JsonMap::new();
            m.append("group", build_group(g));
            proof {
                assert(m@ =~= seq![("group"@, group_json(g@))]);
            }
            success(Json::Object(m))
        },
        None => {
            let mut m = "At most ".to_owned();
            m.append(unsigned_text(MAX_GROUPS as u128).as_str());
            m.append(" groups are allowed");
            params_error(m.as_str())
        },
    }
}

/// Creates a group. Members that are no experiments are dropped. `experiments` holds the run id and
/// the row id of each experiment.
pub fn create_group<F: FnOnce(&UiOverlay) -> Result<(), String>>(
    ui: &mut UiState,
    body: &Json,
    experiments: Result<Vec<(String, i64)>, Failure>,
    store: F,
) -> (r: Response)
    requires
        group_request(body@) matches Ok(q) ==> (existing_members(q.1, experiments) matches Ok(
            valid,
        ) ==> {
            &&& uistate::created_group(old(ui)@, q.0, valid) is Some ==> old(ui)@.next_group_id
                < i64::MAX
            &&& uistate::storable(store, uistate::with_group(old(ui)@, q.0, valid))
        }),
    ensures
        match group_request(body@) {
            Err(refused) => r@ == refused && final(ui)@ == old(ui)@,
            Ok(q) => match existing_members(q.1, experiments) {
                Err(f) => r@ == resp::failure_reply(api::failure_text(f)) && final(ui)@
                    == old(ui)@,
                Ok(valid) => api::settled(
                    store,
                    old(ui)@,
                    uistate::with_group(old(ui)@, q.0, valid),
                    final(ui)@,
                    created_reply(uistate::created_group(old(ui)@, q.0, valid)),
                    r@,
                ),
            },
        },
{
    let q = match read_group(body) {
        Ok(q) => q,
        Err(refused) => {
            return refused;
        },
    };
    let ghost wanted = text::texts(q.members@);
    proof {
        assert(wanted.len() == q.members.len());
    }
    let valid = if q.members.len() == 0 {
        copy_texts(&q.members)
    } else {
        match &experiments {
            Ok(e) => known_members(&q.members, e),
            Err(f) => {
                return failed(f);
            },
        }
    };
    match ui.create_group(q.name, &valid, store) {
        Ok(g) => answer_created(&g),
        Err(e) => data_error(e.as_str()),
    }
}

/// What is said where a group does not exist.
pub open spec fn missing_group(gid: i64) -> Seq<char> {
    "Group with id "@ + text::int_text(gid as int) + " does not exist."@
}

/// The answer to a change of a group that may not exist.
pub open spec fn ack_reply(found: bool, gid: i64) -> ResponseV {
    if found {
        resp::empty_reply()
    } else {
        resp::missing_reply(missing_group(gid))
    }
}

fn group_missing(gid: i64) -> (r: Response)
    ensures
        r@ == resp::missing_reply(missing_group(gid)),
{
    let mut m = "Group with id ".to_owned();
    m.append(signed_text(gid).as_str());
    m.append(" does not exist.");
    not_found(m.as_str())
}

/// The answer to a change of a group: whether the group existed, or why the change was not stored.
pub fn group_ack(outcome: Result<bool, String>, gid: i64) -> (r: Response)
    ensures
        r@ == (match outcome {
            Ok(found) => ack_reply(found, gid),
            Err(e) => resp::failure_reply(e@),
        }),
{
    match outcome {
        Ok(true) => success_empty(),
        Ok(false) => group_missing(gid),
        Err(e) => data_error(e.as_str()),
    }
}

/// Renames a group.
pub fn rename_group<F: FnOnce(&UiOverlay) -> Result<(), String>>(
    ui: &mut UiState,
    gid: i64,
    body: &Json,
    store: F,
) -> (r: Response)
    requires
        name_request(body@) matches Ok(name) ==> uistate::storable(
            store,
            uistate::with_group_name(old(ui)@, gid, name),
        ),
    ensures
        match name_request(body@) {
            Err(refused) => r@ == refused && final(ui)@ == old(ui)@,
            Ok(name) => api::settled(
                store,
                old(ui)@,
                uistate::with_group_name(old(ui)@, gid, name),
                final(ui)@,
                ack_reply(uistate::has_group(old(ui)@.groups, gid), gid),
                r@,
            ),
        },
{
    let name = match read_name(body) {
        Ok(n) => n,
        Err(refused) => {
            return refused;
        },
    };
    group_ack(ui.rename_group(gid, name, store), gid)
}

/// Deletes a group.
pub fn delete_group<F: FnOnce(&UiOverlay) -> Result<(), String>>(
    ui: &mut UiState,
    gid: i64,
    store: F,
) -> (r: Response)
    requires
        uistate::storable(store, uistate::without_group(old(ui)@, gid)),
    ensures
        api::settled(
            store,
            old(ui)@,
            uistate::without_group(old(ui)@, gid),
            final(ui)@,
            ack_reply(uistate::has_group(old(ui)@.groups, gid), gid),
            r@,
        ),
{
    group_ack(ui.delete_group(gid, store), gid)
}

/// The run id that a request gives, or the refusal of the request.
pub open spec fn run_id_request(body: JsonV) -> Result<Seq<char>, ResponseV> {
    match json::field(body, "run_id"@) {
        Some(JsonV::Str(s)) => match text_refusal(s, "run_id"@, MAX_RUN_ID_BYTES as nat) {
            Some(refused) => Err(refused),
            None => Ok(s),
        },
        _ => Err(resp::params_reply("Request parameter 'run_id' must be a string"@)),
    }
}

/// Reads the run id that a request gives, or refuses the request.
pub fn read_run_id(body: &Json) -> (r: Result<String, Response>)
    ensures
        text_request(r) == run_id_request(body@),
{
    match body.get("run_id") {
        Some(Json::Str(s)) => match validate_text(s.as_str(), "run_id", MAX_RUN_ID_BYTES) {
            Some(refused) => Err(refused),
            None => Ok(s.clone()),
        },
        _ => Err(params_error("Request parameter 'run_id' must be a string")),
    }
}

/// Adds an experiment to a group. `exists` says whether the experiment exists. A group that is full
/// is answered like one that does not exist.
pub fn add_member<F: FnOnce(&UiOverlay) -> Result<(), String>>(
    ui: &mut UiState,
    gid: i64,
    body: &Json,
    exists: Result<bool, Failure>,
    store: F,
) -> (r: Response)
    requires
        run_id_request(body@) matches Ok(run_id) ==> exists == Ok::<bool, Failure>(true)
            ==> uistate::storable(store, uistate::with_group_member(old(ui)@, gid, run_id)),
    ensures
        match run_id_request(body@) {
            Err(refused) => r@ == refused && final(ui)@ == old(ui)@,
            Ok(run_id) => match exists {
                Err(f) => r@ == resp::failure_reply(api::failure_text(f)) && final(ui)@
                    == old(ui)@,
                Ok(false) => r@ == resp::missing_reply("experiment not found"@) && final(ui)@
                    == old(ui)@,
                Ok(true) => api::settled(
                    store,
                    old(ui)@,
                    uistate::with_group_member(old(ui)@, gid, run_id),
                    final(ui)@,
                    ack_reply(uistate::member_fits(old(ui)@, gid, run_id), gid),
                    r@,
                ),
            },
        },
{
    let run_id = match read_run_id(body) {
        Ok(s) => s,
        Err(refused) => {
            return refused;
        },
    };
    match exists {
        Err(f) => failed(&f),
        Ok(false) => not_found("experiment not found"),
        Ok(true) => group_ack(ui.add_member(gid, run_id.as_str(), store), gid),
    }
}

/// Removes an experiment from a group. That it was not there is no error.
pub fn remove_member<F: FnOnce(&UiOverlay) -> Result<(), String>>(
    ui: &mut UiState,
    gid: i64,
    run_id: &str,
    store: F,
) -> (r: Response)
    requires
        byte_len(run_id@) <= MAX_RUN_ID_BYTES ==> uistate::storable(
            store,
            uistate::without_group_member(old(ui)@, gid, run_id@),
        ),
    ensures
        if byte_len(run_id@) > MAX_RUN_ID_BYTES {
            r@ == resp::params_reply("Request parameter 'run_id' is too long"@) && final(ui)@
                == old(ui)@
        } else {
            api::settled(
                store,
                old(ui)@,
                uistate::without_group_member(old(ui)@, gid, run_id@),
                final(ui)@,
                ack_reply(uistate::has_group(old(ui)@.groups, gid), gid),
                r@,
            )
        },
{
    if bytes_of(run_id) > MAX_RUN_ID_BYTES {
        return params_error("Request parameter 'run_id' is too long");
    }
    group_ack(ui.remove_member(gid, run_id, store), gid)
}

/// The row ids of the members of a group. Where it has no members, the experiments are not needed.
pub open spec fn member_ids(
    members: Seq<Seq<char>>,
    experiments: Result<Vec<(String, i64)>, Failure>,
) -> Result<Seq<i64>, Failure> {
    if members.len() == 0 {
        Ok(Seq::empty())
    } else {
        match experiments {
            Ok(e) => Ok(records::ids_of_runs(members, e@)),
            Err(f) => Err(f),
        }
    }
}

/// The answer with the charts of a group.
pub open spec fn group_charts_reply(
    overlay: OverlayV,
    gid: i64,
    experiments: Result<Vec<(String, i64)>, Failure>,
    rows: Result<ProjectRows, Failure>,
) -> ResponseV {
    if !uistate::has_group(overlay.groups, gid) {
        resp::missing_reply(missing_group(gid))
    } else {
        let g = overlay.groups[uistate::group_place(overlay.groups, gid)];
        match (member_ids(g.members, experiments), rows) {
            (Err(f), _) => resp::failure_reply(api::failure_text(f)),
            (Ok(_), Err(f)) => resp::failure_reply(api::failure_text(f)),
            (Ok(ids), Ok(r)) => match comparisons::comparison_outcome(r, overlay, Some(ids)) {
                Ok(v) => resp::success_reply(v),
                Err(e) => resp::failure_reply(records::error_text(e)),
            },
        }
    }
}

/// The comparison of the experiments of a group. `experiments` holds the run id and the row id of
/// each experiment, and `rows` what the charts are made of.
pub fn get_group_charts(
    overlay: &UiOverlay,
    gid: i64,
    experiments: &Result<Vec<(String, i64)>, Failure>,
    rows: &Result<ProjectRows, Failure>,
) -> (r: Response)
    requires
        rows matches Ok(p) ==> comparisons::project_rows_fit(*p),
    ensures
        r@ == group_charts_reply(overlay@, gid, *experiments, *rows),
{
    proof {
        uistate::lemma_group_place(overlay@.groups, gid);
    }
    let place: usize = place_of_group(&overlay.groups, gid);
    if place >= overlay.groups.len() {
        return group_missing(gid);
    }
    let members = &overlay.groups[place].members;
    proof {
        assert(overlay@.groups[place as int] == overlay.groups@[place as int]@);
        assert(text::texts(members@).len() == members.len());
    }
    let ids = if members.len() == 0 {
        Vec::new()
    } else {
        match experiments {
            Ok(e) => ids_for_run_ids(members, e),
            Err(f) => {
                return failed(f);
            },
        }
    };
    match rows {
        Ok(p) => match project_charts_filtered(p, overlay, &Some(ids)) {
            Ok(v) => success(v),
            Err(e) => data_error(e.message().as_str()),
        },
        Err(f) => failed(f),
    }
}

// ---------------------------------- laws ----------------------------------

/// The members that a request gives are distinct run ids of an allowed length, and all come from the
/// request.
pub proof fn law_requested_members_are_valid(items: Seq<JsonV>)
    ensures
        member_list(items) matches Ok(list) ==> {
            &&& list.no_duplicates()
            &&& forall|i: int|
                0 <= i < list.len() ==> 0 < (#[trigger] list[i]).len() && byte_len(list[i])
                    <= MAX_RUN_ID_BYTES && items.contains(JsonV::Str(list[i]))
            &&& forall|k: int|
                0 <= k < items.len() ==> (#[trigger] items[k]) is Str && list.contains(
                    items[k]->Str_0,
                )
        },
    decreases items.len(),
{
    if items.len() > 0 {
        let t = items.drop_last();
        law_requested_members_are_valid(t);
        match (member_list(items), member_list(t)) {
            (Ok(list), Ok(before)) => {
                let s = items.last()->Str_0;
                assert(items[items.len() - 1] == items.last());
                assert forall|i: int| 0 <= i < list.len() implies 0 < (#[trigger] list[i]).len()
                    && byte_len(list[i]) <= MAX_RUN_ID_BYTES && items.contains(
                    JsonV::Str(list[i]),
                ) by {
                    if i < before.len() {
                        assert(list[i] == before[i]);
                        assert(t.contains(JsonV::Str(before[i])));
                        let k = choose|k: int| 0 <= k < t.len() && t[k] == JsonV::Str(before[i]);
                        assert(items[k] == t[k]);
                    }
                }
                assert forall|k: int| 0 <= k < items.len() implies (#[trigger] items[k]) is Str
                    && list.contains(items[k]->Str_0) by {
                    if k < t.len() {
                        assert(items[k] == t[k]);
                        assert(before.contains(t[k]->Str_0));
                        let m = choose|m: int| 0 <= m < before.len() && before[m] == t[k]->Str_0;
                        assert(list[m] == before[m]);
                    } else if !before.contains(s) {
                        assert(list[before.len() as int] == s);
                    }
                }
            },
            _ => {},
        }
    }
}

proof fn lemma_member_list_len(items: Seq<JsonV>)
    ensures
        member_list(items) matches Ok(list) ==> list.len() <= items.len(),
    decreases items.len(),
{
    if items.len() > 0 {
        lemma_member_list_len(items.drop_last());
    }
}

/// A request never asks for more members than a group can hold: that no group is created is due to
/// the limit on groups alone.
pub proof fn law_requested_group_fits(
    o: OverlayV,
    body: JsonV,
    experiments: Result<Vec<(String, i64)>, Failure>,
)
    ensures
        group_request(body) matches Ok(q) ==> (existing_members(q.1, experiments) matches Ok(
            valid,
        ) ==> (uistate::created_group(o, q.0, valid) is None <==> o.groups.len() >= MAX_GROUPS)),
{
    match group_request(body) {
        Ok(q) => {
            match json::field(body, "members"@) {
                Some(JsonV::Array(items)) => {
                    lemma_member_list_len(items);
                },
                _ => {},
            }
            match existing_members(q.1, experiments) {
                Ok(valid) => {
                    overlay_laws::law_dedup_keeps_each_once(valid);
                    match experiments {
                        Ok(e) => {
                            seqs::lemma_filter_holds(q.1, known(e@));
                        },
                        Err(_) => {},
                    }
                },
                Err(_) => {},
            }
        },
        Err(_) => {},
    }
}

/// Every member of a group that a request creates is an experiment.
pub proof fn law_created_members_exist(
    o: OverlayV,
    name: Seq<char>,
    members: Seq<Seq<char>>,
    experiments: Seq<(String, i64)>,
    i: int,
)
    requires
        ({
            let valid = members.filter(known(experiments));
            uistate::created_group(o, name, valid) matches Some(g) && 0 <= i < g.members.len()
        }),
    ensures
        ({
            let valid = members.filter(known(experiments));
            let g = uistate::created_group(o, name, valid)->0;
            records::id_of_run(experiments, g.members[i]) is Some
        }),
{
    let valid = members.filter(known(experiments));
    let g = uistate::created_group(o, name, valid)->0;
    seqs::lemma_filter_holds(members, known(experiments));
    overlay_laws::law_dedup_keeps_each_once(valid);
    assert(g.members.contains(g.members[i]));
    assert(valid.contains(g.members[i]));
    let k = choose|k: int| 0 <= k < valid.len() && valid[k] == g.members[i];
    assert(known(experiments)(valid[k]));
}

} // verus!
