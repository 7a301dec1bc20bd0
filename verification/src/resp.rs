//! The response envelope `{"code":..,"message":..,"data":..}` and its HTTP status.
//!
//! Codes: 0 success, 3404 not found, 3422 bad request parameter, 3500 data error.

use vstd::prelude::*;

use crate::json::{Json, JsonMap, JsonV, json_text};

verus! {

/// An HTTP answer: its status code and its JSON body.
#[derive(Debug, PartialEq)]
pub struct Response {
    pub status: u16,
    pub body: Json,
}

/// What an answer says.
pub struct ResponseV {
    pub status: u16,
    pub body: JsonV,
}

impl View for Response {
    type V = ResponseV;

    open spec fn view(&self) -> ResponseV {
        ResponseV { status: self.status, body: self.body@ }
    }
}

/// The members of an envelope without data.
pub open spec fn envelope(code: int, message: Seq<char>) -> Seq<(Seq<char>, JsonV)> {
    seq![("code"@, JsonV::Int(code)), ("message"@, JsonV::Str(message))]
}

/// A success with data.
pub open spec fn success_reply(data: JsonV) -> ResponseV {
    ResponseV {
        status: 200,
        body: JsonV::Object(envelope(0, "success"@).push(("data"@, data))),
    }
}

/// A success without data.
pub open spec fn empty_reply() -> ResponseV {
    ResponseV { status: 200, body: JsonV::Object(envelope(0, "success"@)) }
}

/// A refusal of a request parameter.
pub open spec fn params_reply(message: Seq<char>) -> ResponseV {
    ResponseV { status: 422, body: JsonV::Object(envelope(3422, message)) }
}

/// A resource that does not exist.
pub open spec fn missing_reply(message: Seq<char>) -> ResponseV {
    ResponseV { status: 404, body: JsonV::Object(envelope(3404, message)) }
}

/// A failure of the server's data.
pub open spec fn failure_reply(message: Seq<char>) -> ResponseV {
    ResponseV { status: 500, body: JsonV::Object(envelope(3500, message)) }
}

fn members(code: i64, message: &str) -> (r: JsonMap)
    ensures
        r@ == envelope(code as int, message@),
{
    let mut m = JsonMap::new();
    m.append("code", Json::Int(code));
    m.append("message", json_text(message));
    proof {
        assert(m@ =~= envelope(code as int, message@));
    }
    m
}

/// 200 success with a `data` member.
pub fn success(data: Json) -> (r: Response)
    ensures
        r@ == success_reply(data@),
{
    let mut m = members(0, "success");
    m.append("data", data);
    Response { status: 200, body: Json::Object(m) }
}

/// 200 success without a `data` member.
pub fn success_empty() -> (r: Response)
    ensures
        r@ == empty_reply(),
{
    Response { status: 200, body: Json::Object(members(0, "success")) }
}

/// 422 request-parameter error.
pub fn params_error(message: &str) -> (r: Response)
    ensures
        r@ == params_reply(message@),
{
    Response { status: 422, body: Json::Object(members(3422, message)) }
}

/// 404 resource not found.
pub fn not_found(message: &str) -> (r: Response)
    ensures
        r@ == missing_reply(message@),
{
    Response { status: 404, body: Json::Object(members(3404, message)) }
}

/// 500 data error.
pub fn data_error(message: &str) -> (r: Response)
    ensures
        r@ == failure_reply(message@),
{
    Response { status: 500, body: Json::Object(members(3500, message)) }
}

} // verus!
