//! JSON values as plain data. An object keeps its members in the order in which they came.

use vstd::prelude::*;

use crate::text::{self, same_text};

verus! {

/// A JSON value.
#[derive(Debug, PartialEq)]
pub enum Json {
    Null,
    Bool(bool),
    /// An integer.
    Int(i64),
    /// An integer that may be above what `Int` holds.
    UInt(u64),
    /// A number that is no integer: the IEEE 754 bits of its double.
    Real(u64),
    Str(String),
    Array(Vec<Json>),
    Object(JsonMap),
}

/// The members of a JSON object.
#[derive(Debug, PartialEq)]
pub struct JsonMap {
    pub entries: Vec<(String, Json)>,
}

/// What a JSON value says.
pub enum JsonV {
    Null,
    Bool(bool),
    Int(int),
    Real(u64),
    Str(Seq<char>),
    Array(Seq<JsonV>),
    Object(Seq<(Seq<char>, JsonV)>),
}

impl View for Json {
    type V = JsonV;

    open spec fn view(&self) -> JsonV {
        json_view(*self)
    }
}

impl View for JsonMap {
    type V = Seq<(Seq<char>, JsonV)>;

    open spec fn view(&self) -> Seq<(Seq<char>, JsonV)> {
        map_view(*self)
    }
}

/// What the value `j` says.
pub open spec fn json_view(j: Json) -> JsonV
    decreases j, 0nat,
{
    match j {
        Json::Null => JsonV::Null,
        Json::Bool(b) => JsonV::Bool(b),
        Json::Int(i) => JsonV::Int(i as int),
        Json::UInt(u) => JsonV::Int(u as int),
        Json::Real(bits) => JsonV::Real(bits),
        Json::Str(s) => JsonV::Str(s@),
        Json::Array(a) => JsonV::Array(list_view(a)),
        Json::Object(m) => JsonV::Object(map_view(m)),
    }
}

/// What the values of a list say.
pub open spec fn list_view(a: Vec<Json>) -> Seq<JsonV>
    decreases a, 0nat,
{
    Seq::new(
        a@.len(),
        |i: int|
            if 0 <= i < a@.len() {
                json_view(a@[i])
            } else {
                JsonV::Null
            },
    )
}

/// What the members of an object say.
pub open spec fn map_view(m: JsonMap) -> Seq<(Seq<char>, JsonV)>
    decreases m, 0nat,
{
    Seq::new(
        m.entries@.len(),
        |i: int|
            if 0 <= i < m.entries@.len() {
                (m.entries@[i].0@, json_view(m.entries@[i].1))
            } else {
                (Seq::empty(), JsonV::Null)
            },
    )
}

impl Json {
    /// The same value again.
    pub fn copy(&self) -> (r: Json)
        ensures
            r@ == self@,
        decreases self, 0nat,
    {
        match self {
            Json::Null => Json::Null,
            Json::Bool(b) => Json::Bool(*b),
            Json::Int(i) => Json::Int(*i),
            Json::UInt(u) => Json::UInt(*u),
            Json::Real(bits) => Json::Real(*bits),
            Json::Str(s) => Json::Str(s.clone()),
            Json::Array(a) => Json::Array(copy_list(a)),
            Json::Object(m) => Json::Object(m.copy()),
        }
    }
}

impl Clone for Json {
    fn clone(&self) -> (r: Json)
        ensures
            r@ == self@,
    {
        self.copy()
    }
}

/// The same values again.
pub fn copy_list(a: &Vec<Json>) -> (r: Vec<Json>)
    ensures
        list_view(r) == list_view(*a),
    decreases a, 0nat,
{
    let mut r: Vec<Json> = Vec::new();
    let mut i: usize = 0;
    while i < a.len()
        invariant
            i <= a.len(),
            r.len() == i,
            forall|j: int| 0 <= j < i ==> json_view(#[trigger] r@[j]) == json_view(a@[j]),
        decreases a.len() - i,
    {
        r.push(a[i].copy());
        i += 1;
    }
    proof {
        assert(list_view(r) =~= list_view(*a));
    }
    r
}

impl JsonMap {
    /// The same members again.
    pub fn copy(&self) -> (r: JsonMap)
        ensures
            r@ == self@,
        decreases self, 0nat,
    {
        let mut entries: Vec<(String, Json)> = Vec::new();
        let mut i: usize = 0;
        while i < self.entries.len()
            invariant
                i <= self.entries.len(),
                entries.len() == i,
                forall|j: int|
                    0 <= j < i ==> (#[trigger] entries@[j]).0@ == self.entries@[j].0@ && json_view(
                        entries@[j].1,
                    ) == json_view(self.entries@[j].1),
            decreases self.entries.len() - i,
        {
            let e = &self.entries[i];
            entries.push((e.0.clone(), e.1.copy()));
            i += 1;
        }
        let r = JsonMap { entries };
        proof {
            assert(r@ =~= self@);
        }
        r
    }
}

// ---------------------------------- members of an object ----------------------------------

/// The place of the first member named `key`, or the number of members when there is none.
pub open spec fn find_key(o: Seq<(Seq<char>, JsonV)>, key: Seq<char>) -> int
    decreases o.len(),
{
    if o.len() == 0 || o[0].0 == key {
        0
    } else {
        1 + find_key(o.drop_first(), key)
    }
}

/// The member named `key`.
pub open spec fn member(o: Seq<(Seq<char>, JsonV)>, key: Seq<char>) -> Option<JsonV> {
    if find_key(o, key) < o.len() {
        Some(o[find_key(o, key)].1)
    } else {
        None
    }
}

/// The members after `key` was set to `value`: in the place that `key` has, else at the end.
pub open spec fn with_member(o: Seq<(Seq<char>, JsonV)>, key: Seq<char>, value: JsonV) -> Seq<
    (Seq<char>, JsonV),
> {
    if find_key(o, key) < o.len() {
        o.update(find_key(o, key), (key, value))
    } else {
        o.push((key, value))
    }
}

/// Whether no two members have one name.
pub open spec fn distinct_keys(o: Seq<(Seq<char>, JsonV)>) -> bool {
    forall|i: int, j: int| 0 <= i < j < o.len() ==> (#[trigger] o[i]).0 != (#[trigger] o[j]).0
}

/// What `find_key` finds.
pub proof fn lemma_find_key(o: Seq<(Seq<char>, JsonV)>, key: Seq<char>)
    ensures
        0 <= find_key(o, key) <= o.len(),
        find_key(o, key) < o.len() ==> o[find_key(o, key)].0 == key,
        forall|j: int| 0 <= j < find_key(o, key) ==> (#[trigger] o[j]).0 != key,
    decreases o.len(),
{
    if o.len() > 0 && o[0].0 != key {
        lemma_find_key(o.drop_first(), key);
        assert forall|j: int| 0 <= j < find_key(o, key) implies (#[trigger] o[j]).0 != key by {
            if j > 0 {
                assert(o.drop_first()[j - 1] == o[j]);
            }
        }
    }
}

/// The first place of `key` is the one that `find_key` finds.
pub proof fn lemma_find_key_is(o: Seq<(Seq<char>, JsonV)>, key: Seq<char>, n: int)
    requires
        0 <= n <= o.len(),
        n < o.len() ==> o[n].0 == key,
        forall|j: int| 0 <= j < n ==> (#[trigger] o[j]).0 != key,
    ensures
        find_key(o, key) == n,
{
    lemma_find_key(o, key);
}

/// A member that was set is read back, and setting it changes no other member.
pub proof fn lemma_member_set(
    o: Seq<(Seq<char>, JsonV)>,
    key: Seq<char>,
    value: JsonV,
    other: Seq<char>,
)
    ensures
        member(with_member(o, key, value), key) == Some(value),
        other != key ==> member(with_member(o, key, value), other) == member(o, other),
{
    let n = with_member(o, key, value);
    lemma_find_key(o, key);
    assert forall|j: int| 0 <= j < find_key(o, key) implies (#[trigger] n[j]).0 != key by {
        assert(n[j] == o[j]);
    }
    lemma_find_key_is(n, key, find_key(o, key));
    if other != key {
        lemma_find_key(o, other);
        let k = find_key(o, other);
        assert forall|j: int| 0 <= j < k implies (#[trigger] n[j]).0 != other by {
            assert(o[j].0 != other);
        }
        if k < o.len() {
            lemma_find_key_is(n, other, k);
        } else {
            if n.len() > o.len() {
                assert(n[o.len() as int].0 == key);
            }
            lemma_find_key_is(n, other, n.len() as int);
        }
    }
}

/// Setting a member keeps the names distinct.
pub proof fn lemma_set_keeps_distinct(o: Seq<(Seq<char>, JsonV)>, key: Seq<char>, value: JsonV)
    requires
        distinct_keys(o),
    ensures
        distinct_keys(with_member(o, key, value)),
{
    lemma_find_key(o, key);
    let n = with_member(o, key, value);
    assert forall|i: int, j: int| 0 <= i < j < n.len() implies (#[trigger] n[i]).0 != (
    #[trigger] n[j]).0 by {
        if j < o.len() {
            assert(o[i].0 != o[j].0);
        } else {
            assert(o[i].0 != key);
        }
    }
}

impl JsonMap {
    /// An object without members.
    pub fn new() -> (r: JsonMap)
        ensures
            r@ == Seq::<(Seq<char>, JsonV)>::empty(),
    {
        let r = JsonMap { entries: Vec::new() };
        proof {
            assert(r@ =~= Seq::empty());
        }
        r
    }

    /// Adds a member at the end.
    pub fn append(&mut self, key: &str, value: Json)
        ensures
            final(self)@ == old(self)@.push((key@, value@)),
    {
        let ghost before = *self;
        self.entries.push((key.to_owned(), value));
        proof {
            assert(self@ =~= before@.push((key@, value@)));
        }
    }

    fn place(&self, key: &str) -> (n: usize)
        ensures
            n <= self.entries.len(),
            n == find_key(self@, key@),
    {
        let mut n: usize = 0;
        while n < self.entries.len()
            invariant
                n <= self.entries.len(),
                forall|j: int| 0 <= j < n ==> (#[trigger] self@[j]).0 != key@,
            decreases self.entries.len() - n,
        {
            if same_text(self.entries[n].0.as_str(), key) {
                proof {
                    lemma_find_key_is(self@, key@, n as int);
                }
                return n;
            }
            n += 1;
        }
        proof {
            lemma_find_key_is(self@, key@, n as int);
        }
        n
    }

    /// The member named `key`.
    pub fn get(&self, key: &str) -> (r: Option<&Json>)
        ensures
            (match r {
                Some(v) => member(self@, key@) == Some(v@),
                None => member(self@, key@) is None,
            }),
    {
        let n = self.place(key);
        if n < self.entries.len() {
            Some(&self.entries[n].1)
        } else {
            None
        }
    }

    /// Sets the member named `key`.
    pub fn set(&mut self, key: &str, value: Json)
        ensures
            final(self)@ == with_member(old(self)@, key@, value@),
    {
        let n = self.place(key);
        let ghost before = *self;
        if n < self.entries.len() {
            self.entries.set(n, (key.to_owned(), value));
            proof {
                assert(self@ =~= before@.update(n as int, (key@, value@)));
            }
        } else {
            self.entries.push((key.to_owned(), value));
            proof {
                assert(self@ =~= before@.push((key@, value@)));
            }
        }
    }
}

// ---------------------------------- reading a value ----------------------------------

/// The member `key` of a value; nothing where the value is no object.
pub open spec fn field(j: JsonV, key: Seq<char>) -> Option<JsonV> {
    match j {
        JsonV::Object(o) => member(o, key),
        _ => None,
    }
}

/// The value as a 64-bit signed integer, where it is one.
pub open spec fn int_of(j: JsonV) -> Option<int> {
    match j {
        JsonV::Int(i) => if i64::MIN <= i <= i64::MAX {
            Some(i)
        } else {
            None
        },
        _ => None,
    }
}

/// The integer at `key`, or `default`.
pub open spec fn int_at(j: JsonV, key: Seq<char>, default: int) -> int {
    match field(j, key) {
        Some(v) => match int_of(v) {
            Some(i) => i,
            None => default,
        },
        None => default,
    }
}

/// The text at `key`, empty where there is none.
pub open spec fn text_at(j: JsonV, key: Seq<char>) -> Seq<char> {
    match field(j, key) {
        Some(JsonV::Str(s)) => s,
        _ => Seq::empty(),
    }
}

/// `value`, or `default` where it is missing.
pub open spec fn value_or(value: Option<JsonV>, default: JsonV) -> JsonV {
    match value {
        Some(v) => v,
        None => default,
    }
}

impl Json {
    /// The member `key`; nothing where the value is no object.
    pub fn get(&self, key: &str) -> (r: Option<&Json>)
        ensures
            (match r {
                Some(v) => field(self@, key@) == Some(v@),
                None => field(self@, key@) is None,
            }),
    {
        match self {
            Json::Object(m) => m.get(key),
            _ => None,
        }
    }

    /// The value as a 64-bit signed integer, where it is one.
    pub fn as_i64(&self) -> (r: Option<i64>)
        ensures
            (match r {
                Some(i) => int_of(self@) == Some(i as int),
                None => int_of(self@) is None,
            }),
    {
        match self {
            Json::Int(i) => Some(*i),
            Json::UInt(u) => if *u <= i64::MAX as u64 {
                Some(*u as i64)
            } else {
                None
            },
            _ => None,
        }
    }

    /// The text of a string value.
    pub fn as_str(&self) -> (r: Option<&str>)
        ensures
            (match r {
                Some(s) => self@ == JsonV::Str(s@),
                None => !(self@ is Str),
            }),
    {
        match self {
            Json::Str(s) => Some(s.as_str()),
            _ => None,
        }
    }

    /// The integer at `key`, or `default`.
    pub fn i64_at(&self, key: &str, default: i64) -> (r: i64)
        ensures
            r == int_at(self@, key@, default as int),
    {
        match self {
            Json::Object(m) => m.i64_at(key, default),
            _ => default,
        }
    }

    /// A copy of the member `key`, or `default`.
    pub fn copy_at(&self, key: &str, default: Json) -> (r: Json)
        ensures
            r@ == value_or(field(self@, key@), default@),
    {
        match self {
            Json::Object(m) => m.copy_at(key, default),
            _ => default,
        }
    }
}

impl JsonMap {
    /// The integer at `key`, or `default`.
    pub fn i64_at(&self, key: &str, default: i64) -> (r: i64)
        ensures
            r == int_at(JsonV::Object(self@), key@, default as int),
    {
        match self.get(key) {
            Some(v) => match v.as_i64() {
                Some(i) => i,
                None => default,
            },
            None => default,
        }
    }

    /// The text at `key`, empty where there is none.
    pub fn str_at(&self, key: &str) -> (r: String)
        ensures
            r@ == text_at(JsonV::Object(self@), key@),
    {
        match self.get(key) {
            Some(v) => match v.as_str() {
                Some(s) => s.to_owned(),
                None => String::new(),
            },
            None => String::new(),
        }
    }

    /// A copy of the member `key`, or `default`.
    pub fn copy_at(&self, key: &str, default: Json) -> (r: Json)
        ensures
            r@ == value_or(member(self@, key@), default@),
    {
        match self.get(key) {
            Some(v) => v.copy(),
            None => default,
        }
    }
}

/// Whether the bits are those of a finite double: its exponent is not the greatest.
pub open spec fn finite(bits: u64) -> bool {
    (bits / 0x10_0000_0000_0000) % 0x800 != 0x7ff
}

/// The JSON value of a double, given by its bits: JSON has no number for infinities and NaN.
pub open spec fn double(bits: u64) -> JsonV {
    if finite(bits) {
        JsonV::Real(bits)
    } else {
        JsonV::Null
    }
}

/// The JSON value of the double with the bits `bits`.
pub fn json_real(bits: u64) -> (r: Json)
    ensures
        r@ == double(bits),
{
    if (bits / 0x10_0000_0000_0000) % 0x800 != 0x7ff {
        Json::Real(bits)
    } else {
        Json::Null
    }
}

/// A JSON number for a count.
pub fn json_count(n: usize) -> (r: Json)
    ensures
        r@ == JsonV::Int(n as int),
{
    let u: u64 = n as u64;
    if u <= i64::MAX as u64 {
        Json::Int(u as i64)
    } else {
        Json::UInt(u)
    }
}

/// A JSON string.
pub fn json_text(s: &str) -> (r: Json)
    ensures
        r@ == JsonV::Str(s@),
{
    Json::Str(s.to_owned())
}

/// JSON strings.
pub open spec fn strings(s: Seq<Seq<char>>) -> JsonV {
    JsonV::Array(s.map_values(|t: Seq<char>| JsonV::Str(t)))
}

/// A JSON array of strings.
pub fn json_texts(v: &Vec<String>) -> (r: Json)
    ensures
        r@ == strings(text::texts(v@)),
{
    let mut a: Vec<Json> = Vec::new();
    let mut i: usize = 0;
    while i < v.len()
        invariant
            i <= v.len(),
            a.len() == i,
            forall|j: int| 0 <= j < i ==> json_view(#[trigger] a@[j]) == JsonV::Str(v@[j]@),
        decreases v.len() - i,
    {
        a.push(Json::Str(v[i].clone()));
        i += 1;
    }
    proof {
        assert(list_view(a) =~= text::texts(v@).map_values(|t: Seq<char>| JsonV::Str(t)));
    }
    Json::Array(a)
}

/// A JSON array of strings.
pub fn json_slices(v: &Vec<&'static str>) -> (r: Json)
    ensures
        r@ == strings(text::slices(v@)),
{
    let mut a: Vec<Json> = Vec::new();
    let mut i: usize = 0;
    while i < v.len()
        invariant
            i <= v.len(),
            a.len() == i,
            forall|j: int| 0 <= j < i ==> json_view(#[trigger] a@[j]) == JsonV::Str(v@[j]@),
        decreases v.len() - i,
    {
        a.push(json_text(v[i]));
        i += 1;
    }
    proof {
        assert(list_view(a) =~= text::slices(v@).map_values(|t: Seq<char>| JsonV::Str(t)));
    }
    Json::Array(a)
}

/// JSON integers.
pub open spec fn integers(s: Seq<i64>) -> JsonV {
    JsonV::Array(s.map_values(|i: i64| JsonV::Int(i as int)))
}

/// A JSON array of integers.
pub fn json_ints(v: &Vec<i64>) -> (r: Json)
    ensures
        r@ == integers(v@),
{
    let mut a: Vec<Json> = Vec::new();
    let mut i: usize = 0;
    while i < v.len()
        invariant
            i <= v.len(),
            a.len() == i,
            forall|j: int| 0 <= j < i ==> json_view(#[trigger] a@[j]) == JsonV::Int(v@[j] as int),
        decreases v.len() - i,
    {
        a.push(Json::Int(v[i]));
        i += 1;
    }
    proof {
        assert(list_view(a) =~= v@.map_values(|i: i64| JsonV::Int(i as int)));
    }
    Json::Array(a)
}

/// The view of a list grows with the list.
pub proof fn lemma_list_push(a: Vec<Json>, b: Vec<Json>, v: Json)
    requires
        b@ == a@.push(v),
    ensures
        list_view(b) == list_view(a).push(json_view(v)),
{
    assert(list_view(b) =~= list_view(a).push(json_view(v)));
}

} // verus!
