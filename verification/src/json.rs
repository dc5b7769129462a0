//! A JSON value, as the request and configuration logic reads it.

use vstd::prelude::*;
use crate::text::{chars_of, chars_eq};

verus! {

/// A JSON number: a non-negative integer, a negative integer, or any other
/// number by its decimal text.
pub enum JsonNumber {
    PosInt(u64),
    NegInt(i64),
    Float(String),
}

/// A JSON value. Object members keep their order; keys are unique.
pub enum JsonValue {
    Null,
    Bool(bool),
    Number(JsonNumber),
    String(String),
    Array(Vec<JsonValue>),
    Object(Vec<(String, JsonValue)>),
}

/// The first member of `members` named `key`.
pub open spec fn spec_member(members: Seq<(String, JsonValue)>, key: Seq<char>) -> Option<JsonValue>
    decreases members.len(),
{
    if members.len() == 0 {
        None
    } else if members[0].0@ == key {
        Some(members[0].1)
    } else {
        spec_member(members.drop_first(), key)
    }
}

/// The member `key` of an object; nothing for any other value.
pub open spec fn spec_get(v: JsonValue, key: Seq<char>) -> Option<JsonValue> {
    match v {
        JsonValue::Object(m) => spec_member(m@, key),
        _ => None,
    }
}

/// The integer of a number that is a non-negative integer.
pub open spec fn spec_as_u64(v: JsonValue) -> Option<u64> {
    match v {
        JsonValue::Number(JsonNumber::PosInt(n)) => Some(n),
        _ => None,
    }
}

/// The integer of a number that is an integer within `i64`.
pub open spec fn spec_as_i64(v: JsonValue) -> Option<i64> {
    match v {
        JsonValue::Number(JsonNumber::PosInt(n)) => if n <= i64::MAX {
            Some(n as i64)
        } else {
            None
        },
        JsonValue::Number(JsonNumber::NegInt(n)) => Some(n),
        _ => None,
    }
}

/// The text of a string.
pub open spec fn spec_as_str(v: JsonValue) -> Option<Seq<char>> {
    match v {
        JsonValue::String(s) => Some(s@),
        _ => None,
    }
}

pub open spec fn spec_as_bool(v: JsonValue) -> Option<bool> {
    match v {
        JsonValue::Bool(b) => Some(b),
        _ => None,
    }
}

proof fn lemma_member_step(members: Seq<(String, JsonValue)>, key: Seq<char>, i: int)
    requires
        0 <= i < members.len(),
        forall|k: int| 0 <= k < i ==> (#[trigger] members[k]).0@ != key,
    ensures
        spec_member(members, key) == if members[i].0@ == key {
            Some(members[i].1)
        } else {
            spec_member(members.skip(i + 1), key)
        },
    decreases i,
{
    if i > 0 {
        let d = members.drop_first();
        assert forall|k: int| 0 <= k < i - 1 implies (#[trigger] d[k]).0@ != key by {
            assert(d[k] == members[k + 1]);
        }
        lemma_member_step(d, key, i - 1);
        assert(d.skip(i) =~= members.skip(i + 1));
    } else {
        assert(members.skip(1) =~= members.drop_first());
    }
}

/// Index of the first member named `key`.
pub fn find_member(members: &Vec<(String, JsonValue)>, key: &str) -> (r: Option<usize>)
    ensures
        match r {
            Some(i) => i < members@.len() && members@[i as int].0@ == key@ && spec_member(
                members@,
                key@,
            ) == Some(members@[i as int].1),
            None => spec_member(members@, key@) is None,
        },
{
    let k = chars_of(key);
    let mut i: usize = 0;
    while i < members.len()
        invariant
            i <= members@.len(),
            k@ == key@,
            forall|j: int| 0 <= j < i ==> (#[trigger] members@[j]).0@ != key@,
        decreases members.len() - i,
    {
        let name = chars_of(members[i].0.as_str());
        if chars_eq(&name, &k) {
            proof {
                lemma_member_step(members@, key@, i as int);
            }
            return Some(i);
        }
        proof {
            lemma_member_step(members@, key@, i as int);
        }
        i = i + 1;
    }
    proof {
        lemma_member_none(members@, key@);
    }
    None
}

proof fn lemma_member_none(members: Seq<(String, JsonValue)>, key: Seq<char>)
    requires
        forall|j: int| 0 <= j < members.len() ==> (#[trigger] members[j]).0@ != key,
    ensures
        spec_member(members, key) is None,
    decreases members.len(),
{
    if members.len() > 0 {
        let d = members.drop_first();
        assert forall|j: int| 0 <= j < d.len() implies (#[trigger] d[j]).0@ != key by {
            assert(d[j] == members[j + 1]);
        }
        lemma_member_none(d, key);
    }
}

/// The JSON number of an unsigned integer.
pub open spec fn spec_json_u64(n: u64) -> JsonValue {
    JsonValue::Number(JsonNumber::PosInt(n))
}

/// The JSON number of a signed integer: stored as non-negative where it is.
pub open spec fn spec_json_i64(n: i64) -> JsonValue {
    if n >= 0 {
        JsonValue::Number(JsonNumber::PosInt(n as u64))
    } else {
        JsonValue::Number(JsonNumber::NegInt(n))
    }
}

pub fn json_u64(n: u64) -> (v: JsonValue)
    ensures
        v == spec_json_u64(n),
{
    JsonValue::Number(JsonNumber::PosInt(n))
}

pub fn json_i64(n: i64) -> (v: JsonValue)
    ensures
        v == spec_json_i64(n),
{
    if n >= 0 {
        JsonValue::Number(JsonNumber::PosInt(n as u64))
    } else {
        JsonValue::Number(JsonNumber::NegInt(n))
    }
}

/// The JSON string of a text.
pub fn json_str(s: &str) -> (v: JsonValue)
    ensures
        v matches JsonValue::String(x) && x@ == s@,
{
    JsonValue::String(String::from_str(s))
}

impl JsonValue {
    pub fn is_null(&self) -> (b: bool)
        ensures
            b == (*self is Null),
    {
        match self {
            JsonValue::Null => true,
            _ => false,
        }
    }

    /// The member `key` of an object (`serde_json::Value::get`).
    pub fn get(&self, key: &str) -> (r: Option<&JsonValue>)
        ensures
            match (r, spec_get(*self, key@)) {
                (Some(x), Some(y)) => *x == y,
                (None, None) => true,
                _ => false,
            },
    {
        match self {
            JsonValue::Object(members) => match find_member(members, key) {
                Some(i) => Some(&members[i].1),
                None => None,
            },
            _ => None,
        }
    }

    /// The member `key` of an object, moved out of it.
    pub fn take_member(self, key: &str) -> (r: Option<JsonValue>)
        ensures
            r == spec_get(self, key@),
    {
        match self {
            JsonValue::Object(members) => {
                let mut members = members;
                match find_member(&members, key) {
                    Some(i) => {
                        let (_, v) = members.remove(i);
                        Some(v)
                    },
                    None => None,
                }
            },
            _ => None,
        }
    }

    pub fn as_u64(&self) -> (r: Option<u64>)
        ensures
            r == spec_as_u64(*self),
    {
        match self {
            JsonValue::Number(JsonNumber::PosInt(n)) => Some(*n),
            _ => None,
        }
    }

    pub fn as_i64(&self) -> (r: Option<i64>)
        ensures
            r == spec_as_i64(*self),
    {
        match self {
            JsonValue::Number(JsonNumber::PosInt(n)) => {
                if *n <= 0x7fff_ffff_ffff_ffff {
                    Some(*n as i64)
                } else {
                    None
                }
            },
            JsonValue::Number(JsonNumber::NegInt(n)) => Some(*n),
            _ => None,
        }
    }

    pub fn as_str(&self) -> (r: Option<&str>)
        ensures
            match (r, spec_as_str(*self)) {
                (Some(x), Some(y)) => x@ == y,
                (None, None) => true,
                _ => false,
            },
    {
        match self {
            JsonValue::String(s) => Some(s.as_str()),
            _ => None,
        }
    }

    pub fn as_bool(&self) -> (r: Option<bool>)
        ensures
            r == spec_as_bool(*self),
    {
        match self {
            JsonValue::Bool(b) => Some(*b),
            _ => None,
        }
    }
}

/// A member named `k` holding the string `v`.
pub open spec fn spec_str_member(m: (String, JsonValue), k: Seq<char>, v: Seq<char>) -> bool {
    m.0@ == k && (m.1 matches JsonValue::String(x) && x@ == v)
}

/// A member named `k` holding `v`.
pub open spec fn spec_value_member(m: (String, JsonValue), k: Seq<char>, v: JsonValue) -> bool {
    m.0@ == k && m.1 == v
}

/// Appends a member holding a string.
pub fn push_str_member(members: &mut Vec<(String, JsonValue)>, k: &str, v: &str)
    ensures
        final(members)@.len() == old(members)@.len() + 1,
        final(members)@.take(old(members)@.len() as int) == old(members)@,
        spec_str_member(final(members)@.last(), k@, v@),
{
    members.push((String::from_str(k), json_str(v)));
    assert(members@.take(old(members)@.len() as int) =~= old(members)@);
}

/// Appends a member holding a value.
pub fn push_member(members: &mut Vec<(String, JsonValue)>, k: &str, v: JsonValue)
    ensures
        final(members)@.len() == old(members)@.len() + 1,
        final(members)@.take(old(members)@.len() as int) == old(members)@,
        final(members)@.last().0@ == k@,
        final(members)@.last().1 == v,
{
    members.push((String::from_str(k), v));
    assert(members@.take(old(members)@.len() as int) =~= old(members)@);
}

/// Two JSON values alike: the same kind, the same number or string, and
/// arrays and objects alike member by member (objects with the same member
/// names in the same order).
pub open spec fn spec_json_eq(a: JsonValue, b: JsonValue) -> bool
    decreases a,
{
    match (a, b) {
        (JsonValue::Null, JsonValue::Null) => true,
        (JsonValue::Bool(x), JsonValue::Bool(y)) => x == y,
        (JsonValue::Number(x), JsonValue::Number(y)) => match (x, y) {
            (JsonNumber::PosInt(p), JsonNumber::PosInt(q)) => p == q,
            (JsonNumber::NegInt(p), JsonNumber::NegInt(q)) => p == q,
            (JsonNumber::Float(p), JsonNumber::Float(q)) => p@ == q@,
            _ => false,
        },
        (JsonValue::String(x), JsonValue::String(y)) => x@ == y@,
        (JsonValue::Array(x), JsonValue::Array(y)) => {
            proof {
                assert(decreases_to!(a => x));
                assert(decreases_to!(x => x@));
            }
            spec_json_seq_eq(x@, y@)
        },
        (JsonValue::Object(x), JsonValue::Object(y)) => {
            proof {
                assert(decreases_to!(a => x));
                assert(decreases_to!(x => x@));
            }
            spec_json_members_eq(x@, y@)
        },
        _ => false,
    }
}

/// Two sequences of values alike element by element.
pub open spec fn spec_json_seq_eq(x: Seq<JsonValue>, y: Seq<JsonValue>) -> bool
    decreases x,
{
    if x.len() != y.len() {
        false
    } else if x.len() == 0 {
        true
    } else {
        proof {
            assert(decreases_to!(x => x.subrange(0, x.len() - 1)));
            assert(decreases_to!(x => x[x.len() - 1]));
        }
        spec_json_seq_eq(x.drop_last(), y.drop_last()) && spec_json_eq(x.last(), y.last())
    }
}

/// Two member lists alike member by member: the same names, alike values.
pub open spec fn spec_json_members_eq(x: Seq<(String, JsonValue)>, y: Seq<(String, JsonValue)>) -> bool
    decreases x,
{
    if x.len() != y.len() {
        false
    } else if x.len() == 0 {
        true
    } else {
        proof {
            assert(decreases_to!(x => x.subrange(0, x.len() - 1)));
            assert(decreases_to!(x => x[x.len() - 1]));
            assert(decreases_to!(x[x.len() - 1] => x[x.len() - 1].1));
        }
        spec_json_members_eq(x.drop_last(), y.drop_last()) && x.last().0@ == y.last().0@
            && spec_json_eq(x.last().1, y.last().1)
    }
}

impl JsonValue {
    /// A deep copy of the value (see `spec_json_eq`).
    pub fn copy(&self) -> (r: JsonValue)
        ensures
            spec_json_eq(r, *self),
        decreases self,
    {
        match self {
            JsonValue::Null => JsonValue::Null,
            JsonValue::Bool(b) => JsonValue::Bool(*b),
            JsonValue::Number(n) => JsonValue::Number(
                match n {
                    JsonNumber::PosInt(p) => JsonNumber::PosInt(*p),
                    JsonNumber::NegInt(p) => JsonNumber::NegInt(*p),
                    JsonNumber::Float(t) => JsonNumber::Float(t.clone()),
                },
            ),
            JsonValue::String(t) => JsonValue::String(t.clone()),
            JsonValue::Array(items) => {
                let mut out: Vec<JsonValue> = Vec::new();
                let mut i: usize = 0;
                while i < items.len()
                    invariant
                        *self == JsonValue::Array(*items),
                        i <= items@.len(),
                        out@.len() == i,
                        spec_json_seq_eq(out@, items@.take(i as int)),
                    decreases items.len() - i,
                {
                    proof {
                        assert(decreases_to!(*self => self->Array_0));
                        assert(decreases_to!(*items => items@));
                        assert(decreases_to!(items@ => items@[i as int]));
                    }
                    let c = items[i].copy();
                    let ghost before = out@;
                    out.push(c);
                    proof {
                        assert(out@.drop_last() =~= before);
                        assert(items@.take(i + 1).drop_last() =~= items@.take(i as int));
                        assert(items@.take(i + 1).last() == items@[i as int]);
                    }
                    i = i + 1;
                }
                assert(items@.take(items@.len() as int) =~= items@);
                JsonValue::Array(out)
            },
            JsonValue::Object(members) => {
                let mut out: Vec<(String, JsonValue)> = Vec::new();
                let mut i: usize = 0;
                while i < members.len()
                    invariant
                        *self == JsonValue::Object(*members),
                        i <= members@.len(),
                        out@.len() == i,
                        spec_json_members_eq(out@, members@.take(i as int)),
                    decreases members.len() - i,
                {
                    proof {
                        assert(decreases_to!(*self => self->Object_0));
                        assert(decreases_to!(*members => members@));
                        assert(decreases_to!(members@ => members@[i as int]));
                        assert(decreases_to!(members@[i as int] => members@[i as int].1));
                    }
                    let c = members[i].1.copy();
                    let name = members[i].0.clone();
                    let ghost before = out@;
                    out.push((name, c));
                    proof {
                        assert(out@.drop_last() =~= before);
                        assert(members@.take(i + 1).drop_last() =~= members@.take(i as int));
                        assert(members@.take(i + 1).last() == members@[i as int]);
                    }
                    i = i + 1;
                }
                assert(members@.take(members@.len() as int) =~= members@);
                JsonValue::Object(out)
            },
        }
    }
}

} // verus!
