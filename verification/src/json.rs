//! A plain model of JSON documents, with the accessors the salvage
//! planner and the lab reports read them through.
use vstd::prelude::*;
use vstd::string::*;
use crate::text::str_equals;

verus! {

/// A JSON value. A number is held by the value it has as an unsigned
/// 64-bit integer, or `None` when it has none (negative or fractional).
pub enum JsonValue {
    Null,
    Bool(bool),
    Number(Option<u64>),
    Str(String),
    Array(Vec<JsonValue>),
    Object(Vec<(String, JsonValue)>),
}

/// Index of the first member of `ms` from `i` on whose key is `key`, if any.
pub open spec fn first_member_from(ms: Seq<(String, JsonValue)>, key: Seq<char>, i: int) -> Option<int>
    decreases ms.len() - i,
{
    if i < 0 || i >= ms.len() {
        None
    } else if ms[i].0@ == key {
        Some(i)
    } else {
        first_member_from(ms, key, i + 1)
    }
}

/// The member that `Value::get(key)` returns: the first one with that key,
/// on an object; `None` on any other value.
pub open spec fn json_get(v: JsonValue, key: Seq<char>) -> Option<JsonValue> {
    match v {
        JsonValue::Object(ms) => match first_member_from(ms@, key, 0) {
            Some(i) => Some(ms@[i].1),
            None => None,
        },
        _ => None,
    }
}

/// The text of a string value.
pub open spec fn json_as_str(v: JsonValue) -> Option<Seq<char>> {
    match v {
        JsonValue::Str(s) => Some(s@),
        _ => None,
    }
}

/// The unsigned integer held by a number value.
pub open spec fn json_as_u64(v: JsonValue) -> Option<u64> {
    match v {
        JsonValue::Number(n) => n,
        _ => None,
    }
}

/// The items of an array value.
pub open spec fn json_as_array(v: JsonValue) -> Option<Seq<JsonValue>> {
    match v {
        JsonValue::Array(items) => Some(items@),
        _ => None,
    }
}

/// `v.get(key).and_then(as_str)`.
pub open spec fn get_str(v: JsonValue, key: Seq<char>) -> Option<Seq<char>> {
    match json_get(v, key) {
        Some(x) => json_as_str(x),
        None => None,
    }
}

/// `v.get(key).and_then(as_u64)`.
pub open spec fn get_u64(v: JsonValue, key: Seq<char>) -> Option<u64> {
    match json_get(v, key) {
        Some(x) => json_as_u64(x),
        None => None,
    }
}

/// `v.get(key).and_then(as_array)`.
pub open spec fn get_array(v: JsonValue, key: Seq<char>) -> Option<Seq<JsonValue>> {
    match json_get(v, key) {
        Some(x) => json_as_array(x),
        None => None,
    }
}

/// Replacing a member by one with the same key leaves the first member of
/// any key where it was.
proof fn lemma_first_member_update(ms: Seq<(String, JsonValue)>, i: int, x: (String, JsonValue), k: Seq<char>, j: int)
    requires
        0 <= i < ms.len(),
        x.0@ == ms[i].0@,
    ensures
        first_member_from(ms.update(i, x), k, j) == first_member_from(ms, k, j),
    decreases ms.len() - j,
{
    if 0 <= j < ms.len() {
        lemma_first_member_update(ms, i, x, k, j + 1);
    }
}

/// Appending a member finds it only for its key, and only where no earlier
/// member has that key.
proof fn lemma_first_member_push(ms: Seq<(String, JsonValue)>, x: (String, JsonValue), k: Seq<char>, j: int)
    requires
        0 <= j <= ms.len(),
    ensures
        first_member_from(ms.push(x), k, j) == match first_member_from(ms, k, j) {
            Some(i) => Some(i),
            None => if x.0@ == k { Some(ms.len() as int) } else { None },
        },
    decreases ms.len() - j,
{
    let p = ms.push(x);
    if j < ms.len() {
        lemma_first_member_push(ms, x, k, j + 1);
        assert(p[j] == ms[j]);
    } else {
        assert(p[j] == x);
        assert(first_member_from(p, k, j + 1) is None);
        assert(first_member_from(ms, k, j) is None);
    }
}

/// The first member found has the key sought and lies from `j` on.
proof fn lemma_first_member_key(ms: Seq<(String, JsonValue)>, k: Seq<char>, j: int)
    ensures
        match first_member_from(ms, k, j) {
            Some(q) => j <= q < ms.len() && 0 <= q && ms[q].0@ == k,
            None => true,
        },
    decreases ms.len() - j,
{
    if 0 <= j < ms.len() {
        lemma_first_member_key(ms, k, j + 1);
    }
}

/// `r` is `v` with member `key` set to `val`, read as a map: an object
/// whose member under `key` is `val` and whose other members are `v`'s.
pub open spec fn is_set_member(r: JsonValue, v: JsonValue, key: Seq<char>, val: JsonValue) -> bool {
    &&& r is Object
    &&& json_get(r, key) == Some(val)
    &&& forall|k: Seq<char>| k != key ==> #[trigger] json_get(r, k) == json_get(v, k)
}

/// Sets member `key` of an object to `val` (replacing the first member with
/// that key, else adding one), as `v[key] = val` does; `null` becomes an
/// object with that one member.
pub fn set_member(v: JsonValue, key: &str, val: JsonValue) -> (r: JsonValue)
    requires
        v is Object || v is Null,
    ensures
        is_set_member(r, v, key@, val),
{
    let ghost v0 = v;
    match v {
        JsonValue::Object(ms) => {
            let mut ms = ms;
            let ghost orig = ms@;
            assert(v0 is Object && v0->Object_0@ == orig);
            let mut i: usize = 0;
            while i < ms.len()
                invariant
                    ms@ == orig,
                    v0 == v,
                    v0 is Object && v0->Object_0@ == orig,
                    i <= ms@.len(),
                    first_member_from(ms@, key@, 0) == first_member_from(ms@, key@, i as int),
                decreases ms.len() - i,
            {
                if str_equals(ms[i].0.as_str(), key) {
                    assert(first_member_from(ms@, key@, i as int) == Some(i as int));
                    let old_member = ms.remove(i);
                    let x = (old_member.0, val);
                    ms.insert(i, x);
                    proof {
                        assert(ms@ =~= orig.update(i as int, x));
                        lemma_first_member_update(orig, i as int, x, key@, 0);
                        assert forall|k: Seq<char>| k != key@ implies #[trigger] json_get(JsonValue::Object(ms), k) == json_get(v, k) by {
                            lemma_first_member_update(orig, i as int, x, k, 0);
                            lemma_first_member_key(orig, k, 0);
                            if let Some(q) = first_member_from(orig, k, 0) {
                                assert(q != i);
                                assert(ms@[q] == orig[q]);
                            }
                        }
                    }
                    return JsonValue::Object(ms);
                }
                i = i + 1;
            }
            let x = (String::from_str(key), val);
            let ghost before = ms@;
            ms.push(x);
            proof {
                assert(first_member_from(before, key@, 0) is None);
                lemma_first_member_push(before, x, key@, 0);
                assert(ms@[before.len() as int] == x);
                assert forall|k: Seq<char>| k != key@ implies #[trigger] json_get(JsonValue::Object(ms), k) == json_get(v, k) by {
                    lemma_first_member_push(before, x, k, 0);
                    lemma_first_member_key(before, k, 0);
                    if let Some(q) = first_member_from(before, k, 0) {
                        assert(ms@[q] == before[q]);
                    }
                }
            }
            JsonValue::Object(ms)
        },
        _ => {
            let mut ms: Vec<(String, JsonValue)> = Vec::new();
            ms.push((String::from_str(key), val));
            proof {
                assert(first_member_from(ms@, key@, 0) == Some(0int));
                assert forall|k: Seq<char>| k != key@ implies #[trigger] first_member_from(ms@, k, 0) is None by {
                    assert(first_member_from(ms@, k, 1) is None);
                }
            }
            JsonValue::Object(ms)
        },
    }
}

/// An object taken apart at its first member with some key: the other
/// members, the position the member stood at, and the member itself.
pub struct SplitMember {
    pub rest: Vec<(String, JsonValue)>,
    pub at: usize,
    pub key: String,
    pub value: JsonValue,
}

/// `s` is `v` taken apart at its first member `key`.
pub open spec fn is_split(s: SplitMember, v: JsonValue, key: Seq<char>) -> bool {
    &&& v is Object
    &&& first_member_from(v->Object_0@, key, 0) == Some(s.at as int)
    &&& s.at < v->Object_0@.len()
    &&& s.rest@ == v->Object_0@.remove(s.at as int)
    &&& (s.key, s.value) == v->Object_0@[s.at as int]
}

/// Takes an object apart at its first member `key`.
pub fn split_member(v: JsonValue, key: &str) -> (s: SplitMember)
    requires
        json_get(v, key@) is Some,
    ensures
        is_split(s, v, key@),
{
    let ghost v0 = v;
    match v {
        JsonValue::Object(ms) => {
            let mut ms = ms;
            let ghost orig = ms@;
            let mut i: usize = 0;
            while i < ms.len()
                invariant
                    ms@ == orig,
                    v0 == v,
                    v0 is Object && v0->Object_0@ == orig,
                    i <= ms@.len(),
                    first_member_from(ms@, key@, 0) == first_member_from(ms@, key@, i as int),
                    first_member_from(orig, key@, 0) is Some,
                decreases ms.len() - i,
            {
                if str_equals(ms[i].0.as_str(), key) {
                    assert(first_member_from(ms@, key@, i as int) == Some(i as int));
                    let (k, value) = ms.remove(i);
                    return SplitMember { rest: ms, at: i, key: k, value };
                }
                i = i + 1;
            }
            proof {
                assert(first_member_from(orig, key@, i as int) is None);
            }
            SplitMember { rest: ms, at: 0, key: String::new(), value: JsonValue::Null }
        },
        _ => SplitMember { rest: Vec::new(), at: 0, key: String::new(), value: JsonValue::Null },
    }
}

/// Puts an object back together with a new value for the member it was
/// taken apart at.
pub fn rejoin_member(rest: Vec<(String, JsonValue)>, at: usize, key: String, value: JsonValue) -> (r: JsonValue)
    requires
        at <= rest@.len(),
    ensures
        r is Object,
        r->Object_0@ == rest@.insert(at as int, (key, value)),
{
    let mut ms = rest;
    ms.insert(at, (key, value));
    JsonValue::Object(ms)
}

/// Putting an object back with a new value for member `key` sets that
/// member and keeps the others.
pub proof fn lemma_rejoin(s: SplitMember, v: JsonValue, key: Seq<char>, value: JsonValue, r: JsonValue)
    requires
        is_split(s, v, key),
        r is Object,
        r->Object_0@ == s.rest@.insert(s.at as int, (s.key, value)),
    ensures
        json_get(r, key) == Some(value),
        forall|k: Seq<char>| k != key ==> #[trigger] json_get(r, k) == json_get(v, k),
{
    let orig = v->Object_0@;
    let i = s.at as int;
    let x = (s.key, value);
    lemma_first_member_key(orig, key, 0);
    assert(orig[i].0@ == key);
    assert(r->Object_0@ =~= orig.update(i, x));
    lemma_first_member_update(orig, i, x, key, 0);
    assert forall|k: Seq<char>| k != key implies #[trigger] json_get(r, k) == json_get(v, k) by {
        lemma_first_member_update(orig, i, x, k, 0);
        lemma_first_member_key(orig, k, 0);
        if let Some(q) = first_member_from(orig, k, 0) {
            assert(q != i);
        }
    }
}

impl JsonValue {
    /// The member of an object under `key` (the first, should the key occur twice).
    pub fn get(&self, key: &str) -> (r: Option<&JsonValue>)
        ensures
            match r {
                Some(x) => json_get(*self, key@) == Some(*x),
                None => json_get(*self, key@) is None,
            },
    {
        match *self {
            JsonValue::Object(ref ms) => {
                let mut i: usize = 0;
                while i < ms.len()
                    invariant
                        *self == JsonValue::Object(*ms),
                        i <= ms@.len(),
                        first_member_from(ms@, key@, 0) == first_member_from(ms@, key@, i as int),
                    decreases ms.len() - i,
                {
                    if str_equals(ms[i].0.as_str(), key) {
                        assert(first_member_from(ms@, key@, i as int) == Some(i as int));
                        return Some(&ms[i].1);
                    }
                    i = i + 1;
                }
                None
            },
            _ => None,
        }
    }

    /// The text of a string value.
    pub fn as_str(&self) -> (r: Option<&str>)
        ensures
            match r {
                Some(s) => json_as_str(*self) == Some(s@),
                None => json_as_str(*self) is None,
            },
    {
        match self {
            JsonValue::Str(s) => Some(s.as_str()),
            _ => None,
        }
    }

    /// The unsigned integer of a number value.
    pub fn as_u64(&self) -> (r: Option<u64>)
        ensures
            r == json_as_u64(*self),
    {
        match self {
            JsonValue::Number(n) => *n,
            _ => None,
        }
    }

    /// The items of an array value.
    pub fn as_array(&self) -> (r: Option<&Vec<JsonValue>>)
        ensures
            match r {
                Some(items) => json_as_array(*self) == Some(items@),
                None => json_as_array(*self) is None,
            },
    {
        match self {
            JsonValue::Array(items) => Some(items),
            _ => None,
        }
    }

    /// The members of an object value.
    pub fn as_object(&self) -> (r: Option<&Vec<(String, JsonValue)>>)
        ensures
            match r {
                Some(ms) => *self == JsonValue::Object(*ms),
                None => !(*self is Object),
            },
    {
        match self {
            JsonValue::Object(ms) => Some(ms),
            _ => None,
        }
    }

    /// `self.get(key).and_then(as_str)`.
    pub fn get_str(&self, key: &str) -> (r: Option<&str>)
        ensures
            match r {
                Some(s) => get_str(*self, key@) == Some(s@),
                None => get_str(*self, key@) is None,
            },
    {
        match self.get(key) {
            Some(x) => x.as_str(),
            None => None,
        }
    }

    /// `self.get(key).and_then(as_u64)`.
    pub fn get_u64(&self, key: &str) -> (r: Option<u64>)
        ensures
            r == get_u64(*self, key@),
    {
        match self.get(key) {
            Some(x) => x.as_u64(),
            None => None,
        }
    }

    /// `self.get(key).and_then(as_array)`.
    pub fn get_array(&self, key: &str) -> (r: Option<&Vec<JsonValue>>)
        ensures
            match r {
                Some(items) => get_array(*self, key@) == Some(items@),
                None => get_array(*self, key@) is None,
            },
    {
        match self.get(key) {
            Some(x) => x.as_array(),
            None => None,
        }
    }
}

} // verus!
