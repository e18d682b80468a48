use vstd::prelude::*;
use crate::text::str_eq;

verus! {

/// A JSON document as the response parsers read it.
#[derive(Debug)]
pub enum JsonValue {
    Null,
    Bool(bool),
    /// A number, kept in its textual form.
    Number(String),
    Str(String),
    Array(Vec<JsonValue>),
    /// The members of an object, in order.
    Object(Vec<(String, JsonValue)>),
}

/// The element at index `i` of an array (`None` for other values or an
/// index out of range).
pub open spec fn json_at(v: JsonValue, i: int) -> Option<JsonValue> {
    match v {
        JsonValue::Array(items) => if 0 <= i < items@.len() {
            Some(items@[i])
        } else {
            None
        },
        _ => None,
    }
}

/// The value of the first member named `key` among `members`.
pub open spec fn member_named(members: Seq<(String, JsonValue)>, key: Seq<char>) -> Option<JsonValue>
    decreases members.len(),
{
    if members.len() == 0 {
        None
    } else if members[0].0@ == key {
        Some(members[0].1)
    } else {
        member_named(members.drop_first(), key)
    }
}

/// The member `key` of an object (`None` for other values or a missing key).
pub open spec fn json_field(v: JsonValue, key: Seq<char>) -> Option<JsonValue> {
    match v {
        JsonValue::Object(members) => member_named(members@, key),
        _ => None,
    }
}

/// The characters of a string value.
pub open spec fn json_str(v: JsonValue) -> Option<Seq<char>> {
    match v {
        JsonValue::Str(s) => Some(s@),
        _ => None,
    }
}

/// The elements of an array value.
pub open spec fn json_array(v: JsonValue) -> Option<Seq<JsonValue>> {
    match v {
        JsonValue::Array(items) => Some(items@),
        _ => None,
    }
}

/// The value an optional reference points to.
pub open spec fn opt_deref(o: Option<&JsonValue>) -> Option<JsonValue> {
    match o {
        Some(x) => Some(*x),
        None => None,
    }
}

/// `json_at` on an optional value.
pub open spec fn opt_at(o: Option<JsonValue>, i: int) -> Option<JsonValue> {
    match o {
        Some(v) => json_at(v, i),
        None => None,
    }
}

/// `json_field` on an optional value.
pub open spec fn opt_field(o: Option<JsonValue>, key: Seq<char>) -> Option<JsonValue> {
    match o {
        Some(v) => json_field(v, key),
        None => None,
    }
}

/// `json_str` on an optional value.
pub open spec fn opt_str(o: Option<JsonValue>) -> Option<Seq<char>> {
    match o {
        Some(v) => json_str(v),
        None => None,
    }
}

/// `json_array` on an optional value.
pub open spec fn opt_array(o: Option<JsonValue>) -> Option<Seq<JsonValue>> {
    match o {
        Some(v) => json_array(v),
        None => None,
    }
}

/// The characters of an optional string, or nothing.
pub open spec fn str_or_empty(o: Option<Seq<char>>) -> Seq<char> {
    match o {
        Some(s) => s,
        None => Seq::empty(),
    }
}

impl JsonValue {
    /// The element at index `i` of an array.
    pub fn get_index(&self, i: usize) -> (r: Option<&JsonValue>)
        ensures
            opt_deref(r) == json_at(*self, i as int),
    {
        match self {
            JsonValue::Array(items) => {
                if i < items.len() {
                    Some(&items[i])
                } else {
                    None
                }
            },
            _ => None,
        }
    }

    /// The member `key` of an object.
    pub fn get_key(&self, key: &str) -> (r: Option<&JsonValue>)
        ensures
            opt_deref(r) == json_field(*self, key@),
    {
        match self {
            JsonValue::Object(members) => {
                let mut i: usize = 0;
                assert(members@.subrange(0, members@.len() as int) =~= members@);
                while i < members.len()
                    invariant
                        i <= members.len(),
                        json_field(*self, key@) == member_named(members@, key@),
                        member_named(members@, key@) == member_named(
                            members@.subrange(i as int, members@.len() as int),
                            key@,
                        ),
                    decreases members.len() - i,
                {
                    let ghost rest = members@.subrange(i as int, members@.len() as int);
                    assert(rest.drop_first() =~= members@.subrange(
                        i + 1,
                        members@.len() as int,
                    ));
                    assert(rest[0] == members@[i as int]);
                    let member = &members[i];
                    if str_eq(member.0.as_str(), key) {
                        assert(member_named(rest, key@) == Some(member.1));
                        return Some(&member.1);
                    }
                    i = i + 1;
                }
                None
            },
            _ => None,
        }
    }

    /// The text of a string value.
    pub fn as_str(&self) -> (r: Option<&str>)
        ensures
            r matches Some(s) ==> json_str(*self) == Some(s@),
            r is None ==> json_str(*self) is None,
    {
        match self {
            JsonValue::Str(s) => Some(s.as_str()),
            _ => None,
        }
    }

    /// The elements of an array value.
    pub fn as_array(&self) -> (r: Option<&Vec<JsonValue>>)
        ensures
            r matches Some(a) ==> json_array(*self) == Some(a@),
            r is None ==> json_array(*self) is None,
    {
        match self {
            JsonValue::Array(items) => Some(items),
            _ => None,
        }
    }
}

} // verus!
