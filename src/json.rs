use vstd::prelude::*;
use crate::text::str_eq;

verus! {

/// A JSON document as the catalog API sends it.
///
/// A number keeps its value where it is a non-negative integer that fits in
/// `u64`; other numbers are kept as `Number(None)`.  An object keeps its
/// members in document order.
#[derive(Debug)]
pub enum JsonValue {
    Null,
    Bool(bool),
    Number(Option<u64>),
    Str(String),
    Array(Vec<JsonValue>),
    Object(Vec<(String, JsonValue)>),
}

/// Member `i` is the first member of `entries` named `key`.
pub open spec fn key_at(entries: Seq<(String, JsonValue)>, key: Seq<char>, i: int) -> bool {
    &&& 0 <= i < entries.len()
    &&& entries[i].0@ == key
    &&& forall|j: int| 0 <= j < i ==> entries[j].0@ != key
}

/// The value of the first member named `key`.
pub open spec fn entry_value(entries: Seq<(String, JsonValue)>, key: Seq<char>) -> Option<JsonValue> {
    if exists|i: int| key_at(entries, key, i) {
        Some(entries[choose|i: int| key_at(entries, key, i)].1)
    } else {
        None
    }
}

/// The member `key` of an object; nothing for any other value.
pub open spec fn field(v: JsonValue, key: Seq<char>) -> Option<JsonValue> {
    match v {
        JsonValue::Object(entries) => entry_value(entries@, key),
        _ => None,
    }
}

/// The text under the first of `keys` whose value in `v` is a string.
pub open spec fn first_text(v: JsonValue, keys: Seq<Seq<char>>) -> Option<Seq<char>>
    decreases keys.len(),
{
    if keys.len() == 0 {
        None
    } else {
        match as_text(field(v, keys[0])) {
            Some(s) => Some(s),
            None => first_text(v, keys.drop_first()),
        }
    }
}

/// The items under the first of `keys` whose value in `v` is an array.
pub open spec fn first_items(v: JsonValue, keys: Seq<Seq<char>>) -> Option<Seq<JsonValue>>
    decreases keys.len(),
{
    if keys.len() == 0 {
        None
    } else {
        match as_items(field(v, keys[0])) {
            Some(items) => Some(items),
            None => first_items(v, keys.drop_first()),
        }
    }
}

/// The text of a string value.
pub open spec fn as_text(v: Option<JsonValue>) -> Option<Seq<char>> {
    match v {
        Some(JsonValue::Str(s)) => Some(s@),
        _ => None,
    }
}

/// The value of a non-negative integer.
pub open spec fn as_count(v: Option<JsonValue>) -> Option<u64> {
    match v {
        Some(JsonValue::Number(n)) => n,
        _ => None,
    }
}

/// The items of an array.
pub open spec fn as_items(v: Option<JsonValue>) -> Option<Seq<JsonValue>> {
    match v {
        Some(JsonValue::Array(items)) => Some(items@),
        _ => None,
    }
}

pub open spec fn deref_opt<'a>(r: Option<&'a JsonValue>) -> Option<JsonValue> {
    match r {
        Some(x) => Some(*x),
        None => None,
    }
}

pub open spec fn keys_view(keys: Seq<&str>) -> Seq<Seq<char>> {
    keys.map_values(|k: &str| k@)
}

impl JsonValue {
    /// The member `key` of an object.
    pub fn get<'a>(&'a self, key: &str) -> (r: Option<&'a JsonValue>)
        ensures
            deref_opt(r) == field(*self, key@),
    {
        match self {
            JsonValue::Object(entries) => {
                let n = entries.len();
                let mut i: usize = 0;
                while i < n
                    invariant
                        n == entries@.len(),
                        *self == JsonValue::Object(*entries),
                        i <= n,
                        forall|j: int| 0 <= j < i ==> entries@[j].0@ != key@,
                    decreases n - i,
                {
                    if str_eq(entries[i].0.as_str(), key) {
                        assert(key_at(entries@, key@, i as int));
                        assert forall|k: int| key_at(entries@, key@, k) implies k == i by {
                            if k < i {
                            } else if k > i {
                                assert(entries@[i as int].0@ == key@);
                            }
                        }
                        let ghost c = choose|k: int| key_at(entries@, key@, k);
                        assert(c == i);
                        assert(entry_value(entries@, key@) == Some(entries@[i as int].1));
                        assert(field(*self, key@) == Some(entries@[i as int].1));
                        return Some(&entries[i].1);
                    }
                    i = i + 1;
                }
                None
            },
            _ => None,
        }
    }

    /// The text under the first of `keys` whose value is a string.
    pub fn get_first_text<'a>(&'a self, keys: &Vec<&str>) -> (r: Option<&'a String>)
        ensures
            match r {
                Some(s) => first_text(*self, keys_view(keys@)) == Some(s@),
                None => first_text(*self, keys_view(keys@)) is None,
            },
    {
        let n = keys.len();
        let mut i: usize = 0;
        assert(keys_view(keys@).skip(0) =~= keys_view(keys@));
        while i < n
            invariant
                n == keys@.len(),
                i <= n,
                first_text(*self, keys_view(keys@)) == first_text(*self, keys_view(keys@).skip(i as int)),
            decreases n - i,
        {
            let ghost ks = keys_view(keys@).skip(i as int);
            assert(ks[0] == keys@[i as int]@);
            assert(ks.drop_first() =~= keys_view(keys@).skip(i + 1));
            match self.get(keys[i]) {
                Some(JsonValue::Str(s)) => {
                    return Some(s);
                },
                _ => {},
            }
            i = i + 1;
        }
        assert(keys_view(keys@).skip(i as int).len() == 0);
        None
    }

    /// The items under the first of `keys` whose value is an array.
    pub fn get_first_array<'a>(&'a self, keys: &Vec<&str>) -> (r: Option<&'a Vec<JsonValue>>)
        ensures
            match r {
                Some(items) => first_items(*self, keys_view(keys@)) == Some(items@),
                None => first_items(*self, keys_view(keys@)) is None,
            },
    {
        let n = keys.len();
        let mut i: usize = 0;
        assert(keys_view(keys@).skip(0) =~= keys_view(keys@));
        while i < n
            invariant
                n == keys@.len(),
                i <= n,
                first_items(*self, keys_view(keys@)) == first_items(*self, keys_view(keys@).skip(i as int)),
            decreases n - i,
        {
            let ghost ks = keys_view(keys@).skip(i as int);
            assert(ks[0] == keys@[i as int]@);
            assert(ks.drop_first() =~= keys_view(keys@).skip(i + 1));
            match self.get(keys[i]) {
                Some(JsonValue::Array(items)) => {
                    return Some(items);
                },
                _ => {},
            }
            i = i + 1;
        }
        assert(keys_view(keys@).skip(i as int).len() == 0);
        None
    }

    /// The text of a string value.
    pub fn as_str(&self) -> (r: Option<&String>)
        ensures
            match r {
                Some(s) => as_text(Some(*self)) == Some(s@),
                None => as_text(Some(*self)) is None,
            },
    {
        match self {
            JsonValue::Str(s) => Some(s),
            _ => None,
        }
    }
}

} // verus!
