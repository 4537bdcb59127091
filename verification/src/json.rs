use vstd::prelude::*;

verus! {

/// A JSON value as the logic reads it. Numbers keep their integer value
/// where they have one; any other number is `Fraction`.
#[derive(Debug, PartialEq, Eq)]
pub enum Json {
    Null,
    Bool(bool),
    Integer(i128),
    Fraction,
    Text(String),
    Array(Vec<Json>),
    Object(Vec<(String, Json)>),
}

/// The value under `key` in a list of members: the first member with that
/// key.
pub open spec fn member(members: Seq<(String, Json)>, key: Seq<char>) -> Option<Json>
    decreases members.len(),
{
    if members.len() == 0 {
        None
    } else if members[0].0@ == key {
        Some(members[0].1)
    } else {
        member(members.drop_first(), key)
    }
}

/// `Value::get` with a string key: the member of an object, `None` for a
/// missing key or a value that is no object.
pub open spec fn json_get(j: Json, key: Seq<char>) -> Option<Json> {
    match j {
        Json::Object(members) => member(members@, key),
        _ => None,
    }
}

/// `Value::get(key)` followed by `Value::as_str`.
pub open spec fn get_text(j: Json, key: Seq<char>) -> Option<Seq<char>> {
    match json_get(j, key) {
        Some(Json::Text(s)) => Some(s@),
        _ => None,
    }
}

/// `Value::get(key)` followed by `Value::as_u64`.
pub open spec fn get_u64(j: Json, key: Seq<char>) -> Option<u64> {
    match json_get(j, key) {
        Some(Json::Integer(n)) => if 0 <= n <= u64::MAX {
            Some(n as u64)
        } else {
            None
        },
        _ => None,
    }
}

proof fn lemma_member_skip(members: Seq<(String, Json)>, key: Seq<char>, i: int)
    requires
        0 <= i <= members.len(),
        forall|j: int| 0 <= j < i ==> (#[trigger] members[j]).0@ != key,
    ensures
        member(members, key) == member(members.skip(i), key),
    decreases i,
{
    if i > 0 {
        lemma_member_skip(members, key, i - 1);
        let s = members.skip(i - 1);
        assert(s[0] == members[i - 1]);
        assert(s.drop_first() == members.skip(i));
    } else {
        assert(members.skip(0) == members);
    }
}

/// The value of the first member named `key`.
pub fn find_member<'a>(members: &'a Vec<(String, Json)>, key: &str) -> (r: Option<&'a Json>)
    ensures
        match r {
            Some(v) => member(members@, key@) == Some(*v),
            None => member(members@, key@) is None,
        },
{
    let mut i: usize = 0;
    while i < members.len()
        invariant
            0 <= i <= members.len(),
            forall|j: int| 0 <= j < i ==> (#[trigger] members@[j]).0@ != key@,
        decreases members.len() - i,
    {
        if members[i].0 == key.to_owned() {
            proof {
                lemma_member_skip(members@, key@, i as int);
                let s = members@.skip(i as int);
                assert(s[0] == members@[i as int]);
            }
            return Some(&members[i].1);
        }
        i = i + 1;
    }
    proof {
        lemma_member_skip(members@, key@, i as int);
    }
    None
}

impl Json {
    /// The member under `key`, where `self` is an object that has one.
    pub fn get(&self, key: &str) -> (r: Option<&Json>)
        ensures
            match r {
                Some(v) => json_get(*self, key@) == Some(*v),
                None => json_get(*self, key@) is None,
            },
    {
        match self {
            Json::Object(members) => find_member(members, key),
            _ => None,
        }
    }

    /// The text, where `self` is a string.
    pub fn as_str(&self) -> (r: Option<&String>)
        ensures
            match r {
                Some(s) => *self == Json::Text(*s),
                None => !(*self is Text),
            },
    {
        match self {
            Json::Text(s) => Some(s),
            _ => None,
        }
    }

    /// The number, where `self` is an integer in the range of `u64`.
    pub fn as_u64(&self) -> (r: Option<u64>)
        ensures
            match r {
                Some(n) => *self == Json::Integer(n as i128),
                None => !(*self matches Json::Integer(n) && 0 <= n <= u64::MAX),
            },
    {
        match self {
            Json::Integer(n) => if 0 <= *n && *n <= 0xffff_ffff_ffff_ffff {
                Some(*n as u64)
            } else {
                None
            },
            _ => None,
        }
    }

    /// The text under `key`.
    pub fn text_at(&self, key: &str) -> (r: Option<String>)
        ensures
            match r {
                Some(s) => get_text(*self, key@) == Some(s@),
                None => get_text(*self, key@) is None,
            },
    {
        match self.get(key) {
            Some(v) => match v.as_str() {
                Some(s) => Some(s.clone()),
                None => None,
            },
            None => None,
        }
    }

    /// The unsigned integer under `key`.
    pub fn u64_at(&self, key: &str) -> (r: Option<u64>)
        ensures
            r == get_u64(*self, key@),
    {
        match self.get(key) {
            Some(v) => v.as_u64(),
            None => None,
        }
    }
}

} // verus!
