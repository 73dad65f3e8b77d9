//! JSON values: what the shell asks of `serde_json`.
//!
//! A `serde_json::Value` is carried through as it is. Its contents have names:
//! what an object holds under each key, what an array holds, the text of a
//! string and the number of an unsigned integer. Each item below is one call
//! into `serde_json`, with what its source shows of the call as its contract.
use serde_json::Value;
use vstd::prelude::*;

verus! {

/// How many levels of arrays and objects `serde_json` reads.
pub const READ_DEPTH: u64 = 127;

/// `serde_json::Value`: a JSON value.
#[verifier::external_type_specification]
#[verifier::external_body]
pub struct ExValue(serde_json::Value);

/// `serde_json::Map`: the members of a JSON object.
#[verifier::external_type_specification]
#[verifier::external_body]
#[verifier::reject_recursive_types(K)]
#[verifier::reject_recursive_types(V)]
pub struct ExMap<K, V>(serde_json::Map<K, V>);

/// `serde_json::Error`: why a text is no JSON, or a value cannot be written.
#[verifier::external_type_specification]
#[verifier::external_body]
pub struct ExError(serde_json::Error);

/// What a `serde_json::Map` holds: the value under each key.
pub uninterp spec fn map_members(m: serde_json::Map<String, Value>) -> Map<Seq<char>, Value>;

/// What a value holds as an object: the value under each key, and `None` for a
/// value that is no object.
pub uninterp spec fn members(v: Value) -> Option<Map<Seq<char>, Value>>;

/// What a value holds as an array, in order, and `None` for a value that is no
/// array.
pub uninterp spec fn elements(v: Value) -> Option<Seq<Value>>;

/// The text of a value that is a string, and `None` for any other.
pub uninterp spec fn string_text(v: Value) -> Option<Seq<char>>;

/// The number of a value that is an integer from `0` to `u64::MAX`, and `None`
/// for any other.
pub uninterp spec fn unsigned(v: Value) -> Option<u64>;

/// What `serde_json::from_str` reads from a text, and `None` where it reads none.
pub uninterp spec fn parsed(text: Seq<char>) -> Option<Value>;

/// What `serde_json::to_string` writes for a value.
pub uninterp spec fn printed(v: Value) -> Seq<char>;

/// What `serde_json::to_string_pretty` writes for a value.
pub uninterp spec fn pretty_printed(v: Value) -> Seq<char>;

/// The value under `key`, where `v` is an object that has that key.
pub open spec fn member(v: Value, key: Seq<char>) -> Option<Value> {
    match members(v) {
        Some(m) => if m.contains_key(key) {
            Some(m[key])
        } else {
            None
        },
        None => None,
    }
}

/// The text of the string under `key`, where `v` is an object that holds a
/// string there.
pub open spec fn member_text(v: Value, key: Seq<char>) -> Option<Seq<char>> {
    match member(v, key) {
        Some(w) => string_text(w),
        None => None,
    }
}

/// The value is written with digits and a sign alone: it is a whole number.
pub open spec fn is_whole_number(v: Value) -> bool {
    printed(v).len() > 0 && forall|i: int|
        0 <= i < printed(v).len() ==> '0' <= #[trigger] printed(v)[i] <= '9' || printed(v)[i] == '-'
}

/// The value, which is no array and no object, is a string, a whole number, a truth
/// value or `null`.
pub open spec fn is_plain(v: Value) -> bool {
    ||| string_text(v) is Some
    ||| unsigned(v) is Some
    ||| is_whole_number(v)
    ||| printed(v) == "true"@ || printed(v) == "false"@ || printed(v) == "null"@
}

/// The value is one that JSON text carries unchanged: it is made of strings, whole
/// numbers, truth values and `null`, in arrays and objects at most `depth` levels
/// deep. Fractional numbers are left out, since they may come back rounded.
pub open spec fn exact(v: Value, depth: nat) -> bool
    decreases depth,
{
    match members(v) {
        Some(m) => depth > 0 && forall|key: Seq<char>| #[trigger]
            m.contains_key(key) ==> exact(m[key], (depth - 1) as nat),
        None => match elements(v) {
            Some(items) => depth > 0 && forall|i: int|
                0 <= i < items.len() ==> exact(#[trigger] items[i], (depth - 1) as nat),
            None => is_plain(v),
        },
    }
}

/// Arrays and objects stand at most `depth` levels deep in the value.
pub open spec fn shallow(v: Value, depth: nat) -> bool
    decreases depth,
{
    match members(v) {
        Some(m) => depth > 0 && forall|key: Seq<char>| #[trigger]
            m.contains_key(key) ==> shallow(m[key], (depth - 1) as nat),
        None => match elements(v) {
            Some(items) => depth > 0 && forall|i: int|
                0 <= i < items.len() ==> shallow(#[trigger] items[i], (depth - 1) as nat),
            None => true,
        },
    }
}

/// The value `w`, as it was read back, is `v` but for fractional numbers: it has the
/// keys and the places of `v` down to `depth` levels, and whatever JSON text carries
/// unchanged is there unchanged.
pub open spec fn carries(w: Value, v: Value, depth: nat) -> bool
    decreases depth,
{
    &&& exact(v, depth) ==> w == v
    &&& depth > 0 ==> match members(v) {
        Some(m) => {
            &&& members(w) matches Some(n)
            &&& n.dom() == m.dom()
            &&& forall|key: Seq<char>| #[trigger]
                m.contains_key(key) ==> carries(n[key], m[key], (depth - 1) as nat)
        },
        None => match elements(v) {
            Some(items) => {
                &&& elements(w) matches Some(read)
                &&& read.len() == items.len()
                &&& forall|i: int|
                    0 <= i < items.len() ==> carries(
                        read[i],
                        #[trigger] items[i],
                        (depth - 1) as nat,
                    )
            },
            None => true,
        },
    }
}

/// What text carries unchanged at one depth, it carries at any greater depth.
pub proof fn exact_at_a_greater_depth(v: Value, depth: nat, greater: nat)
    requires
        exact(v, depth),
        depth <= greater,
    ensures
        exact(v, greater),
    decreases depth,
{
    match members(v) {
        Some(m) => {
            assert forall|key: Seq<char>| #[trigger] m.contains_key(key) implies exact(
                m[key],
                (greater - 1) as nat,
            ) by {
                exact_at_a_greater_depth(m[key], (depth - 1) as nat, (greater - 1) as nat);
            }
        },
        None => {
            if let Some(items) = elements(v) {
                assert forall|i: int| 0 <= i < items.len() implies exact(
                    #[trigger] items[i],
                    (greater - 1) as nat,
                ) by {
                    exact_at_a_greater_depth(items[i], (depth - 1) as nat, (greater - 1) as nat);
                }
            }
        },
    }
}

/// What text carries unchanged is no deeper than that.
pub proof fn exact_is_shallow(v: Value, depth: nat)
    requires
        exact(v, depth),
    ensures
        shallow(v, depth),
    decreases depth,
{
    match members(v) {
        Some(m) => {
            assert forall|key: Seq<char>| #[trigger] m.contains_key(key) implies shallow(
                m[key],
                (depth - 1) as nat,
            ) by {
                exact_is_shallow(m[key], (depth - 1) as nat);
            }
        },
        None => {
            if let Some(items) = elements(v) {
                assert forall|i: int| 0 <= i < items.len() implies shallow(
                    #[trigger] items[i],
                    (depth - 1) as nat,
                ) by {
                    exact_is_shallow(items[i], (depth - 1) as nat);
                }
            }
        },
    }
}

/// `serde_json::from_str` into a `Value`: the result depends on the text alone, and is no
/// deeper than the reader goes.
#[verifier::external_body]
pub(crate) fn parse(text: &str) -> (r: Result<Value, serde_json::Error>)
    ensures
        r is Ok <==> parsed(text@) is Some,
        r matches Ok(v) ==> parsed(text@) == Some(v),
        r matches Ok(v) ==> shallow(v, READ_DEPTH as nat),
{
    serde_json::from_str::<Value>(text)
}

/// `serde_json::to_string` of a `Value`: it always succeeds, and the text depends on
/// the value alone. No raw line feed stands in it, since the compact format puts none
/// between the parts and a line feed inside a string is escaped. Where JSON text
/// carries the value unchanged, `serde_json::from_str` reads it back.
#[verifier::external_body]
pub(crate) fn print(v: &Value) -> (r: Result<String, serde_json::Error>)
    ensures
        r is Ok,
        r matches Ok(s) ==> s@ == printed(*v),
        r matches Ok(s) ==> !s@.contains('\n'),
        r matches Ok(s) ==> (exact(*v, READ_DEPTH as nat) ==> parsed(s@) == Some(*v)),
{
    serde_json::to_string(v)
}

/// `serde_json::to_string_pretty` of a `Value`: it always succeeds, and the text
/// depends on the value alone. Where JSON text carries the value unchanged,
/// `serde_json::from_str` reads it back. The text of any value that is no deeper than
/// the reader goes is read, and gives the value but for fractional numbers: what those
/// come back as is not stated, since the reader may round them.
#[verifier::external_body]
pub(crate) fn print_pretty(v: &Value) -> (r: Result<String, serde_json::Error>)
    ensures
        r is Ok,
        r matches Ok(s) ==> s@ == pretty_printed(*v),
        r matches Ok(s) ==> (exact(*v, READ_DEPTH as nat) ==> parsed(s@) == Some(*v)),
        r matches Ok(s) ==> (shallow(*v, READ_DEPTH as nat) ==> parsed(s@) is Some),
        r matches Ok(s) ==> (parsed(s@) matches Some(w) ==> carries(w, *v, READ_DEPTH as nat)),
{
    serde_json::to_string_pretty(v)
}

/// `Value::get` with a string key: the value under the key of an object, and
/// `None` without that key or for a value that is no object.
#[verifier::external_body]
pub(crate) fn get<'a>(v: &'a Value, key: &str) -> (r: Option<&'a Value>)
    ensures
        match r {
            Some(w) => member(*v, key@) == Some(*w),
            None => member(*v, key@) is None,
        },
{
    v.get(key)
}

/// `Value::as_u64`.
#[verifier::external_body]
pub(crate) fn as_u64(v: &Value) -> (r: Option<u64>)
    ensures
        r == unsigned(*v),
{
    v.as_u64()
}

/// `Value::as_str`.
#[verifier::external_body]
pub(crate) fn as_str(v: &Value) -> (r: Option<&str>)
    ensures
        r is Some <==> string_text(*v) is Some,
        r matches Some(s) ==> string_text(*v) == Some(s@),
{
    v.as_str()
}

/// `Value::as_array`.
#[verifier::external_body]
pub(crate) fn as_array(v: &Value) -> (r: Option<&Vec<Value>>)
    ensures
        r is Some <==> elements(*v) is Some,
        r matches Some(a) ==> elements(*v) == Some(a@),
{
    v.as_array()
}

/// `Value::as_object`.
#[verifier::external_body]
pub(crate) fn as_object(v: &Value) -> (r: Option<&serde_json::Map<String, Value>>)
    ensures
        r is Some <==> members(*v) is Some,
        r matches Some(m) ==> members(*v) == Some(map_members(*m)),
{
    v.as_object()
}

/// `Value::as_object_mut`: what is written through the reference is what the
/// object then holds; a value that is no object stays as it was.
#[verifier::external_body]
pub(crate) fn as_object_mut(v: &mut Value) -> (r: Option<&mut serde_json::Map<String, Value>>)
    ensures
        r is Some <==> members(*old(v)) is Some,
        r matches Some(m) ==> {
            &&& members(*old(v)) == Some(map_members(*m))
            &&& members(*final(v)) == Some(map_members(*final(m)))
        },
        r is None ==> *final(v) == *old(v),
{
    v.as_object_mut()
}

/// `Map::new`: an object without members.
#[verifier::external_body]
pub(crate) fn new_map() -> (r: serde_json::Map<String, Value>)
    ensures
        map_members(r) == (Map::<Seq<char>, Value>::empty()),
{
    serde_json::Map::new()
}

/// `Map::insert`: the key then holds the value, and every other key what it held.
#[verifier::external_body]
pub(crate) fn insert(m: &mut serde_json::Map<String, Value>, key: String, value: Value)
    ensures
        map_members(*final(m)) == map_members(*old(m)).insert(key@, value),
{
    m.insert(key, value);
}

/// `Map::keys`, each key cloned: every key once. In which order they come is not
/// stated, since that depends on how `serde_json` is built.
#[verifier::external_body]
pub(crate) fn keys(m: &serde_json::Map<String, Value>) -> (r: Vec<String>)
    ensures
        forall|i: int| 0 <= i < r@.len() ==> map_members(*m).contains_key((#[trigger] r@[i])@),
        forall|i: int, j: int|
            0 <= i < j < r@.len() ==> (#[trigger] r@[i])@ != (#[trigger] r@[j])@,
        forall|k: Seq<char>| #[trigger]
            map_members(*m).contains_key(k) ==> exists|i: int|
                0 <= i < r@.len() && (#[trigger] r@[i])@ == k,
{
    m.keys().cloned().collect()
}

/// `Value::from` of a `Map`: an object with the members of the map.
#[verifier::external_body]
pub(crate) fn object(m: serde_json::Map<String, Value>) -> (r: Value)
    ensures
        members(r) == Some(map_members(m)),
{
    Value::from(m)
}

/// `Value::from` of a `String`: a string with that text, and so nothing with parts.
#[verifier::external_body]
pub(crate) fn string(s: String) -> (r: Value)
    ensures
        string_text(r) == Some(s@),
        members(r) is None && elements(r) is None,
{
    Value::from(s)
}

/// `Value::from` of a `u64`: an integer with that number, and so nothing with parts.
#[verifier::external_body]
pub(crate) fn number(n: u64) -> (r: Value)
    ensures
        unsigned(r) == Some(n),
        members(r) is None && elements(r) is None,
{
    Value::from(n)
}

/// `Value::clone`: an equal value.
#[verifier::external_body]
pub(crate) fn copy(v: &Value) -> (r: Value)
    ensures
        r == *v,
{
    v.clone()
}

/// A member of a value is what its object holds under the key, and a text under a key is
/// the text of the string there.
pub proof fn members_are_looked_up_by_key(v: Value, key: Seq<char>, w: Value, text: Seq<char>)
    ensures
        member(v, key) == Some(w) <==> (members(v) matches Some(m) && m.contains_pair(key, w)),
        member_text(v, key) == Some(text) <==> (members(v) matches Some(m) && m.contains_key(key)
            && string_text(m[key]) == Some(text)),
{
}

/// Strings and whole numbers are carried unchanged at any depth, objects of what is
/// carried one level less deep, and arrays likewise.
pub proof fn what_text_carries(v: Value, depth: nat)
    ensures
        members(v) is None && elements(v) is None && (string_text(v) is Some || unsigned(
            v,
        ) is Some || printed(v) == "true"@ || printed(v) == "false"@ || printed(v) == "null"@)
            ==> exact(v, depth),
        members(v) matches Some(m) ==> (exact(v, depth + 1) <==> forall|key: Seq<char>| #[trigger]
            m.contains_key(key) ==> exact(m[key], depth)),
        members(v) is None ==> (elements(v) matches Some(items) ==> (exact(v, depth + 1)
            <==> forall|i: int| 0 <= i < items.len() ==> exact(#[trigger] items[i], depth))),
        exact(v, 0) ==> members(v) is None && elements(v) is None,
{
}

/// A value without parts is as shallow as can be, and an object or an array is one level
/// deeper than the deepest of its parts.
pub proof fn depth_counts_levels(v: Value, depth: nat)
    ensures
        members(v) is None && elements(v) is None ==> shallow(v, depth),
        members(v) matches Some(m) ==> !shallow(v, 0) && (shallow(v, depth + 1) <==> forall|
            key: Seq<char>,
        | #[trigger]
            m.contains_key(key) ==> shallow(m[key], depth)),
        members(v) is None ==> (elements(v) matches Some(items) ==> !shallow(v, 0) && (shallow(
            v,
            depth + 1,
        ) <==> forall|i: int| 0 <= i < items.len() ==> shallow(#[trigger] items[i], depth))),
{
}

/// What comes back from text is the value itself where text carries it unchanged. An
/// object comes back with the same keys and an array with as many items, and each part
/// comes back as it would alone.
pub proof fn values_come_back_part_by_part(w: Value, v: Value, depth: nat)
    requires
        carries(w, v, depth + 1),
    ensures
        exact(v, depth + 1) ==> w == v,
        members(v) matches Some(m) ==> (members(w) matches Some(n) && n.dom() == m.dom() && (forall|
            key: Seq<char>,
        | #[trigger]
            m.contains_key(key) ==> carries(n[key], m[key], depth))),
        members(v) is None ==> (elements(v) matches Some(items) ==> (elements(w) matches Some(read)
            && read.len() == items.len() && (forall|i: int|
            0 <= i < items.len() ==> carries(read[i], #[trigger] items[i], depth)))),
{
}

} // verus!
