//! Reading values out of JSON documents with `serde_json`: parsing, taking
//! an object's member, reading a string. A value is known to the library by
//! the document it came from and the keys that lead to it from the root.

use vstd::prelude::*;

verus! {

#[verifier::external_type_specification]
#[verifier::external_body]
pub struct ExJsonValue(serde_json::Value);

/// `raw` is a JSON document, as `serde_json::from_str` reads one.
pub uninterp spec fn json_parses(raw: Seq<char>) -> bool;

/// The JSON document `doc` has a value at `path`: each key names a member
/// of the object the keys before it lead to.
pub uninterp spec fn json_has(doc: Seq<char>, path: Seq<Seq<char>>) -> bool;

/// The text of the value at `path` in the JSON document `doc`, if that
/// value is a JSON string.
pub uninterp spec fn json_str_at(doc: Seq<char>, path: Seq<Seq<char>>) -> Option<Seq<char>>;

/// A parsed JSON document.
pub struct JsonDoc {
    value: serde_json::Value,
    text: Ghost<Seq<char>>,
}

/// A value inside a parsed JSON document. Only the functions of this module
/// make one, each for the document and the path its value was reached by.
pub struct JsonAt<'a> {
    value: &'a serde_json::Value,
    doc: Ghost<Seq<char>>,
    path: Ghost<Seq<Seq<char>>>,
}

impl JsonDoc {
    /// The text the document was parsed from.
    pub closed spec fn text(&self) -> Seq<char> {
        self.text@
    }
}

impl<'a> JsonAt<'a> {
    /// The text of the document the value is in.
    pub closed spec fn doc(&self) -> Seq<char> {
        self.doc@
    }

    /// The keys that lead to the value from the document's root.
    pub closed spec fn path(&self) -> Seq<Seq<char>> {
        self.path@
    }
}

/// `serde_json::from_str` into a `serde_json::Value`: the document, if
/// `raw` is JSON. Whether it is is named, not described.
#[verifier::external_body]
pub fn parse_json(raw: &str) -> (res: Option<JsonDoc>)
    ensures
        res is Some <==> json_parses(raw@),
        res matches Some(d) ==> d.text() == raw@,
{
    match serde_json::from_str::<serde_json::Value>(raw) {
        Ok(value) => Some(JsonDoc { value, text: Ghost(raw@) }),
        Err(_) => None,
    }
}

/// The root value of a document.
pub fn json_root(d: &JsonDoc) -> (res: JsonAt<'_>)
    ensures
        res.doc() == d.text(),
        res.path() == Seq::<Seq<char>>::empty(),
{
    JsonAt { value: &d.value, doc: Ghost(d.text@), path: Ghost(Seq::empty()) }
}

/// `serde_json::Value::get` with a key: the member `key` of an object; none
/// for a value that is not an object or has no such member. Whether there
/// is one is named, not described.
#[verifier::external_body]
pub fn json_get<'a>(v: &JsonAt<'a>, key: &str) -> (res: Option<JsonAt<'a>>)
    ensures
        res is Some <==> json_has(v.doc(), v.path().push(key@)),
        res matches Some(m) ==> m.doc() == v.doc() && m.path() == v.path().push(key@),
{
    match v.value.get(key) {
        Some(value) => Some(JsonAt { value, doc: Ghost(v.doc@), path: Ghost(v.path@.push(key@)) }),
        None => None,
    }
}

/// `serde_json::Value::as_str`: the text of a JSON string; none for any
/// other value. The text is named, not described.
#[verifier::external_body]
pub fn json_as_str(v: &JsonAt) -> (res: Option<String>)
    ensures
        match json_str_at(v.doc(), v.path()) {
            Some(s) => res matches Some(r) && r@ == s,
            None => res is None,
        },
{
    v.value.as_str().map(|s| s.to_string())
}

/// The string at `path` in the JSON text `raw`: the text is JSON, every
/// key along the path names a member, and the value there is a string.
pub open spec fn json_string_at(raw: Seq<char>, path: Seq<Seq<char>>) -> Option<Seq<char>> {
    if json_parses(raw) && forall|k: int| 1 <= k <= path.len() ==> #[trigger] json_has(raw, path.take(k)) {
        json_str_at(raw, path)
    } else {
        None
    }
}

/// The string at `path` in the JSON text `raw`, if there is one.
pub fn string_at(raw: &str, path: &Vec<&str>) -> (res: Option<String>)
    ensures
        match json_string_at(raw@, path@.map_values(|k: &str| k@)) {
            Some(s) => res matches Some(r) && r@ == s,
            None => res is None,
        },
{
    let ghost p = path@.map_values(|k: &str| k@);
    let doc = match parse_json(raw) {
        Some(d) => d,
        None => {
            return None;
        },
    };
    let mut at = json_root(&doc);
    let mut i: usize = 0;
    assert(p.take(0) =~= Seq::<Seq<char>>::empty());
    while i < path.len()
        invariant
            p == path@.map_values(|k: &str| k@),
            i <= path.len(),
            json_parses(raw@),
            at.doc() == raw@,
            at.path() == p.take(i as int),
            forall|k: int| 1 <= k <= i ==> #[trigger] json_has(raw@, p.take(k)),
        decreases path.len() - i,
    {
        assert(p.take(i as int).push(path@[i as int]@) =~= p.take(i + 1));
        match json_get(&at, path[i]) {
            Some(m) => {
                at = m;
            },
            None => {
                proof {
                    assert(!json_has(raw@, p.take(i + 1)));
                }
                return None;
            },
        }
        i = i + 1;
    }
    assert(p.take(i as int) =~= p);
    json_as_str(&at)
}

} // verus!
