//! JSON values as `serde_json` reads them, for the library to inspect.
use vstd::prelude::*;

verus! {

/// A JSON value.
#[derive(Debug)]
pub enum Json {
    Null,
    Bool(bool),
    /// A number, by its text.
    Number(String),
    Str(String),
    Array(Vec<Json>),
    /// The members of an object, one per key.
    Object(Vec<(String, Json)>),
}

/// The JSON value a byte string holds (the whole of it, white space around
/// aside), `None` where it holds none.
pub uninterp spec fn json_parse(bytes: Seq<u8>) -> Option<Json>;

#[verifier::external_type_specification]
#[verifier::external_body]
pub struct ExJsonValue(serde_json::Value);

/// The value of the member `k` of an object (the last one, should the key
/// occur twice).
pub open spec fn json_field(fs: Seq<(String, Json)>, k: Seq<char>) -> Option<Json>
    decreases fs.len(),
{
    if fs.len() == 0 {
        None
    } else if fs.last().0@ == k {
        Some(fs.last().1)
    } else {
        json_field(fs.drop_last(), k)
    }
}

/// The texts of a list of JSON strings, `None` if an item is not a string.
pub open spec fn json_strings(xs: Seq<Json>) -> Option<Seq<Seq<char>>>
    decreases xs.len(),
{
    if xs.len() == 0 {
        Some(Seq::empty())
    } else {
        match (json_strings(xs.drop_last()), xs.last()) {
            (Some(ts), Json::Str(t)) => Some(ts.push(t@)),
            _ => None,
        }
    }
}

/// An object whose member `p` is the string `p` and whose member `a` is the
/// list of the strings `a`.
pub open spec fn holds_wire_fields(j: Option<Json>, p: Seq<char>, a: Seq<Seq<char>>) -> bool {
    j matches Some(Json::Object(fs)) && (json_field(fs@, seq!['p']) matches Some(Json::Str(s)) && s@ == p)
        && (json_field(fs@, seq!['a']) matches Some(Json::Array(xs)) && json_strings(xs@) == Some(a))
}

/// Rewrites a `serde_json::Value` as a `Json`, one arm per variant: a number
/// by its text, an array item by item, an object member by member in the
/// map's order. Only `parse_json` calls it, and its contract covers it.
#[verifier::external_body]
fn json_of_value(v: serde_json::Value) -> (r: Json) {
    match v {
        serde_json::Value::Null => Json::Null,
        serde_json::Value::Bool(b) => Json::Bool(b),
        serde_json::Value::Number(n) => Json::Number(n.to_string()),
        serde_json::Value::String(s) => Json::Str(s),
        serde_json::Value::Array(xs) => Json::Array(xs.into_iter().map(json_of_value).collect()),
        serde_json::Value::Object(m) => Json::Object(m.into_iter().map(|(k, x)| (k, json_of_value(x))).collect()),
    }
}

/// Calls `serde_json::from_slice` into a `serde_json::Value`, rewritten as a
/// `Json`. Trusted: the result is the named reading of the bytes; and the
/// object that `wire_json(p, a)` writes (with the string literals
/// `serde_json` writes, see `json_string`) reads back as an object whose
/// member `p` is the string `p` and whose member `a` is the list of the
/// strings `a`. A `serde_json` object keeps one entry per key: of a key given
/// twice, the last value.
#[verifier::external_body]
pub(crate) fn parse_json(bytes: &[u8]) -> (r: Option<Json>)
    ensures
        r == json_parse(bytes@),
        forall|p: Seq<char>, a: Seq<Seq<char>>| bytes@ == vstd::utf8::encode_utf8(#[trigger] crate::ticket::wire_json(p, a))
            ==> holds_wire_fields(r, p, a),
{
    match serde_json::from_slice::<serde_json::Value>(bytes) {
        Ok(v) => Some(json_of_value(v)),
        Err(_) => None,
    }
}

fn is_key(k: &String, c: char) -> (r: bool)
    ensures
        r == (k@ == seq![c]),
{
    let cs = crate::text::collect_chars(k.as_str());
    let r = cs.len() == 1 && cs[0] == c;
    proof {
        if cs@.len() == 1 && cs@[0] == c {
            assert(k@ =~= seq![c]);
        }
    }
    r
}

/// Where the member `k` (a one-character key) of an object is, if anywhere.
pub fn find_field(fs: &Vec<(String, Json)>, k: char) -> (r: Option<usize>)
    ensures
        r is None <==> json_field(fs@, seq![k]) is None,
        r matches Some(i) ==> i < fs@.len() && json_field(fs@, seq![k]) == Some(fs@[i as int].1),
{
    let mut found: Option<usize> = None;
    let mut i: usize = 0;
    while i < fs.len()
        invariant
            i <= fs@.len(),
            found is None <==> json_field(fs@.take(i as int), seq![k]) is None,
            found matches Some(j) ==> j < i && json_field(fs@.take(i as int), seq![k]) == Some(fs@[j as int].1),
        decreases fs.len() - i,
    {
        proof {
            assert(fs@.take(i + 1).drop_last() =~= fs@.take(i as int));
            assert(fs@.take(i + 1).last() == fs@[i as int]);
        }
        if is_key(&fs[i].0, k) {
            found = Some(i);
        }
        i = i + 1;
    }
    assert(fs@.take(fs@.len() as int) =~= fs@);
    found
}

pub open spec fn strings_view(v: Seq<String>) -> Seq<Seq<char>> {
    v.map_values(|s: String| s@)
}

/// The texts of a list of JSON strings, `None` if an item is not a string.
pub fn string_items(xs: &Vec<Json>) -> (r: Option<Vec<String>>)
    ensures
        match r {
            Some(v) => json_strings(xs@) == Some(strings_view(v@)),
            None => json_strings(xs@) is None,
        },
{
    let mut out: Vec<String> = Vec::new();
    let mut i: usize = 0;
    while i < xs.len()
        invariant
            i <= xs@.len(),
            json_strings(xs@.take(i as int)) == Some(strings_view(out@)),
        decreases xs.len() - i,
    {
        proof {
            assert(xs@.take(i + 1).drop_last() =~= xs@.take(i as int));
            assert(xs@.take(i + 1).last() == xs@[i as int]);
        }
        match &xs[i] {
            Json::Str(t) => {
                let ghost before = out@;
                out.push(t.clone());
                proof {
                    assert(strings_view(out@) =~= strings_view(before).push(t@));
                }
            },
            _ => {
                proof {
                    lemma_strings_none(xs@, i as int);
                }
                return None;
            },
        }
        i = i + 1;
    }
    assert(xs@.take(xs@.len() as int) =~= xs@);
    Some(out)
}

/// A list with a non-string item at `i` has no string texts.
proof fn lemma_strings_none(xs: Seq<Json>, i: int)
    requires
        0 <= i < xs.len(),
        !(xs[i] is Str),
    ensures
        json_strings(xs) is None,
    decreases xs.len(),
{
    if i < xs.len() - 1 {
        lemma_strings_none(xs.drop_last(), i);
    }
}

} // verus!
