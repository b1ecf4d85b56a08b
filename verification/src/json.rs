//! JSON documents as plain values, and the JSON text of the library's records.
use vstd::prelude::*;
use vstd::string::StringSliceAdditionalSpecFns;
use crate::primitives::{decimal, decimal_text, json_quote, json_string, sha256_hex, sha256_hex_of};

verus! {

/// A parsed JSON document. Numbers hold the text that serde_json writes for
/// the number it parsed (so `1e2` becomes `100.0`); object members are sorted
/// by key.
#[derive(Debug)]
pub enum Json {
    Null,
    Bool(bool),
    Number(String),
    Str(String),
    Array(Vec<Json>),
    Object(Vec<(String, Json)>),
}

#[verifier::external_type_specification]
#[verifier::external_body]
pub struct ExValue(serde_json::Value);

/// The document that a JSON text denotes, if the text is JSON.
pub uninterp spec fn parse_json(text: Seq<char>) -> Option<Json>;

/// `serde_json::from_str::<serde_json::Value>`, converted member for member.
#[verifier::external_body]
pub fn parse(text: &str) -> (r: Option<Json>)
    ensures
        r == parse_json(text@),
{
    match serde_json::from_str::<serde_json::Value>(text) {
        Ok(v) => Some(from_value(v)),
        Err(_) => None,
    }
}

/// One-for-one conversion of a `serde_json::Value`.
#[verifier::external_body]
fn from_value(v: serde_json::Value) -> Json {
    match v {
        serde_json::Value::Null => Json::Null,
        serde_json::Value::Bool(b) => Json::Bool(b),
        serde_json::Value::Number(n) => Json::Number(n.to_string()),
        serde_json::Value::String(s) => Json::Str(s),
        serde_json::Value::Array(items) => Json::Array(items.into_iter().map(from_value).collect()),
        serde_json::Value::Object(map) => Json::Object(map.into_iter().map(|(k, v)| (k, from_value(v))).collect()),
    }
}

/// SHA-256 (hexadecimal) of a text's UTF-8 bytes.
pub open spec fn text_digest(t: Seq<char>) -> Seq<char> {
    sha256_hex(vstd::utf8::encode_utf8(t))
}

pub fn digest_text(t: &String) -> (r: String)
    ensures
        r@ == text_digest(t@),
{
    sha256_hex_of(t.as_str().as_bytes())
}

/// Append `s` to `out`.
pub fn put(out: &mut String, s: &str)
    ensures
        final(out)@ == old(out)@ + s@,
{
    out.append(s);
}

/// Append the JSON literal of `s` to `out`.
pub fn put_quoted(out: &mut String, s: &str)
    ensures
        final(out)@ == old(out)@ + json_string(s@),
{
    let q = json_quote(s);
    out.append(q.as_str());
}

pub fn put_decimal(out: &mut String, n: u64)
    ensures
        final(out)@ == old(out)@ + decimal(n as nat),
{
    let d = decimal_text(n);
    out.append(d.as_str());
}


/// The compact JSON text of a document, as serde_json writes it.
pub open spec fn json_text(j: Json) -> Seq<char>
    decreases j, 0nat,
{
    match j {
        Json::Null => "null"@,
        Json::Bool(b) => if b { "true"@ } else { "false"@ },
        Json::Number(n) => n@,
        Json::Str(s) => json_string(s@),
        Json::Array(items) => {
            proof {
                assert(decreases_to!(items => items@));
            }
            "["@ + json_items(items@) + "]"@
        },
        Json::Object(members) => {
            proof {
                assert(decreases_to!(members => members@));
            }
            "{"@ + json_members(members@) + "}"@
        },
    }
}

pub open spec fn json_items(v: Seq<Json>) -> Seq<char>
    decreases v, 1nat,
{
    if v.len() == 0 {
        Seq::empty()
    } else if v.len() == 1 {
        json_text(v[0])
    } else {
        json_items(v.drop_last()) + ","@ + json_text(v.last())
    }
}

pub open spec fn json_members(v: Seq<(String, Json)>) -> Seq<char>
    decreases v, 1nat,
{
    if v.len() == 0 {
        Seq::empty()
    } else if v.len() == 1 {
        proof {
            assert(decreases_to!(v => v[0]));
        }
        json_string(v[0].0@) + ":"@ + json_text(v[0].1)
    } else {
        proof {
            assert(decreases_to!(v => v.last()));
        }
        json_members(v.drop_last()) + ","@ + json_string(v.last().0@) + ":"@ + json_text(v.last().1)
    }
}


/// Append the compact JSON text of a document.
pub fn write_json(out: &mut String, j: &Json)
    ensures
        final(out)@ == old(out)@ + json_text(*j),
    decreases *j,
{
    match j {
        Json::Null => put(out, "null"),
        Json::Bool(b) => {
            if *b {
                put(out, "true");
            } else {
                put(out, "false");
            }
        },
        Json::Number(n) => put(out, n.as_str()),
        Json::Str(t) => put_quoted(out, t.as_str()),
        Json::Array(items) => {
            let ghost start = out@;
            put(out, "[");
            let mut k: usize = 0;
            while k < items.len()
                invariant
                    k <= items@.len(),
                    out@ == start + "["@ + json_items(items@.take(k as int)),
                    *j == Json::Array(*items),
                decreases items@.len() - k,
            {
                proof {
                    assert(*items == j->Array_0);
                    assert(decreases_to!(*j => j->Array_0));
                    assert(decreases_to!(*items => items@));
                    assert(decreases_to!(items@ => items@[k as int]));
                    assert(items@.take(k as int + 1).drop_last() =~= items@.take(k as int));
                    if k == 0 {
                        assert(items@.take(0) =~= Seq::<Json>::empty());
                    }
                }
                if k > 0 {
                    put(out, ",");
                }
                write_json(out, &items[k]);
                proof {
                    let t = items@.take(k as int + 1);
                    assert(t.last() == items@[k as int]);
                    if k == 0 {
                        assert(t.len() == 1);
                        assert(out@ =~= start + "["@ + json_items(t));
                    } else {
                        assert(out@ =~= start + "["@ + json_items(t));
                    }
                }
                k = k + 1;
            }
            put(out, "]");
            proof {
                assert(items@.take(items@.len() as int) =~= items@);
                assert(out@ =~= start + json_text(*j));
            }
        },
        Json::Object(members) => {
            let ghost start = out@;
            put(out, "{");
            let mut k: usize = 0;
            while k < members.len()
                invariant
                    k <= members@.len(),
                    out@ == start + "{"@ + json_members(members@.take(k as int)),
                    *j == Json::Object(*members),
                decreases members@.len() - k,
            {
                proof {
                    assert(*members == j->Object_0);
                    assert(decreases_to!(*j => j->Object_0));
                    assert(decreases_to!(*members => members@));
                    assert(decreases_to!(members@ => members@[k as int]));
                    assert(decreases_to!(members@[k as int] => members@[k as int].1));
                    assert(members@.take(k as int + 1).drop_last() =~= members@.take(k as int));
                    if k == 0 {
                        assert(members@.take(0) =~= Seq::<(String, Json)>::empty());
                    }
                }
                if k > 0 {
                    put(out, ",");
                }
                put_quoted(out, members[k].0.as_str());
                put(out, ":");
                write_json(out, &members[k].1);
                proof {
                    let t = members@.take(k as int + 1);
                    assert(t.last() == members@[k as int]);
                    assert(out@ =~= start + "{"@ + json_members(t));
                }
                k = k + 1;
            }
            put(out, "}");
            proof {
                assert(members@.take(members@.len() as int) =~= members@);
                assert(out@ =~= start + json_text(*j));
            }
        },
    }
}

} // verus!
