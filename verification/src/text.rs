//! Character and string predicates used by the validation rules.
use vstd::prelude::*;
use vstd::string::StringSliceAdditionalSpecFns;

verus! {

/// Unicode White_Space, as `char::is_whitespace` documents it.
pub open spec fn whitespace(c: char) -> bool {
    let v = c as u32;
    ||| 9 <= v <= 13
    ||| v == 32
    ||| v == 0x85
    ||| v == 0xA0
    ||| v == 0x1680
    ||| 0x2000 <= v <= 0x200A
    ||| v == 0x2028
    ||| v == 0x2029
    ||| v == 0x202F
    ||| v == 0x205F
    ||| v == 0x3000
}

pub fn is_whitespace(c: char) -> (r: bool)
    ensures
        r == whitespace(c),
{
    let v = c as u32;
    (9 <= v && v <= 13) || v == 32 || v == 0x85 || v == 0xA0 || v == 0x1680 || (0x2000 <= v
        && v <= 0x200A) || v == 0x2028 || v == 0x2029 || v == 0x202F || v == 0x205F || v
        == 0x3000
}

/// Empty after trimming whitespace: every character is whitespace.
pub open spec fn blank(s: Seq<char>) -> bool {
    forall|i: int| 0 <= i < s.len() ==> whitespace(#[trigger] s[i])
}

/// `s.trim().is_empty()`.
pub fn is_blank(s: &str) -> (r: bool)
    ensures
        r == blank(s@),
{
    let mut all = true;
    for c in it: s.chars()
        invariant
            it.seq() == s@,
            all == (forall|k: int| 0 <= k < it.index() ==> whitespace(#[trigger] s@[k])),
    {
        if !is_whitespace(c) {
            all = false;
        }
    }
    all
}

/// Byte length of the UTF-8 encoding of a text.
pub open spec fn utf8_len(s: Seq<char>) -> nat {
    vstd::utf8::encode_utf8(s).len()
}

/// `String` byte length.
pub fn byte_length(s: &String) -> (r: usize)
    ensures
        r == utf8_len(s@),
{
    let t = s.as_str();
    proof {
        assert(t.spec_bytes() == vstd::utf8::encode_utf8(t@));
    }
    t.as_bytes().len()
}

/// Byte length of the UTF-8 encoding.
pub open spec fn byte_len(s: &str) -> nat {
    s.spec_bytes().len()
}

/// Control characters (Unicode general category Cc), as `char::is_control` documents it.
pub open spec fn control(c: char) -> bool {
    let v = c as u32;
    v <= 0x1F || (0x7F <= v <= 0x9F)
}

pub open spec fn has_control(s: Seq<char>) -> bool {
    exists|i: int| 0 <= i < s.len() && control(#[trigger] s[i])
}

pub fn contains_control(s: &str) -> (r: bool)
    ensures
        r == has_control(s@),
{
    let mut found = false;
    for c in it: s.chars()
        invariant
            it.seq() == s@,
            found == (exists|k: int| 0 <= k < it.index() && control(#[trigger] s@[k])),
    {
        let v = c as u32;
        if v <= 0x1F || (0x7F <= v && v <= 0x9F) {
            found = true;
        }
    }
    found
}

/// Equality of two strings by content.
pub fn str_equal(a: &str, b: &str) -> (r: bool)
    ensures
        r == (a@ == b@),
{
    let x = a.as_bytes();
    let y = b.as_bytes();
    proof {
        vstd::utf8::encode_utf8_decode_utf8(a@);
        vstd::utf8::encode_utf8_decode_utf8(b@);
    }
    if x.len() != y.len() {
        return false;
    }
    let mut i: usize = 0;
    while i < x.len()
        invariant
            x@ == a.spec_bytes(),
            y@ == b.spec_bytes(),
            x@.len() == y@.len(),
            i <= x@.len(),
            forall|k: int| 0 <= k < i ==> x@[k] == y@[k],
        decreases x@.len() - i,
    {
        if x[i] != y[i] {
            return false;
        }
        i = i + 1;
    }
    assert(x@ =~= y@);
    true
}

pub open spec fn seq_has(v: Seq<String>, s: Seq<char>) -> bool {
    exists|k: int| 0 <= k < v.len() && (#[trigger] v[k])@ == s
}

/// Membership by content.
pub fn vec_contains(v: &Vec<String>, s: &String) -> (r: bool)
    ensures
        r == seq_has(v@, s@),
{
    let mut i: usize = 0;
    while i < v.len()
        invariant
            i <= v@.len(),
            forall|k: int| 0 <= k < i ==> (#[trigger] v@[k])@ != s@,
        decreases v@.len() - i,
    {
        if v[i] == *s {
            return true;
        }
        i = i + 1;
    }
    false
}

} // verus!
