//! Trusted access to identity, time, randomness and hashing.
use vstd::prelude::*;
use sha2::Digest;

verus! {

/// `getrandom::fill` on a buffer of `n` bytes. On success every byte came
/// from the system's random source (nothing is claimed of their values); a
/// failure of the source gives `None`.
#[verifier::external_body]
pub fn random_bytes(n: usize) -> (r: Option<Vec<u8>>)
    ensures
        r matches Some(v) ==> v@.len() == n,
{
    let mut bytes = vec![0u8; n];
    match getrandom::fill(&mut bytes) {
        Ok(()) => Some(bytes),
        Err(_) => None,
    }
}

/// The version nibble of an identifier is 4 and its variant bits are `10`:
/// the layout of a random (version 4) UUID.
pub open spec fn is_v4(id: u128) -> bool {
    &&& (id >> 76u128) & 0xfu128 == 4u128
    &&& (id >> 62u128) & 0x3u128 == 2u128
}

/// The identifier that `uuid::Builder::from_random_bytes` makes of 16 bytes.
pub uninterp spec fn v4_from_bytes(bytes: Seq<u8>) -> u128;

/// `uuid::Builder::from_random_bytes(bytes).into_uuid().as_u128()`: the 16
/// bytes as a big-endian number, with the version nibble set to 4 and the
/// variant bits to `10`. The value is named; its layout is stated.
#[verifier::external_body]
fn uuid_from_random_bytes(bytes: &Vec<u8>) -> (id: u128)
    requires
        bytes@.len() == 16,
    ensures
        id == v4_from_bytes(bytes@),
        is_v4(id),
{
    let mut array = [0u8; 16];
    array.copy_from_slice(bytes.as_slice());
    uuid::Builder::from_random_bytes(array).into_uuid().as_u128()
}

/// The 16 big-endian bytes of a number.
fn be_bytes(x: u128) -> (v: Vec<u8>)
    ensures
        v@.len() == 16,
{
    let mut v: Vec<u8> = Vec::new();
    let mut i: u32 = 0;
    while i < 16
        invariant
            i <= 16,
            v@.len() == i,
        decreases 16 - i,
    {
        let shift: u32 = 8 * (15 - i);
        v.push(((x >> shift) & 0xffu128) as u8);
        i = i + 1;
    }
    v
}

/// A random identifier drawn from the system's random source, made a version
/// 4 UUID by the uuid crate; `None` when the source fails.
pub fn draw_id() -> (r: Option<u128>)
    ensures
        r matches Some(id) ==> is_v4(id),
{
    match random_bytes(16) {
        None => None,
        Some(b) => Some(uuid_from_random_bytes(&b)),
    }
}

/// A fresh identifier for a record: a random one (see `draw_id`), or, when
/// the random source fails, the clock's reading made a version 4 UUID in its
/// place. Nothing is claimed of the value beyond its layout; callers check
/// that it is not in use.
pub fn new_id() -> (id: u128)
    ensures
        is_v4(id),
{
    match draw_id() {
        Some(id) => id,
        None => {
            let b = be_bytes(system_millis());
            uuid_from_random_bytes(&b)
        },
    }
}

/// Milliseconds since the Unix epoch by the system clock (`SystemTime::now`),
/// zero when the clock reads before the epoch. Nothing is claimed of the value.
#[verifier::external_body]
fn system_millis() -> u128 {
    std::time::SystemTime::now()
        .duration_since(std::time::UNIX_EPOCH)
        .unwrap_or_default()
        .as_millis()
}

/// A reading of the clock in milliseconds, as Unix milliseconds saturated to
/// `u64`.
pub open spec fn saturated_millis(millis: u128) -> u64 {
    if millis > u64::MAX as u128 { u64::MAX } else { millis as u64 }
}

pub fn millis_to_u64(millis: u128) -> (r: u64)
    ensures
        r == saturated_millis(millis),
{
    if millis > u64::MAX as u128 {
        u64::MAX
    } else {
        millis as u64
    }
}

/// Unix milliseconds (UTC) by the system clock, saturated to `u64`: the
/// result is `saturated_millis` of some clock reading.
pub fn now() -> (r: u64)
    ensures
        exists|millis: u128| r == saturated_millis(millis),
{
    let millis = system_millis();
    millis_to_u64(millis)
}

} // verus!

verus! {

/// Lower-case hexadecimal SHA-256 of the bytes.
pub uninterp spec fn sha256_hex(data: Seq<u8>) -> Seq<char>;

/// `sha2::Sha256::digest` of the bytes, formatted as lower-case hexadecimal.
/// The result is named, not described: it is `sha256_hex` of the input.
#[verifier::external_body]
pub fn sha256_hex_of(data: &[u8]) -> (r: String)
    ensures
        r@ == sha256_hex(data@),
{
    format!("{:x}", <sha2::Sha256 as Digest>::digest(data))
}

/// The JSON string literal that encodes a text.
pub uninterp spec fn json_string(s: Seq<char>) -> Seq<char>;

/// `serde_json::to_string` of a string slice: its quoted, escaped JSON literal.
#[verifier::external_body]
pub fn json_quote(s: &str) -> (r: String)
    ensures
        r@ == json_string(s@),
{
    match serde_json::to_string(s) {
        Ok(t) => t,
        Err(_) => String::new(),
    }
}

/// The JSON encoding of a UUID: its hyphenated lower-case form, quoted.
pub uninterp spec fn uuid_json(id: u128) -> Seq<char>;

/// `serde_json::to_string` of `uuid::Uuid::from_u128(id)`.
#[verifier::external_body]
pub fn uuid_quote(id: u128) -> (r: String)
    ensures
        r@ == uuid_json(id),
{
    match serde_json::to_string(&uuid::Uuid::from_u128(id)) {
        Ok(t) => t,
        Err(_) => String::new(),
    }
}

pub open spec fn digit_char(d: nat) -> char {
    if d == 0 { '0' } else if d == 1 { '1' } else if d == 2 { '2' } else if d == 3 { '3' }
    else if d == 4 { '4' } else if d == 5 { '5' } else if d == 6 { '6' } else if d == 7 { '7' }
    else if d == 8 { '8' } else { '9' }
}

/// Decimal digits of a number, without leading zeros.
pub open spec fn decimal(n: nat) -> Seq<char>
    decreases n,
{
    if n < 10 {
        seq![digit_char(n)]
    } else {
        decimal(n / 10).push(digit_char(n % 10))
    }
}

/// `u64::to_string`: the decimal representation.
#[verifier::external_body]
pub fn decimal_text(n: u64) -> (r: String)
    ensures
        r@ == decimal(n as nat),
{
    n.to_string()
}

/// The hyphenated lower-case text of a UUID.
pub uninterp spec fn uuid_string(id: u128) -> Seq<char>;

/// `uuid::Uuid::from_u128(id).to_string()`.
#[verifier::external_body]
pub fn uuid_text(id: u128) -> (r: String)
    ensures
        r@ == uuid_string(id),
{
    uuid::Uuid::from_u128(id).to_string()
}

} // verus!
