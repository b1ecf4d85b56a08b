//! Trusted-host credential issuance and revocation. These operations must
//! never be exposed as agent tools or unauthenticated HTTP endpoints. The
//! store keeps a token's SHA-256 digest, never the bearer value.
use vstd::prelude::*;
use vstd::string::StringSliceAdditionalSpecFns;
use vstd::string::StrSliceExecFns;
use subtle::ConstantTimeEq;
use sha2::Digest;
use crate::error::{conflict, invalid, text, Error, Result};
use crate::json::put;
use crate::models::Actor;
use crate::primitives::{new_id, now};
use crate::store::Data;
use crate::text::{blank, has_control, is_blank, utf8_len};

verus! {

pub struct ApiTokenMetadata {
    pub id: u128,
    pub actor: Actor,
    pub label: String,
    pub created_at: u64,
    pub expires_at: u64,
    pub revoked_at: Option<u64>,
}

/// A stored credential: its metadata and the digest of its bearer value.
pub struct ApiTokenRecord {
    pub metadata: ApiTokenMetadata,
    pub digest: Vec<u8>,
}

/// The bearer value exists only at issuance.
pub struct IssuedApiToken {
    pub metadata: ApiTokenMetadata,
    bearer: String,
}

impl IssuedApiToken {
    pub closed spec fn bearer_text(&self) -> Seq<char> {
        self.bearer@
    }

    /// The token's metadata, as issued.
    pub closed spec fn issued(&self) -> ApiTokenMetadata {
        self.metadata
    }

    pub fn metadata(&self) -> (r: &ApiTokenMetadata)
        ensures
            *r == self.issued(),
    {
        &self.metadata
    }

    pub fn bearer(&self) -> (r: &str)
        ensures
            r@ == self.bearer_text(),
    {
        self.bearer.as_str()
    }
}

pub open spec fn token_ids_unique(p: Seq<ApiTokenRecord>) -> bool {
    forall|i: int, j: int| 0 <= i < p.len() && 0 <= j < p.len() && i != j ==> p[i].metadata.id != p[j].metadata.id
}

/// The SHA-256 digest of bytes.
pub uninterp spec fn sha256(data: Seq<u8>) -> Seq<u8>;

/// `sha2::Sha256::digest` of the bytes, as a vector of its 32 bytes.
#[verifier::external_body]
fn sha256_bytes(data: &[u8]) -> (r: Vec<u8>)
    ensures
        r@ == sha256(data@),
{
    <sha2::Sha256 as Digest>::digest(data).to_vec()
}

/// `subtle::ConstantTimeEq::ct_eq` on byte slices, as a `bool`: true exactly
/// when the slices have the same length and contents.
#[verifier::external_body]
fn constant_time_equal(a: &[u8], b: &[u8]) -> (r: bool)
    ensures
        r == (a@ == b@),
{
    bool::from(a.ct_eq(b))
}

pub open spec fn hex_char(d: nat) -> char {
    if d < 10 { (('0' as nat) + d) as char } else { (('a' as nat) + d - 10) as char }
}

pub open spec fn is_hex(c: char) -> bool {
    ('0' <= c <= '9') || ('a' <= c <= 'f')
}

pub open spec fn hex_val(c: char) -> nat {
    if '0' <= c <= '9' { (c as nat - '0' as nat) as nat } else { (c as nat - 'a' as nat + 10) as nat }
}

/// The `k` lowest hexadecimal digits of `n`, most significant first.
pub open spec fn hex_digits(n: nat, k: nat) -> Seq<char>
    decreases k,
{
    if k == 0 { seq![] } else { hex_digits(n / 16, (k - 1) as nat).push(hex_char(n % 16)) }
}

/// The number that a sequence of hexadecimal digits denotes.
pub open spec fn hex_value(s: Seq<char>) -> nat
    decreases s.len(),
{
    if s.len() == 0 { 0 } else { hex_value(s.drop_last()) * 16 + hex_val(s.last()) }
}

pub open spec fn all_hex(s: Seq<char>) -> bool {
    forall|i: int| 0 <= i < s.len() ==> is_hex(#[trigger] s[i])
}

/// Two lower-case hexadecimal digits per byte.
pub open spec fn hex_bytes(b: Seq<u8>) -> Seq<char>
    decreases b.len(),
{
    if b.len() == 0 {
        seq![]
    } else {
        hex_bytes(b.drop_last()).push(hex_char((b.last() / 16) as nat)).push(hex_char((b.last() % 16) as nat))
    }
}

/// `uuid::Uuid::from_u128(id).simple().to_string()`: the 32 lower-case
/// hexadecimal digits of the identifier.
#[verifier::external_body]
fn uuid_simple(id: u128) -> (r: String)
    ensures
        r@ == hex_digits(id as nat, 32),
{
    uuid::Uuid::from_u128(id).simple().to_string()
}

/// `uuid::Uuid::parse_str`, as the identifier's value. Of the simple form (32
/// hexadecimal digits) the result is the number those digits denote; nothing
/// is claimed of other inputs.
#[verifier::external_body]
fn uuid_parse(s: &str) -> (r: Option<u128>)
    ensures
        s@.len() == 32 && all_hex(s@) ==> r == Some(hex_value(s@) as u128),
{
    match uuid::Uuid::parse_str(s) {
        Ok(u) => Some(u.as_u128()),
        Err(_) => None,
    }
}

/// The shape of a bearer value: `hudson_`, 32 hexadecimal digits of the
/// token identity, `.`, and 64 hexadecimal digits of its secret.
pub open spec fn bearer_shape(v: Seq<char>) -> bool {
    &&& v.len() == 104
    &&& v.subrange(0, 7) == "hudson_"@
    &&& all_hex(v.subrange(7, 39))
    &&& v[39] == '.'
    &&& all_hex(v.subrange(40, 104))
}

/// The token identity that a well-shaped bearer value names.
pub open spec fn bearer_id(v: Seq<char>) -> u128 {
    hex_value(v.subrange(7, 39)) as u128
}

fn is_hex_char(c: char) -> (r: bool)
    ensures
        r == is_hex(c),
{
    ('0' <= c && c <= '9') || ('a' <= c && c <= 'f')
}

pub(crate) fn chars_of(s: &str) -> (r: Vec<char>)
    ensures
        r@ == s@,
{
    let mut v: Vec<char> = Vec::new();
    for c in it: s.chars()
        invariant
            it.seq() == s@,
            v@ == s@.take(it.index() as int),
    {
        proof {
            assert(s@.take(it.index() as int + 1) =~= s@.take(it.index() as int).push(c));
        }
        v.push(c);
    }
    proof {
        assert(s@.take(s@.len() as int) =~= s@);
    }
    v
}

fn hex_range(v: &Vec<char>, from: usize, to: usize) -> (r: bool)
    requires
        from <= to <= v@.len(),
    ensures
        r == all_hex(v@.subrange(from as int, to as int)),
{
    let mut i = from;
    while i < to
        invariant
            from <= i <= to <= v@.len(),
            forall|k: int| from <= k < i ==> is_hex(#[trigger] v@[k]),
        decreases to - i,
    {
        if !is_hex_char(v[i]) {
            assert(!is_hex(v@.subrange(from as int, to as int)[i - from]));
            return false;
        }
        i = i + 1;
    }
    assert forall|k: int| 0 <= k < to - from implies is_hex(#[trigger] v@.subrange(from as int, to as int)[k]) by {
        assert(v@.subrange(from as int, to as int)[k] == v@[from + k]);
    }
    true
}

/// The token identity named by a bearer value; any other value is denied.
pub fn identifier(value: &str) -> (r: Result<u128>)
    ensures
        r is Ok <==> bearer_shape(value@),
        r matches Ok(id) ==> id == bearer_id(value@),
        r is Err ==> r == Err::<u128, Error>(Error::Denied),
{
    let v = chars_of(value);
    proof {
        reveal_strlit("hudson_");
    }
    if v.len() != 104 || !(v[0] == 'h' && v[1] == 'u' && v[2] == 'd' && v[3] == 's' && v[4] == 'o' && v[5] == 'n' && v[6] == '_')
        || !hex_range(&v, 7, 39) || v[39] != '.' || !hex_range(&v, 40, 104) {
        proof {
            if v@.len() == 104 && v@.subrange(0, 7) == "hudson_"@ {
                assert(v@.subrange(0, 7)[0] == 'h');
                assert(v@.subrange(0, 7)[1] == 'u');
                assert(v@.subrange(0, 7)[2] == 'd');
                assert(v@.subrange(0, 7)[3] == 's');
                assert(v@.subrange(0, 7)[4] == 'o');
                assert(v@.subrange(0, 7)[5] == 'n');
                assert(v@.subrange(0, 7)[6] == '_');
            }
        }
        return Err(Error::Denied);
    }
    proof {
        assert(v@.subrange(0, 7) =~= "hudson_"@);
    }
    let id = value.substring_char(7, 39);
    match uuid_parse(id) {
        Some(n) => Ok(n),
        None => Err(Error::Denied),
    }
}

/// A label (or actor name): present, at most 256 bytes, no control characters.
pub open spec fn label_valid(s: Seq<char>) -> bool {
    !blank(s) && utf8_len(s) <= 256 && !has_control(s)
}

pub fn valid_label(value: &str) -> (r: bool)
    ensures
        r == label_valid(value@),
{
    proof {
        assert(value.spec_bytes() == vstd::utf8::encode_utf8(value@));
    }
    !is_blank(value) && value.as_bytes().len() <= 256 && !crate::text::contains_control(value)
}

pub open spec fn pow16(k: nat) -> nat
    decreases k,
{
    if k == 0 { 1 } else { 16 * pow16((k - 1) as nat) }
}

proof fn lemma_hex_digits(n: nat, k: nat)
    ensures
        hex_digits(n, k).len() == k,
        all_hex(hex_digits(n, k)),
        n < pow16(k) ==> hex_value(hex_digits(n, k)) == n,
    decreases k,
{
    if k > 0 {
        lemma_hex_digits(n / 16, (k - 1) as nat);
        let s = hex_digits(n, k);
        assert(s.drop_last() =~= hex_digits(n / 16, (k - 1) as nat));
        assert(n % 16 < 16);
        assert forall|i: int| 0 <= i < s.len() implies is_hex(#[trigger] s[i]) by {
            if i < s.len() - 1 {
                assert(s[i] == hex_digits(n / 16, (k - 1) as nat)[i]);
            } else {
                let d = n % 16;
                assert(s[i] == hex_char(d));
            }
        }
        assert(hex_val(hex_char(n % 16)) == n % 16);
        if n < pow16(k) {
            assert(n / 16 < pow16((k - 1) as nat)) by (nonlinear_arith)
                requires n < 16 * pow16((k - 1) as nat);
            assert(n == (n / 16) * 16 + n % 16) by (nonlinear_arith);
        }
    }
}

proof fn lemma_hex_bytes(b: Seq<u8>)
    ensures
        hex_bytes(b).len() == 2 * b.len(),
        all_hex(hex_bytes(b)),
    decreases b.len(),
{
    if b.len() > 0 {
        lemma_hex_bytes(b.drop_last());
        let h = hex_bytes(b);
        let p = hex_bytes(b.drop_last());
        assert forall|i: int| 0 <= i < h.len() implies is_hex(#[trigger] h[i]) by {
            if i < p.len() {
                assert(h[i] == p[i]);
            }
        }
    }
}

fn hex_piece(d: u8) -> (r: &'static str)
    requires
        d < 16,
    ensures
        r@ == seq![hex_char(d as nat)],
{
    let digits = "0123456789abcdef";
    proof {
        reveal_strlit("0123456789abcdef");
        assert(digits@[d as int] == hex_char(d as nat));
    }
    let r = digits.substring_char(d as usize, d as usize + 1);
    proof {
        assert(r@ =~= seq![hex_char(d as nat)]);
    }
    r
}

fn put_hex_bytes(out: &mut String, b: &Vec<u8>)
    ensures
        final(out)@ == old(out)@ + hex_bytes(b@),
{
    let ghost start = out@;
    let mut i: usize = 0;
    while i < b.len()
        invariant
            i <= b@.len(),
            out@ == start + hex_bytes(b@.take(i as int)),
        decreases b@.len() - i,
    {
        proof {
            assert(b@.take(i as int + 1).drop_last() =~= b@.take(i as int));
        }
        put(out, hex_piece(b[i] / 16));
        put(out, hex_piece(b[i] % 16));
        i = i + 1;
    }
    proof {
        assert(b@.take(b@.len() as int) =~= b@);
    }
}

/// The bearer value of a token: its identity and its secret.
pub open spec fn bearer_value(id: u128, secret: Seq<u8>) -> Seq<char> {
    "hudson_"@ + hex_digits(id as nat, 32) + "."@ + hex_bytes(secret)
}

proof fn lemma_bearer_value(id: u128, secret: Seq<u8>)
    requires
        secret.len() == 32,
    ensures
        bearer_shape(bearer_value(id, secret)),
        bearer_id(bearer_value(id, secret)) == id,
{
    reveal_strlit("hudson_");
    reveal_strlit(".");
    lemma_hex_digits(id as nat, 32);
    lemma_hex_bytes(secret);
    assert(pow16(32) == 0x1_0000_0000_0000_0000_0000_0000_0000_0000nat) by {
        reveal_with_fuel(pow16, 33);
    }
    let v = bearer_value(id, secret);
    assert(v.subrange(0, 7) =~= "hudson_"@);
    assert(v.subrange(7, 39) =~= hex_digits(id as nat, 32));
    assert(v.subrange(40, 104) =~= hex_bytes(secret));
    assert(v[39] == '.');
}

impl Data {
    pub open spec fn has_token(&self, id: u128) -> bool {
        exists|i: int| 0 <= i < self.api_tokens@.len() && self.api_tokens@[i].metadata.id == id
    }

    pub open spec fn token_index(&self, id: u128) -> int {
        choose|i: int| 0 <= i < self.api_tokens@.len() && self.api_tokens@[i].metadata.id == id
    }

    fn find_token(&self, id: u128) -> (r: Option<usize>)
        requires
            self.wf(),
        ensures
            r is Some <==> self.has_token(id),
            r matches Some(i) ==> i == self.token_index(id) && i < self.api_tokens@.len(),
    {
        let mut i: usize = 0;
        while i < self.api_tokens.len()
            invariant
                self.wf(),
                i <= self.api_tokens@.len(),
                forall|k: int| 0 <= k < i ==> self.api_tokens@[k].metadata.id != id,
            decreases self.api_tokens@.len() - i,
        {
            if self.api_tokens[i].metadata.id == id {
                assert(self.has_token(id));
                let ghost j = self.token_index(id);
                assert(self.api_tokens@[i as int].metadata.id == id);
                assert(j == i);
                return Some(i);
            }
            i = i + 1;
        }
        None
    }
}

/// The actor that a bearer value authenticates as at time `at`: a
/// well-shaped value whose token exists, matches its stored digest, is not
/// revoked and has not expired.
pub open spec fn authentication(d: Data, bearer: Seq<char>, at: u64) -> Option<Actor> {
    if !bearer_shape(bearer) || !d.has_token(bearer_id(bearer)) {
        None
    } else {
        let t = d.api_tokens@[d.token_index(bearer_id(bearer))];
        if t.digest@ == sha256(vstd::utf8::encode_utf8(bearer)) && t.metadata.revoked_at is None && at < t.metadata.expires_at {
            Some(t.metadata.actor)
        } else {
            None
        }
    }
}

/// A revoked credential never authenticates again, whatever the time.
pub proof fn revoked_tokens_never_authenticate(d: Data, id: u128, bearer: Seq<char>, at: u64)
    requires
        d.has_token(id),
        d.api_tokens@[d.token_index(id)].metadata.revoked_at is Some,
    ensures
        bearer_shape(bearer) && bearer_id(bearer) == id ==> authentication(d, bearer, at) is None,
{
}

/// An expired credential never authenticates.
pub proof fn expired_tokens_never_authenticate(d: Data, bearer: Seq<char>, at: u64)
    requires
        bearer_shape(bearer),
        d.has_token(bearer_id(bearer)),
        d.api_tokens@[d.token_index(bearer_id(bearer))].metadata.expires_at <= at,
    ensures
        authentication(d, bearer, at) is None,
{
}

fn copy_actor(a: &Actor) -> (r: Actor)
    ensures
        r == *a,
{
    Actor { workspace_id: a.workspace_id.clone(), id: a.id.clone() }
}

/// Resolve authority at time `at` from the stored credential, never from
/// request fields. Every failure is a denial.
pub fn authenticate_at(d: &Data, bearer: &str, at: u64) -> (r: Result<Actor>)
    requires
        d.wf(),
    ensures
        r is Ok <==> authentication(*d, bearer@, at) is Some,
        r matches Ok(a) ==> authentication(*d, bearer@, at) == Some(a),
        r is Err ==> r == Err::<Actor, Error>(Error::Denied),
{
    let id = identifier(bearer)?;
    proof {
        assert(bearer.spec_bytes() == vstd::utf8::encode_utf8(bearer@));
    }
    let supplied = sha256_bytes(bearer.as_bytes());
    let i = match d.find_token(id) {
        None => return Err(Error::Denied),
        Some(i) => i,
    };
    let t = &d.api_tokens[i];
    if !constant_time_equal(t.digest.as_slice(), supplied.as_slice()) || t.metadata.revoked_at.is_some()
        || t.metadata.expires_at <= at {
        return Err(Error::Denied);
    }
    Ok(copy_actor(&t.metadata.actor))
}

/// Resolve authority now: the result is what `authenticate_at` gives at the
/// time of the call.
pub fn authenticate_api_token(d: &Data, bearer: &str) -> (r: Result<Actor>)
    requires
        d.wf(),
    ensures
        r is Err ==> r == Err::<Actor, Error>(Error::Denied),
        authentication(*d, bearer@, 0) is None ==> r is Err,
        r matches Ok(a) ==> exists|at: u64| authentication(*d, bearer@, at) == Some(a),
{
    let at = now();
    authenticate_at(d, bearer, at)
}

pub open spec fn labels_valid(actor: Actor, label: Seq<char>) -> bool {
    label_valid(actor.workspace_id@) && label_valid(actor.id@) && label_valid(label)
}

/// Issue a credential for `actor` at time `created_at`, with identifier `id`
/// and the 32 secret bytes `secret`, valid until `expires_at`. Invalid
/// exactly when the actor or label is not a valid label or the expiry is not
/// after `created_at`; a conflict when `id` is already a token's. Otherwise
/// the token's bearer value is `hudson_<id>.<hex of secret>` and the store
/// keeps only its digest.
#[verifier::rlimit(40)]
pub fn issue_api_token_with(
    d: &mut Data,
    actor: Actor,
    label: String,
    expires_at: u64,
    created_at: u64,
    id: u128,
    secret: Vec<u8>,
) -> (r: Result<IssuedApiToken>)
    requires
        old(d).wf(),
        secret@.len() == 32,
    ensures
        final(d).wf(),
        r is Err ==> *final(d) == *old(d),
        (r matches Err(Error::Invalid(_))) <==> !labels_valid(actor, label@) || expires_at <= created_at,
        labels_valid(actor, label@) && created_at < expires_at && old(d).has_token(id) ==> (r matches Err(Error::Conflict(_))),
        labels_valid(actor, label@) && created_at < expires_at && !old(d).has_token(id) ==> (r matches Ok(t) && {
            &&& t.issued() == (ApiTokenMetadata { id, actor, label, created_at, expires_at, revoked_at: None })
            &&& t.bearer_text() == bearer_value(id, secret@)
            &&& final(d).api_tokens@ == old(d).api_tokens@.push(ApiTokenRecord {
                metadata: t.issued(),
                digest: final(d).api_tokens@.last().digest,
            })
            &&& final(d).api_tokens@.last().digest@ == sha256(vstd::utf8::encode_utf8(t.bearer_text()))
            &&& forall|at: u64| at < expires_at ==> authentication(*final(d), t.bearer_text(), at) == Some(actor)
            &&& *final(d) == (Data { api_tokens: final(d).api_tokens, ..*old(d) })
        }),
{
    if !valid_label(actor.workspace_id.as_str()) || !valid_label(actor.id.as_str()) || !valid_label(label.as_str())
        || expires_at <= created_at {
        return Err(invalid("token requires a valid actor, label and future expiry"));
    }
    if d.find_token(id).is_some() {
        return Err(conflict("credential identity collision"));
    }
    let mut bearer = text("hudson_");
    let simple = uuid_simple(id);
    put(&mut bearer, simple.as_str());
    put(&mut bearer, ".");
    put_hex_bytes(&mut bearer, &secret);
    let bs = bearer.as_str();
    proof {
        assert(bearer@ =~= bearer_value(id, secret@));
        assert(bs.spec_bytes() == vstd::utf8::encode_utf8(bs@));
        lemma_bearer_value(id, secret@);
    }
    let digest = sha256_bytes(bs.as_bytes());
    let metadata = ApiTokenMetadata { id, actor: copy_actor(&actor), label: label.clone(), created_at, expires_at, revoked_at: None };
    let stored = ApiTokenMetadata { id, actor, label, created_at, expires_at, revoked_at: None };
    let ghost before = d.api_tokens@;
    d.api_tokens.push(ApiTokenRecord { metadata: stored, digest });
    proof {
        assert(d.api_tokens@.drop_last() =~= before);
        assert(d.has_token(id));
        assert(d.token_index(id) == before.len());
    }
    Ok(IssuedApiToken { metadata, bearer })
}

/// Issue a credential for `actor`, valid until `expires_at`, at the clock's
/// reading, with a random identifier and secret (see `issue_api_token_with`).
/// Installation authority must authorize issuance before calling this. The
/// store keeps the digest of the bearer value; the bearer value itself is
/// returned only here. With a valid actor and label the call succeeds, or is
/// invalid because the clock already reads `expires_at` or later, or
/// conflicts because the random source failed or the drawn identifier is in
/// use.
pub fn issue_api_token(d: &mut Data, actor: Actor, label: String, expires_at: u64) -> (r: Result<IssuedApiToken>)
    requires
        old(d).wf(),
    ensures
        final(d).wf(),
        r is Err ==> *final(d) == *old(d),
        !labels_valid(actor, label@) ==> r matches Err(Error::Invalid(_)),
        labels_valid(actor, label@) ==> r is Ok || (r matches Err(Error::Invalid(_))) || (r matches Err(Error::Conflict(_))),
        r matches Ok(t) ==> {
            &&& final(d).api_tokens@.len() == old(d).api_tokens@.len() + 1
            &&& final(d).api_tokens@.drop_last() == old(d).api_tokens@
            &&& !old(d).has_token(t.issued().id)
            &&& final(d).api_tokens@.last().metadata == t.issued()
            &&& t.issued().actor == actor && t.issued().label == label && t.issued().expires_at == expires_at
            &&& t.issued().revoked_at is None && t.issued().created_at < expires_at
            &&& exists|secret: Seq<u8>| secret.len() == 32 && t.bearer_text() == bearer_value(t.issued().id, secret)
            &&& final(d).api_tokens@.last().digest@ == sha256(vstd::utf8::encode_utf8(t.bearer_text()))
            &&& forall|at: u64| at < expires_at ==> authentication(*final(d), t.bearer_text(), at) == Some(actor)
            &&& final(d).runs == old(d).runs && final(d).operations == old(d).operations && final(d).logs == old(d).logs
        },
{
    let created_at = now();
    if !valid_label(actor.workspace_id.as_str()) || !valid_label(actor.id.as_str()) || !valid_label(label.as_str())
        || expires_at <= created_at {
        return Err(invalid("token requires a valid actor, label and future expiry"));
    }
    let secret = match crate::primitives::random_bytes(32) {
        None => return Err(conflict("credential entropy unavailable")),
        Some(s) => s,
    };
    let id = new_id();
    let ghost sv = secret@;
    let r = issue_api_token_with(d, actor, label, expires_at, created_at, id, secret);
    proof {
        if r is Ok {
            assert(sv.len() == 32);
        }
    }
    r
}

/// Revoke a credential of `actor` (the expected owner, which installation
/// authority supplies). Revocation is idempotent: the first time stays.
pub fn revoke_api_token(d: &mut Data, actor: &Actor, id: u128) -> (r: Result<()>)
    requires
        old(d).wf(),
    ensures
        final(d).wf(),
        r is Err ==> *final(d) == *old(d),
        r is Ok <==> old(d).has_token(id) && old(d).api_tokens@[old(d).token_index(id)].metadata.actor.id@ == actor.id@
            && old(d).api_tokens@[old(d).token_index(id)].metadata.actor.workspace_id@ == actor.workspace_id@,
        r is Err ==> r == Err::<(), Error>(Error::NotFound),
        r is Ok ==> {
            let i = old(d).token_index(id);
            let t = old(d).api_tokens@[i];
            &&& final(d).api_tokens@.len() == old(d).api_tokens@.len()
            &&& forall|k: int| 0 <= k < old(d).api_tokens@.len() && k != i ==> final(d).api_tokens@[k] == old(d).api_tokens@[k]
            &&& final(d).api_tokens@[i].metadata == (ApiTokenMetadata {
                revoked_at: final(d).api_tokens@[i].metadata.revoked_at,
                ..t.metadata
            })
            &&& final(d).api_tokens@[i].digest == t.digest
            &&& final(d).api_tokens@[i].metadata.revoked_at is Some
            &&& t.metadata.revoked_at is Some ==> final(d).api_tokens@[i].metadata.revoked_at == t.metadata.revoked_at
            &&& forall|b: Seq<char>, at: u64| bearer_shape(b) && bearer_id(b) == id ==> authentication(*final(d), b, at) is None
        },
{
    let i = match d.find_token(id) {
        None => return Err(Error::NotFound),
        Some(i) => i,
    };
    if !(d.api_tokens[i].metadata.actor.id == actor.id && d.api_tokens[i].metadata.actor.workspace_id == actor.workspace_id) {
        return Err(Error::NotFound);
    }
    if d.api_tokens[i].metadata.revoked_at.is_none() {
        let at = now();
        let ghost before = d.api_tokens@;
        d.api_tokens[i].metadata.revoked_at = Some(at);
        proof {
            assert(d.api_tokens@ == before.update(i as int, d.api_tokens@[i as int]));
        }
    }
    proof {
        assert(d.has_token(id));
        assert(d.api_tokens@[i as int].metadata.id == id);
        assert(d.token_index(id) == i);
    }
    Ok(())
}

} // verus!
