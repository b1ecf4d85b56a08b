//! Scoped, provenance-bearing memory. Records are claims, not truth: each
//! keeps its sources, and a run's outcome counts only once the run completed.
use vstd::prelude::*;
use vstd::string::StringSliceAdditionalSpecFns;
use crate::error::{conflict, invalid, text, Error, Result};
use crate::json::put;
use crate::models::{Actor, RunStatus, VersionRef};
use crate::primitives::{new_id, now};
use crate::store::Data;
use crate::text::{blank, is_blank, utf8_len};

verus! {

#[derive(Clone, Debug, PartialEq, Eq)]
pub struct MemoryScope {
    pub name: String,
}

#[derive(Clone, Copy, Debug, PartialEq, Eq, Structural)]
pub enum MemoryKind {
    UserFact,
    Inference,
    SuccessfulOutcome,
}

#[derive(Clone, Debug, PartialEq, Eq)]
pub struct MemorySource {
    pub reference: String,
    pub run_id: Option<u128>,
    pub operation_id: Option<u128>,
}

#[derive(Clone, Debug, PartialEq, Eq)]
pub struct RetainMemory {
    pub text: String,
    pub kind: MemoryKind,
    pub sources: Vec<MemorySource>,
    pub supersedes: Option<u128>,
}

#[derive(Clone, Debug, PartialEq, Eq)]
pub struct MemoryRecord {
    pub id: u128,
    pub workspace_id: String,
    pub actor_id: String,
    pub scope: String,
    pub created_at: u64,
    pub updated_at: u64,
    pub deleted: bool,
    pub superseded_by: Option<u128>,
    pub content: RetainMemory,
    pub request_key: String,
}

/// Immutable host-selected memory behavior, pinned to an agent version.
#[derive(Clone, Debug, PartialEq, Eq)]
pub struct MemoryConfig {
    pub scope: MemoryScope,
    pub recall_limit: usize,
    /// JSON pointer selecting one string from a completed output; absent disables retention.
    pub retain_pointer: Option<String>,
}

/// The memory configuration pinned to an agent version (none: memory disabled).
#[derive(Clone, Debug, PartialEq, Eq)]
pub struct MemoryBinding {
    pub workspace: String,
    pub agent: VersionRef,
    pub config: Option<MemoryConfig>,
}

pub open spec fn memory_ids_unique(p: Seq<MemoryRecord>) -> bool {
    forall|i: int, j: int| 0 <= i < p.len() && 0 <= j < p.len() && i != j ==> p[i].id != p[j].id
}

/// A request key names one record in an actor's scope.
pub open spec fn memory_keys_unique(p: Seq<MemoryRecord>) -> bool {
    forall|i: int, j: int| 0 <= i < p.len() && 0 <= j < p.len() && i != j
        ==> !(p[i].workspace_id@ == p[j].workspace_id@ && p[i].actor_id@ == p[j].actor_id@
            && p[i].scope@ == p[j].scope@ && p[i].request_key@ == p[j].request_key@)
}

pub open spec fn binding_keys_unique(p: Seq<MemoryBinding>) -> bool {
    forall|i: int, j: int| 0 <= i < p.len() && 0 <= j < p.len() && i != j
        ==> !(p[i].workspace@ == p[j].workspace@ && p[i].agent.same(p[j].agent))
}

/// A scope name: not blank, at most 128 bytes.
pub open spec fn scope_valid(scope: MemoryScope) -> bool {
    !blank(scope.name@) && utf8_len(scope.name@) <= 128
}

pub fn validate_scope(scope: &MemoryScope) -> (r: Result<()>)
    ensures
        r is Ok <==> scope_valid(*scope),
        r is Err ==> r matches Err(Error::Invalid(_)),
{
    if is_blank(scope.name.as_str()) || crate::text::byte_length(&scope.name) > 128 {
        return Err(invalid("memory scope must contain 1 to 128 bytes"));
    }
    Ok(())
}

/// A retention pointer: a non-root JSON pointer of at most 256 bytes whose
/// every `~` escapes `0` or `1`.
pub open spec fn pointer_valid(p: Seq<u8>) -> bool {
    &&& p.len() > 0 && p[0] == 0x2Fu8
    &&& p.len() <= 256
    &&& forall|i: int| 0 <= i < p.len() && #[trigger] p[i] == 0x7Eu8 ==> i + 1 < p.len() && (p[i + 1] == 0x30u8 || p[i + 1] == 0x31u8)
}

fn check_pointer(p: &str) -> (r: bool)
    ensures
        r == pointer_valid(vstd::utf8::encode_utf8(p@)),
{
    proof {
        assert(p.spec_bytes() == vstd::utf8::encode_utf8(p@));
    }
    let b = p.as_bytes();
    if b.len() == 0 || b[0] != 0x2Fu8 || b.len() > 256 {
        return false;
    }
    let mut i: usize = 0;
    while i < b.len()
        invariant
            b@ == p.spec_bytes(),
            i <= b@.len(),
            forall|k: int| 0 <= k < i && #[trigger] b@[k] == 0x7Eu8 ==> k + 1 < b@.len() && (b@[k + 1] == 0x30u8 || b@[k + 1] == 0x31u8),
        decreases b@.len() - i,
    {
        if b[i] == 0x7Eu8 {
            if i + 1 >= b.len() || !(b[i + 1] == 0x30u8 || b[i + 1] == 0x31u8) {
                return false;
            }
        }
        i = i + 1;
    }
    true
}

impl MemoryConfig {
    pub open spec fn valid(self) -> bool {
        &&& scope_valid(self.scope)
        &&& 1 <= self.recall_limit <= 20
        &&& self.retain_pointer matches Some(p) ==> pointer_valid(vstd::utf8::encode_utf8(p@))
    }

    pub fn validate(&self) -> (r: Result<()>)
        ensures
            r is Ok <==> self.valid(),
            r is Err ==> r matches Err(Error::Invalid(_)),
    {
        validate_scope(&self.scope)?;
        if !(1 <= self.recall_limit && self.recall_limit <= 20) {
            return Err(invalid("memory recall limit must be 1 to 20"));
        }
        match &self.retain_pointer {
            Some(p) => {
                if !check_pointer(p.as_str()) {
                    return Err(invalid("memory retention requires a non-root JSON pointer"));
                }
            },
            None => {},
        }
        Ok(())
    }
}

pub open spec fn belongs(r: MemoryRecord, actor: Actor, scope: MemoryScope) -> bool {
    r.workspace_id@ == actor.workspace_id@ && r.actor_id@ == actor.id@ && r.scope@ == scope.name@
}

pub open spec fn source_same(a: MemorySource, b: MemorySource) -> bool {
    a.reference@ == b.reference@ && a.run_id == b.run_id && a.operation_id == b.operation_id
}

pub open spec fn sources_same(a: Seq<MemorySource>, b: Seq<MemorySource>) -> bool {
    a.len() == b.len() && forall|k: int| 0 <= k < a.len() ==> source_same(#[trigger] a[k], b[k])
}

pub open spec fn content_same(a: RetainMemory, b: RetainMemory) -> bool {
    a.text@ == b.text@ && a.kind == b.kind && sources_same(a.sources@, b.sources@) && a.supersedes == b.supersedes
}

pub open spec fn record_same(a: MemoryRecord, b: MemoryRecord) -> bool {
    &&& a.id == b.id && a.workspace_id@ == b.workspace_id@ && a.actor_id@ == b.actor_id@ && a.scope@ == b.scope@
    &&& a.created_at == b.created_at && a.updated_at == b.updated_at && a.deleted == b.deleted
    &&& a.superseded_by == b.superseded_by && content_same(a.content, b.content) && a.request_key@ == b.request_key@
}

fn copy_sources(v: &Vec<MemorySource>) -> (r: Vec<MemorySource>)
    ensures
        sources_same(r@, v@),
{
    let mut r: Vec<MemorySource> = Vec::new();
    let mut i: usize = 0;
    while i < v.len()
        invariant
            i <= v@.len(),
            r@.len() == i,
            forall|k: int| 0 <= k < i ==> source_same(#[trigger] r@[k], v@[k]),
        decreases v@.len() - i,
    {
        let s = &v[i];
        r.push(MemorySource { reference: s.reference.clone(), run_id: s.run_id, operation_id: s.operation_id });
        i = i + 1;
    }
    r
}

fn sources_equal(a: &Vec<MemorySource>, b: &Vec<MemorySource>) -> (r: bool)
    ensures
        r == sources_same(a@, b@),
{
    if a.len() != b.len() {
        return false;
    }
    let mut i: usize = 0;
    while i < a.len()
        invariant
            a@.len() == b@.len(),
            i <= a@.len(),
            forall|k: int| 0 <= k < i ==> source_same(#[trigger] a@[k], b@[k]),
        decreases a@.len() - i,
    {
        if !(a[i].reference == b[i].reference && a[i].run_id == b[i].run_id && a[i].operation_id == b[i].operation_id) {
            return false;
        }
        i = i + 1;
    }
    true
}

impl MemoryRecord {
    pub fn copy(&self) -> (r: MemoryRecord)
        ensures
            record_same(r, *self),
    {
        MemoryRecord {
            id: self.id,
            workspace_id: self.workspace_id.clone(),
            actor_id: self.actor_id.clone(),
            scope: self.scope.clone(),
            created_at: self.created_at,
            updated_at: self.updated_at,
            deleted: self.deleted,
            superseded_by: self.superseded_by,
            content: RetainMemory {
                text: self.content.text.clone(),
                kind: self.content.kind,
                sources: copy_sources(&self.content.sources),
                supersedes: self.content.supersedes,
            },
            request_key: self.request_key.clone(),
        }
    }
}

/// The bounds on a retention request: key and text present and bounded, 1 to
/// 16 sources, each with a bounded reference.
pub open spec fn retain_input_valid(request_key: Seq<char>, input: RetainMemory) -> bool {
    &&& !blank(request_key) && utf8_len(request_key) <= 256
    &&& !blank(input.text@) && utf8_len(input.text@) <= 8192
    &&& 1 <= input.sources@.len() <= 16
    &&& forall|k: int| 0 <= k < input.sources@.len() ==> !blank((#[trigger] input.sources@[k]).reference@)
        && utf8_len(input.sources@[k].reference@) <= 1024
}

/// A source names a run of the actor (completed, for a successful outcome),
/// and an operation only of that run.
pub open spec fn source_ok(d: Data, actor: Actor, kind: MemoryKind, s: MemorySource) -> bool {
    &&& s.run_id matches Some(id) ==> d.owns(actor, id) && (kind is SuccessfulOutcome ==> d.run(id).status is Completed)
    &&& s.operation_id matches Some(op) ==> d.has_operation(op) && d.owns(actor, d.operation(op).run_id)
        && s.run_id == Some(d.operation(op).run_id)
}

pub open spec fn provenance_ok(d: Data, actor: Actor, input: RetainMemory) -> bool {
    &&& forall|k: int| 0 <= k < input.sources@.len() ==> source_ok(d, actor, input.kind, #[trigger] input.sources@[k])
    &&& input.kind is SuccessfulOutcome ==> exists|k: int| 0 <= k < input.sources@.len() && (#[trigger] input.sources@[k]).run_id is Some
}

/// The record that a retention supersedes is the actor's, live and current.
pub open spec fn supersedable(d: Data, actor: Actor, scope: MemoryScope, id: u128) -> bool {
    exists|i: int| 0 <= i < d.memories@.len() && d.memories@[i].id == id && belongs(d.memories@[i], actor, scope)
        && !d.memories@[i].deleted && d.memories@[i].superseded_by is None
}

impl Data {
    pub open spec fn has_keyed(&self, actor: Actor, scope: MemoryScope, key: Seq<char>) -> bool {
        exists|i: int| 0 <= i < self.memories@.len() && belongs(self.memories@[i], actor, scope) && self.memories@[i].request_key@ == key
    }

    pub open spec fn keyed_index(&self, actor: Actor, scope: MemoryScope, key: Seq<char>) -> int {
        choose|i: int| 0 <= i < self.memories@.len() && belongs(self.memories@[i], actor, scope) && self.memories@[i].request_key@ == key
    }

    fn find_keyed(&self, actor: &Actor, scope: &MemoryScope, key: &str) -> (r: Option<usize>)
        requires
            self.wf(),
        ensures
            r is Some <==> self.has_keyed(*actor, *scope, key@),
            r matches Some(i) ==> i == self.keyed_index(*actor, *scope, key@) && i < self.memories@.len(),
    {
        let mut i: usize = 0;
        while i < self.memories.len()
            invariant
                self.wf(),
                i <= self.memories@.len(),
                forall|k: int| 0 <= k < i ==> !(belongs(self.memories@[k], *actor, *scope) && self.memories@[k].request_key@ == key@),
            decreases self.memories@.len() - i,
        {
            let r = &self.memories[i];
            if r.workspace_id == actor.workspace_id && r.actor_id == actor.id && r.scope == scope.name
                && crate::text::str_equal(r.request_key.as_str(), key) {
                assert(self.has_keyed(*actor, *scope, key@));
                let ghost j = self.keyed_index(*actor, *scope, key@);
                assert(self.memories@[i as int].request_key@ == key@);
                assert(j == i);
                return Some(i);
            }
            i = i + 1;
        }
        None
    }

    pub fn find_memory(&self, id: u128) -> (r: Option<usize>)
        requires
            self.wf(),
        ensures
            r is None ==> forall|k: int| 0 <= k < self.memories@.len() ==> self.memories@[k].id != id,
            r matches Some(i) ==> i < self.memories@.len() && self.memories@[i as int].id == id,
    {
        let mut i: usize = 0;
        while i < self.memories.len()
            invariant
                i <= self.memories@.len(),
                forall|k: int| 0 <= k < i ==> self.memories@[k].id != id,
            decreases self.memories@.len() - i,
        {
            if self.memories[i].id == id {
                return Some(i);
            }
            i = i + 1;
        }
        None
    }
}

fn check_input(request_key: &str, input: &RetainMemory) -> (r: bool)
    ensures
        r == retain_input_valid(request_key@, *input),
{
    if is_blank(request_key) || request_key.as_bytes().len() > 256 || is_blank(input.text.as_str())
        || crate::text::byte_length(&input.text) > 8192 || input.sources.len() == 0 || input.sources.len() > 16 {
        proof {
            assert(request_key.spec_bytes() == vstd::utf8::encode_utf8(request_key@));
        }
        return false;
    }
    proof {
        assert(request_key.spec_bytes() == vstd::utf8::encode_utf8(request_key@));
    }
    let mut k: usize = 0;
    while k < input.sources.len()
        invariant
            k <= input.sources@.len(),
            forall|m: int| 0 <= m < k ==> !blank((#[trigger] input.sources@[m]).reference@)
                && utf8_len(input.sources@[m].reference@) <= 1024,
        decreases input.sources@.len() - k,
    {
        let s = &input.sources[k];
        if is_blank(s.reference.as_str()) || crate::text::byte_length(&s.reference) > 1024 {
            return false;
        }
        k = k + 1;
    }
    true
}

fn check_provenance(d: &Data, actor: &Actor, input: &RetainMemory) -> (r: Result<()>)
    requires
        d.wf(),
    ensures
        r is Ok <==> provenance_ok(*d, *actor, *input),
{
    let mut has_run = false;
    let mut k: usize = 0;
    while k < input.sources.len()
        invariant
            d.wf(),
            k <= input.sources@.len(),
            forall|m: int| 0 <= m < k ==> source_ok(*d, *actor, input.kind, #[trigger] input.sources@[m]),
            has_run == exists|m: int| 0 <= m < k && (#[trigger] input.sources@[m]).run_id is Some,
        decreases input.sources@.len() - k,
    {
        let s = &input.sources[k];
        match s.run_id {
            Some(id) => {
                let ri = d.owned_run(actor, id)?;
                if input.kind == MemoryKind::SuccessfulOutcome && d.runs[ri].status != RunStatus::Completed {
                    return Err(invalid("successful outcome requires completed source run"));
                }
                has_run = true;
            },
            None => {},
        }
        match s.operation_id {
            Some(op) => {
                let oi = match d.find_operation(op) {
                    None => return Err(Error::NotFound),
                    Some(oi) => oi,
                };
                d.owned_run(actor, d.operations[oi].run_id)?;
                if s.run_id != Some(d.operations[oi].run_id) {
                    return Err(invalid("memory operation source must match source run"));
                }
            },
            None => {},
        }
        k = k + 1;
    }
    if input.kind == MemoryKind::SuccessfulOutcome && !has_run {
        return Err(invalid("successful outcome requires source run"));
    }
    Ok(())
}

/// A memory record has this identifier.
pub open spec fn memory_id_in_use(d: Data, id: u128) -> bool {
    exists|k: int| 0 <= k < d.memories@.len() && d.memories@[k].id == id
}

/// The tables other than the memory records are unchanged.
pub open spec fn only_memories_changed(old: Data, new: Data) -> bool {
    &&& new.runs == old.runs && new.operations == old.operations && new.logs == old.logs
    &&& new.agents == old.agents && new.tools == old.tools && new.policies == old.policies
    &&& new.submissions == old.submissions && new.inputs == old.inputs
    &&& new.model_budgets == old.model_budgets && new.schedule_requests == old.schedule_requests
    &&& new.team_tasks == old.team_tasks && new.memory_bindings == old.memory_bindings
}

/// Retain a claim in the actor's memory scope, idempotently under
/// `request_key`: the same key returns the record it made, and a different
/// claim under that key conflicts. Every source must be visible to the actor;
/// a successful outcome must cite a completed run. A superseded record is
/// marked as replaced by the new one. `id` is the identifier that a new
/// record takes; when a record already holds it, the claim conflicts.
#[verifier::rlimit(60)]
pub fn retain_memory_with(d: &mut Data, actor: &Actor, scope: &MemoryScope, request_key: &str, input: RetainMemory, id: u128) -> (r: Result<MemoryRecord>)
    requires
        old(d).wf(),
    ensures
        final(d).wf(),
        r is Err ==> *final(d) == *old(d),
        !scope_valid(*scope) || !retain_input_valid(request_key@, input) ==> r matches Err(Error::Invalid(_)),
        scope_valid(*scope) && retain_input_valid(request_key@, input) && old(d).has_keyed(*actor, *scope, request_key@) ==> {
            let old_record = old(d).memories@[old(d).keyed_index(*actor, *scope, request_key@)];
            &&& content_same(old_record.content, input) ==> (r matches Ok(rec) && record_same(rec, old_record))
            &&& !content_same(old_record.content, input) ==> (r matches Err(Error::Conflict(_)))
            &&& *final(d) == *old(d)
        },
        scope_valid(*scope) && retain_input_valid(request_key@, input) && !old(d).has_keyed(*actor, *scope, request_key@)
            && !provenance_ok(*old(d), *actor, input) ==> r is Err,
        scope_valid(*scope) && retain_input_valid(request_key@, input) && !old(d).has_keyed(*actor, *scope, request_key@)
            && provenance_ok(*old(d), *actor, input) && (input.supersedes matches Some(p) && !supersedable(*old(d), *actor, *scope, p))
            ==> r == Err::<MemoryRecord, Error>(Error::NotFound),
        scope_valid(*scope) && retain_input_valid(request_key@, input) && !old(d).has_keyed(*actor, *scope, request_key@)
            && provenance_ok(*old(d), *actor, input) && (input.supersedes matches Some(p) ==> supersedable(*old(d), *actor, *scope, p))
            ==> (memory_id_in_use(*old(d), id) ==> (r matches Err(Error::Conflict(_))))
                && (!memory_id_in_use(*old(d), id) ==> r is Ok),
        !old(d).has_keyed(*actor, *scope, request_key@) ==> (r matches Ok(rec) ==> rec.id == id),
        r matches Ok(rec) ==> old(d).has_keyed(*actor, *scope, request_key@) || {
            let n = old(d).memories@.len();
            &&& only_memories_changed(*old(d), *final(d))
            &&& provenance_ok(*old(d), *actor, input)
            &&& final(d).memories@.len() == n + 1
            &&& record_same(final(d).memories@[n as int], rec)
            &&& rec.workspace_id@ == actor.workspace_id@ && rec.actor_id@ == actor.id@ && rec.scope@ == scope.name@
            &&& rec.request_key@ == request_key@ && content_same(rec.content, input)
            &&& !rec.deleted && rec.superseded_by is None && rec.created_at == rec.updated_at
            &&& forall|k: int| 0 <= k < n && old(d).memories@[k].id != input.supersedes->0 ==> final(d).memories@[k] == old(d).memories@[k]
            &&& forall|k: int| 0 <= k < n ==> old(d).memories@[k].id != rec.id
            &&& input.supersedes is None ==> final(d).memories@.subrange(0, n as int) == old(d).memories@
            &&& input.supersedes matches Some(p) ==> forall|k: int| 0 <= k < n && old(d).memories@[k].id == p ==>
                final(d).memories@[k] == (MemoryRecord { superseded_by: Some(rec.id), updated_at: rec.created_at, ..old(d).memories@[k] })
        },
{
    validate_scope(scope)?;
    if !check_input(request_key, &input) {
        return Err(invalid("memory requires bounded text, provenance, and idempotency key"));
    }
    match d.find_keyed(actor, scope, request_key) {
        Some(i) => {
            let same = crate::text::str_equal(d.memories[i].content.text.as_str(), input.text.as_str())
                && d.memories[i].content.kind == input.kind
                && sources_equal(&d.memories[i].content.sources, &input.sources)
                && d.memories[i].content.supersedes == input.supersedes;
            if !same {
                return Err(conflict("memory request key already used"));
            }
            return Ok(d.memories[i].copy());
        },
        None => {},
    }
    check_provenance(d, actor, &input)?;
    let superseded = match input.supersedes {
        Some(previous) => {
            let pi = match d.find_memory(previous) {
                None => return Err(Error::NotFound),
                Some(pi) => pi,
            };
            let p = &d.memories[pi];
            if !(p.workspace_id == actor.workspace_id && p.actor_id == actor.id && p.scope == scope.name && !p.deleted
                && p.superseded_by.is_none()) {
                proof {
                    assert forall|i: int| 0 <= i < d.memories@.len() && d.memories@[i].id == previous implies !(belongs(d.memories@[i], *actor, *scope)
                        && !d.memories@[i].deleted && d.memories@[i].superseded_by is None) by {
                        assert(i == pi);
                    }
                }
                return Err(Error::NotFound);
            }
            Some(pi)
        },
        None => None,
    };
    match d.find_memory(id) {
        Some(k) => {
            proof {
                assert(memory_id_in_use(*old(d), id));
            }
            return Err(conflict("memory identifier already in use"));
        },
        None => {},
    }
    let timestamp = now();
    let ghost before = *d;
    match superseded {
        Some(pi) => {
            d.memories[pi].superseded_by = Some(id);
            d.memories[pi].updated_at = timestamp;
            proof {
                assert(d.memories@ == before.memories@.update(pi as int, d.memories@[pi as int]));
                assert forall|k: int| 0 <= k < before.memories@.len() && before.memories@[k].id == input.supersedes->0 implies k == pi by {}
            }
        },
        None => {},
    }
    let record = MemoryRecord {
        id,
        workspace_id: actor.workspace_id.clone(),
        actor_id: actor.id.clone(),
        scope: scope.name.clone(),
        created_at: timestamp,
        updated_at: timestamp,
        deleted: false,
        superseded_by: None,
        content: input,
        request_key: text(request_key),
    };
    let result = record.copy();
    let ghost mid = d.memories@;
    d.memories.push(record);
    proof {
        assert forall|i: int, j: int| 0 <= i < d.memories@.len() && 0 <= j < d.memories@.len() && i != j
            implies d.memories@[i].id != d.memories@[j].id by {
            if i < mid.len() && j < mid.len() {
                assert(mid[i].id == before.memories@[i].id);
                assert(mid[j].id == before.memories@[j].id);
            }
            if i < mid.len() {
                assert(mid[i].id == before.memories@[i].id);
            }
            if j < mid.len() {
                assert(mid[j].id == before.memories@[j].id);
            }
        }
        assert forall|i: int, j: int| 0 <= i < d.memories@.len() && 0 <= j < d.memories@.len() && i != j
            implies !(d.memories@[i].workspace_id@ == d.memories@[j].workspace_id@ && d.memories@[i].actor_id@ == d.memories@[j].actor_id@
                && d.memories@[i].scope@ == d.memories@[j].scope@ && d.memories@[i].request_key@ == d.memories@[j].request_key@) by {
            if i < mid.len() && j == mid.len() {
                assert(!(belongs(before.memories@[i], *actor, *scope) && before.memories@[i].request_key@ == request_key@));
            } else if j < mid.len() && i == mid.len() {
                assert(!(belongs(before.memories@[j], *actor, *scope) && before.memories@[j].request_key@ == request_key@));
            }
        }
        assert(d.memories@.subrange(0, before.memories@.len() as int) =~= mid);
    }
    Ok(result)
}

/// Retain a claim in the actor's memory scope, idempotently under
/// `request_key`: the same key returns the record it made, and a different
/// claim under that key conflicts. Every source must be visible to the actor;
/// a successful outcome must cite a completed run. A superseded record is
/// marked as replaced by the new one. A new record's identifier is drawn at
/// random; see `retain_memory_with`.
pub fn retain_memory(d: &mut Data, actor: &Actor, scope: &MemoryScope, request_key: &str, input: RetainMemory) -> (r: Result<MemoryRecord>)
    requires
        old(d).wf(),
    ensures
        final(d).wf(),
        r is Err ==> *final(d) == *old(d),
        !scope_valid(*scope) || !retain_input_valid(request_key@, input) ==> r matches Err(Error::Invalid(_)),
        scope_valid(*scope) && retain_input_valid(request_key@, input) && old(d).has_keyed(*actor, *scope, request_key@) ==> {
            let old_record = old(d).memories@[old(d).keyed_index(*actor, *scope, request_key@)];
            &&& content_same(old_record.content, input) ==> (r matches Ok(rec) && record_same(rec, old_record))
            &&& !content_same(old_record.content, input) ==> (r matches Err(Error::Conflict(_)))
            &&& *final(d) == *old(d)
        },
        scope_valid(*scope) && retain_input_valid(request_key@, input) && !old(d).has_keyed(*actor, *scope, request_key@)
            && !provenance_ok(*old(d), *actor, input) ==> r is Err,
        scope_valid(*scope) && retain_input_valid(request_key@, input) && !old(d).has_keyed(*actor, *scope, request_key@)
            && provenance_ok(*old(d), *actor, input) && (input.supersedes matches Some(p) && !supersedable(*old(d), *actor, *scope, p))
            ==> r == Err::<MemoryRecord, Error>(Error::NotFound),
        scope_valid(*scope) && retain_input_valid(request_key@, input) && !old(d).has_keyed(*actor, *scope, request_key@)
            && provenance_ok(*old(d), *actor, input) && (input.supersedes matches Some(p) ==> supersedable(*old(d), *actor, *scope, p))
            ==> r is Ok || ((r matches Err(Error::Conflict(_)))
                && exists|x: u128| memory_id_in_use(*old(d), x)),
        r matches Ok(rec) ==> old(d).has_keyed(*actor, *scope, request_key@) || {
            let n = old(d).memories@.len();
            &&& only_memories_changed(*old(d), *final(d))
            &&& provenance_ok(*old(d), *actor, input)
            &&& final(d).memories@.len() == n + 1
            &&& record_same(final(d).memories@[n as int], rec)
            &&& rec.workspace_id@ == actor.workspace_id@ && rec.actor_id@ == actor.id@ && rec.scope@ == scope.name@
            &&& rec.request_key@ == request_key@ && content_same(rec.content, input)
            &&& !rec.deleted && rec.superseded_by is None && rec.created_at == rec.updated_at
            &&& forall|k: int| 0 <= k < n && old(d).memories@[k].id != input.supersedes->0 ==> final(d).memories@[k] == old(d).memories@[k]
            &&& forall|k: int| 0 <= k < n ==> old(d).memories@[k].id != rec.id
            &&& input.supersedes is None ==> final(d).memories@.subrange(0, n as int) == old(d).memories@
            &&& input.supersedes matches Some(p) ==> forall|k: int| 0 <= k < n && old(d).memories@[k].id == p ==>
                final(d).memories@[k] == (MemoryRecord { superseded_by: Some(rec.id), updated_at: rec.created_at, ..old(d).memories@[k] })
        },
{
    let id = new_id();
    let r = retain_memory_with(d, actor, scope, request_key, input, id);
    proof {
        if r is Err && memory_id_in_use(*old(d), id) {
            assert(exists|x: u128| memory_id_in_use(*old(d), x));
        }
    }
    r
}

/// Delete a record of the actor's scope: it stays as a tombstone, with its
/// text and sources cleared.
pub fn delete_memory(d: &mut Data, actor: &Actor, scope: &MemoryScope, id: u128) -> (r: Result<()>)
    requires
        old(d).wf(),
    ensures
        final(d).wf(),
        r is Err ==> *final(d) == *old(d),
        !scope_valid(*scope) ==> r matches Err(Error::Invalid(_)),
        r is Ok <==> scope_valid(*scope) && exists|i: int| 0 <= i < old(d).memories@.len() && old(d).memories@[i].id == id
            && belongs(old(d).memories@[i], *actor, *scope),
        scope_valid(*scope) && r is Err ==> r == Err::<(), Error>(Error::NotFound),
        r is Ok ==> {
            &&& only_memories_changed(*old(d), *final(d))
            &&& final(d).memories@.len() == old(d).memories@.len()
            &&& forall|i: int| 0 <= i < old(d).memories@.len() ==> {
                let m = old(d).memories@[i];
                let m2 = #[trigger] final(d).memories@[i];
                if m.id == id {
                    &&& m2 == (MemoryRecord { deleted: true, updated_at: m2.updated_at, content: m2.content, ..m })
                    &&& m2.content.text@.len() == 0 && m2.content.sources@.len() == 0
                    &&& m2.content.kind == m.content.kind && m2.content.supersedes == m.content.supersedes
                } else {
                    m2 == m
                }
            }
        },
{
    validate_scope(scope)?;
    let i = match d.find_memory(id) {
        None => return Err(Error::NotFound),
        Some(i) => i,
    };
    if !(d.memories[i].workspace_id == actor.workspace_id && d.memories[i].actor_id == actor.id && d.memories[i].scope == scope.name) {
        proof {
            assert forall|k: int| 0 <= k < d.memories@.len() && d.memories@[k].id == id implies !belongs(d.memories@[k], *actor, *scope) by {
                assert(k == i);
            }
        }
        return Err(Error::NotFound);
    }
    let ghost before = *d;
    let timestamp = now();
    d.memories[i].deleted = true;
    d.memories[i].updated_at = timestamp;
    d.memories[i].content.text = String::new();
    d.memories[i].content.sources = Vec::new();
    proof {
        assert(d.memories@ == before.memories@.update(i as int, d.memories@[i as int]));
        assert forall|k: int| 0 <= k < before.memories@.len() && before.memories@[k].id == id implies k == i by {}
    }
    Ok(())
}

pub open spec fn config_same(a: Option<MemoryConfig>, b: Option<MemoryConfig>) -> bool {
    match (a, b) {
        (None, None) => true,
        (Some(x), Some(y)) => x.scope.name@ == y.scope.name@ && x.recall_limit == y.recall_limit && match (x.retain_pointer, y.retain_pointer) {
            (None, None) => true,
            (Some(p), Some(q)) => p@ == q@,
            _ => false,
        },
        _ => false,
    }
}

fn config_equals(a: &Option<MemoryConfig>, b: &Option<MemoryConfig>) -> (r: bool)
    ensures
        r == config_same(*a, *b),
{
    match (a, b) {
        (None, None) => true,
        (Some(x), Some(y)) => x.scope.name == y.scope.name && x.recall_limit == y.recall_limit && match (&x.retain_pointer, &y.retain_pointer) {
            (None, None) => true,
            (Some(p), Some(q)) => *p == *q,
            _ => false,
        },
        _ => false,
    }
}

impl Data {
    pub open spec fn has_binding(&self, workspace: Seq<char>, agent: VersionRef) -> bool {
        exists|i: int| 0 <= i < self.memory_bindings@.len() && self.memory_bindings@[i].workspace@ == workspace
            && self.memory_bindings@[i].agent.same(agent)
    }

    pub open spec fn binding_index(&self, workspace: Seq<char>, agent: VersionRef) -> int {
        choose|i: int| 0 <= i < self.memory_bindings@.len() && self.memory_bindings@[i].workspace@ == workspace
            && self.memory_bindings@[i].agent.same(agent)
    }

    fn find_binding(&self, workspace: &str, agent: &VersionRef) -> (r: Option<usize>)
        requires
            self.wf(),
        ensures
            r is Some <==> self.has_binding(workspace@, *agent),
            r matches Some(i) ==> i == self.binding_index(workspace@, *agent) && i < self.memory_bindings@.len(),
    {
        let mut i: usize = 0;
        while i < self.memory_bindings.len()
            invariant
                self.wf(),
                i <= self.memory_bindings@.len(),
                forall|k: int| 0 <= k < i ==> !(self.memory_bindings@[k].workspace@ == workspace@
                    && self.memory_bindings@[k].agent.same(*agent)),
            decreases self.memory_bindings@.len() - i,
        {
            let b = &self.memory_bindings[i];
            if crate::text::str_equal(b.workspace.as_str(), workspace) && b.agent.equals(agent) {
                assert(self.has_binding(workspace@, *agent));
                let ghost j = self.binding_index(workspace@, *agent);
                assert(self.memory_bindings@[i as int].workspace@ == workspace@);
                assert(self.memory_bindings@[i as int].agent.same(*agent));
                assert(self.memory_bindings@[j].agent.same(*agent));
                assert(self.memory_bindings@[i as int].agent.same(self.memory_bindings@[j].agent));
                assert(j == i);
                return Some(i);
            }
            i = i + 1;
        }
        None
    }

    /// Some run of the agent version exists in the workspace.
    pub open spec fn has_runs_of(&self, workspace: Seq<char>, agent: VersionRef) -> bool {
        exists|i: int| 0 <= i < self.runs@.len() && self.runs@[i].meta.workspace_id@ == workspace
            && self.runs@[i].agent_ref.same(agent)
    }

    pub fn runs_of(&self, workspace: &str, agent: &VersionRef) -> (r: bool)
        ensures
            r == self.has_runs_of(workspace@, *agent),
    {
        let mut i: usize = 0;
        while i < self.runs.len()
            invariant
                i <= self.runs@.len(),
                forall|k: int| 0 <= k < i ==> !(self.runs@[k].meta.workspace_id@ == workspace@
                    && self.runs@[k].agent_ref.same(*agent)),
            decreases self.runs@.len() - i,
        {
            if crate::text::str_equal(self.runs[i].meta.workspace_id.as_str(), workspace) && self.runs[i].agent_ref.equals(agent) {
                assert(self.runs@[i as int].meta.workspace_id@ == workspace@);
                return true;
            }
            i = i + 1;
        }
        false
    }
}

/// Pin an agent version's memory behavior. A binding never changes; memory
/// cannot be added to an agent version that already has runs.
pub fn bind_memory(d: &mut Data, workspace: &str, agent: &VersionRef, config: Option<MemoryConfig>) -> (r: Result<()>)
    requires
        old(d).wf(),
    ensures
        final(d).wf(),
        crate::store::definitions_extended(*old(d), *final(d)),
        final(d).policies == old(d).policies,
        final(d).agents == old(d).agents,
        final(d).tools == old(d).tools,
        r is Err ==> *final(d) == *old(d),
        (config matches Some(c) && !c.valid()) ==> r matches Err(Error::Invalid(_)),
        (config matches Some(c) ==> c.valid()) ==> {
            &&& !old(d).has_agent(workspace@, *agent) ==> r == Err::<(), Error>(Error::NotFound)
            &&& old(d).has_agent(workspace@, *agent) && old(d).has_binding(workspace@, *agent) ==> {
                &&& config_same(old(d).memory_bindings@[old(d).binding_index(workspace@, *agent)].config, config) ==> r is Ok
                &&& !config_same(old(d).memory_bindings@[old(d).binding_index(workspace@, *agent)].config, config) ==> (r matches Err(Error::Conflict(_)))
                &&& *final(d) == *old(d)
            }
            &&& old(d).has_agent(workspace@, *agent) && !old(d).has_binding(workspace@, *agent) ==> {
                &&& config is Some && old(d).has_runs_of(workspace@, *agent) ==> (r matches Err(Error::Conflict(_)))
                &&& !(config is Some && old(d).has_runs_of(workspace@, *agent)) ==> r is Ok
            }
        },
        r is Ok ==> old(d).has_binding(workspace@, *agent) || {
            &&& final(d).memory_bindings@.drop_last() == old(d).memory_bindings@
            &&& final(d).memory_bindings@.len() == old(d).memory_bindings@.len() + 1
            &&& final(d).memory_bindings@.last().workspace@ == workspace@
            &&& final(d).memory_bindings@.last().agent.same(*agent)
            &&& final(d).memory_bindings@.last().config == config
        },
{
    match &config {
        Some(c) => c.validate()?,
        None => {},
    }
    let ws = text(workspace);
    match d.find_agent(&ws, agent) {
        None => return Err(Error::NotFound),
        Some(_) => {},
    }
    match d.find_binding(workspace, agent) {
        Some(i) => {
            if !config_equals(&d.memory_bindings[i].config, &config) {
                return Err(conflict("agent memory binding changed; publish a new version"));
            }
            return Ok(());
        },
        None => {},
    }
    if config.is_some() && d.runs_of(workspace, agent) {
        return Err(conflict("cannot add memory to an agent with existing runs"));
    }
    let ghost before = d.memory_bindings@;
    d.memory_bindings.push(MemoryBinding { workspace: ws, agent: agent.copy(), config });
    proof {
        assert(d.memory_bindings@.drop_last() =~= before);
    }
    Ok(())
}

} // verus!

verus! {

/// The string that `pointer` addresses in the JSON document `json`, as
/// serde_json resolves a JSON pointer.
pub uninterp spec fn pointed_string(json: Seq<char>, pointer: Seq<char>) -> Option<Seq<char>>;

/// `serde_json::Value::pointer` on the parsed document, then `as_str`. The
/// result is named, not described: it is `pointed_string` of the arguments.
#[verifier::external_body]
fn pointer_string(json: &str, pointer: &str) -> (r: Option<String>)
    ensures
        match r {
            Some(s) => pointed_string(json@, pointer@) == Some(s@),
            None => pointed_string(json@, pointer@) is None,
        },
{
    let value: serde_json::Value = serde_json::from_str(json).ok()?;
    value.pointer(pointer).and_then(|v| v.as_str()).map(|s| s.to_owned())
}

/// The owner of a run, as an actor.
pub open spec fn owner(run: crate::store::Run) -> Actor {
    Actor { workspace_id: run.meta.workspace_id, id: run.actor_id }
}

/// The memory configuration pinned to a run's agent version, if any.
pub open spec fn run_config(d: Data, run: crate::store::Run) -> Option<MemoryConfig> {
    if d.has_binding(run.meta.workspace_id@, run.agent_ref) {
        d.memory_bindings@[d.binding_index(run.meta.workspace_id@, run.agent_ref)].config
    } else {
        None
    }
}

/// What a completed run retains: the string that the retention pointer
/// selects from its result, when nonblank and at most 8 KiB.
pub open spec fn retained_text(d: Data, run: crate::store::Run) -> Option<Seq<char>> {
    if run.status != RunStatus::Completed {
        None
    } else {
        match run_config(d, run) {
            None => None,
            Some(c) => match c.retain_pointer {
                None => None,
                Some(p) => match run.result {
                    None => None,
                    Some(res) => match pointed_string(res@, p@) {
                        None => None,
                        Some(t) => if !blank(t) && utf8_len(t) <= 8192 { Some(t) } else { None },
                    },
                },
            },
        }
    }
}

/// The request key under which a completed run retains its outcome.
pub open spec fn completion_key(id: u128) -> Seq<char> {
    "hudson.completed:"@ + crate::primitives::uuid_string(id)
}

/// Inside the transaction that completes a run: retain the outcome that its
/// agent's memory configuration selects, once per run, as a successful
/// outcome citing the run.
#[verifier::rlimit(60)]
pub fn retain_completed(d: &mut Data, id: u128) -> (r: Result<()>)
    requires
        old(d).wf(),
    ensures
        final(d).wf(),
        r is Err ==> *final(d) == *old(d),
        !old(d).has_run(id) ==> r == Err::<(), Error>(Error::NotFound),
        old(d).has_run(id) && retained_text(*old(d), old(d).run(id)) is None ==> r is Ok && *final(d) == *old(d),
        old(d).has_run(id) && retained_text(*old(d), old(d).run(id)) is Some && old(d).has_keyed(owner(old(d).run(id)),
            run_config(*old(d), old(d).run(id))->0.scope, completion_key(id)) ==> r is Ok && *final(d) == *old(d),
        r is Err ==> old(d).has_run(id) ==> (r matches Err(Error::Conflict(_))),
        old(d).has_run(id) && r is Ok && *final(d) != *old(d) ==> {
            let run = old(d).run(id);
            let c = run_config(*old(d), run)->0;
            let n = old(d).memories@.len();
            let rec = final(d).memories@[n as int];
            &&& retained_text(*old(d), run) is Some
            &&& !old(d).has_keyed(owner(run), c.scope, completion_key(id))
            &&& only_memories_changed(*old(d), *final(d))
            &&& final(d).memories@.len() == n + 1
            &&& final(d).memories@.subrange(0, n as int) == old(d).memories@
            &&& forall|k: int| 0 <= k < n ==> old(d).memories@[k].id != rec.id
            &&& rec.workspace_id == run.meta.workspace_id && rec.actor_id == run.actor_id && rec.scope == c.scope.name
            &&& rec.request_key@ == completion_key(id)
            &&& rec.content.text@ == retained_text(*old(d), run)->0
            &&& rec.content.kind == MemoryKind::SuccessfulOutcome && rec.content.supersedes is None
            &&& rec.content.sources@.len() == 1
            &&& rec.content.sources@[0].reference@ == "run:"@ + crate::primitives::uuid_string(id) + "#"@ + c.retain_pointer->0@
            &&& rec.content.sources@[0].run_id == Some(id) && rec.content.sources@[0].operation_id is None
            &&& !rec.deleted && rec.superseded_by is None && rec.created_at == rec.updated_at
        },
{
    let ri = match d.find_run(id) {
        None => return Err(Error::NotFound),
        Some(ri) => ri,
    };
    let run = &d.runs[ri];
    if run.status != RunStatus::Completed {
        return Ok(());
    }
    let bi = match d.find_binding(run.meta.workspace_id.as_str(), &run.agent_ref) {
        None => return Ok(()),
        Some(bi) => bi,
    };
    let config = match &d.memory_bindings[bi].config {
        None => return Ok(()),
        Some(c) => c,
    };
    let pointer = match &config.retain_pointer {
        None => return Ok(()),
        Some(p) => p,
    };
    let result = match &run.result {
        None => return Ok(()),
        Some(res) => res,
    };
    let retained = match pointer_string(result.as_str(), pointer.as_str()) {
        None => return Ok(()),
        Some(t) => t,
    };
    if is_blank(retained.as_str()) || crate::text::byte_length(&retained) > 8192 {
        return Ok(());
    }
    let owner_actor = Actor { workspace_id: run.meta.workspace_id.clone(), id: run.actor_id.clone() };
    let scope = MemoryScope { name: config.scope.name.clone() };
    let run_text = crate::primitives::uuid_text(id);
    let mut key = text("hudson.completed:");
    put(&mut key, run_text.as_str());
    proof {
        assert(d.run(id) == *run);
    }
    if d.find_keyed(&owner_actor, &scope, key.as_str()).is_some() {
        return Ok(());
    }
    let new = new_id();
    match d.find_memory(new) {
        Some(_) => return Err(conflict("memory identifier already in use")),
        None => {},
    }
    let mut reference = text("run:");
    put(&mut reference, run_text.as_str());
    put(&mut reference, "#");
    put(&mut reference, pointer.as_str());
    let timestamp = now();
    let record = MemoryRecord {
        id: new,
        workspace_id: owner_actor.workspace_id,
        actor_id: owner_actor.id,
        scope: scope.name,
        created_at: timestamp,
        updated_at: timestamp,
        deleted: false,
        superseded_by: None,
        content: RetainMemory {
            text: retained,
            kind: MemoryKind::SuccessfulOutcome,
            sources: vec![MemorySource { reference, run_id: Some(id), operation_id: None }],
            supersedes: None,
        },
        request_key: key,
    };
    let ghost before = *d;
    let ghost mid = d.memories@;
    d.memories.push(record);
    proof {
        assert forall|i: int, j: int| 0 <= i < d.memories@.len() && 0 <= j < d.memories@.len() && i != j
            implies d.memories@[i].id != d.memories@[j].id by {
            if i < mid.len() && j < mid.len() {
                assert(mid[i].id == before.memories@[i].id);
            }
        }
        assert forall|i: int, j: int| 0 <= i < d.memories@.len() && 0 <= j < d.memories@.len() && i != j
            implies !(d.memories@[i].workspace_id@ == d.memories@[j].workspace_id@ && d.memories@[i].actor_id@ == d.memories@[j].actor_id@
                && d.memories@[i].scope@ == d.memories@[j].scope@ && d.memories@[i].request_key@ == d.memories@[j].request_key@) by {
            if i < mid.len() && j == mid.len() {
                assert(!(belongs(before.memories@[i], owner_actor, scope) && before.memories@[i].request_key@ == key@));
            } else if j < mid.len() && i == mid.len() {
                assert(!(belongs(before.memories@[j], owner_actor, scope) && before.memories@[j].request_key@ == key@));
            }
        }
        assert(d.memories@.subrange(0, mid.len() as int) =~= mid);
        assert(d.memories@ != before.memories@);
    }
    Ok(())
}


pub open spec fn recall_schema() -> Seq<char> {
    "{\"additionalProperties\":false,\"properties\":{\"limit\":{\"maximum\":20,\"minimum\":1,\"type\":\"integer\"},\"query\":{\"maxLength\":8192,\"type\":\"string\"}},\"required\":[\"query\",\"limit\"],\"type\":\"object\"}"@
}

pub open spec fn retain_schema() -> Seq<char> {
    "{\"additionalProperties\":false,\"properties\":{\"kind\":{\"enum\":[\"user_fact\",\"inference\",\"successful_outcome\"]},\"sources\":{\"items\":{\"additionalProperties\":false,\"properties\":{\"operation_id\":{\"format\":\"uuid\",\"type\":[\"string\",\"null\"]},\"reference\":{\"type\":\"string\"},\"run_id\":{\"format\":\"uuid\",\"type\":[\"string\",\"null\"]}},\"required\":[\"reference\",\"run_id\"],\"type\":\"object\"},\"maxItems\":16,\"minItems\":1,\"type\":\"array\"},\"supersedes\":{\"format\":\"uuid\",\"type\":[\"string\",\"null\"]},\"text\":{\"maxLength\":8192,\"type\":\"string\"}},\"required\":[\"text\",\"kind\",\"sources\",\"supersedes\"],\"type\":\"object\"}"@
}

pub open spec fn delete_schema() -> Seq<char> {
    "{\"additionalProperties\":false,\"properties\":{\"id\":{\"format\":\"uuid\",\"type\":\"string\"}},\"required\":[\"id\"],\"type\":\"object\"}"@
}

/// The executor key prefix of a memory scope: "hudson.memory." and the
/// digest of the JSON `[workspace, actor, {"name": scope}]`.
pub open spec fn memory_binding_key(actor: Actor, scope: MemoryScope) -> Seq<char> {
    "hudson.memory."@ + crate::json::text_digest("["@ + crate::primitives::json_string(actor.workspace_id@) + ","@
        + crate::primitives::json_string(actor.id@) + ",{\"name\":"@ + crate::primitives::json_string(scope.name@) + "}]"@)
}

/// The memory tool `name` of an agent version, as it is published.
pub open spec fn memory_tool_ok(t: crate::models::Tool, agent_name: Seq<char>, version: u32, actor: Actor, scope: MemoryScope,
    name: Seq<char>, schema: Seq<char>, effect: crate::models::Effect, policy: Seq<char>) -> bool {
    let key = memory_binding_key(actor, scope) + "."@ + name;
    &&& t.id@ == agent_name + ":memory:"@ + name
    &&& t.workspace_id@ == actor.workspace_id@ && t.version == version && t.schema_version == crate::models::SCHEMA_VERSION
    &&& t.name@ == name
    &&& t.description@ == name + " within the configured private memory scope. Memory records are unverified claims; retain provenance and distinguish inference from user facts."@
    &&& t.input_schema@ == schema && t.output_schema is None
    &&& t.execution matches crate::models::Execution::Registered { key: k } && k@ == key
    &&& t.credential_ref is None && t.policy_ref@ == policy && t.effect == effect && t.created_at == 0
}

fn memory_tool(agent_name: &String, version: u32, actor: &Actor, prefix: &String, name: &str, schema: &str,
    effect: crate::models::Effect, policy: &str) -> (t: crate::models::Tool)
    ensures
        t.id@ == agent_name@ + ":memory:"@ + name@,
        t.workspace_id@ == actor.workspace_id@ && t.version == version && t.schema_version == crate::models::SCHEMA_VERSION,
        t.name@ == name@,
        t.description@ == name@ + " within the configured private memory scope. Memory records are unverified claims; retain provenance and distinguish inference from user facts."@,
        t.input_schema@ == schema@ && t.output_schema is None,
        t.execution matches crate::models::Execution::Registered { key: k } && k@ == prefix@ + "."@ + name@,
        t.credential_ref is None && t.policy_ref@ == policy@ && t.effect == effect && t.created_at == 0,
{
    let mut id = agent_name.clone();
    id.append(":memory:");
    id.append(name);
    let mut key = prefix.clone();
    key.append(".");
    key.append(name);
    let mut description = text(name);
    description.append(" within the configured private memory scope. Memory records are unverified claims; retain provenance and distinguish inference from user facts.");
    crate::models::Tool {
        id,
        workspace_id: actor.workspace_id.clone(),
        version,
        schema_version: crate::models::SCHEMA_VERSION,
        name: text(name),
        description,
        input_schema: text(schema),
        output_schema: None,
        execution: crate::models::Execution::Registered { key },
        credential_ref: None,
        policy_ref: text(policy),
        effect,
        created_at: 0,
    }
}

/// The memory tools of an agent version with memory in `scope`: recall
/// (reading, under `read_policy`), retain and delete (writing, under
/// `write_policy`), bound to executors keyed by the owner and scope. An
/// invalid scope is refused.
pub fn memory_tools(agent_name: &String, version: u32, actor: &Actor, scope: &MemoryScope, read_policy: &str, write_policy: &str)
    -> (r: Result<Vec<crate::models::Tool>>)
    ensures
        r is Err <==> !scope_valid(*scope),
        r is Err ==> r matches Err(Error::Invalid(_)),
        r matches Ok(v) ==> {
            &&& v@.len() == 3
            &&& memory_tool_ok(v@[0], agent_name@, version, *actor, *scope, "recall_memory"@, recall_schema(),
                crate::models::Effect::Read, read_policy@)
            &&& memory_tool_ok(v@[1], agent_name@, version, *actor, *scope, "retain_memory"@, retain_schema(),
                crate::models::Effect::Write, write_policy@)
            &&& memory_tool_ok(v@[2], agent_name@, version, *actor, *scope, "delete_memory"@, delete_schema(),
                crate::models::Effect::Write, write_policy@)
        },
{
    validate_scope(scope)?;
    let mut raw = text("[");
    crate::json::put_quoted(&mut raw, actor.workspace_id.as_str());
    put(&mut raw, ",");
    crate::json::put_quoted(&mut raw, actor.id.as_str());
    put(&mut raw, ",{\"name\":");
    crate::json::put_quoted(&mut raw, scope.name.as_str());
    put(&mut raw, "}]");
    let mut prefix = text("hudson.memory.");
    let dg = crate::json::digest_text(&raw);
    prefix.append(dg.as_str());
    let recall = memory_tool(agent_name, version, actor, &prefix, "recall_memory",
        "{\"additionalProperties\":false,\"properties\":{\"limit\":{\"maximum\":20,\"minimum\":1,\"type\":\"integer\"},\"query\":{\"maxLength\":8192,\"type\":\"string\"}},\"required\":[\"query\",\"limit\"],\"type\":\"object\"}",
        crate::models::Effect::Read, read_policy);
    let retain = memory_tool(agent_name, version, actor, &prefix, "retain_memory",
        "{\"additionalProperties\":false,\"properties\":{\"kind\":{\"enum\":[\"user_fact\",\"inference\",\"successful_outcome\"]},\"sources\":{\"items\":{\"additionalProperties\":false,\"properties\":{\"operation_id\":{\"format\":\"uuid\",\"type\":[\"string\",\"null\"]},\"reference\":{\"type\":\"string\"},\"run_id\":{\"format\":\"uuid\",\"type\":[\"string\",\"null\"]}},\"required\":[\"reference\",\"run_id\"],\"type\":\"object\"},\"maxItems\":16,\"minItems\":1,\"type\":\"array\"},\"supersedes\":{\"format\":\"uuid\",\"type\":[\"string\",\"null\"]},\"text\":{\"maxLength\":8192,\"type\":\"string\"}},\"required\":[\"text\",\"kind\",\"sources\",\"supersedes\"],\"type\":\"object\"}",
        crate::models::Effect::Write, write_policy);
    let delete = memory_tool(agent_name, version, actor, &prefix, "delete_memory",
        "{\"additionalProperties\":false,\"properties\":{\"id\":{\"format\":\"uuid\",\"type\":\"string\"}},\"required\":[\"id\"],\"type\":\"object\"}",
        crate::models::Effect::Write, write_policy);
    let v = vec![recall, retain, delete];
    Ok(v)
}

} // verus!
