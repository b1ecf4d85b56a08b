//! Publication records of trusted, validated configuration: a publication
//! revision is immutable, and a retried request returns its first receipt.
use vstd::prelude::*;
use crate::error::{conflict, invalid, text, Error, Result};
use crate::json::{digest_text, text_digest};
use crate::models::{Actor, VersionRef};
use crate::store::Data;
use crate::text::{blank, is_blank, utf8_len};

verus! {

#[derive(Clone, Debug, PartialEq, Eq)]
pub struct PublicationReceipt {
    pub agent_ref: VersionRef,
    pub digest: String,
    pub created_at: u64,
}

/// A published configuration: its owner, receipt and frozen JSON text.
pub struct Publication {
    pub workspace: String,
    pub actor_id: String,
    pub receipt: PublicationReceipt,
    pub frozen: String,
}

/// A publication request key and the receipt it was answered with.
pub struct PublicationKey {
    pub workspace: String,
    pub actor_id: String,
    pub key: String,
    pub receipt: PublicationReceipt,
}

pub open spec fn publications_unique(p: Seq<Publication>) -> bool {
    forall|i: int, j: int| 0 <= i < p.len() && 0 <= j < p.len() && i != j
        ==> !(p[i].workspace@ == p[j].workspace@ && p[i].receipt.agent_ref.same(p[j].receipt.agent_ref))
}

pub open spec fn publication_keys_unique(p: Seq<PublicationKey>) -> bool {
    forall|i: int, j: int| 0 <= i < p.len() && 0 <= j < p.len() && i != j
        ==> !(p[i].workspace@ == p[j].workspace@ && p[i].actor_id@ == p[j].actor_id@ && p[i].key@ == p[j].key@)
}

fn copy_receipt(r: &PublicationReceipt) -> (c: PublicationReceipt)
    ensures
        c == *r,
{
    PublicationReceipt {
        agent_ref: VersionRef { id: r.agent_ref.id.clone(), version: r.agent_ref.version },
        digest: r.digest.clone(),
        created_at: r.created_at,
    }
}

impl Data {
    pub open spec fn has_publication(&self, workspace: Seq<char>, r: VersionRef) -> bool {
        exists|i: int| 0 <= i < self.publications@.len() && self.publications@[i].workspace@ == workspace
            && self.publications@[i].receipt.agent_ref.same(r)
    }

    pub open spec fn publication_index(&self, workspace: Seq<char>, r: VersionRef) -> int {
        choose|i: int| 0 <= i < self.publications@.len() && self.publications@[i].workspace@ == workspace
            && self.publications@[i].receipt.agent_ref.same(r)
    }

    pub open spec fn publication(&self, workspace: Seq<char>, r: VersionRef) -> Publication {
        self.publications@[self.publication_index(workspace, r)]
    }

    fn find_publication(&self, workspace: &String, r: &VersionRef) -> (res: Option<usize>)
        requires
            self.wf(),
        ensures
            res is Some <==> self.has_publication(workspace@, *r),
            res matches Some(i) ==> i == self.publication_index(workspace@, *r) && i < self.publications@.len(),
    {
        let mut i: usize = 0;
        while i < self.publications.len()
            invariant
                self.wf(),
                i <= self.publications@.len(),
                forall|k: int| 0 <= k < i ==> !(self.publications@[k].workspace@ == workspace@
                    && self.publications@[k].receipt.agent_ref.same(*r)),
            decreases self.publications@.len() - i,
        {
            let p = &self.publications[i];
            if p.workspace == *workspace && p.receipt.agent_ref.equals(r) {
                assert(self.has_publication(workspace@, *r));
                let ghost j = self.publication_index(workspace@, *r);
                proof {
                    assert(publications_unique(self.publications@));
                    if j != i as int {
                        assert(!(self.publications@[j].workspace@ == self.publications@[i as int].workspace@
                            && self.publications@[j].receipt.agent_ref.same(self.publications@[i as int].receipt.agent_ref)));
                    }
                }
                return Some(i);
            }
            i = i + 1;
        }
        None
    }

    pub open spec fn has_publication_key(&self, workspace: Seq<char>, actor: Seq<char>, key: Seq<char>) -> bool {
        exists|i: int| 0 <= i < self.publication_keys@.len() && self.publication_keys@[i].workspace@ == workspace
            && self.publication_keys@[i].actor_id@ == actor && self.publication_keys@[i].key@ == key
    }

    pub open spec fn publication_key_index(&self, workspace: Seq<char>, actor: Seq<char>, key: Seq<char>) -> int {
        choose|i: int| 0 <= i < self.publication_keys@.len() && self.publication_keys@[i].workspace@ == workspace
            && self.publication_keys@[i].actor_id@ == actor && self.publication_keys@[i].key@ == key
    }

    /// The receipt a publication request key was answered with.
    pub open spec fn keyed_receipt(&self, workspace: Seq<char>, actor: Seq<char>, key: Seq<char>) -> PublicationReceipt {
        self.publication_keys@[self.publication_key_index(workspace, actor, key)].receipt
    }

    fn find_publication_key(&self, workspace: &String, actor: &String, key: &str) -> (res: Option<usize>)
        requires
            self.wf(),
        ensures
            res is Some <==> self.has_publication_key(workspace@, actor@, key@),
            res matches Some(i) ==> i == self.publication_key_index(workspace@, actor@, key@) && i < self.publication_keys@.len(),
    {
        let mut i: usize = 0;
        while i < self.publication_keys.len()
            invariant
                self.wf(),
                i <= self.publication_keys@.len(),
                forall|k: int| 0 <= k < i ==> !(self.publication_keys@[k].workspace@ == workspace@
                    && self.publication_keys@[k].actor_id@ == actor@ && self.publication_keys@[k].key@ == key@),
            decreases self.publication_keys@.len() - i,
        {
            let p = &self.publication_keys[i];
            if p.workspace == *workspace && p.actor_id == *actor && crate::text::str_equal(p.key.as_str(), key) {
                assert(self.has_publication_key(workspace@, actor@, key@));
                let ghost j = self.publication_key_index(workspace@, actor@, key@);
                proof {
                    assert(publication_keys_unique(self.publication_keys@));
                    if j != i as int {
                        assert(self.publication_keys@[j].key@ == self.publication_keys@[i as int].key@);
                    }
                }
                return Some(i);
            }
            i = i + 1;
        }
        None
    }
}

/// Only the publication tables changed.
pub open spec fn only_publications_changed(old: Data, new: Data) -> bool {
    &&& new.runs == old.runs && new.operations == old.operations && new.logs == old.logs
    &&& new.agents == old.agents && new.tools == old.tools && new.policies == old.policies
    &&& new.submissions == old.submissions && new.inputs == old.inputs
    &&& new.model_budgets == old.model_budgets && new.team_tasks == old.team_tasks
    &&& new.schedule_requests == old.schedule_requests && new.model_bindings == old.model_bindings
}

/// A publication request is well formed: a named actor and a key of 1 to 256 bytes.
pub open spec fn publication_request_valid(actor: Actor, key: Seq<char>) -> bool {
    !blank(actor.id@) && !blank(actor.workspace_id@) && 1 <= utf8_len(key) <= 256
}

/// The first step of publishing configuration `reference` whose frozen
/// content has digest `digest`, before its definitions are staged. A retried
/// request key returns its first receipt, and conflicts if the content
/// changed. An existing publication of the same revision is immutable: the
/// same owner and content return its receipt (and the key is remembered),
/// anything else conflicts. A revision that already has runs needs a new
/// version. `None`: the publication is new, and may proceed.
#[verifier::rlimit(30)]
pub fn begin_publication(d: &mut Data, actor: &Actor, request_key: &str, reference: &VersionRef, digest: &String)
    -> (r: Result<Option<PublicationReceipt>>)
    requires
        old(d).wf(),
    ensures
        final(d).wf(),
        r is Err ==> *final(d) == *old(d),
        (blank(actor.id@) || blank(actor.workspace_id@)) ==> r == Err::<Option<PublicationReceipt>, Error>(Error::Denied),
        !blank(actor.id@) && !blank(actor.workspace_id@) && !(1 <= utf8_len(request_key@) <= 256)
            ==> (r matches Err(Error::Invalid(_))),
        publication_request_valid(*actor, request_key@) && old(d).has_publication_key(actor.workspace_id@, actor.id@, request_key@) ==> {
            let k = old(d).keyed_receipt(actor.workspace_id@, actor.id@, request_key@);
            &&& k.digest@ == digest@ ==> r == Ok::<Option<PublicationReceipt>, Error>(Some(k))
            &&& k.digest@ != digest@ ==> (r matches Err(Error::Conflict(_)))
            &&& *final(d) == *old(d)
        },
        publication_request_valid(*actor, request_key@) && !old(d).has_publication_key(actor.workspace_id@, actor.id@, request_key@)
            && old(d).has_publication(actor.workspace_id@, *reference) ==> {
            let p = old(d).publication(actor.workspace_id@, *reference);
            &&& (p.actor_id@ != actor.id@ || p.receipt.digest@ != digest@) ==> (r matches Err(Error::Conflict(_)))
            &&& (p.actor_id@ == actor.id@ && p.receipt.digest@ == digest@) ==> {
                &&& r == Ok::<Option<PublicationReceipt>, Error>(Some(p.receipt))
                &&& only_publications_changed(*old(d), *final(d))
                &&& final(d).publications == old(d).publications
                &&& final(d).has_publication_key(actor.workspace_id@, actor.id@, request_key@)
                &&& final(d).keyed_receipt(actor.workspace_id@, actor.id@, request_key@) == p.receipt
            }
        },
        publication_request_valid(*actor, request_key@) && !old(d).has_publication_key(actor.workspace_id@, actor.id@, request_key@)
            && !old(d).has_publication(actor.workspace_id@, *reference) ==> {
            &&& old(d).has_runs_of(actor.workspace_id@, *reference) ==> (r matches Err(Error::Conflict(_)))
            &&& !old(d).has_runs_of(actor.workspace_id@, *reference) ==> r == Ok::<Option<PublicationReceipt>, Error>(None)
        },
        r == Ok::<Option<PublicationReceipt>, Error>(None) ==> *final(d) == *old(d),
{
    if is_blank(actor.id.as_str()) || is_blank(actor.workspace_id.as_str()) {
        return Err(Error::Denied);
    }
    let key = text(request_key);
    let n = crate::text::byte_length(&key);
    if n == 0 || n > 256 {
        return Err(invalid("publication request key length"));
    }
    if let Some(i) = d.find_publication_key(&actor.workspace_id, &actor.id, request_key) {
        if d.publication_keys[i].receipt.digest == *digest {
            return Ok(Some(copy_receipt(&d.publication_keys[i].receipt)));
        }
        return Err(conflict("publication key reused with changed content"));
    }
    if let Some(i) = d.find_publication(&actor.workspace_id, reference) {
        if d.publications[i].actor_id != actor.id || d.publications[i].receipt.digest != *digest {
            return Err(conflict("published revision is immutable"));
        }
        let receipt = copy_receipt(&d.publications[i].receipt);
        let ghost before = d.publication_keys@;
        d.publication_keys.push(PublicationKey {
            workspace: actor.workspace_id.clone(),
            actor_id: actor.id.clone(),
            key,
            receipt: copy_receipt(&receipt),
        });
        proof {
            let m = before.len() as int;
            assert(d.publication_keys@.drop_last() =~= before);
            assert(d.has_publication_key(actor.workspace_id@, actor.id@, request_key@)) by {
                assert(d.publication_keys@[m].key@ == request_key@);
            }
            let j = d.publication_key_index(actor.workspace_id@, actor.id@, request_key@);
            assert(j == m) by {
                if j != m {
                    assert(d.publication_keys@[j] == before[j]);
                }
            }
        }
        return Ok(Some(receipt));
    }
    if d.runs_of(actor.workspace_id.as_str(), reference) {
        return Err(conflict("existing runs require a new publication version"));
    }
    Ok(None)
}

/// Record a new publication after its definitions were staged: the receipt
/// names the revision, its digest and its time, and answers the request key
/// from then on. A revision or key that is already recorded is a conflict.
pub fn finish_publication(d: &mut Data, actor: &Actor, request_key: &str, reference: VersionRef, digest: String,
    frozen: String, created_at: u64) -> (r: Result<PublicationReceipt>)
    requires
        old(d).wf(),
    ensures
        final(d).wf(),
        r is Err ==> *final(d) == *old(d),
        r is Ok <==> !old(d).has_publication(actor.workspace_id@, reference)
            && !old(d).has_publication_key(actor.workspace_id@, actor.id@, request_key@),
        r is Err ==> (r matches Err(Error::Conflict(_))),
        r matches Ok(rc) ==> {
            &&& rc.agent_ref == reference && rc.digest == digest && rc.created_at == created_at
            &&& only_publications_changed(*old(d), *final(d))
            &&& final(d).has_publication(actor.workspace_id@, reference)
            &&& final(d).publication(actor.workspace_id@, reference).receipt == rc
            &&& final(d).publication(actor.workspace_id@, reference).actor_id@ == actor.id@
            &&& final(d).publication(actor.workspace_id@, reference).frozen == frozen
            &&& final(d).has_publication_key(actor.workspace_id@, actor.id@, request_key@)
            &&& final(d).keyed_receipt(actor.workspace_id@, actor.id@, request_key@) == rc
        },
{
    if d.find_publication(&actor.workspace_id, &reference).is_some()
        || d.find_publication_key(&actor.workspace_id, &actor.id, request_key).is_some() {
        return Err(conflict("published revision is immutable"));
    }
    let receipt = PublicationReceipt { agent_ref: reference, digest, created_at };
    let ghost pubs = d.publications@;
    let ghost keys = d.publication_keys@;
    d.publications.push(Publication {
        workspace: actor.workspace_id.clone(),
        actor_id: actor.id.clone(),
        receipt: copy_receipt(&receipt),
        frozen,
    });
    d.publication_keys.push(PublicationKey {
        workspace: actor.workspace_id.clone(),
        actor_id: actor.id.clone(),
        key: text(request_key),
        receipt: copy_receipt(&receipt),
    });
    proof {
        let m = pubs.len() as int;
        assert(d.publications@.drop_last() =~= pubs);
        assert(d.has_publication(actor.workspace_id@, receipt.agent_ref)) by {
            assert(d.publications@[m].receipt.agent_ref.same(receipt.agent_ref));
        }
        let j = d.publication_index(actor.workspace_id@, receipt.agent_ref);
        assert(j == m) by {
            if j != m {
                assert(d.publications@[j] == pubs[j]);
            }
        }
        let n = keys.len() as int;
        assert(d.publication_keys@.drop_last() =~= keys);
        assert(d.has_publication_key(actor.workspace_id@, actor.id@, request_key@)) by {
            assert(d.publication_keys@[n].key@ == request_key@);
        }
        let l = d.publication_key_index(actor.workspace_id@, actor.id@, request_key@);
        assert(l == n) by {
            if l != n {
                assert(d.publication_keys@[l] == keys[l]);
            }
        }
    }
    Ok(receipt)
}

/// What reading back publication `reference` gives its owner `actor`: its
/// frozen configuration, while that still has the digest of its receipt.
pub open spec fn published_text(d: Data, actor: Actor, reference: VersionRef) -> Option<Seq<char>> {
    if d.has_publication(actor.workspace_id@, reference) && d.publication(actor.workspace_id@, reference).actor_id@ == actor.id@
        && text_digest(d.publication(actor.workspace_id@, reference).frozen@) == d.publication(actor.workspace_id@, reference).receipt.digest@ {
        Some(d.publication(actor.workspace_id@, reference).frozen@)
    } else {
        None
    }
}

/// A configuration reads back, for its owner, as the frozen text it was
/// recorded with, when its receipt holds that text's digest; anyone else
/// reads nothing.
pub proof fn publications_read_back(d: Data, actor: Actor, other: Actor, reference: VersionRef, frozen: Seq<char>)
    requires
        d.has_publication(actor.workspace_id@, reference),
        d.publication(actor.workspace_id@, reference).actor_id@ == actor.id@,
        d.publication(actor.workspace_id@, reference).frozen@ == frozen,
        d.publication(actor.workspace_id@, reference).receipt.digest@ == text_digest(frozen),
    ensures
        published_text(d, actor, reference) == Some(frozen),
        other.workspace_id@ == actor.workspace_id@ && other.id@ != actor.id@ ==> published_text(d, other, reference) is None,
{
}

/// The frozen configuration of a publication of `actor`, if its content
/// still has the digest of its receipt.
pub fn published_configuration(d: &Data, actor: &Actor, reference: &VersionRef) -> (r: Result<String>)
    requires
        d.wf(),
    ensures
        r is Ok <==> published_text(*d, *actor, *reference) is Some,
        r matches Ok(f) ==> published_text(*d, *actor, *reference) == Some(f@),
        !(d.has_publication(actor.workspace_id@, *reference) && d.publication(actor.workspace_id@, *reference).actor_id@ == actor.id@)
            ==> r == Err::<String, Error>(Error::NotFound),
        d.has_publication(actor.workspace_id@, *reference) && d.publication(actor.workspace_id@, *reference).actor_id@ == actor.id@ ==> {
            let p = d.publication(actor.workspace_id@, *reference);
            &&& r is Ok <==> text_digest(p.frozen@) == p.receipt.digest@
            &&& r matches Ok(f) ==> f == p.frozen
            &&& r is Err ==> (r matches Err(Error::Conflict(_)))
        },
{
    let i = match d.find_publication(&actor.workspace_id, reference) {
        None => return Err(Error::NotFound),
        Some(i) => i,
    };
    let p = &d.publications[i];
    if p.actor_id != actor.id {
        return Err(Error::NotFound);
    }
    if digest_text(&p.frozen) != p.receipt.digest {
        return Err(conflict("publication integrity mismatch"));
    }
    Ok(p.frozen.clone())
}

/// The publication pinned by a run's root, for a run or any of its
/// delegated descendants: every run on the way must belong to `actor`, and
/// so must the publication.
pub fn published_root(d: &Data, actor: &Actor, id: u128) -> (r: Result<VersionRef>)
    requires
        d.wf(),
    ensures
        !d.owns(*actor, id) ==> r == Err::<VersionRef, Error>(Error::NotFound),
        r matches Ok(v) ==> exists|chain: Seq<u128>| crate::scheduling::ancestry(*d, *actor, id, chain)
            && d.has_publication(actor.workspace_id@, d.run(chain.last()).agent_ref)
            && d.publication(actor.workspace_id@, d.run(chain.last()).agent_ref).actor_id@ == actor.id@
            && v == d.publication(actor.workspace_id@, d.run(chain.last()).agent_ref).receipt.agent_ref,
        forall|chain: Seq<u128>| crate::scheduling::ancestry(*d, *actor, id, chain) && chain.no_duplicates() ==>
            (r is Ok <==> (d.has_publication(actor.workspace_id@, d.run(chain.last()).agent_ref)
                && d.publication(actor.workspace_id@, d.run(chain.last()).agent_ref).actor_id@ == actor.id@)),
        r is Err ==> r == Err::<VersionRef, Error>(Error::NotFound) || (r matches Err(Error::Conflict(_))),
{
    let root = crate::scheduling::root_run(d, actor, id)?;
    let ri = d.owned_run(actor, root)?;
    proof {
        let chain = choose|chain: Seq<u128>| crate::scheduling::ancestry(*d, *actor, id, chain) && chain.last() == root;
        assert(crate::scheduling::ancestry(*d, *actor, id, chain) && chain.last() == root);
    }
    let i = match d.find_publication(&actor.workspace_id, &d.runs[ri].agent_ref) {
        None => return Err(Error::NotFound),
        Some(i) => i,
    };
    if d.publications[i].actor_id != actor.id {
        return Err(Error::NotFound);
    }
    let a = &d.publications[i].receipt.agent_ref;
    Ok(VersionRef { id: a.id.clone(), version: a.version })
}

/// A published worker's admission of a run: the run's root was scheduled
/// for the worker's target, and the publication it pins belongs to the
/// worker's owner. The result is that publication's revision.
pub fn validate_run(d: &Data, actor: &Actor, target: &crate::store::ScheduleTarget, id: u128) -> (r: Result<VersionRef>)
    requires
        d.wf(),
    ensures
        !d.owns(*actor, id) ==> r == Err::<VersionRef, Error>(Error::NotFound),
        forall|chain: Seq<u128>| crate::scheduling::ancestry(*d, *actor, id, chain) && chain.no_duplicates() ==>
            (r is Ok <==> (crate::scheduling::same_optional_target(d.schedule_of(chain.last()), Some(*target))
                && d.has_publication(actor.workspace_id@, d.run(chain.last()).agent_ref)
                && d.publication(actor.workspace_id@, d.run(chain.last()).agent_ref).actor_id@ == actor.id@)),
        r matches Ok(v) ==> exists|chain: Seq<u128>| crate::scheduling::ancestry(*d, *actor, id, chain)
            && v == d.publication(actor.workspace_id@, d.run(chain.last()).agent_ref).receipt.agent_ref,
{
    crate::scheduling::validate_schedule(d, actor, id, Some(target))?;
    published_root(d, actor, id)
}

} // verus!
