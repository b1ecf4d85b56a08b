//! Bounded context: thresholds for offloading large values into run-scoped
//! artifacts, and byte-exact paging of an artifact's text on UTF-8 boundaries.
use vstd::prelude::*;
use vstd::string::StringSliceAdditionalSpecFns;
use vstd::utf8::is_char_boundary;
use crate::error::{invalid, Error, Result};

verus! {

#[derive(Clone, Copy, Debug, PartialEq, Eq, Structural)]
pub struct ContextPolicy {
    pub offload_bytes: usize,
    pub recent_exchanges: usize,
    pub excerpt_bytes: usize,
    pub page_bytes: usize,
}

impl Default for ContextPolicy {
    fn default() -> (r: ContextPolicy)
        ensures
            r == (ContextPolicy { offload_bytes: 8192, recent_exchanges: 2, excerpt_bytes: 1024, page_bytes: 1024 }),
    {
        ContextPolicy { offload_bytes: 8192, recent_exchanges: 2, excerpt_bytes: 1024, page_bytes: 1024 }
    }
}

impl ContextPolicy {
    pub open spec fn valid(self) -> bool {
        &&& 4096 <= self.offload_bytes <= 1048576
        &&& 1 <= self.recent_exchanges <= 32
        &&& 128 <= self.excerpt_bytes <= 4096
        &&& self.excerpt_bytes <= self.offload_bytes / 4
        &&& 1 <= self.page_bytes
        &&& self.page_bytes <= self.offload_bytes / 8
        &&& self.page_bytes <= 4096
    }

    pub fn validate(&self) -> (r: Result<()>)
        ensures
            r is Ok <==> self.valid(),
            r is Err ==> r matches Err(Error::Invalid(_)),
    {
        if !(4096 <= self.offload_bytes && self.offload_bytes <= 1048576)
            || !(1 <= self.recent_exchanges && self.recent_exchanges <= 32)
            || !(128 <= self.excerpt_bytes && self.excerpt_bytes <= 4096)
            || self.excerpt_bytes > self.offload_bytes / 4
            || self.page_bytes == 0
            || self.page_bytes > self.offload_bytes / 8
            || self.page_bytes > 4096 {
            return Err(invalid("invalid context policy thresholds"));
        }
        Ok(())
    }
}

/// `end` is the last character boundary of `b` at or before `max` bytes.
pub open spec fn last_boundary(b: Seq<u8>, max: int, end: int) -> bool {
    let cap = if b.len() < max { b.len() as int } else { max };
    &&& 0 <= end <= cap
    &&& is_char_boundary(b, end)
    &&& forall|j: int| end < j <= cap ==> !is_char_boundary(b, j)
}

proof fn lemma_text_bytes(t: &str)
    ensures
        vstd::utf8::valid_utf8(t.spec_bytes()),
        is_char_boundary(t.spec_bytes(), 0),
{
    assert(t.spec_bytes() == vstd::utf8::encode_utf8(t@));
    vstd::utf8::encode_utf8_valid_utf8(t@);
}

/// The longest prefix of `text` of at most `max` bytes that ends on a
/// character boundary.
pub fn prefix(text: &str, max: usize) -> (r: &str)
    ensures
        exists|end: int| last_boundary(text.spec_bytes(), max as int, end)
            && r.spec_bytes() == text.spec_bytes().subrange(0, end),
{
    proof {
        lemma_text_bytes(text);
    }
    let n = text.as_bytes().len();
    let mut end = if n < max { n } else { max };
    let ghost cap = end as int;
    while !text.is_char_boundary(end)
        invariant
            0 <= end <= cap,
            cap == (if text.spec_bytes().len() < max { text.spec_bytes().len() as int } else { max as int }),
            is_char_boundary(text.spec_bytes(), 0),
            forall|j: int| end < j <= cap ==> !is_char_boundary(text.spec_bytes(), j),
        decreases end,
    {
        end = end - 1;
    }
    let (head, _) = text.split_at(end);
    proof {
        assert(last_boundary(text.spec_bytes(), max as int, end as int));
    }
    head
}

/// The page of bytes `b` from `offset` ends at `end`: it holds at most `limit`
/// bytes, and it stops short of `limit` bytes (and of the text's end) only
/// where the next byte continues a character.
pub open spec fn page_shape(b: Seq<u8>, offset: int, limit: int, end: int) -> bool {
    &&& offset <= end <= b.len()
    &&& end - offset <= limit
    &&& forall|j: int| end < j <= offset + limit && j <= b.len() ==> j < b.len() && vstd::utf8::is_continuation_byte(#[trigger] b[j])
}

proof fn lemma_page_stops(b: Seq<u8>, rb: Seq<u8>, offset: int, limit: int, e: int)
    requires
        0 <= offset <= b.len(),
        vstd::utf8::valid_utf8(rb),
        rb == b.subrange(offset, b.len() as int),
        last_boundary(rb, limit, e),
    ensures
        page_shape(b, offset, limit, offset + e),
{
    vstd::utf8::is_char_boundary_start_end_of_seq(rb);
    assert forall|j: int| offset + e < j <= offset + limit && j <= b.len() implies j < b.len()
        && vstd::utf8::is_continuation_byte(#[trigger] b[j]) by {
        let jr = j - offset;
        assert(!is_char_boundary(rb, jr));
        assert(jr != rb.len());
        vstd::utf8::is_char_boundary_iff_not_is_continuation_byte(rb, jr);
        assert(rb[jr] == b[j]);
    }
}

/// A page is as long as the limit and the text allow: over text with no
/// continuation byte (such as ASCII), it holds exactly `limit` bytes, or the
/// rest of the text when that is shorter.
pub proof fn pages_fill_their_limit(b: Seq<u8>, offset: int, limit: int, end: int)
    requires
        page_shape(b, offset, limit, end),
        forall|i: int| offset <= i < b.len() ==> !vstd::utf8::is_continuation_byte(#[trigger] b[i]),
    ensures
        end == (if offset + limit < b.len() { offset + limit } else { b.len() as int }),
{
    let want = if offset + limit < b.len() { offset + limit } else { b.len() as int };
    if end < want {
        assert(end < end + 1 <= offset + limit && end + 1 <= b.len());
        assert(vstd::utf8::is_continuation_byte(b[end + 1]));
        assert(!vstd::utf8::is_continuation_byte(b[end + 1]));
    }
}

/// One page of an artifact's JSON text: the bytes from `offset` that fit in
/// `limit` (1 to 4096) on a character boundary, and where the next page
/// starts, if the text goes on.
pub fn artifact_page(source: &str, offset: usize, limit: usize) -> (r: Result<(&str, Option<usize>)>)
    ensures
        !(1 <= limit <= 4096) ==> r matches Err(Error::Invalid(_)),
        (1 <= limit <= 4096 && !(offset <= source.spec_bytes().len() && is_char_boundary(source.spec_bytes(), offset as int)))
            ==> r matches Err(Error::Invalid(_)),
        r is Err ==> r matches Err(Error::Invalid(_)),
        4 <= limit <= 4096 && offset <= source.spec_bytes().len() && is_char_boundary(source.spec_bytes(), offset as int)
            ==> r is Ok,
        r matches Ok((page, next)) ==> {
            let b = source.spec_bytes();
            let end = offset + page.spec_bytes().len();
            &&& 1 <= limit <= 4096
            &&& offset <= b.len() && is_char_boundary(b, offset as int)
            &&& page.spec_bytes() == b.subrange(offset as int, end)
            &&& page.spec_bytes().len() <= limit
            &&& end <= b.len()
            &&& offset < b.len() ==> end > offset
            &&& next == (if end < b.len() { Some(end as usize) } else { None::<usize> })
            &&& page_shape(b, offset as int, limit as int, end)
        },
{
    if limit == 0 || limit > 4096 {
        return Err(invalid("artifact page must be 1..4096 bytes"));
    }
    proof {
        lemma_text_bytes(source);
    }
    let n = source.as_bytes().len();
    if offset > n || !source.is_char_boundary(offset) {
        return Err(invalid("invalid artifact byte offset"));
    }
    let (_, rest) = source.split_at(offset);
    let page = prefix(rest, limit);
    let m = page.as_bytes().len();
    proof {
        let b = source.spec_bytes();
        assert(rest.spec_bytes() =~= b.subrange(offset as int, b.len() as int));
    }
    if m == 0 && offset < n {
        proof {
            let rb = rest.spec_bytes();
            lemma_text_bytes(rest);
            if limit >= 4 {
                assert(rb.len() > 0);
                reveal_with_fuel(vstd::utf8::valid_utf8, 2);
                let l = vstd::utf8::length_of_first_scalar(rb);
                assert(1 <= l <= 4);
                assert(l <= rb.len());
                assert(vstd::utf8::pop_first_scalar(rb).len() == rb.len() - l);
                assert(is_char_boundary(rb, l)) by {
                    reveal_with_fuel(is_char_boundary, 2);
                }
                assert(page.spec_bytes().len() == 0);
                let end0 = choose|end: int| last_boundary(rb, limit as int, end) && page.spec_bytes() == rb.subrange(0, end);
                assert(end0 == 0);
                assert(!is_char_boundary(rb, l));
            }
        }
        return Err(invalid("page limit cannot fit next UTF-8 character"));
    }
    let end = offset + m;
    proof {
        let b = source.spec_bytes();
        let rb = rest.spec_bytes();
        assert(rest.spec_bytes() =~= b.subrange(offset as int, b.len() as int));
        assert(page.spec_bytes() =~= b.subrange(offset as int, end as int));
        lemma_text_bytes(rest);
        let end0 = choose|e: int| last_boundary(rb, limit as int, e) && page.spec_bytes() == rb.subrange(0, e);
        assert(end0 == m as int);
        lemma_page_stops(b, rb, offset as int, limit as int, end0);
    }
    let next = if end < n { Some(end) } else { None };
    Ok((page, next))
}

} // verus!

verus! {

/// An immutable source that was offloaded from a run's context, by the
/// digest that names it. `content` is its JSON text.
pub struct ContextArtifact {
    pub id: String,
    pub workspace_id: String,
    pub run_id: u128,
    pub content: String,
}

pub open spec fn artifact_ids_unique(p: Seq<ContextArtifact>) -> bool {
    forall|i: int, j: int| 0 <= i < p.len() && 0 <= j < p.len() && i != j ==> p[i].id@ != p[j].id@
}

impl crate::store::Data {
    pub open spec fn has_artifact(&self, id: Seq<char>) -> bool {
        exists|i: int| 0 <= i < self.context_artifacts@.len() && self.context_artifacts@[i].id@ == id
    }

    pub open spec fn artifact_index(&self, id: Seq<char>) -> int {
        choose|i: int| 0 <= i < self.context_artifacts@.len() && self.context_artifacts@[i].id@ == id
    }

    pub open spec fn artifact(&self, id: Seq<char>) -> ContextArtifact {
        self.context_artifacts@[self.artifact_index(id)]
    }

    fn find_artifact(&self, id: &str) -> (r: Option<usize>)
        requires
            self.wf(),
        ensures
            r is Some <==> self.has_artifact(id@),
            r matches Some(i) ==> i == self.artifact_index(id@) && i < self.context_artifacts@.len(),
    {
        let mut i: usize = 0;
        while i < self.context_artifacts.len()
            invariant
                self.wf(),
                i <= self.context_artifacts@.len(),
                forall|k: int| 0 <= k < i ==> self.context_artifacts@[k].id@ != id@,
            decreases self.context_artifacts@.len() - i,
        {
            if crate::text::str_equal(self.context_artifacts[i].id.as_str(), id) {
                assert(self.has_artifact(id@));
                let ghost j = self.artifact_index(id@);
                assert(self.context_artifacts@[j].id@ == id@);
                assert(j == i);
                return Some(i);
            }
            i = i + 1;
        }
        None
    }
}

/// The artifacts agree with what is stored under their identities.
pub open spec fn artifact_agrees(d: crate::store::Data, a: ContextArtifact) -> bool {
    d.has_artifact(a.id@) ==> {
        let e = d.artifact(a.id@);
        e.workspace_id@ == a.workspace_id@ && e.run_id == a.run_id && e.content@ == a.content@
    }
}

/// Commit the artifacts that a transition offloaded, together with it. An
/// artifact already stored under its identity must be the same; new ones are
/// added once.
pub fn commit_artifacts(d: &mut crate::store::Data, artifacts: Vec<ContextArtifact>) -> (r: Result<()>)
    requires
        old(d).wf(),
    ensures
        final(d).wf(),
        r is Err ==> *final(d) == *old(d),
        r is Ok <==> forall|k: int| 0 <= k < artifacts@.len() ==> artifact_agrees(*old(d), #[trigger] artifacts@[k])
            && forall|j: int| 0 <= j < k && artifacts@[j].id@ == artifacts@[k].id@ ==>
                artifacts@[j].workspace_id@ == artifacts@[k].workspace_id@ && artifacts@[j].run_id == artifacts@[k].run_id
                && artifacts@[j].content@ == artifacts@[k].content@,
        r is Err ==> (r matches Err(Error::Conflict(_))),
        r is Ok ==> {
            &&& final(d).context_artifacts@.subrange(0, old(d).context_artifacts@.len() as int) == old(d).context_artifacts@
            &&& forall|k: int| 0 <= k < artifacts@.len() ==> final(d).has_artifact((#[trigger] artifacts@[k]).id@)
                && final(d).artifact(artifacts@[k].id@).content@ == artifacts@[k].content@
                && final(d).artifact(artifacts@[k].id@).run_id == artifacts@[k].run_id
                && final(d).artifact(artifacts@[k].id@).workspace_id@ == artifacts@[k].workspace_id@
            &&& final(d).runs == old(d).runs && final(d).operations == old(d).operations && final(d).logs == old(d).logs
        },
{
    let mut k: usize = 0;
    while k < artifacts.len()
        invariant
            d.wf(),
            *d == *old(d),
            k <= artifacts@.len(),
            forall|q: int| 0 <= q < k ==> artifact_agrees(*d, #[trigger] artifacts@[q])
                && forall|j: int| 0 <= j < q && artifacts@[j].id@ == artifacts@[q].id@ ==>
                    artifacts@[j].workspace_id@ == artifacts@[q].workspace_id@ && artifacts@[j].run_id == artifacts@[q].run_id
                    && artifacts@[j].content@ == artifacts@[q].content@,
        decreases artifacts@.len() - k,
    {
        let a = &artifacts[k];
        match d.find_artifact(a.id.as_str()) {
            Some(i) => {
                let e = &d.context_artifacts[i];
                if e.workspace_id != a.workspace_id || e.run_id != a.run_id || e.content != a.content {
                    return Err(crate::error::conflict("context artifact collision"));
                }
            },
            None => {},
        }
        let mut j: usize = 0;
        while j < k
            invariant
                d.wf(),
                *d == *old(d),
                *a == artifacts@[k as int],
                j <= k,
                k < artifacts@.len(),
                forall|q: int| 0 <= q < j && artifacts@[q].id@ == artifacts@[k as int].id@ ==>
                    artifacts@[q].workspace_id@ == artifacts@[k as int].workspace_id@ && artifacts@[q].run_id == artifacts@[k as int].run_id
                    && artifacts@[q].content@ == artifacts@[k as int].content@,
            decreases k - j,
        {
            let b = &artifacts[j];
            if b.id == a.id && (b.workspace_id != a.workspace_id || b.run_id != a.run_id || b.content != a.content) {
                return Err(crate::error::conflict("context artifact collision"));
            }
            j = j + 1;
        }
        k = k + 1;
    }
    let ghost start = *d;
    let mut rest = artifacts;
    let ghost all = rest@;
    let total = rest.len();
    let mut taken: usize = 0;
    while rest.len() > 0
        invariant
            d.wf(),
            start.wf(),
            total == all.len(),
            taken + rest@.len() == all.len(),
            rest@ == all.subrange(taken as int, all.len() as int),
            d.runs == start.runs && d.operations == start.operations && d.logs == start.logs,
            d.agents == start.agents && d.tools == start.tools && d.policies == start.policies,
            d.submissions == start.submissions && d.inputs == start.inputs && d.model_budgets == start.model_budgets,
            d.schedule_requests == start.schedule_requests && d.team_tasks == start.team_tasks,
            d.memories == start.memories && d.memory_bindings == start.memory_bindings && d.api_tokens == start.api_tokens,
            d.customer_registry == start.customer_registry && d.model_bindings == start.model_bindings,
            d.publications == start.publications && d.publication_keys == start.publication_keys,
            d.coordination_policies == start.coordination_policies,
            d.context_artifacts@.subrange(0, start.context_artifacts@.len() as int) == start.context_artifacts@,
            d.context_artifacts@.len() >= start.context_artifacts@.len(),
            forall|q: int| 0 <= q < all.len() ==> artifact_agrees(start, #[trigger] all[q])
                && forall|j: int| 0 <= j < q && all[j].id@ == all[q].id@ ==>
                    all[j].workspace_id@ == all[q].workspace_id@ && all[j].run_id == all[q].run_id
                    && all[j].content@ == all[q].content@,
            forall|q: int| 0 <= q < all.len() ==> artifact_agrees(*d, #[trigger] all[q]),
            forall|q: int| 0 <= q < taken ==> d.has_artifact((#[trigger] all[q]).id@),
        decreases rest@.len(),
    {
        let a = rest.remove(0);
        proof {
            assert(a == all[taken as int]);
        }
        let ghost before = *d;
        if d.find_artifact(a.id.as_str()).is_none() {
            d.context_artifacts.push(a);
            proof {
                let n = before.context_artifacts@.len() as int;
                assert(d.context_artifacts@[n].id@ == all[taken as int].id@);
                assert forall|i: int, j: int| 0 <= i < d.context_artifacts@.len() && 0 <= j < d.context_artifacts@.len() && i != j
                    implies d.context_artifacts@[i].id@ != d.context_artifacts@[j].id@ by {
                    if i < n && j < n {
                        assert(d.context_artifacts@[i] == before.context_artifacts@[i]);
                        assert(d.context_artifacts@[j] == before.context_artifacts@[j]);
                    } else if i < n {
                        assert(d.context_artifacts@[i] == before.context_artifacts@[i]);
                    } else if j < n {
                        assert(d.context_artifacts@[j] == before.context_artifacts@[j]);
                    }
                }
                assert(d.context_artifacts@.subrange(0, start.context_artifacts@.len() as int) =~= start.context_artifacts@) by {
                    assert(before.context_artifacts@.subrange(0, start.context_artifacts@.len() as int) == start.context_artifacts@);
                }
                assert forall|x: Seq<char>| before.has_artifact(x) implies d.has_artifact(x) && d.artifact(x) == before.artifact(x) by {
                    let i = before.artifact_index(x);
                    assert(d.context_artifacts@[i] == before.context_artifacts@[i]);
                    let j = d.artifact_index(x);
                    assert(d.context_artifacts@[j].id@ == x);
                    assert(i == j);
                }
                assert(d.has_artifact(all[taken as int].id@));
                assert(d.artifact_index(all[taken as int].id@) == n) by {
                    let j = d.artifact_index(all[taken as int].id@);
                    if j != n {
                        assert(d.context_artifacts@[j] == before.context_artifacts@[j]);
                    }
                }
                assert forall|q: int| 0 <= q < all.len() implies artifact_agrees(*d, #[trigger] all[q]) by {
                    if all[q].id@ == all[taken as int].id@ {
                        if before.has_artifact(all[q].id@) {
                            assert(artifact_agrees(before, all[q]));
                            assert(false);
                        }
                        if q < taken {
                            assert(before.has_artifact(all[q].id@));
                        } else if q > taken {
                            assert(artifact_agrees(start, all[q]));
                        }
                    } else {
                        assert(artifact_agrees(before, all[q]));
                        if d.has_artifact(all[q].id@) && !before.has_artifact(all[q].id@) {
                            let j = d.artifact_index(all[q].id@);
                            if j != n {
                                assert(d.context_artifacts@[j] == before.context_artifacts@[j]);
                            }
                        }
                    }
                }
            }
        }
        taken = taken + 1;
    }
    proof {
        assert(taken == all.len());
    }
    Ok(())
}

/// A page of an artifact's text, with where the next page starts.
pub struct ArtifactPage {
    pub artifact_id: String,
    pub offset: usize,
    pub next_offset: Option<usize>,
    pub total_bytes: usize,
    pub text: String,
}

/// Read a page of an artifact of run `run`. Access requires the same actor,
/// workspace and run as the original source.
pub fn read_context_artifact(d: &crate::store::Data, actor: &crate::models::Actor, run: u128, id: &str, offset: usize, limit: usize)
    -> (r: Result<ArtifactPage>)
    requires
        d.wf(),
    ensures
        !(1 <= limit <= 4096) ==> (r matches Err(Error::Invalid(_))),
        1 <= limit <= 4096 && !d.owns(*actor, run) ==> r == Err::<ArtifactPage, Error>(Error::NotFound),
        1 <= limit <= 4096 && d.owns(*actor, run) && !(d.has_artifact(id@) && d.artifact(id@).workspace_id@ == actor.workspace_id@
            && d.artifact(id@).run_id == run) ==> r == Err::<ArtifactPage, Error>(Error::NotFound),
        ({
            let b = vstd::utf8::encode_utf8(d.artifact(id@).content@);
            let found = d.owns(*actor, run) && d.has_artifact(id@) && d.artifact(id@).workspace_id@ == actor.workspace_id@
                && d.artifact(id@).run_id == run;
            &&& 1 <= limit <= 4096 && found && !(offset <= b.len() && is_char_boundary(b, offset as int))
                ==> (r matches Err(Error::Invalid(_)))
            &&& 4 <= limit <= 4096 && found && offset <= b.len() && is_char_boundary(b, offset as int) ==> r is Ok
        }),
        r matches Ok(p) ==> {
            let b = vstd::utf8::encode_utf8(d.artifact(id@).content@);
            let end = offset + p.text@.len();
            &&& d.owns(*actor, run) && d.has_artifact(id@) && d.artifact(id@).run_id == run
            &&& d.artifact(id@).workspace_id@ == actor.workspace_id@
            &&& p.artifact_id@ == id@ && p.offset == offset && p.total_bytes == b.len()
            &&& vstd::utf8::encode_utf8(p.text@) == b.subrange(offset as int, offset + vstd::utf8::encode_utf8(p.text@).len())
            &&& vstd::utf8::encode_utf8(p.text@).len() <= limit
            &&& p.next_offset == (if offset + vstd::utf8::encode_utf8(p.text@).len() < b.len() {
                Some((offset + vstd::utf8::encode_utf8(p.text@).len()) as usize) } else { None::<usize> })
            &&& page_shape(b, offset as int, limit as int, offset + vstd::utf8::encode_utf8(p.text@).len())
        },
{
    if limit == 0 || limit > 4096 {
        return Err(invalid("artifact page must be 1..4096 bytes"));
    }
    d.owned_run(actor, run)?;
    let i = match d.find_artifact(id) {
        None => return Err(Error::NotFound),
        Some(i) => i,
    };
    let a = &d.context_artifacts[i];
    if a.workspace_id != actor.workspace_id || a.run_id != run {
        return Err(Error::NotFound);
    }
    let source = a.content.as_str();
    proof {
        assert(source.spec_bytes() == vstd::utf8::encode_utf8(source@));
    }
    let (page, next) = artifact_page(source, offset, limit)?;
    proof {
        assert(page.spec_bytes() == vstd::utf8::encode_utf8(page@));
        assert(source.spec_bytes() == vstd::utf8::encode_utf8(source@));
    }
    Ok(ArtifactPage {
        artifact_id: crate::error::text(id),
        offset,
        next_offset: next,
        total_bytes: source.as_bytes().len(),
        text: page.to_owned(),
    })
}

} // verus!

verus! {

/// The context policy pinned to an agent version (none: context management off).
pub struct ContextBinding {
    pub workspace: String,
    pub agent: crate::models::VersionRef,
    pub policy: Option<ContextPolicy>,
}

pub open spec fn context_keys_unique(p: Seq<ContextBinding>) -> bool {
    forall|i: int, j: int| 0 <= i < p.len() && 0 <= j < p.len() && i != j
        ==> !(p[i].workspace@ == p[j].workspace@ && p[i].agent.same(p[j].agent))
}

pub open spec fn policy_json(p: ContextPolicy) -> Seq<char> {
    "{\"offload_bytes\":"@ + crate::primitives::decimal(p.offload_bytes as nat)
        + ",\"recent_exchanges\":"@ + crate::primitives::decimal(p.recent_exchanges as nat)
        + ",\"excerpt_bytes\":"@ + crate::primitives::decimal(p.excerpt_bytes as nat)
        + ",\"page_bytes\":"@ + crate::primitives::decimal(p.page_bytes as nat) + "}"@
}

/// The registered executor key of the archive reader for a workspace and
/// policy: "hudson.context." and the digest of the JSON `[workspace, policy]`.
pub open spec fn reader_key(workspace: Seq<char>, p: ContextPolicy) -> Seq<char> {
    "hudson.context."@ + crate::json::text_digest("["@ + crate::primitives::json_string(workspace) + ","@ + policy_json(p) + "]"@)
}

fn compute_reader_key(workspace: &str, p: &ContextPolicy) -> (r: String)
    ensures
        r@ == reader_key(workspace@, *p),
{
    let mut out = crate::error::text("[");
    crate::json::put_quoted(&mut out, workspace);
    crate::json::put(&mut out, ",");
    crate::json::put(&mut out, "{\"offload_bytes\":");
    crate::json::put_decimal(&mut out, p.offload_bytes as u64);
    crate::json::put(&mut out, ",\"recent_exchanges\":");
    crate::json::put_decimal(&mut out, p.recent_exchanges as u64);
    crate::json::put(&mut out, ",\"excerpt_bytes\":");
    crate::json::put_decimal(&mut out, p.excerpt_bytes as u64);
    crate::json::put(&mut out, ",\"page_bytes\":");
    crate::json::put_decimal(&mut out, p.page_bytes as u64);
    crate::json::put(&mut out, "}");
    crate::json::put(&mut out, "]");
    proof {
        assert(out@ =~= "["@ + crate::primitives::json_string(workspace@) + ","@ + policy_json(*p) + "]"@);
    }
    let digest = crate::json::digest_text(&out);
    let mut key = crate::error::text("hudson.context.");
    crate::json::put(&mut key, digest.as_str());
    key
}

/// The agent version can read its archive: a tool bound as
/// "read_context_artifact" runs the registered reader `key`.
pub open spec fn has_reader(d: crate::store::Data, workspace: Seq<char>, agent: crate::models::Agent, key: Seq<char>) -> bool {
    exists|k: int| 0 <= k < agent.tools@.len() && runs_reader(d, workspace, #[trigger] agent.tools@[k], key)
}

/// A tool binding named "read_context_artifact" whose tool runs registered executor `key`.
pub open spec fn runs_reader(d: crate::store::Data, workspace: Seq<char>, b: crate::models::AgentTool, key: Seq<char>) -> bool {
    &&& b.alias@ == "read_context_artifact"@
    &&& d.has_tool(workspace, b.tool_ref)
    &&& match d.tool(workspace, b.tool_ref).execution {
        crate::models::Execution::Registered { key: k2 } => k2@ == key,
        _ => false,
    }
}

impl crate::store::Data {
    pub open spec fn has_context_binding(&self, workspace: Seq<char>, agent: crate::models::VersionRef) -> bool {
        exists|i: int| 0 <= i < self.context_policies@.len() && self.context_policies@[i].workspace@ == workspace
            && self.context_policies@[i].agent.same(agent)
    }

    pub open spec fn context_binding_index(&self, workspace: Seq<char>, agent: crate::models::VersionRef) -> int {
        choose|i: int| 0 <= i < self.context_policies@.len() && self.context_policies@[i].workspace@ == workspace
            && self.context_policies@[i].agent.same(agent)
    }

    /// The context policy bound to an agent version.
    pub open spec fn context_binding(&self, workspace: Seq<char>, agent: crate::models::VersionRef) -> Option<ContextPolicy> {
        self.context_policies@[self.context_binding_index(workspace, agent)].policy
    }

    fn find_context_binding(&self, workspace: &str, agent: &crate::models::VersionRef) -> (r: Option<usize>)
        requires
            self.wf(),
        ensures
            r is Some <==> self.has_context_binding(workspace@, *agent),
            r matches Some(i) ==> i == self.context_binding_index(workspace@, *agent) && i < self.context_policies@.len(),
    {
        let mut i: usize = 0;
        while i < self.context_policies.len()
            invariant
                self.wf(),
                i <= self.context_policies@.len(),
                forall|k: int| 0 <= k < i ==> !(self.context_policies@[k].workspace@ == workspace@
                    && self.context_policies@[k].agent.same(*agent)),
            decreases self.context_policies@.len() - i,
        {
            let b = &self.context_policies[i];
            if crate::text::str_equal(b.workspace.as_str(), workspace) && b.agent.equals(agent) {
                assert(self.has_context_binding(workspace@, *agent));
                let ghost j = self.context_binding_index(workspace@, *agent);
                proof {
                    assert(context_keys_unique(self.context_policies@));
                    if j != i as int {
                        assert(!(self.context_policies@[j].workspace@ == self.context_policies@[i as int].workspace@
                            && self.context_policies@[j].agent.same(self.context_policies@[i as int].agent)));
                    }
                }
                return Some(i);
            }
            i = i + 1;
        }
        None
    }
}

fn reader_bound(d: &crate::store::Data, workspace: &String, agent: &crate::models::Agent, key: &String) -> (r: bool)
    requires
        d.wf(),
    ensures
        r == has_reader(*d, workspace@, *agent, key@),
{
    let mut k: usize = 0;
    while k < agent.tools.len()
        invariant
            d.wf(),
            k <= agent.tools@.len(),
            forall|q: int| 0 <= q < k ==> !runs_reader(*d, workspace@, #[trigger] agent.tools@[q], key@),
        decreases agent.tools@.len() - k,
    {
        let b = &agent.tools[k];
        if crate::text::str_equal(b.alias.as_str(), "read_context_artifact") {
            match d.find_tool(workspace, &b.tool_ref) {
                Some(ti) => match &d.tools[ti].execution {
                    crate::models::Execution::Registered { key: k2 } => {
                        if *k2 == *key {
                            return true;
                        }
                    },
                    _ => {},
                },
                None => {},
            }
        }
        k = k + 1;
    }
    false
}

fn policy_equals(a: &Option<ContextPolicy>, b: &Option<ContextPolicy>) -> (r: bool)
    ensures
        r == (*a == *b),
{
    match (a, b) {
        (None, None) => true,
        (Some(x), Some(y)) => *x == *y,
        _ => false,
    }
}

/// Pin enabled (`Some`) or disabled context management to an agent version,
/// like other immutable agent configuration. Enabling requires the agent to
/// bind its archive reader; a bound choice is immutable; context cannot be
/// enabled once the version has runs.
#[verifier::rlimit(40)]
pub fn bind_context_policy(d: &mut crate::store::Data, workspace: &str, agent: &crate::models::VersionRef, policy: Option<ContextPolicy>)
    -> (r: Result<()>)
    requires
        old(d).wf(),
    ensures
        final(d).wf(),
        crate::store::definitions_extended(*old(d), *final(d)),
        final(d).policies == old(d).policies,
        final(d).agents == old(d).agents,
        final(d).tools == old(d).tools,
        r is Err ==> *final(d) == *old(d),
        (policy matches Some(p) && !p.valid()) ==> (r matches Err(Error::Invalid(_))),
        (policy matches Some(p) ==> p.valid()) && !old(d).has_agent(workspace@, *agent) ==> r == Err::<(), Error>(Error::NotFound),
        (policy matches Some(p) ==> p.valid()) && old(d).has_agent(workspace@, *agent) ==> {
            let a = old(d).agent(workspace@, *agent);
            &&& (policy matches Some(p) && !has_reader(*old(d), workspace@, a, reader_key(workspace@, p))) ==> (r matches Err(Error::Invalid(_)))
            &&& (policy matches Some(p) ==> has_reader(*old(d), workspace@, a, reader_key(workspace@, p))) ==> {
                &&& old(d).has_context_binding(workspace@, *agent) ==> (r is Ok <==> old(d).context_binding(workspace@, *agent) == policy)
                    && (r is Err ==> (r matches Err(Error::Conflict(_)))) && *final(d) == *old(d)
                &&& !old(d).has_context_binding(workspace@, *agent) ==> {
                    &&& (policy is Some && old(d).has_runs_of(workspace@, *agent)) ==> (r matches Err(Error::Conflict(_)))
                    &&& !(policy is Some && old(d).has_runs_of(workspace@, *agent)) ==> r is Ok
                        && final(d).has_context_binding(workspace@, *agent) && final(d).context_binding(workspace@, *agent) == policy
                        && final(d).runs == old(d).runs && final(d).agents == old(d).agents && final(d).tools == old(d).tools
                }
            }
        },
{
    let key = match &policy {
        Some(p) => {
            p.validate()?;
            Some(compute_reader_key(workspace, p))
        },
        None => None,
    };
    let ws = crate::error::text(workspace);
    let ai = match d.find_agent(&ws, agent) {
        None => return Err(Error::NotFound),
        Some(ai) => ai,
    };
    match &key {
        Some(k) => {
            if !reader_bound(d, &ws, &d.agents[ai], k) {
                return Err(invalid("context management requires its registered archive reader"));
            }
        },
        None => {},
    }
    match d.find_context_binding(workspace, agent) {
        Some(i) => {
            if !policy_equals(&d.context_policies[i].policy, &policy) {
                return Err(crate::error::conflict("context policy changed; publish a new agent version"));
            }
            Ok(())
        },
        None => {
            if policy.is_some() && d.runs_of(workspace, agent) {
                return Err(crate::error::conflict("cannot enable context after runs have started; publish a new agent version"));
            }
            let ghost before = d.context_policies@;
            d.context_policies.push(ContextBinding { workspace: ws, agent: agent.copy(), policy });
            proof {
                let n = before.len() as int;
                assert(d.context_policies@.drop_last() =~= before);
                assert(d.has_context_binding(workspace@, *agent)) by {
                    assert(d.context_policies@[n].workspace@ == workspace@);
                }
                let j = d.context_binding_index(workspace@, *agent);
                assert(j == n) by {
                    if j != n {
                        assert(d.context_policies@[j] == before[j]);
                    }
                }
            }
            Ok(())
        },
    }
}


pub open spec fn reader_schema() -> Seq<char> {
    "{\"additionalProperties\":false,\"properties\":{\"artifact_id\":{\"type\":\"string\"},\"offset\":{\"minimum\":0,\"type\":\"integer\"}},\"required\":[\"artifact_id\"],\"type\":\"object\"}"@
}

pub open spec fn reader_description() -> Seq<char> {
    "Read original archived conversation or large tool output as JSON text pages. Start at offset 0; concatenate pages using next_offset, and follow previous_artifact links for older exchanges. Excerpts are partial; retrieve source before relying on omitted details."@
}

/// The context reader tool of an agent version with context policy `p`, as
/// it is published: bound as "read_context_artifact" to the reader of the
/// workspace and policy (see `reader_key`), under `policy_ref`. An invalid
/// policy is refused.
pub fn context_reader_tool(agent_name: &String, version: u32, workspace: &String, policy_ref: &str, p: &ContextPolicy)
    -> (r: Result<crate::models::Tool>)
    ensures
        r is Err <==> !p.valid(),
        r is Err ==> r matches Err(Error::Invalid(_)),
        r matches Ok(t) ==> {
            &&& t.id@ == agent_name@ + ":context:read_context_artifact"@
            &&& t.workspace_id@ == workspace@ && t.version == version && t.schema_version == crate::models::SCHEMA_VERSION
            &&& t.name@ == "read_context_artifact"@ && t.description@ == reader_description()
            &&& t.input_schema@ == reader_schema() && t.output_schema is None
            &&& t.execution matches crate::models::Execution::Registered { key: k } && k@ == reader_key(workspace@, *p)
            &&& t.credential_ref is None && t.policy_ref@ == policy_ref@
            &&& t.effect == crate::models::Effect::Read && t.created_at == 0
        },
{
    p.validate()?;
    let key = compute_reader_key(workspace.as_str(), p);
    let mut id = agent_name.clone();
    id.append(":context:read_context_artifact");
    Ok(crate::models::Tool {
        id,
        workspace_id: workspace.clone(),
        version,
        schema_version: crate::models::SCHEMA_VERSION,
        name: crate::error::text("read_context_artifact"),
        description: crate::error::text("Read original archived conversation or large tool output as JSON text pages. Start at offset 0; concatenate pages using next_offset, and follow previous_artifact links for older exchanges. Excerpts are partial; retrieve source before relying on omitted details."),
        input_schema: crate::error::text("{\"additionalProperties\":false,\"properties\":{\"artifact_id\":{\"type\":\"string\"},\"offset\":{\"minimum\":0,\"type\":\"integer\"}},\"required\":[\"artifact_id\"],\"type\":\"object\"}"),
        output_schema: None,
        execution: crate::models::Execution::Registered { key },
        credential_ref: None,
        policy_ref: crate::error::text(policy_ref),
        effect: crate::models::Effect::Read,
        created_at: 0,
    })
}

} // verus!
