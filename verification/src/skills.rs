//! Application-supplied skill instructions, frozen into a catalog whose
//! digest binds its content: updating a skill cannot silently change what an
//! already published agent can load.
use vstd::prelude::*;
use crate::error::{conflict, invalid, text, Error, Result};
use crate::json::{digest_text, put, put_quoted, text_digest};
use crate::primitives::json_string;
use crate::text::{blank, is_blank, utf8_len};

verus! {

pub struct Skill {
    pub name: String,
    pub description: String,
    pub instructions: String,
}

/// A file of a skill package, by its path relative to the package.
pub struct SkillResource {
    pub path: String,
    pub contents: String,
}

/// A portable skill package frozen at configuration time. Resources are data
/// only, in the order of their paths.
pub struct SkillPackage {
    pub skill: Skill,
    pub resources: Vec<SkillResource>,
}

/// A frozen catalog: its skills in name order, their packages' resources, and
/// the digest of both.
pub struct SkillCatalog {
    skills: Vec<Skill>,
    resources: Vec<(String, Vec<SkillResource>)>,
    digest: String,
}

pub open spec fn skill_name_char(c: char) -> bool {
    ('a' <= c <= 'z') || ('A' <= c <= 'Z') || ('0' <= c <= '9') || c == '-' || c == '_'
}

/// A catalog entry: a short ASCII identifier, a description of at most 1 KiB
/// and instructions of at most 32 KiB, neither blank.
pub open spec fn skill_valid(s: Skill) -> bool {
    &&& 1 <= s.name@.len() <= 64
    &&& forall|i: int| 0 <= i < s.name@.len() ==> skill_name_char(#[trigger] s.name@[i])
    &&& !blank(s.description@) && utf8_len(s.description@) <= 1024
    &&& !blank(s.instructions@) && utf8_len(s.instructions@) <= 32768
}

fn check_skill(s: &Skill) -> (r: bool)
    ensures
        r == skill_valid(*s),
{
    let mut ok = true;
    let mut n: usize = 0;
    for c in it: s.name.as_str().chars()
        invariant
            it.seq() == s.name@,
            n == (if it.index() < 65 { it.index() } else { 65 }),
            ok == (forall|k: int| 0 <= k < it.index() ==> skill_name_char(#[trigger] s.name@[k])),
    {
        if !(('a' <= c && c <= 'z') || ('A' <= c && c <= 'Z') || ('0' <= c && c <= '9') || c == '-' || c == '_') {
            ok = false;
        }
        if n < 65 {
            n = n + 1;
        }
    }
    ok && 1 <= n && n <= 64 && !is_blank(s.description.as_str()) && crate::text::byte_length(&s.description) <= 1024
        && !is_blank(s.instructions.as_str()) && crate::text::byte_length(&s.instructions) <= 32768
}

/// Lexicographic order of texts by character.
pub open spec fn text_lt(a: Seq<char>, b: Seq<char>) -> bool
    decreases a.len(),
{
    if b.len() == 0 {
        false
    } else if a.len() == 0 {
        true
    } else if a[0] != b[0] {
        (a[0] as int) < (b[0] as int)
    } else {
        text_lt(a.drop_first(), b.drop_first())
    }
}

proof fn lemma_text_lt_total(a: Seq<char>, b: Seq<char>)
    ensures
        a != b ==> (text_lt(a, b) || text_lt(b, a)),
        !(text_lt(a, b) && text_lt(b, a)),
        !text_lt(a, a),
    decreases a.len(),
{
    if a.len() > 0 && b.len() > 0 {
        lemma_text_lt_total(a.drop_first(), b.drop_first());
        if a[0] == b[0] && a != b {
            assert(a =~= seq![a[0]] + a.drop_first());
            assert(b =~= seq![b[0]] + b.drop_first());
        }
    }
    if a.len() > 0 {
        lemma_text_lt_total(a.drop_first(), a.drop_first());
    }
    if a.len() == 0 && b.len() == 0 {
        assert(a =~= b);
    }
}

proof fn lemma_text_lt_transitive(a: Seq<char>, b: Seq<char>, c: Seq<char>)
    requires
        text_lt(a, b),
        text_lt(b, c),
    ensures
        text_lt(a, c),
    decreases a.len(),
{
    if a.len() > 0 && b.len() > 0 && c.len() > 0 && a[0] == b[0] && b[0] == c[0] {
        lemma_text_lt_transitive(a.drop_first(), b.drop_first(), c.drop_first());
    }
}

pub fn text_less(a: &str, b: &str) -> (r: bool)
    ensures
        r == text_lt(a@, b@),
{
    let x = crate::credentials::chars_of(a);
    let y = crate::credentials::chars_of(b);
    let mut i: usize = 0;
    proof {
        assert(a@.subrange(0, a@.len() as int) =~= a@);
        assert(b@.subrange(0, b@.len() as int) =~= b@);
    }
    while i < x.len() && i < y.len()
        invariant
            x@ == a@,
            y@ == b@,
            i <= x@.len(),
            i <= y@.len(),
            x@.subrange(0, i as int) == y@.subrange(0, i as int),
            text_lt(a@, b@) == text_lt(a@.subrange(i as int, a@.len() as int), b@.subrange(i as int, b@.len() as int)),
        decreases x@.len() - i,
    {
        let ghost ra = a@.subrange(i as int, a@.len() as int);
        let ghost rb = b@.subrange(i as int, b@.len() as int);
        if x[i] != y[i] {
            proof {
                assert(ra[0] == x@[i as int]);
                assert(rb[0] == y@[i as int]);
            }
            return x[i] < y[i];
        }
        proof {
            assert(ra.drop_first() =~= a@.subrange(i as int + 1, a@.len() as int));
            assert(rb.drop_first() =~= b@.subrange(i as int + 1, b@.len() as int));
            assert(x@.subrange(0, i as int + 1) =~= x@.subrange(0, i as int).push(x@[i as int]));
            assert(y@.subrange(0, i as int + 1) =~= y@.subrange(0, i as int).push(y@[i as int]));
        }
        i = i + 1;
    }
    i < y.len()
}

/// Names are strictly increasing.
pub open spec fn sorted_by_name(v: Seq<Skill>) -> bool {
    forall|a: int, b: int| 0 <= a < b < v.len() ==> text_lt(v[a].name@, v[b].name@)
}

pub open spec fn has_name(v: Seq<Skill>, name: Seq<char>) -> bool {
    exists|k: int| 0 <= k < v.len() && (#[trigger] v[k]).name@ == name
}

/// Two names of the sequence coincide.
pub open spec fn names_repeat(v: Seq<Skill>) -> bool {
    exists|a: int, b: int| 0 <= a < b < v.len() && (#[trigger] v[a]).name@ == (#[trigger] v[b]).name@
}

/// The place of a new name in a sorted sequence: the number of smaller names.
pub open spec fn i_spec(v: Seq<Skill>, s: Skill) -> int {
    v.filter(|x: Skill| text_lt(x.name@, s.name@)).len() as int
}

proof fn lemma_position(v: Seq<Skill>, s: Skill, i: int)
    requires
        0 <= i <= v.len(),
        forall|k: int| 0 <= k < i ==> text_lt(v[k].name@, s.name@),
        forall|k: int| i <= k < v.len() ==> !text_lt(v[k].name@, s.name@),
    ensures
        i_spec(v, s) == i,
    decreases v.len(),
{
    reveal(Seq::filter);
    if v.len() > 0 {
        if i == v.len() {
            lemma_position(v.drop_last(), s, i - 1);
        } else {
            lemma_position(v.drop_last(), s, i);
        }
    }
}

proof fn lemma_after(before: Seq<Skill>, s: Skill, i: int, j: int)
    requires
        sorted_by_name(before),
        0 <= i <= j < before.len(),
        text_lt(s.name@, before[i].name@),
    ensures
        text_lt(s.name@, before[j].name@),
{
    if j > i {
        lemma_text_lt_transitive(s.name@, before[i].name@, before[j].name@);
    }
}

/// Insert a skill at its place by name; a present name is refused.
fn insert_sorted(v: &mut Vec<Skill>, s: Skill) -> (r: bool)
    requires
        sorted_by_name(old(v)@),
    ensures
        r == !has_name(old(v)@, s.name@),
        !r ==> final(v)@ == old(v)@,
        sorted_by_name(final(v)@),
        r ==> final(v)@.len() == old(v)@.len() + 1,
        r ==> final(v)@ == old(v)@.insert(i_spec(old(v)@, s), s),
{
    let mut i: usize = 0;
    while i < v.len()
        invariant
            v@ == old(v)@,
            sorted_by_name(v@),
            i <= v@.len(),
            forall|k: int| 0 <= k < i ==> text_lt(v@[k].name@, s.name@),
        ensures
            v@ == old(v)@,
            i <= v@.len(),
            forall|k: int| 0 <= k < i ==> text_lt(v@[k].name@, s.name@),
            i < v@.len() ==> !text_lt(v@[i as int].name@, s.name@),
        decreases v@.len() - i,
    {
        if !text_less(v[i].name.as_str(), s.name.as_str()) {
            break;
        }
        i = i + 1;
    }
    if i < v.len() && v[i].name == s.name {
        proof {
            assert(has_name(old(v)@, s.name@));
        }
        return false;
    }
    let ghost before = v@;
    proof {
        if i < before.len() {
            lemma_text_lt_total(before[i as int].name@, s.name@);
            assert(text_lt(s.name@, before[i as int].name@));
        }
        assert forall|k: int| 0 <= k < before.len() implies before[k].name@ != s.name@ by {
            if k < i {
                lemma_text_lt_total(before[k].name@, s.name@);
            } else {
                lemma_after(before, s, i as int, k);
                lemma_text_lt_total(before[k].name@, s.name@);
            }
        }
    }
    v.insert(i, s);
    proof {
        assert(v@ =~= before.subrange(0, i as int).push(s) + before.subrange(i as int, before.len() as int));
        assert forall|a: int, b: int| 0 <= a < b < v@.len() implies text_lt(v@[a].name@, v@[b].name@) by {
            if b < i {
                assert(v@[a] == before[a] && v@[b] == before[b]);
            } else if b == i {
                assert(v@[a] == before[a]);
            } else if a < i {
                assert(v@[a] == before[a] && v@[b] == before[b - 1]);
                lemma_after(before, s, i as int, b - 1);
                lemma_text_lt_transitive(before[a].name@, s.name@, before[b - 1].name@);
            } else if a == i {
                assert(v@[b] == before[b - 1]);
                lemma_after(before, s, i as int, b - 1);
            } else {
                assert(v@[a] == before[a - 1] && v@[b] == before[b - 1]);
            }
        }
        assert forall|k: int| i <= k < before.len() implies !text_lt(before[k].name@, s.name@) by {
            lemma_after(before, s, i as int, k);
            lemma_text_lt_total(before[k].name@, s.name@);
        }
        lemma_position(before, s, i as int);
        assert(v@ =~= before.insert(i as int, s));
    }
    true
}

pub open spec fn skill_json(s: Skill) -> Seq<char> {
    "{\"name\":"@ + json_string(s.name@) + ",\"description\":"@ + json_string(s.description@)
        + ",\"instructions\":"@ + json_string(s.instructions@) + "}"@
}

pub open spec fn entry_json(s: Skill) -> Seq<char> {
    json_string(s.name@) + ":"@ + skill_json(s)
}

/// The members of a JSON object, separated by commas.
pub open spec fn entries_json(v: Seq<Skill>) -> Seq<char>
    decreases v.len(),
{
    if v.len() == 0 {
        Seq::empty()
    } else if v.len() == 1 {
        entry_json(v[0])
    } else {
        entries_json(v.drop_last()) + ","@ + entry_json(v.last())
    }
}

/// The JSON object of a catalog's skills, keyed by name.
pub open spec fn skills_json(v: Seq<Skill>) -> Seq<char> {
    "{"@ + entries_json(v) + "}"@
}

fn write_entry(out: &mut String, s: &Skill)
    ensures
        final(out)@ == old(out)@ + entry_json(*s),
{
    put_quoted(out, s.name.as_str());
    put(out, ":");
    put(out, "{\"name\":");
    put_quoted(out, s.name.as_str());
    put(out, ",\"description\":");
    put_quoted(out, s.description.as_str());
    put(out, ",\"instructions\":");
    put_quoted(out, s.instructions.as_str());
    put(out, "}");
}

fn write_skills(out: &mut String, v: &Vec<Skill>)
    ensures
        final(out)@ == old(out)@ + skills_json(v@),
{
    let ghost start = out@;
    put(out, "{");
    let mut i: usize = 0;
    while i < v.len()
        invariant
            i <= v@.len(),
            out@ == start + "{"@ + entries_json(v@.take(i as int)),
        decreases v@.len() - i,
    {
        proof {
            let t = v@.take(i as int + 1);
            assert(t.drop_last() =~= v@.take(i as int));
            assert(t.last() == v@[i as int]);
            if i == 0 {
                assert(v@.take(0) =~= Seq::<Skill>::empty());
            }
        }
        if i > 0 {
            put(out, ",");
        }
        write_entry(out, &v[i]);
        i = i + 1;
    }
    proof {
        assert(v@.take(v@.len() as int) =~= v@);
    }
    put(out, "}");
}

pub open spec fn all_valid(v: Seq<Skill>) -> bool {
    forall|k: int| 0 <= k < v.len() ==> skill_valid(#[trigger] v[k])
}

/// Skill `k` is the first, in order, that is invalid or repeats the name of
/// an earlier skill.
pub open spec fn first_bad_skill(v: Seq<Skill>, k: int) -> bool {
    &&& 0 <= k < v.len()
    &&& !skill_valid(v[k]) || exists|j: int| 0 <= j < k && v[j].name@ == v[k].name@
    &&& all_valid(v.take(k))
    &&& !names_repeat(v.take(k))
}

proof fn lemma_first_bad_unique(v: Seq<Skill>, k: int)
    requires
        first_bad_skill(v, k),
    ensures
        forall|m: int| #[trigger] first_bad_skill(v, m) ==> m == k,
{
    assert forall|m: int| #[trigger] first_bad_skill(v, m) implies m == k by {
        if m < k {
            assert(skill_valid(v.take(k)[m]));
            if !skill_valid(v[m]) {
            } else {
                let j = choose|j: int| 0 <= j < m && v[j].name@ == v[m].name@;
                assert(v.take(k)[j] == v[j] && v.take(k)[m] == v[m]);
                assert(names_repeat(v.take(k)));
            }
        } else if m > k {
            assert(skill_valid(v.take(m)[k]));
            if !skill_valid(v[k]) {
            } else {
                let j = choose|j: int| 0 <= j < k && v[j].name@ == v[k].name@;
                assert(v.take(m)[j] == v[j] && v.take(m)[k] == v[k]);
                assert(names_repeat(v.take(m)));
            }
        }
    }
}

fn copy_skill(s: &Skill) -> (c: Skill)
    ensures
        c == *s,
{
    Skill { name: s.name.clone(), description: s.description.clone(), instructions: s.instructions.clone() }
}

/// The entries of a catalog are valid, named distinctly, and 1 to 64.
pub open spec fn catalog_ok(v: Seq<Skill>) -> bool {
    all_valid(v) && !names_repeat(v) && 1 <= v.len() <= 64
}

/// `out` holds exactly the skills of `input`, in name order.
pub open spec fn sorted_copy(out: Seq<Skill>, input: Seq<Skill>) -> bool {
    &&& out.len() == input.len()
    &&& sorted_by_name(out)
    &&& forall|k: int| 0 <= k < input.len() ==> out.contains(#[trigger] input[k])
    &&& forall|j: int| 0 <= j < out.len() ==> input.contains(#[trigger] out[j])
}

impl SkillCatalog {
    /// The catalog's skills, in name order.
    pub closed spec fn entries(&self) -> Seq<Skill> {
        self.skills@
    }

    /// The digest that binds the catalog's content.
    pub closed spec fn content_digest(&self) -> Seq<char> {
        self.digest@
    }

    pub fn digest(&self) -> (r: &str)
        ensures
            r@ == self.content_digest(),
    {
        self.digest.as_str()
    }

    /// The packages' resources, by skill name, in the packages' order.
    pub fn resources(&self) -> (r: &Vec<(String, Vec<SkillResource>)>)
        ensures
            r@ == self.package_resources(),
    {
        &self.resources
    }

    pub fn skills(&self) -> (r: &Vec<Skill>)
        ensures
            r@ == self.entries(),
    {
        &self.skills
    }

    /// Freeze a catalog of 1 to 64 valid skills with distinct names. Its
    /// digest is that of the JSON object of the skills by name, so the same
    /// skills in any order make the same catalog. Skills are checked in
    /// order: the first that is invalid, or repeats an earlier name, decides
    /// the error.
    pub fn new(skills: Vec<Skill>) -> (r: Result<SkillCatalog>)
        ensures
            r is Ok <==> catalog_ok(skills@),
            forall|k: int| #[trigger] first_bad_skill(skills@, k) ==> {
                &&& !skill_valid(skills@[k]) ==> (r matches Err(Error::Invalid(_)))
                &&& skill_valid(skills@[k]) ==> (r matches Err(Error::Conflict(_)))
            },
            !all_valid(skills@) ==> (r matches Err(Error::Invalid(_)) || r matches Err(Error::Conflict(_))),
            all_valid(skills@) && names_repeat(skills@) ==> (r matches Err(Error::Conflict(_))),
            all_valid(skills@) && !names_repeat(skills@) && !(1 <= skills@.len() <= 64) ==> (r matches Err(Error::Invalid(_))),
            r matches Ok(c) ==> sorted_copy(c.entries(), skills@) && c.content_digest() == text_digest(skills_json(c.entries())),
            r matches Ok(c) ==> c.package_resources().len() == 0,
    {
        let ghost input = skills@;
        let n = skills.len();
        let mut entries: Vec<Skill> = Vec::new();
        let mut i: usize = 0;
        while i < n
            invariant
                input == skills@,
                n == input.len(),
                i <= n,
                sorted_copy(entries@, input.take(i as int)),
                !names_repeat(input.take(i as int)),
                all_valid(input.take(i as int)),
            decreases n - i,
        {
            let ghost processed = input.take(i as int);
            let ghost next = input.take(i as int + 1);
            proof {
                assert(next =~= processed.push(input[i as int]));
            }
            let s = copy_skill(&skills[i]);
            if !check_skill(&s) {
                proof {
                    assert(first_bad_skill(input, i as int));
                    assert(!all_valid(input));
                    lemma_first_bad_unique(input, i as int);
                }
                return Err(invalid("skill requires a short identifier, description, and instructions of at most 32 KiB"));
            }
            let ghost before = entries@;
            if !insert_sorted(&mut entries, s) {
                proof {
                    let j = choose|j: int| 0 <= j < before.len() && (#[trigger] before[j]).name@ == s.name@;
                    assert(processed.contains(before[j]));
                    let b = choose|b: int| 0 <= b < processed.len() && processed[b] == before[j];
                    assert(input[b].name@ == input[i as int].name@);
                    assert(names_repeat(input));
                    assert(first_bad_skill(input, i as int));
                    lemma_first_bad_unique(input, i as int);
                }
                return Err(conflict("duplicate skill name"));
            }
            proof {
                let ip = i_spec(before, s);
                assert forall|k: int| 0 <= k < next.len() implies entries@.contains(#[trigger] next[k]) by {
                    if k == i {
                        assert(entries@[ip] == s);
                    } else {
                        assert(next[k] == processed[k]);
                        let j = choose|j: int| 0 <= j < before.len() && before[j] == processed[k];
                        if j < ip {
                            assert(entries@[j] == before[j]);
                        } else {
                            assert(entries@[j + 1] == before[j]);
                        }
                    }
                }
                assert forall|j: int| 0 <= j < entries@.len() implies next.contains(#[trigger] entries@[j]) by {
                    if j == ip {
                        assert(next[i as int] == s);
                    } else {
                        let e = if j < ip { before[j] } else { before[j - 1] };
                        assert(entries@[j] == e);
                        assert(processed.contains(e));
                        let b = choose|b: int| 0 <= b < processed.len() && processed[b] == e;
                        assert(next[b] == e);
                    }
                }
                assert(!names_repeat(next)) by {
                    if names_repeat(next) {
                        let (a, b) = choose|a: int, b: int| 0 <= a < b < next.len() && (#[trigger] next[a]).name@ == (#[trigger] next[b]).name@;
                        if b == i {
                            assert(next[a] == processed[a]);
                            assert(processed.contains(next[a]));
                            let e = choose|e: int| 0 <= e < before.len() && #[trigger] before[e] == next[a];
                            assert(has_name(before, s.name@));
                        } else {
                            assert(next[a] == processed[a] && next[b] == processed[b]);
                            assert(names_repeat(processed));
                        }
                    }
                }
                assert(all_valid(next)) by {
                    assert forall|k: int| 0 <= k < next.len() implies skill_valid(#[trigger] next[k]) by {
                        if k < i {
                            assert(next[k] == processed[k]);
                        }
                    }
                }
            }
            i = i + 1;
        }
        proof {
            assert(input.take(n as int) =~= input);
            assert forall|k: int| !#[trigger] first_bad_skill(input, k) by {}
        }
        if entries.len() == 0 || entries.len() > 64 {
            return Err(invalid("skill catalog must contain 1 to 64 entries"));
        }
        let mut json = String::new();
        write_skills(&mut json, &entries);
        let digest = digest_text(&json);
        Ok(SkillCatalog { skills: entries, resources: Vec::new(), digest })
    }
}

pub open spec fn resource_json(r: SkillResource) -> Seq<char> {
    json_string(r.path@) + ":"@ + json_string(r.contents@)
}

pub open spec fn resource_items(v: Seq<SkillResource>) -> Seq<char>
    decreases v.len(),
{
    if v.len() == 0 {
        Seq::empty()
    } else if v.len() == 1 {
        resource_json(v[0])
    } else {
        resource_items(v.drop_last()) + ","@ + resource_json(v.last())
    }
}

pub open spec fn package_json(p: SkillPackage) -> Seq<char> {
    json_string(p.skill.name@) + ":"@ + "{"@ + resource_items(p.resources@) + "}"@
}

pub open spec fn package_items(v: Seq<SkillPackage>) -> Seq<char>
    decreases v.len(),
{
    if v.len() == 0 {
        Seq::empty()
    } else if v.len() == 1 {
        package_json(v[0])
    } else {
        package_items(v.drop_last()) + ","@ + package_json(v.last())
    }
}

/// The JSON of a catalog with packages: its skills and, by package, the
/// resources (in the order the packages were given).
pub open spec fn catalog_json(entries: Seq<Skill>, packages: Seq<SkillPackage>) -> Seq<char> {
    "["@ + skills_json(entries) + ","@ + "{"@ + package_items(packages) + "}"@ + "]"@
}

fn write_resources(out: &mut String, v: &Vec<SkillResource>)
    ensures
        final(out)@ == old(out)@ + resource_items(v@),
{
    let ghost start = out@;
    let mut i: usize = 0;
    while i < v.len()
        invariant
            i <= v@.len(),
            out@ == start + resource_items(v@.take(i as int)),
        decreases v@.len() - i,
    {
        proof {
            let t = v@.take(i as int + 1);
            assert(t.drop_last() =~= v@.take(i as int));
            if i == 0 {
                assert(v@.take(0) =~= Seq::<SkillResource>::empty());
            }
        }
        if i > 0 {
            put(out, ",");
        }
        put_quoted(out, v[i].path.as_str());
        put(out, ":");
        put_quoted(out, v[i].contents.as_str());
        i = i + 1;
    }
    proof {
        assert(v@.take(v@.len() as int) =~= v@);
    }
}

fn write_packages(out: &mut String, v: &Vec<SkillPackage>)
    ensures
        final(out)@ == old(out)@ + package_items(v@),
{
    let ghost start = out@;
    let mut i: usize = 0;
    while i < v.len()
        invariant
            i <= v@.len(),
            out@ == start + package_items(v@.take(i as int)),
        decreases v@.len() - i,
    {
        proof {
            let t = v@.take(i as int + 1);
            assert(t.drop_last() =~= v@.take(i as int));
            if i == 0 {
                assert(v@.take(0) =~= Seq::<SkillPackage>::empty());
            }
        }
        if i > 0 {
            put(out, ",");
        }
        put_quoted(out, v[i].skill.name.as_str());
        put(out, ":");
        put(out, "{");
        write_resources(out, &v[i].resources);
        put(out, "}");
        i = i + 1;
    }
    proof {
        assert(v@.take(v@.len() as int) =~= v@);
    }
}

/// The skills of the catalog: the given ones, then those of the packages.
pub open spec fn all_skills(skills: Seq<Skill>, packages: Seq<SkillPackage>) -> Seq<Skill> {
    skills + packages.map_values(|p: SkillPackage| p.skill)
}

/// Each package's skill name with its resources, in the packages' order.
pub open spec fn package_resource_list(packs: Seq<SkillPackage>) -> Seq<(String, Vec<SkillResource>)> {
    packs.map_values(|p: SkillPackage| (p.skill.name, p.resources))
}

impl SkillCatalog {
    /// The packages' resources, by skill name.
    pub closed spec fn package_resources(&self) -> Seq<(String, Vec<SkillResource>)> {
        self.resources@
    }

    /// Freeze a catalog of skills and portable skill packages. Without
    /// packages it is `new`; otherwise its digest also binds the packages'
    /// resources.
    pub fn with_packages(skills: Vec<Skill>, packages: Vec<SkillPackage>) -> (r: Result<SkillCatalog>)
        ensures
            r is Ok <==> catalog_ok(all_skills(skills@, packages@)),
            r matches Ok(c) ==> sorted_copy(c.entries(), all_skills(skills@, packages@)),
            r matches Ok(c) ==> c.package_resources() == package_resource_list(packages@),
            r matches Ok(c) ==> c.content_digest() == if packages@.len() == 0 {
                text_digest(skills_json(c.entries()))
            } else {
                text_digest(catalog_json(c.entries(), packages@))
            },
    {
        if packages.len() == 0 {
            proof {
                assert(all_skills(skills@, packages@) =~= skills@);
                assert(package_resource_list(packages@) =~= Seq::<(String, Vec<SkillResource>)>::empty());
            }
            return SkillCatalog::new(skills);
        }
        let mut json_packages = String::new();
        write_packages(&mut json_packages, &packages);
        let ghost given = skills@;
        let ghost packs = packages@;
        let mut all = skills;
        let mut resources: Vec<(String, Vec<SkillResource>)> = Vec::new();
        let mut rest = packages;
        let mut tail: Vec<Skill> = Vec::new();
        while rest.len() > 0
            invariant
                all@ == given,
                tail@ == packs.subrange(rest@.len() as int, packs.len() as int).map_values(|p: SkillPackage| p.skill),
                resources@ == package_resource_list(packs.subrange(rest@.len() as int, packs.len() as int)),
                rest@ == packs.subrange(0, rest@.len() as int),
                rest@.len() <= packs.len(),
            decreases rest@.len(),
        {
            let ghost m = rest@.len() as int;
            let p = rest.pop().unwrap();
            proof {
                assert(rest@ =~= packs.subrange(0, m - 1));
                assert(p == packs[m - 1]);
            }
            let name = p.skill.name.clone();
            tail.insert(0, p.skill);
            proof {
                assert(tail@ =~= packs.subrange(m - 1, packs.len() as int).map_values(|p: SkillPackage| p.skill));
            }
            resources.insert(0, (name, p.resources));
            proof {
                assert(resources@ =~= package_resource_list(packs.subrange(m - 1, packs.len() as int)));
            }
        }
        proof {
            assert(packs.subrange(0, packs.len() as int) =~= packs);
        }
        all.append(&mut tail);
        proof {
            assert(all@ =~= all_skills(given, packs));
        }
        let mut catalog = SkillCatalog::new(all)?;
        let mut json = text("[");
        write_skills(&mut json, &catalog.skills);
        put(&mut json, ",");
        put(&mut json, "{");
        put(&mut json, json_packages.as_str());
        put(&mut json, "}");
        put(&mut json, "]");
        proof {
            assert(json@ =~= catalog_json(catalog.skills@, packs));
        }
        catalog.digest = digest_text(&json);
        catalog.resources = resources;
        Ok(catalog)
    }
}

} // verus!

verus! {

/// The first `n` characters of `s`, without each carriage return that a line
/// feed follows.
pub open spec fn crlf_free(s: Seq<char>, n: int) -> Seq<char>
    decreases n,
{
    if n <= 0 {
        Seq::empty()
    } else if s[n - 1] == '\r' && n < s.len() && s[n] == '\n' {
        crlf_free(s, n - 1)
    } else {
        crlf_free(s, n - 1).push(s[n - 1])
    }
}

/// `s` with every "\r\n" replaced by "\n".
pub open spec fn normalized(s: Seq<char>) -> Seq<char> {
    crlf_free(s, s.len() as int)
}

fn chars_of(s: &str) -> (r: Vec<char>)
    ensures
        r@ == s@,
{
    let mut cs: Vec<char> = Vec::new();
    for c in it: s.chars()
        invariant
            it.seq() == s@,
            cs@ == s@.take(it.index() as int),
    {
        cs.push(c);
        proof {
            assert(cs@ =~= s@.take(it.index() as int + 1));
        }
    }
    proof {
        assert(cs@ =~= s@);
    }
    cs
}

/// Replace every "\r\n" by "\n".
pub fn normalize_newlines(s: &str) -> (r: String)
    ensures
        r@ == normalized(s@),
{
    let cs = chars_of(s);
    let n = cs.len();
    let mut out = String::new();
    let mut seg: usize = 0;
    let mut i: usize = 0;
    while i < n
        invariant
            cs@ == s@,
            n == s@.len(),
            seg <= i <= n,
            out@ + s@.subrange(seg as int, i as int) == crlf_free(s@, i as int),
        decreases n - i,
    {
        if cs[i] == '\r' && i + 1 < n && cs[i + 1] == '\n' {
            let piece = s.substring_char(seg, i);
            out.append(piece);
            seg = i + 1;
            proof {
                assert(s@.subrange(seg as int, i + 1) =~= Seq::<char>::empty());
                assert(out@ + s@.subrange(seg as int, i + 1) =~= out@);
            }
        } else {
            proof {
                assert(s@.subrange(seg as int, i + 1) =~= s@.subrange(seg as int, i as int).push(s@[i as int]));
            }
        }
        i = i + 1;
    }
    let piece = s.substring_char(seg, n);
    out.append(piece);
    out
}

/// The text opens with a frontmatter fence "---\n".
pub open spec fn opens_frontmatter(t: Seq<char>) -> bool {
    t.len() >= 4 && t[0] == '-' && t[1] == '-' && t[2] == '-' && t[3] == '\n'
}

/// A closing fence "\n---\n" starts at `k`.
pub open spec fn fence_at(t: Seq<char>, k: int) -> bool {
    0 <= k && k + 5 <= t.len() && t[k] == '\n' && t[k + 1] == '-' && t[k + 2] == '-' && t[k + 3] == '-' && t[k + 4] == '\n'
}

/// The header and body of a skill document: after the opening fence, the
/// header runs to the first closing fence and the body follows it.
pub open spec fn frontmatter(t: Seq<char>, k: int, header: Seq<char>, body: Seq<char>) -> bool {
    let rest = t.subrange(4, t.len() as int);
    &&& fence_at(rest, k)
    &&& forall|j: int| 0 <= j < k ==> !fence_at(rest, j)
    &&& header == rest.subrange(0, k)
    &&& body == rest.subrange(k + 5, rest.len() as int)
}

/// The first closing fence in `cs` at or after position 4.
fn find_fence(cs: &Vec<char>) -> (r: Option<usize>)
    requires
        cs@.len() >= 4,
    ensures
        r matches Some(k) ==> 4 <= k && fence_at(cs@.subrange(4, cs@.len() as int), k - 4)
            && forall|j: int| 0 <= j < k - 4 ==> !fence_at(cs@.subrange(4, cs@.len() as int), j),
        r is None ==> forall|j: int| !fence_at(cs@.subrange(4, cs@.len() as int), j),
{
    let n = cs.len();
    let ghost rest = cs@.subrange(4, n as int);
    let mut k: usize = 4;
    while n >= 5 && k <= n - 5
        invariant
            n == cs@.len(),
            4 <= k <= n,
            rest == cs@.subrange(4, n as int),
            forall|j: int| 0 <= j < k - 4 ==> !fence_at(rest, j),
        decreases n - k,
    {
        if cs[k] == '\n' && cs[k + 1] == '-' && cs[k + 2] == '-' && cs[k + 3] == '-' && cs[k + 4] == '\n' {
            proof {
                assert(fence_at(rest, k - 4));
            }
            return Some(k);
        }
        proof {
            assert(!fence_at(rest, k - 4));
        }
        k = k + 1;
    }
    proof {
        assert forall|j: int| !fence_at(rest, j) by {
            if 0 <= j && j + 5 <= rest.len() {
                assert(j < k - 4);
            }
        }
    }
    None
}

/// Split a skill document, after normalizing its line ends, into its YAML
/// frontmatter and its Markdown body.
pub fn split_frontmatter(markdown: &str) -> (r: Result<(String, String)>)
    ensures
        !opens_frontmatter(normalized(markdown@)) ==> r matches Err(Error::Invalid(_)),
        r is Err ==> r matches Err(Error::Invalid(_)),
        r is Ok <==> opens_frontmatter(normalized(markdown@)) && exists|k: int| fence_at(normalized(markdown@).subrange(4, normalized(markdown@).len() as int), k),
        r matches Ok(p) ==> exists|k: int| #[trigger] frontmatter(normalized(markdown@), k, p.0@, p.1@),
{
    let t = normalize_newlines(markdown);
    let cs = chars_of(t.as_str());
    let n = cs.len();
    if !(n >= 4 && cs[0] == '-' && cs[1] == '-' && cs[2] == '-' && cs[3] == '\n') {
        return Err(invalid("SKILL.md requires YAML frontmatter"));
    }
    let k = match find_fence(&cs) {
        None => return Err(invalid("unterminated skill frontmatter")),
        Some(k) => k,
    };
    let header = t.as_str().substring_char(4, k).to_owned();
    let body = t.as_str().substring_char(k + 5, n).to_owned();
    proof {
        let rest = t@.subrange(4, n as int);
        assert(header@ =~= rest.subrange(0, k - 4));
        assert(body@ =~= rest.subrange(k - 4 + 5, rest.len() as int));
        assert(frontmatter(t@, k - 4, header@, body@));
    }
    let res: Result<(String, String)> = Ok((header, body));
    proof {
        assert(res is Ok);
        let p = res->Ok_0;
        assert(p.0@ == header@);
        assert(frontmatter(normalized(markdown@), k - 4, p.0@, p.1@));
    }
    res
}


pub open spec fn portable_char(c: char) -> bool {
    ('a' <= c <= 'z') || ('0' <= c <= '9') || c == '-'
}

/// A portable skill name: 1 to 64 lower-case letters, digits and single
/// inner hyphens.
pub open spec fn portable_name_valid(n: Seq<char>) -> bool {
    &&& 1 <= n.len() <= 64
    &&& n[0] != '-' && n.last() != '-'
    &&& forall|i: int| 0 <= i < n.len() ==> portable_char(#[trigger] n[i])
    &&& forall|i: int| 0 <= i < n.len() - 1 ==> !(#[trigger] n[i] == '-' && n[i + 1] == '-')
}

pub fn portable_name(name: &str) -> (r: bool)
    ensures
        r == portable_name_valid(name@),
{
    let cs = chars_of(name);
    let n = cs.len();
    if n < 1 || n > 64 || cs[0] == '-' || cs[n - 1] == '-' {
        return false;
    }
    let mut i: usize = 0;
    while i < n
        invariant
            cs@ == name@,
            n == name@.len(),
            1 <= n <= 64,
            i <= n,
            forall|k: int| 0 <= k < i ==> portable_char(#[trigger] name@[k]),
            forall|k: int| 0 <= k < i && k < n - 1 ==> !(#[trigger] name@[k] == '-' && name@[k + 1] == '-'),
        decreases n - i,
    {
        let c = cs[i];
        if !(('a' <= c && c <= 'z') || ('0' <= c && c <= '9') || c == '-') {
            return false;
        }
        if c == '-' && i + 1 < n && cs[i + 1] == '-' {
            return false;
        }
        i = i + 1;
    }
    true
}

/// A package's resources by path; a later resource replaces an earlier one
/// with the same path.
pub open spec fn resource_map(v: Seq<SkillResource>) -> Map<Seq<char>, Seq<char>>
    decreases v.len(),
{
    if v.len() == 0 {
        Map::empty()
    } else {
        resource_map(v.drop_last()).insert(v.last().path@, v.last().contents@)
    }
}

/// Paths strictly increase.
pub open spec fn sorted_by_path(v: Seq<SkillResource>) -> bool {
    forall|a: int, b: int| 0 <= a < b < v.len() ==> text_lt(v[a].path@, v[b].path@)
}

/// The bytes of all contents.
pub open spec fn resource_bytes(v: Seq<SkillResource>) -> nat
    decreases v.len(),
{
    if v.len() == 0 {
        0
    } else {
        resource_bytes(v.drop_last()) + utf8_len(v.last().contents@)
    }
}

proof fn lemma_distinct_paths(v: Seq<SkillResource>)
    requires
        sorted_by_path(v),
    ensures
        forall|a: int, b: int| 0 <= a < v.len() && 0 <= b < v.len() && a != b ==> v[a].path@ != v[b].path@,
{
    assert forall|a: int, b: int| 0 <= a < v.len() && 0 <= b < v.len() && a != b implies v[a].path@ != v[b].path@ by {
        if a < b {
            lemma_text_lt_total(v[a].path@, v[b].path@);
        } else {
            lemma_text_lt_total(v[b].path@, v[a].path@);
        }
    }
}

proof fn lemma_resource_map(v: Seq<SkillResource>)
    requires
        forall|a: int, b: int| 0 <= a < v.len() && 0 <= b < v.len() && a != b ==> v[a].path@ != v[b].path@,
    ensures
        forall|x: Seq<char>| resource_map(v).contains_key(x) <==> exists|k: int| 0 <= k < v.len() && (#[trigger] v[k]).path@ == x,
        forall|k: int| 0 <= k < v.len() ==> resource_map(v)[(#[trigger] v[k]).path@] == v[k].contents@,
    decreases v.len(),
{
    if v.len() > 0 {
        let t = v.drop_last();
        lemma_resource_map(t);
        assert forall|x: Seq<char>| resource_map(v).contains_key(x) implies exists|k: int| 0 <= k < v.len() && (#[trigger] v[k]).path@ == x by {
            if x != v.last().path@ {
                assert(resource_map(t).contains_key(x));
                let k = choose|k: int| 0 <= k < t.len() && (#[trigger] t[k]).path@ == x;
                assert(v[k] == t[k]);
            } else {
                assert(v[v.len() - 1].path@ == x);
            }
        }
        assert forall|k: int| 0 <= k < v.len() implies resource_map(v)[(#[trigger] v[k]).path@] == v[k].contents@ by {
            if k < v.len() - 1 {
                assert(v[k] == t[k]);
                assert(v[k].path@ != v[v.len() - 1].path@);
            }
        }
        assert forall|x: Seq<char>| (exists|k: int| 0 <= k < v.len() && (#[trigger] v[k]).path@ == x) implies resource_map(v).contains_key(x) by {
            let k = choose|k: int| 0 <= k < v.len() && (#[trigger] v[k]).path@ == x;
            if k < v.len() - 1 {
                assert(v[k] == t[k]);
            }
        }
    }
}

/// Put a resource at its place by path, replacing one with the same path.
fn insert_resource(v: &mut Vec<SkillResource>, r: SkillResource)
    requires
        sorted_by_path(old(v)@),
    ensures
        sorted_by_path(final(v)@),
        resource_map(final(v)@) == resource_map(old(v)@).insert(r.path@, r.contents@),
        final(v)@.len() <= old(v)@.len() + 1,
{
    let mut i: usize = 0;
    while i < v.len()
        invariant
            v@ == old(v)@,
            sorted_by_path(v@),
            i <= v@.len(),
            forall|k: int| 0 <= k < i ==> text_lt(v@[k].path@, r.path@),
        ensures
            v@ == old(v)@,
            i <= v@.len(),
            forall|k: int| 0 <= k < i ==> text_lt(v@[k].path@, r.path@),
            i < v@.len() ==> !text_lt(v@[i as int].path@, r.path@),
        decreases v@.len() - i,
    {
        if !text_less(v[i].path.as_str(), r.path.as_str()) {
            break;
        }
        i = i + 1;
    }
    let ghost before = v@;
    proof {
        lemma_distinct_paths(before);
        lemma_resource_map(before);
    }
    if i < v.len() && v[i].path == r.path {
        v.set(i, r);
        proof {
            let after = v@;
            assert(after == before.update(i as int, r));
            assert forall|a: int, b: int| 0 <= a < b < after.len() implies text_lt(after[a].path@, after[b].path@) by {
                assert(after[a].path@ == before[a].path@);
                assert(after[b].path@ == before[b].path@);
            }
            lemma_distinct_paths(after);
            lemma_resource_map(after);
            let m = resource_map(before).insert(r.path@, r.contents@);
            assert forall|x: Seq<char>| resource_map(after).contains_key(x) <==> m.contains_key(x) by {
                if resource_map(after).contains_key(x) {
                    let k = choose|k: int| 0 <= k < after.len() && (#[trigger] after[k]).path@ == x;
                    if k != i {
                        assert(before[k].path@ == x);
                    }
                }
                if m.contains_key(x) && x != r.path@ {
                    let k = choose|k: int| 0 <= k < before.len() && (#[trigger] before[k]).path@ == x;
                    assert(after[k].path@ == x);
                }
                if x == r.path@ {
                    assert(after[i as int].path@ == x);
                }
            }
            assert forall|x: Seq<char>| resource_map(after).contains_key(x) implies resource_map(after)[x] == m[x] by {
                let k = choose|k: int| 0 <= k < after.len() && (#[trigger] after[k]).path@ == x;
                if k != i {
                    assert(before[k].path@ == x);
                    assert(after[k] == before[k]);
                }
            }
            assert(resource_map(after) =~= m);
        }
        return;
    }
    proof {
        if i < before.len() {
            lemma_text_lt_total(before[i as int].path@, r.path@);
        }
        assert forall|k: int| i <= k < before.len() implies text_lt(r.path@, before[k].path@) by {
            lemma_text_lt_total(before[i as int].path@, r.path@);
            if k > i {
                lemma_text_lt_transitive(r.path@, before[i as int].path@, before[k].path@);
            }
        }
    }
    v.insert(i, r);
    proof {
        let after = v@;
        assert(after =~= before.insert(i as int, r));
        assert forall|a: int, b: int| 0 <= a < b < after.len() implies text_lt(after[a].path@, after[b].path@) by {
            if b < i {
                assert(after[a] == before[a] && after[b] == before[b]);
            } else if b == i {
                assert(after[a] == before[a]);
            } else if a < i {
                assert(after[a] == before[a] && after[b] == before[b - 1]);
                lemma_text_lt_transitive(before[a].path@, r.path@, before[b - 1].path@);
            } else if a == i {
                assert(after[b] == before[b - 1]);
            } else {
                assert(after[a] == before[a - 1] && after[b] == before[b - 1]);
            }
        }
        lemma_distinct_paths(after);
        lemma_resource_map(after);
        let m = resource_map(before).insert(r.path@, r.contents@);
        assert forall|x: Seq<char>| resource_map(after).contains_key(x) <==> m.contains_key(x) by {
            if resource_map(after).contains_key(x) {
                let k = choose|k: int| 0 <= k < after.len() && (#[trigger] after[k]).path@ == x;
                if k < i {
                    assert(before[k].path@ == x);
                } else if k > i {
                    assert(before[k - 1].path@ == x);
                }
            }
            if m.contains_key(x) && x != r.path@ {
                let k = choose|k: int| 0 <= k < before.len() && (#[trigger] before[k]).path@ == x;
                if k < i {
                    assert(after[k].path@ == x);
                } else {
                    assert(after[k + 1].path@ == x);
                }
            }
            if x == r.path@ {
                assert(after[i as int].path@ == x);
            }
        }
        assert forall|x: Seq<char>| resource_map(after).contains_key(x) implies resource_map(after)[x] == m[x] by {
            let k = choose|k: int| 0 <= k < after.len() && (#[trigger] after[k]).path@ == x;
            if k < i {
                assert(after[k] == before[k]);
                lemma_text_lt_total(before[k].path@, r.path@);
                assert(before[k].path@ != r.path@);
            } else if k > i {
                assert(after[k] == before[k - 1]);
                lemma_text_lt_total(r.path@, before[k - 1].path@);
                assert(before[k - 1].path@ != r.path@);
            }
        }
        assert(resource_map(after) =~= m);
    }
}

/// The rules of a catalog entry, over its texts.
pub open spec fn skill_text_valid(name: Seq<char>, description: Seq<char>, instructions: Seq<char>) -> bool {
    &&& 1 <= name.len() <= 64
    &&& forall|i: int| 0 <= i < name.len() ==> skill_name_char(#[trigger] name[i])
    &&& !blank(description) && utf8_len(description) <= 1024
    &&& !blank(instructions) && utf8_len(instructions) <= 32768
}

/// The rules of a portable skill package, given its directory name, the raw
/// text of its SKILL.md, the name and description of its frontmatter, its
/// body, and its resources in the order they were read.
pub open spec fn package_valid(directory: Seq<char>, markdown: Seq<char>, name: Seq<char>, description: Seq<char>,
    body: Seq<char>, resources: Seq<SkillResource>) -> bool {
    &&& portable_name_valid(name) && name == directory
    &&& skill_text_valid(name, description, body)
    &&& resources.len() <= 128
    &&& forall|k: int| 0 <= k < resources.len() ==> utf8_len((#[trigger] resources[k]).contents@) <= 131072
    &&& utf8_len(markdown) + resource_bytes(resources) <= 2097152
}

proof fn lemma_bytes_step(v: Seq<SkillResource>, i: int)
    requires
        0 <= i < v.len(),
    ensures
        resource_bytes(v.take(i + 1)) == resource_bytes(v.take(i)) + utf8_len(v[i].contents@),
{
    assert(v.take(i + 1).drop_last() =~= v.take(i));
}

proof fn lemma_bytes_prefix(v: Seq<SkillResource>, i: int)
    requires
        0 <= i <= v.len(),
    ensures
        resource_bytes(v.take(i)) <= resource_bytes(v),
    decreases v.len() - i,
{
    if i < v.len() {
        lemma_bytes_step(v, i);
        lemma_bytes_prefix(v, i + 1);
    } else {
        assert(v.take(i) =~= v);
    }
}

proof fn lemma_map_step(v: Seq<SkillResource>, i: int)
    requires
        0 <= i < v.len(),
    ensures
        resource_map(v.take(i + 1)) == resource_map(v.take(i)).insert(v[i].path@, v[i].contents@),
{
    assert(v.take(i + 1).drop_last() =~= v.take(i));
}

impl SkillPackage {
    /// Assemble a portable skill package from what was read of its directory:
    /// the directory's name, the raw text of its SKILL.md, the name and
    /// description of its frontmatter, its body (see `split_frontmatter`) and
    /// its resource files. The name must be portable and match the
    /// directory; the skill must be a valid catalog entry; at most 128
    /// resources of at most 128 KiB each, and at most 2 MiB with SKILL.md.
    /// Resources are kept in path order; a later one with the same path
    /// replaces an earlier one.
    pub fn from_parts(directory: &str, markdown: &str, name: String, description: String, body: String,
        resources: Vec<SkillResource>) -> (r: Result<SkillPackage>)
        ensures
            r is Ok <==> package_valid(directory@, markdown@, name@, description@, body@, resources@),
            r is Err ==> r matches Err(Error::Invalid(_)),
            r matches Ok(p) ==> {
                &&& p.skill.name@ == name@ && p.skill.description@ == description@ && p.skill.instructions@ == body@
                &&& sorted_by_path(p.resources@)
                &&& resource_map(p.resources@) == resource_map(resources@)
            },
    {
        if !portable_name(name.as_str()) || !crate::text::str_equal(name.as_str(), directory) {
            return Err(invalid("portable skill name must match its directory and use lowercase letters, digits, single hyphens"));
        }
        let skill = Skill { name, description, instructions: body };
        if !check_skill(&skill) {
            return Err(invalid("skill requires a short identifier, description, and instructions of at most 32 KiB"));
        }
        if resources.len() > 128 {
            return Err(invalid("skill package exceeds 128 resources"));
        }
        let md = markdown.to_owned();
        let mut total: usize = crate::text::byte_length(&md);
        if total > 2097152 {
            proof {
                lemma_bytes_prefix(resources@, resources@.len() as int);
            }
            return Err(invalid("skill package exceeds 2 MiB"));
        }
        let ghost input = resources@;
        let mut out: Vec<SkillResource> = Vec::new();
        let mut rest = resources;
        let mut i: usize = 0;
        proof {
            assert(rest@.subrange(0, rest@.len() as int) =~= input);
        }
        let mut pending: Vec<SkillResource> = Vec::new();
        while rest.len() > 0
            invariant
                pending@ == input.subrange(rest@.len() as int, input.len() as int).reverse(),
                rest@ == input.subrange(0, rest@.len() as int),
                rest@.len() <= input.len(),
            decreases rest@.len(),
        {
            let ghost m = rest@.len() as int;
            let x = rest.pop().unwrap();
            proof {
                assert(rest@ =~= input.subrange(0, m - 1));
                assert(x == input[m - 1]);
            }
            pending.push(x);
            proof {
                assert(pending@ =~= input.subrange(m - 1, input.len() as int).reverse());
            }
        }
        proof {
            assert(input.subrange(0, input.len() as int) =~= input);
        }
        while pending.len() > 0
            invariant
                i <= input.len(),
                i + pending@.len() == input.len(),
                forall|k: int| 0 <= k < pending@.len() ==> #[trigger] pending@[k] == input[input.len() - 1 - k],
                total == utf8_len(markdown@) + resource_bytes(input.take(i as int)),
                total <= 2097152,
                forall|k: int| 0 <= k < i ==> utf8_len((#[trigger] input[k]).contents@) <= 131072,
                sorted_by_path(out@),
                resource_map(out@) == resource_map(input.take(i as int)),
                input.len() <= 128,
                input == resources@,
            decreases pending@.len(),
        {
            let ghost before = pending@;
            let x = pending.pop().unwrap();
            proof {
                assert(x == input[i as int]);
                lemma_bytes_step(input, i as int);
                lemma_map_step(input, i as int);
            }
            let len = crate::text::byte_length(&x.contents);
            if len > 131072 {
                proof {
                    assert(utf8_len(input[i as int].contents@) > 131072);
                }
                return Err(invalid("skill resource exceeds size limit"));
            }
            total = total + len;
            if total > 2097152 {
                proof {
                    lemma_bytes_prefix(input, i as int + 1);
                }
                return Err(invalid("skill package exceeds 2 MiB"));
            }
            insert_resource(&mut out, x);
            i = i + 1;
            proof {
                assert forall|k: int| 0 <= k < pending@.len() implies #[trigger] pending@[k] == input[input.len() - 1 - k] by {
                    assert(pending@[k] == before[k]);
                }
            }
        }
        proof {
            assert(input.take(i as int) =~= input);
        }
        Ok(SkillPackage { skill, resources: out })
    }
}

/// Two sequences sorted strictly by name that hold the same skills are equal.
proof fn lemma_sorted_unique(x: Seq<Skill>, y: Seq<Skill>)
    requires
        sorted_by_name(x),
        sorted_by_name(y),
        forall|e: Skill| x.contains(e) <==> y.contains(e),
    ensures
        x == y,
    decreases x.len(),
{
    if x.len() == 0 {
        if y.len() > 0 {
            assert(y.contains(y[0]));
        }
        assert(x =~= y);
    } else {
        assert(x.contains(x[0]));
        assert(y.len() > 0);
        assert(y.contains(y[0]));
        let j = choose|j: int| 0 <= j < y.len() && y[j] == x[0];
        let i = choose|i: int| 0 <= i < x.len() && x[i] == y[0];
        if j > 0 {
            assert(text_lt(y[0].name@, y[j].name@));
            if i > 0 {
                assert(text_lt(x[0].name@, x[i].name@));
            }
            lemma_text_lt_total(x[0].name@, y[0].name@);
        }
        assert(x[0] == y[0]);
        let xt = x.drop_first();
        let yt = y.drop_first();
        assert forall|a: int, b: int| 0 <= a < b < xt.len() implies text_lt(xt[a].name@, xt[b].name@) by {
            assert(xt[a] == x[a + 1] && xt[b] == x[b + 1]);
        }
        assert forall|a: int, b: int| 0 <= a < b < yt.len() implies text_lt(yt[a].name@, yt[b].name@) by {
            assert(yt[a] == y[a + 1] && yt[b] == y[b + 1]);
        }
        assert forall|e: Skill| xt.contains(e) <==> yt.contains(e) by {
            if xt.contains(e) {
                let k = choose|k: int| 0 <= k < xt.len() && xt[k] == e;
                assert(x[k + 1] == e);
                assert(x.contains(e));
                let m = choose|m: int| 0 <= m < y.len() && y[m] == e;
                if m == 0 {
                    assert(text_lt(x[0].name@, x[k + 1].name@));
                    lemma_text_lt_total(x[0].name@, x[0].name@);
                }
                assert(yt[m - 1] == e);
            }
            if yt.contains(e) {
                let k = choose|k: int| 0 <= k < yt.len() && yt[k] == e;
                assert(y[k + 1] == e);
                assert(y.contains(e));
                let m = choose|m: int| 0 <= m < x.len() && x[m] == e;
                if m == 0 {
                    assert(text_lt(y[0].name@, y[k + 1].name@));
                    lemma_text_lt_total(y[0].name@, y[0].name@);
                }
                assert(xt[m - 1] == e);
            }
        }
        lemma_sorted_unique(xt, yt);
        assert(x =~= seq![x[0]] + xt);
        assert(y =~= seq![y[0]] + yt);
    }
}

/// Catalogs made by `SkillCatalog::new` from the same skills, given in any
/// order, hold the same entries and have the same digest.
pub proof fn law_catalog_digest_ignores_order(a: SkillCatalog, b: SkillCatalog, given_a: Seq<Skill>, given_b: Seq<Skill>)
    requires
        sorted_copy(a.entries(), given_a),
        sorted_copy(b.entries(), given_b),
        a.content_digest() == text_digest(skills_json(a.entries())),
        b.content_digest() == text_digest(skills_json(b.entries())),
        forall|e: Skill| given_a.contains(e) <==> given_b.contains(e),
    ensures
        a.entries() == b.entries(),
        a.content_digest() == b.content_digest(),
{
    let x = a.entries();
    let y = b.entries();
    assert forall|e: Skill| x.contains(e) <==> y.contains(e) by {
        if x.contains(e) {
            let k = choose|k: int| 0 <= k < x.len() && x[k] == e;
            assert(given_a.contains(x[k]));
            assert(given_b.contains(e));
            let m = choose|m: int| 0 <= m < given_b.len() && given_b[m] == e;
            assert(y.contains(given_b[m]));
        }
        if y.contains(e) {
            let k = choose|k: int| 0 <= k < y.len() && y[k] == e;
            assert(given_b.contains(y[k]));
            assert(given_a.contains(e));
            let m = choose|m: int| 0 <= m < given_a.len() && given_a[m] == e;
            assert(x.contains(given_a[m]));
        }
    }
    lemma_sorted_unique(x, y);
}


/// The name and description that a YAML frontmatter header gives, both as
/// strings, if the header is YAML with those two string members.
pub uninterp spec fn frontmatter_fields(header: Seq<char>) -> Option<(Seq<char>, Seq<char>)>;

/// `serde_yaml_ng::from_str` of the header as a YAML value, then its `name`
/// and `description` members read as strings (`Value::get`, `Value::as_str`).
/// What that gives is named, not described: `frontmatter_fields`.
#[verifier::external_body]
fn yaml_frontmatter(header: &str) -> (r: Option<(String, String)>)
    ensures
        match r {
            Some((n, d)) => frontmatter_fields(header@) == Some((n@, d@)),
            None => frontmatter_fields(header@) is None,
        },
{
    let v: serde_yaml_ng::Value = match serde_yaml_ng::from_str(header) {
        Ok(v) => v,
        Err(_) => return None,
    };
    match (v.get("name").and_then(serde_yaml_ng::Value::as_str), v.get("description").and_then(serde_yaml_ng::Value::as_str)) {
        (Some(n), Some(d)) => Some((n.to_string(), d.to_string())),
        _ => None,
    }
}

proof fn lemma_frontmatter_unique(t: Seq<char>, k1: int, h1: Seq<char>, b1: Seq<char>, k2: int, h2: Seq<char>, b2: Seq<char>)
    requires
        frontmatter(t, k1, h1, b1),
        frontmatter(t, k2, h2, b2),
    ensures
        k1 == k2 && h1 == h2 && b1 == b2,
{
}

/// A portable skill package from its directory's name, the text of its
/// SKILL.md and its resource files: the document is split into frontmatter
/// and body, the frontmatter gives the name and description, and the parts
/// are assembled as `SkillPackage::from_parts` does.
pub fn package_from_markdown(directory: &str, markdown: &str, resources: Vec<SkillResource>) -> (r: Result<SkillPackage>)
    ensures
        r is Err ==> r matches Err(Error::Invalid(_)),
        !(opens_frontmatter(normalized(markdown@))
            && exists|k: int| fence_at(normalized(markdown@).subrange(4, normalized(markdown@).len() as int), k))
            ==> r is Err,
        forall|k: int, h: Seq<char>, b: Seq<char>| opens_frontmatter(normalized(markdown@))
            && #[trigger] frontmatter(normalized(markdown@), k, h, b) ==> {
            &&& (r is Ok <==> (frontmatter_fields(h) matches Some((n, d)) && package_valid(directory@, markdown@, n, d, b, resources@)))
            &&& r matches Ok(p) ==> {
                &&& frontmatter_fields(h) == Some((p.skill.name@, p.skill.description@))
                &&& p.skill.instructions@ == b
                &&& sorted_by_path(p.resources@)
                &&& resource_map(p.resources@) == resource_map(resources@)
            }
        },
{
    let (header, body) = split_frontmatter(markdown)?;
    let ghost hb = (header@, body@);
    proof {
        let k0 = choose|k: int| #[trigger] frontmatter(normalized(markdown@), k, hb.0, hb.1);
        assert forall|k: int, h: Seq<char>, b: Seq<char>| #[trigger] frontmatter(normalized(markdown@), k, h, b)
            implies h == hb.0 && b == hb.1 by {
            lemma_frontmatter_unique(normalized(markdown@), k, h, b, k0, hb.0, hb.1);
        }
    }
    match yaml_frontmatter(header.as_str()) {
        None => Err(invalid("invalid skill frontmatter")),
        Some((name, description)) => SkillPackage::from_parts(directory, markdown, name, description, body, resources),
    }
}


/// The JSON summary of skills the loader lists: `{"description", "name"}` of
/// each, in catalog order.
pub open spec fn skill_summary_items(v: Seq<Skill>) -> Seq<char>
    decreases v.len(),
{
    if v.len() == 0 {
        Seq::empty()
    } else {
        let e = "{\"description\":"@ + json_string(v.last().description@) + ",\"name\":"@ + json_string(v.last().name@) + "}"@;
        if v.len() == 1 { e } else { skill_summary_items(v.drop_last()) + ","@ + e }
    }
}

pub open spec fn skill_name_items(v: Seq<Skill>) -> Seq<char>
    decreases v.len(),
{
    if v.len() == 0 {
        Seq::empty()
    } else if v.len() == 1 {
        json_string(v[0].name@)
    } else {
        skill_name_items(v.drop_last()) + ","@ + json_string(v.last().name@)
    }
}

/// The loader's input: one of the catalog's skill names, and, when the
/// catalog has package resources, an optional resource path.
pub open spec fn skill_loader_schema(v: Seq<Skill>, with_resources: bool) -> Seq<char> {
    "{\"additionalProperties\":false,\"properties\":{\"name\":{\"enum\":["@ + skill_name_items(v) + "],\"type\":\"string\"}"@
        + (if with_resources {
            ",\"resource\":{\"description\":\"Optional relative resource path listed by load_skill\",\"type\":\"string\"}"@
        } else {
            Seq::empty()
        }) + "},\"required\":[\"name\"],\"type\":\"object\"}"@
}

impl SkillCatalog {
    /// The `load_skill` tool record of this catalog in `workspace`, under
    /// `policy`: it reads, runs the executor keyed by the catalog's digest,
    /// and lists the skills in its description.
    pub fn loader_tool(&self, workspace: &str, policy: &str) -> (t: crate::models::Tool)
        ensures
            t.id@ == "hudson.skills."@ + self.content_digest(),
            t.execution matches crate::models::Execution::Registered { key: k } && k@ == "hudson.skills."@ + self.content_digest(),
            t.workspace_id@ == workspace@ && t.version == 1 && t.schema_version == crate::models::SCHEMA_VERSION,
            t.name@ == "load_skill"@,
            t.description@ == "Load instructions for a relevant skill before working on its task. Available skills: ["@
                + skill_summary_items(self.entries()) + "]"@,
            t.input_schema@ == skill_loader_schema(self.entries(), self.package_resources().len() > 0),
            t.output_schema is None && t.credential_ref is None && t.policy_ref@ == policy@,
            t.effect == crate::models::Effect::Read && t.created_at == 0,
    {
        let mut key = text("hudson.skills.");
        key.append(self.digest.as_str());
        let mut description = text("Load instructions for a relevant skill before working on its task. Available skills: [");
        let mut names = text("{\"additionalProperties\":false,\"properties\":{\"name\":{\"enum\":[");
        let ghost d0 = description@;
        let ghost n0 = names@;
        let mut k: usize = 0;
        while k < self.skills.len()
            invariant
                k <= self.skills@.len(),
                description@ == d0 + skill_summary_items(self.skills@.take(k as int)),
                names@ == n0 + skill_name_items(self.skills@.take(k as int)),
            decreases self.skills@.len() - k,
        {
            let sk = &self.skills[k];
            if k > 0 {
                put(&mut description, ",");
                put(&mut names, ",");
            }
            put(&mut description, "{\"description\":");
            put_quoted(&mut description, sk.description.as_str());
            put(&mut description, ",\"name\":");
            put_quoted(&mut description, sk.name.as_str());
            put(&mut description, "}");
            put_quoted(&mut names, sk.name.as_str());
            proof {
                let t = self.skills@.take(k as int + 1);
                assert(t.drop_last() =~= self.skills@.take(k as int));
                assert(t.last() == self.skills@[k as int]);
                if k == 0 {
                    assert(self.skills@.take(0) =~= Seq::<Skill>::empty());
                }
                assert(description@ =~= d0 + skill_summary_items(t));
                assert(names@ =~= n0 + skill_name_items(t));
            }
            k = k + 1;
        }
        proof {
            assert(self.skills@.take(self.skills@.len() as int) =~= self.skills@);
        }
        put(&mut description, "]");
        put(&mut names, "],\"type\":\"string\"}");
        if self.resources.len() > 0 {
            put(&mut names, ",\"resource\":{\"description\":\"Optional relative resource path listed by load_skill\",\"type\":\"string\"}");
        }
        put(&mut names, "},\"required\":[\"name\"],\"type\":\"object\"}");
        proof {
            assert(names@ =~= skill_loader_schema(self.entries(), self.package_resources().len() > 0));
        }
        crate::models::Tool {
            id: key.clone(),
            workspace_id: text(workspace),
            version: 1,
            schema_version: crate::models::SCHEMA_VERSION,
            name: text("load_skill"),
            description,
            input_schema: names,
            output_schema: None,
            execution: crate::models::Execution::Registered { key },
            credential_ref: None,
            policy_ref: text(policy),
            effect: crate::models::Effect::Read,
            created_at: 0,
        }
    }
}

} // verus!
