//! The entity-page writer: typed operations applied to a page, their
//! routing to target pages, and the links between co-occurring entities.
use vstd::prelude::*;
use crate::domain::{
    Claim, ClaimView, Contradiction, Entity, EntityPage, FactEntry, FactView, HistoryEntry,
    HistoryView, LinkEntry, LinkView, PageView, PatchOp, ProvView, Provenance, opt_str_view,
    strs_view,
};
use crate::hash::{hex_encode, hex_lower};
use crate::text::{chars_of, extend_chars, extend_str, str_eq, string_of};

verus! {

// ---------------------------------------------------------------------------
// Views of operations
// ---------------------------------------------------------------------------

pub ghost struct EntityView {
    pub name: Seq<char>,
    pub kind: Seq<char>,
    pub aliases: Seq<Seq<char>>,
}

impl View for Entity {
    type V = EntityView;

    open spec fn view(&self) -> EntityView {
        EntityView { name: self.name@, kind: self.kind@, aliases: strs_view(self.aliases@) }
    }
}

pub ghost enum OpView {
    CreatePage { entity: EntityView, summary: Seq<char> },
    AppendFact { fact: Seq<char>, claim: ClaimView },
    UpdateFact {
        fact_id: Seq<char>,
        new_fact: Seq<char>,
        claim: ClaimView,
        target_slug: Option<Seq<char>>,
    },
    SupersedeFact {
        fact_id: Seq<char>,
        new_fact: Seq<char>,
        claim: ClaimView,
        target_slug: Option<Seq<char>>,
    },
    FlagContradiction {
        fact_id: Seq<char>,
        conflicting: ClaimView,
        note: Seq<char>,
        target_slug: Option<Seq<char>>,
    },
    AddLink { target_slug: Seq<char>, relation: Option<Seq<char>> },
}

impl View for PatchOp {
    type V = OpView;

    open spec fn view(&self) -> OpView {
        match self {
            PatchOp::CreatePage { entity, summary } => OpView::CreatePage {
                entity: entity@,
                summary: summary@,
            },
            PatchOp::AppendFact { fact, claim } => OpView::AppendFact {
                fact: fact@,
                claim: claim@,
            },
            PatchOp::UpdateFact { fact_id, new_fact, claim, target_slug } => OpView::UpdateFact {
                fact_id: fact_id@,
                new_fact: new_fact@,
                claim: claim@,
                target_slug: opt_str_view(*target_slug),
            },
            PatchOp::SupersedeFact { fact_id, new_fact, claim, target_slug } =>
                OpView::SupersedeFact {
                fact_id: fact_id@,
                new_fact: new_fact@,
                claim: claim@,
                target_slug: opt_str_view(*target_slug),
            },
            PatchOp::FlagContradiction { fact_id, conflicting, note, target_slug } =>
                OpView::FlagContradiction {
                fact_id: fact_id@,
                conflicting: conflicting@,
                note: note@,
                target_slug: opt_str_view(*target_slug),
            },
            PatchOp::AddLink { target_slug, relation } => OpView::AddLink {
                target_slug: target_slug@,
                relation: opt_str_view(*relation),
            },
        }
    }
}

// ---------------------------------------------------------------------------
// The meaning of one operation
// ---------------------------------------------------------------------------

/// The provenance a claim gives a fact.
pub open spec fn prov_of(c: ClaimView) -> ProvView {
    ProvView { source_id: c.source_id, start: c.char_start, end: c.char_end }
}

/// A fact identifier as the writer makes it: `f` and 32 lower-case
/// hexadecimal digits of a random version-4 UUID.
pub open spec fn fresh_fact_id(id: Seq<char>) -> bool {
    exists|b: Seq<u8>| b.len() == 16 && id == seq!['f'] + hex_lower(b)
}

/// The index of the first fact at or after `i` with the given id.
pub open spec fn fact_index_from(facts: Seq<FactView>, id: Seq<char>, i: int) -> Option<int>
    decreases facts.len() - i,
{
    if i < 0 || i >= facts.len() {
        None
    } else if facts[i].id == id {
        Some(i)
    } else {
        fact_index_from(facts, id, i + 1)
    }
}

pub open spec fn fact_index(facts: Seq<FactView>, id: Seq<char>) -> Option<int> {
    fact_index_from(facts, id, 0)
}

pub proof fn lemma_fact_index_from(facts: Seq<FactView>, id: Seq<char>, i: int)
    requires
        0 <= i,
    ensures
        match fact_index_from(facts, id, i) {
            Some(j) => i <= j < facts.len() && facts[j].id == id && forall|k: int|
                i <= k < j ==> facts[k].id != id,
            None => forall|k: int| i <= k < facts.len() ==> facts[k].id != id,
        },
    decreases facts.len() - i,
{
    if i < facts.len() && facts[i].id != id {
        lemma_fact_index_from(facts, id, i + 1);
    }
}

/// Adds a source id unless the page already lists it.
pub open spec fn with_source(p: PageView, id: Seq<char>) -> PageView {
    if p.sources.contains(id) {
        p
    } else {
        PageView { sources: p.sources.push(id), ..p }
    }
}

/// Adds each new alias that is not yet listed, in order.
pub open spec fn add_aliases(a: Seq<Seq<char>>, new: Seq<Seq<char>>) -> Seq<Seq<char>>
    decreases new.len(),
{
    if new.len() == 0 {
        a
    } else {
        let b = add_aliases(a, new.drop_last());
        if b.contains(new.last()) {
            b
        } else {
            b.push(new.last())
        }
    }
}

/// The text of a contradiction note.
pub open spec fn contradiction_note(
    facts: Seq<FactView>,
    fact_id: Seq<char>,
    note: Seq<char>,
    source_id: Seq<char>,
) -> Seq<char> {
    let existing = match fact_index(facts, fact_id) {
        Some(i) => seq!['"'] + facts[i].text + seq!['"'],
        None => "fact "@ + fact_id,
    };
    existing + " \u{2194} \""@ + note + "\" (src:"@ + source_id
        + "). \u{5f85}\u{4eba}\u{5de5}\u{88c1}\u{51b3}\u{3002}"@
}

/// The page after one operation; `fresh` is the id a new fact receives.
pub open spec fn apply_spec(p: PageView, op: OpView, now: Seq<char>, fresh: Seq<char>) -> PageView {
    match op {
        OpView::CreatePage { entity, summary } => PageView {
            title: entity.name,
            kind: entity.kind,
            aliases: add_aliases(p.aliases, entity.aliases),
            summary: if p.summary.len() == 0 {
                summary
            } else {
                p.summary
            },
            ..p
        },
        OpView::AppendFact { fact, claim } => with_source(
            PageView {
                facts: p.facts.push(FactView { id: fresh, text: fact, prov: prov_of(claim) }),
                ..p
            },
            claim.source_id,
        ),
        OpView::UpdateFact { fact_id, new_fact, claim, .. } => with_source(
            match fact_index(p.facts, fact_id) {
                Some(i) => PageView {
                    facts: p.facts.update(
                        i,
                        FactView { id: fresh, text: new_fact, prov: prov_of(claim) },
                    ),
                    history: p.history.push(
                        HistoryView {
                            id: p.facts[i].id,
                            text: p.facts[i].text,
                            prov: p.facts[i].prov,
                            superseded_at: now,
                        },
                    ),
                    ..p
                },
                None => PageView {
                    facts: p.facts.push(
                        FactView { id: fresh, text: new_fact, prov: prov_of(claim) },
                    ),
                    ..p
                },
            },
            claim.source_id,
        ),
        OpView::SupersedeFact { fact_id, new_fact, claim, .. } => with_source(
            match fact_index(p.facts, fact_id) {
                Some(i) => PageView {
                    facts: p.facts.remove(i).push(
                        FactView { id: fresh, text: new_fact, prov: prov_of(claim) },
                    ),
                    history: p.history.push(
                        HistoryView {
                            id: p.facts[i].id,
                            text: p.facts[i].text,
                            prov: p.facts[i].prov,
                            superseded_at: now,
                        },
                    ),
                    ..p
                },
                None => PageView {
                    facts: p.facts.push(
                        FactView { id: fresh, text: new_fact, prov: prov_of(claim) },
                    ),
                    ..p
                },
            },
            claim.source_id,
        ),
        OpView::FlagContradiction { fact_id, conflicting, note, .. } => with_source(
            PageView {
                contradictions: p.contradictions.push(
                    contradiction_note(p.facts, fact_id, note, conflicting.source_id),
                ),
                ..p
            },
            conflicting.source_id,
        ),
        OpView::AddLink { target_slug, relation } => if exists|i: int|
            0 <= i < p.links.len() && (#[trigger] p.links[i]).target_slug == target_slug {
            p
        } else {
            PageView { links: p.links.push(LinkView { target_slug, relation }), ..p }
        },
    }
}


// ---------------------------------------------------------------------------
// Executable operations
// ---------------------------------------------------------------------------

/// Sixteen bytes of a random version-4 UUID.
/// Wraps `uuid::Uuid::new_v4`; its bytes are random, so the contract claims
/// only their number, sixteen.
#[verifier::external_body]
fn uuid_v4_bytes() -> (r: Vec<u8>)
    ensures
        r@.len() == 16,
{
    uuid::Uuid::new_v4().as_bytes().to_vec()
}

/// A fresh fact identifier: `f` followed by the simple (hyphen-free,
/// lower-case hexadecimal) form of a random UUID.
pub fn new_fact_id() -> (r: String)
    ensures
        fresh_fact_id(r@),
{
    let b = uuid_v4_bytes();
    let mut v: Vec<char> = Vec::new();
    v.push('f');
    let h = hex_encode(b.as_slice());
    extend_chars(&mut v, h.as_slice());
    assert(v@ == seq!['f'] + hex_lower(b@));
    string_of(v.as_slice())
}

proof fn lemma_fresh_id_exists()
    ensures
        exists|id: Seq<char>| fresh_fact_id(id),
{
    let b = Seq::new(16, |i: int| 0u8);
    let id = seq!['f'] + hex_lower(b);
    assert(b.len() == 16 && id == seq!['f'] + hex_lower(b));
    assert(fresh_fact_id(id));
}

/// The provenance of a claim.
pub fn prov(c: &Claim) -> (r: Provenance)
    ensures
        r@ == prov_of(c@),
{
    Provenance { source_id: c.source_id.clone(), start: c.char_start, end: c.char_end }
}

/// A new fact from a claim, with the given text or else the claim's text.
pub fn mk_fact(c: &Claim, text: Option<String>) -> (f: FactEntry)
    ensures
        fresh_fact_id(f@.id),
        f@.text == match text {
            Some(t) => t@,
            None => c@.text,
        },
        f@.prov == prov_of(c@),
{
    let t = match text {
        Some(t) => t,
        None => c.text.clone(),
    };
    FactEntry { id: new_fact_id(), text: t, prov: prov(c) }
}

/// Whether a list of strings holds the given string.
pub fn strings_contain(v: &Vec<String>, x: &str) -> (r: bool)
    ensures
        r == strs_view(v@).contains(x@),
{
    let n = v.len();
    for k in 0..n
        invariant
            n == v@.len(),
            forall|j: int| 0 <= j < k ==> v@[j]@ != x@,
    {
        if str_eq(v[k].as_str(), x) {
            assert(strs_view(v@)[k as int] == x@);
            return true;
        }
    }
    assert forall|j: int| 0 <= j < strs_view(v@).len() implies strs_view(v@)[j] != x@ by {
        assert(strs_view(v@)[j] == v@[j]@);
    }
    false
}

proof fn lemma_strs_view_push(v: Seq<String>, s: String)
    ensures
        strs_view(v.push(s)) == strs_view(v).push(s@),
{
    assert(strs_view(v.push(s)) =~= strs_view(v).push(s@));
}

/// Lists a source on a page unless it is listed already.
pub fn add_source(p: &mut EntityPage, id: &str)
    ensures
        final(p)@ == with_source(old(p)@, id@),
{
    if !strings_contain(&p.sources, id) {
        let s = id.to_owned();
        proof {
            lemma_strs_view_push(p.sources@, s);
        }
        p.sources.push(s);
    }
}

/// The index of the first fact with the given id.
pub fn find_fact(facts: &Vec<FactEntry>, id: &str) -> (r: Option<usize>)
    ensures
        match r {
            Some(i) => fact_index(facts@.map_values(|f: FactEntry| f@), id@) == Some(i as int),
            None => fact_index(facts@.map_values(|f: FactEntry| f@), id@).is_none(),
        },
        match r {
            Some(i) => i < facts@.len() && facts@[i as int].id@ == id@,
            None => true,
        },
{
    let ghost fv = facts@.map_values(|f: FactEntry| f@);
    let n = facts.len();
    for k in 0..n
        invariant
            n == facts@.len(),
            fv == facts@.map_values(|f: FactEntry| f@),
            fact_index_from(fv, id@, 0) == fact_index_from(fv, id@, k as int),
    {
        assert(fv[k as int] == facts@[k as int]@);
        if str_eq(facts[k].id.as_str(), id) {
            return Some(k);
        }
    }
    proof {
        lemma_fact_index_from(fv, id@, 0);
    }
    None
}

/// Adds each alias that the page does not list yet.
fn merge_aliases(p: &mut EntityPage, new: Vec<String>)
    ensures
        final(p)@ == (PageView { aliases: add_aliases(old(p)@.aliases, strs_view(new@)), ..old(p)@ }),
{
    let n = new.len();
    for k in 0..n
        invariant
            n == new@.len(),
            p@ == (PageView {
                aliases: add_aliases(old(p)@.aliases, strs_view(new@.take(k as int))),
                ..old(p)@
            }),
    {
        let a = &new[k];
        assert(strs_view(new@.take(k + 1)).drop_last() == strs_view(new@.take(k as int)));
        assert(strs_view(new@.take(k + 1)).last() == a@);
        if !strings_contain(&p.aliases, a.as_str()) {
            let c = a.clone();
            proof {
                lemma_strs_view_push(p.aliases@, c);
            }
            p.aliases.push(c);
        }
    }
    assert(new@.take(n as int) == new@);
}

/// The note recorded for a contradiction.
fn contradiction_text(facts: &Vec<FactEntry>, fact_id: &str, note: &str, source_id: &str) -> (r:
    String)
    ensures
        r@ == contradiction_note(
            facts@.map_values(|f: FactEntry| f@),
            fact_id@,
            note@,
            source_id@,
        ),
{
    let mut v: Vec<char> = Vec::new();
    match find_fact(facts, fact_id) {
        Some(i) => {
            v.push('"');
            extend_str(&mut v, facts[i].text.as_str());
            v.push('"');
        },
        None => {
            extend_str(&mut v, "fact ");
            extend_str(&mut v, fact_id);
        },
    }
    extend_str(&mut v, " \u{2194} \"");
    extend_str(&mut v, note);
    extend_str(&mut v, "\" (src:");
    extend_str(&mut v, source_id);
    extend_str(&mut v, "). \u{5f85}\u{4eba}\u{5de5}\u{88c1}\u{51b3}\u{3002}");
    string_of(v.as_slice())
}

/// Applies one operation to a page. A fact that the operation creates gets
/// a fresh identifier; nothing else is chosen at random.
pub fn apply_op(page: &mut EntityPage, op: PatchOp, now: &str)
    ensures
        exists|fresh: Seq<char>|
            fresh_fact_id(fresh) && #[trigger] apply_spec(old(page)@, op@, now@, fresh)
                == final(page)@,
{
    let ghost op_v = op@;
    let ghost old_v = page@;
    proof {
        lemma_fresh_id_exists();
    }
    let ghost any_id = choose|id: Seq<char>| fresh_fact_id(id);
    match op {
        PatchOp::CreatePage { entity, summary } => {
            page.title = entity.name;
            page.kind = entity.kind;
            merge_aliases(page, entity.aliases);
            if page.summary.as_str().is_empty() {
                page.summary = summary;
            }
            assert(apply_spec(old_v, op_v, now@, any_id) == page@);
        },
        PatchOp::AppendFact { fact, claim } => {
            let f = mk_fact(&claim, Some(fact));
            let ghost fresh = f@.id;
            page.facts.push(f);
            assert(page@.facts =~= old_v.facts.push(f@));
            add_source(page, claim.source_id.as_str());
            assert(apply_spec(old_v, op_v, now@, fresh) == page@);
        },
        PatchOp::UpdateFact { fact_id, new_fact, claim, .. } => {
            let ghost fresh = any_id;
            match find_fact(&page.facts, fact_id.as_str()) {
                Some(i) => {
                    let h = HistoryEntry {
                        id: page.facts[i].id.clone(),
                        text: page.facts[i].text.clone(),
                        prov: Provenance {
                            source_id: page.facts[i].prov.source_id.clone(),
                            start: page.facts[i].prov.start,
                            end: page.facts[i].prov.end,
                        },
                        superseded_at: now.to_owned(),
                    };
                    page.history.push(h);
                    assert(page@.history =~= old_v.history.push(h@));
                    let f = mk_fact(&claim, Some(new_fact));
                    proof {
                        fresh = f@.id;
                    }
                    page.facts.set(i, f);
                    assert(page@.facts =~= old_v.facts.update(i as int, f@));
                },
                None => {
                    let f = mk_fact(&claim, Some(new_fact));
                    proof {
                        fresh = f@.id;
                    }
                    page.facts.push(f);
                    assert(page@.facts =~= old_v.facts.push(f@));
                },
            }
            add_source(page, claim.source_id.as_str());
            assert(apply_spec(old_v, op_v, now@, fresh) == page@);
        },
        PatchOp::SupersedeFact { fact_id, new_fact, claim, .. } => {
            let ghost fresh = any_id;
            match find_fact(&page.facts, fact_id.as_str()) {
                Some(i) => {
                    let old_f = page.facts.remove(i);
                    assert(page@.facts =~= old_v.facts.remove(i as int));
                    let h = HistoryEntry {
                        id: old_f.id,
                        text: old_f.text,
                        prov: old_f.prov,
                        superseded_at: now.to_owned(),
                    };
                    page.history.push(h);
                    assert(page@.history =~= old_v.history.push(h@));
                    let f = mk_fact(&claim, Some(new_fact));
                    proof {
                        fresh = f@.id;
                    }
                    let ghost before = page@.facts;
                    page.facts.push(f);
                    assert(page@.facts =~= before.push(f@));
                },
                None => {
                    let f = mk_fact(&claim, Some(new_fact));
                    proof {
                        fresh = f@.id;
                    }
                    page.facts.push(f);
                    assert(page@.facts =~= old_v.facts.push(f@));
                },
            }
            add_source(page, claim.source_id.as_str());
            assert(apply_spec(old_v, op_v, now@, fresh) == page@);
        },
        PatchOp::FlagContradiction { fact_id, conflicting, note, .. } => {
            let text = contradiction_text(
                &page.facts,
                fact_id.as_str(),
                note.as_str(),
                conflicting.source_id.as_str(),
            );
            let c = Contradiction { note: text };
            page.contradictions.push(c);
            assert(page@.contradictions =~= old_v.contradictions.push(c.note@));
            add_source(page, conflicting.source_id.as_str());
            assert(apply_spec(old_v, op_v, now@, any_id) == page@);
        },
        PatchOp::AddLink { target_slug, relation } => {
            let n = page.links.len();
            let mut found = false;
            for k in 0..n
                invariant
                    n == page.links@.len(),
                    page@ == old_v,
                    !found ==> forall|j: int|
                        0 <= j < k ==> (#[trigger] page@.links[j]).target_slug != target_slug@,
                    found ==> exists|j: int|
                        0 <= j < n && (#[trigger] page@.links[j]).target_slug == target_slug@,
            {
                if !found && str_eq(page.links[k].target_slug.as_str(), target_slug.as_str()) {
                    assert(page@.links[k as int].target_slug == target_slug@);
                    found = true;
                }
            }
            if !found {
                let l = LinkEntry { target_slug, relation };
                page.links.push(l);
                assert(page@.links =~= old_v.links.push(l@));
            }
            assert(apply_spec(old_v, op_v, now@, any_id) == page@);
        },
    }
}


// ---------------------------------------------------------------------------
// Committing operations to pages
// ---------------------------------------------------------------------------

/// The claim an operation rests on, if it rests on one.
pub open spec fn claim_of_spec(op: OpView) -> Option<ClaimView> {
    match op {
        OpView::AppendFact { claim, .. } => Some(claim),
        OpView::UpdateFact { claim, .. } => Some(claim),
        OpView::SupersedeFact { claim, .. } => Some(claim),
        OpView::FlagContradiction { conflicting, .. } => Some(conflicting),
        _ => None,
    }
}

pub fn claim_of(op: &PatchOp) -> (r: Option<&Claim>)
    ensures
        match r {
            Some(c) => claim_of_spec(op@) == Some(c@),
            None => claim_of_spec(op@).is_none(),
        },
{
    match op {
        PatchOp::AppendFact { claim, .. } => Some(claim),
        PatchOp::UpdateFact { claim, .. } => Some(claim),
        PatchOp::SupersedeFact { claim, .. } => Some(claim),
        PatchOp::FlagContradiction { conflicting, .. } => Some(conflicting),
        _ => None,
    }
}

pub open spec fn ops_view(ops: Seq<PatchOp>) -> Seq<OpView> {
    ops.map_values(|o: PatchOp| o@)
}

/// The claims that a batch of operations rests on, in order.
pub open spec fn claims_of_ops(ops: Seq<OpView>) -> Seq<ClaimView>
    decreases ops.len(),
{
    if ops.len() == 0 {
        seq![]
    } else {
        match claim_of_spec(ops.last()) {
            Some(c) => claims_of_ops(ops.drop_last()).push(c),
            None => claims_of_ops(ops.drop_last()),
        }
    }
}

pub fn clone_claim(c: &Claim) -> (r: Claim)
    ensures
        r@ == c@,
{
    Claim {
        id: c.id.clone(),
        text: c.text.clone(),
        span: c.span.clone(),
        source_id: c.source_id.clone(),
        char_start: c.char_start,
        char_end: c.char_end,
    }
}

/// The claims that a batch of operations rests on, in order; the writer
/// checks each against its source before it applies the batch.
pub fn claims_to_check(ops: &Vec<PatchOp>) -> (r: Vec<Claim>)
    ensures
        r@.map_values(|c: Claim| c@) == claims_of_ops(ops_view(ops@)),
{
    let mut r: Vec<Claim> = Vec::new();
    let n = ops.len();
    for i in 0..n
        invariant
            n == ops@.len(),
            r@.map_values(|c: Claim| c@) == claims_of_ops(ops_view(ops@.take(i as int))),
    {
        assert(ops_view(ops@.take(i + 1)).drop_last() == ops_view(ops@.take(i as int)));
        assert(ops_view(ops@.take(i + 1)).last() == ops@[i as int]@);
        match claim_of(&ops[i]) {
            Some(c) => {
                let c2 = clone_claim(c);
                let ghost before = r@;
                r.push(c2);
                assert(r@.map_values(|c: Claim| c@) =~= before.map_values(|c: Claim| c@).push(
                    c2@,
                ));
            },
            None => {},
        }
    }
    assert(ops@.take(n as int) == ops@);
    r
}

/// The outcome of committing a batch of operations to one page.
#[derive(Debug, Clone, PartialEq, Eq)]
pub enum CommitStatus {
    Committed,
    Stale,
    Invalid(String),
}

/// Where committing a routed batch stands: the group to commit next, or the
/// batch's outcome.
#[derive(Debug, Clone, PartialEq, Eq)]
pub enum RoutedStep {
    Group(usize),
    Finish(CommitStatus),
}

/// The first step of committing `n` routed groups: the first group, or, for
/// an empty batch, success.
pub fn first_group(n: usize) -> (r: RoutedStep)
    ensures
        n > 0 ==> r == RoutedStep::Group(0),
        n == 0 ==> r == RoutedStep::Finish(CommitStatus::Committed),
{
    if n > 0 {
        RoutedStep::Group(0)
    } else {
        RoutedStep::Finish(CommitStatus::Committed)
    }
}

/// The step after group `k` of `n` was committed with `status`: the first
/// outcome other than a commit ends the batch with it; otherwise the next
/// group, and after the last one, success.
pub fn after_group(k: usize, n: usize, status: CommitStatus) -> (r: RoutedStep)
    requires
        k < n,
    ensures
        status != CommitStatus::Committed ==> r == RoutedStep::Finish(status),
        status == CommitStatus::Committed && k + 1 < n ==> r == RoutedStep::Group((k + 1) as usize),
        status == CommitStatus::Committed && k + 1 == n ==> r == RoutedStep::Finish(CommitStatus::Committed),
{
    match status {
        CommitStatus::Committed => if k + 1 < n {
            RoutedStep::Group(k + 1)
        } else {
            RoutedStep::Finish(CommitStatus::Committed)
        },
        other => RoutedStep::Finish(other),
    }
}

/// The writer's check of claims against their sources. `spans[i]` is the
/// result of reading the source range of `claims[i]`. The first claim whose
/// read fails gives that error; otherwise the first claim whose excerpt,
/// whitespace-normalised, differs from the source text names the batch
/// invalid; otherwise the batch is valid (`Ok(None)`).
pub open spec fn claim_check(claims: Seq<ClaimView>, spans: Seq<Result<Seq<char>, Seq<char>>>) -> Result<
    Option<Seq<char>>,
    Seq<char>,
>
    decreases claims.len(),
{
    if claims.len() == 0 || spans.len() == 0 {
        Ok(None)
    } else {
        match spans[0] {
            Err(e) => Err(e),
            Ok(raw) => if crate::text::normalized(raw) != crate::text::normalized(claims[0].span) {
                Ok(Some(claims[0].id))
            } else {
                claim_check(claims.drop_first(), spans.drop_first())
            },
        }
    }
}

pub open spec fn result_view(r: Result<String, String>) -> Result<Seq<char>, Seq<char>> {
    match r {
        Ok(s) => Ok(s@),
        Err(e) => Err(e@),
    }
}

pub fn check_claims(claims: &Vec<Claim>, spans: &Vec<Result<String, String>>) -> (r: Result<
    Option<String>,
    String,
>)
    requires
        claims@.len() == spans@.len(),
    ensures
        match (r, claim_check(
            claims@.map_values(|c: Claim| c@),
            spans@.map_values(|x: Result<String, String>| result_view(x)),
        )) {
            (Ok(Some(a)), Ok(Some(b))) => a@ == b,
            (Ok(None), Ok(None)) => true,
            (Err(a), Err(b)) => a@ == b,
            _ => false,
        },
{
    let ghost cv = claims@.map_values(|c: Claim| c@);
    let ghost sv = spans@.map_values(|x: Result<String, String>| result_view(x));
    let n = claims.len();
    assert(cv.skip(0) == cv && sv.skip(0) == sv);
    for i in 0..n
        invariant
            n == claims@.len(),
            n == spans@.len(),
            cv == claims@.map_values(|c: Claim| c@),
            sv == spans@.map_values(|x: Result<String, String>| result_view(x)),
            claim_check(cv, sv) == claim_check(cv.skip(i as int), sv.skip(i as int)),
    {
        let ghost c = cv.skip(i as int);
        let ghost t = sv.skip(i as int);
        assert(c[0] == claims@[i as int]@);
        assert(t[0] == result_view(spans@[i as int]));
        assert(c.drop_first() == cv.skip(i + 1));
        assert(t.drop_first() == sv.skip(i + 1));
        match &spans[i] {
            Err(e) => {
                return Err(e.clone());
            },
            Ok(raw) => {
                let a = crate::text::normalize_space(raw.as_str());
                let b = crate::text::normalize_space(claims[i].span.as_str());
                if !str_eq(a.as_str(), b.as_str()) {
                    return Ok(Some(claims[i].id.clone()));
                }
            },
        }
    }
    assert(cv.skip(n as int).len() == 0);
    Ok(None)
}

/// The writer's checks on a batch for one page, before anything is written:
/// `Stale` when the page's hash (`current`) is no longer `base`, the one the
/// batch was proposed against; otherwise what `check_claims` finds: a read
/// error, or `Invalid` with the first claim whose excerpt does not match;
/// `None` when the batch may be written.
pub fn writer_checks(base: &str, current: &str, claims: &Vec<Claim>, spans: &Vec<Result<String, String>>) -> (r:
    Result<Option<CommitStatus>, String>)
    requires
        claims@.len() == spans@.len(),
    ensures
        base@ != current@ ==> r == Ok::<Option<CommitStatus>, String>(Some(CommitStatus::Stale)),
        base@ == current@ ==> match (r, claim_check(
            claims@.map_values(|c: Claim| c@),
            spans@.map_values(|x: Result<String, String>| result_view(x)),
        )) {
            (Ok(Some(CommitStatus::Invalid(a))), Ok(Some(b))) => a@ == b,
            (Ok(None), Ok(None)) => true,
            (Err(a), Err(b)) => a@ == b,
            _ => false,
        },
{
    if !str_eq(base, current) {
        return Ok(Some(CommitStatus::Stale));
    }
    match check_claims(claims, spans) {
        Err(e) => Err(e),
        Ok(Some(id)) => Ok(Some(CommitStatus::Invalid(id))),
        Ok(None) => Ok(None),
    }
}

/// A claim is written only when its excerpt validates: when the writer's
/// check passes a batch, every claim's source range was read, and the text
/// read equals the claim's excerpt once whitespace is normalised.
pub proof fn law_valid_batch_matches_sources(claims: Seq<ClaimView>, spans: Seq<Result<Seq<char>, Seq<char>>>)
    requires
        claims.len() == spans.len(),
        claim_check(claims, spans) == Ok::<Option<Seq<char>>, Seq<char>>(None),
    ensures
        forall|k: int|
            0 <= k < claims.len() ==> (#[trigger] spans[k]) is Ok && crate::text::normalized(spans[k]->Ok_0)
                == crate::text::normalized(claims[k].span),
    decreases claims.len(),
{
    if claims.len() > 0 {
        law_valid_batch_matches_sources(claims.drop_first(), spans.drop_first());
        assert forall|k: int| 0 <= k < claims.len() implies (#[trigger] spans[k]) is Ok
            && crate::text::normalized(spans[k]->Ok_0) == crate::text::normalized(claims[k].span) by {
            if k > 0 {
                assert(spans[k] == spans.drop_first()[k - 1]);
                assert(claims[k] == claims.drop_first()[k - 1]);
            }
        }
    }
}

/// A blank page for a slug that has none yet.
pub open spec fn blank_page(slug: Seq<char>, now: Seq<char>) -> PageView {
    PageView {
        slug,
        title: slug,
        kind: "concept"@,
        aliases: seq![],
        sources: seq![],
        updated: now,
        summary: seq![],
        facts: seq![],
        history: seq![],
        contradictions: seq![],
        links: seq![],
    }
}

pub fn new_page(slug: &str, now: &str) -> (p: EntityPage)
    ensures
        p@ == blank_page(slug@, now@),
{
    let p = EntityPage {
        slug: slug.to_owned(),
        title: slug.to_owned(),
        kind: "concept".to_owned(),
        aliases: Vec::new(),
        sources: Vec::new(),
        updated: now.to_owned(),
        summary: String::new(),
        facts: Vec::new(),
        history: Vec::new(),
        contradictions: Vec::new(),
        links: Vec::new(),
    };
    assert(p@.aliases =~= seq![]);
    assert(p@.sources =~= seq![]);
    assert(p@.facts =~= seq![]);
    assert(p@.history =~= seq![]);
    assert(p@.contradictions =~= seq![]);
    assert(p@.links =~= seq![]);
    p
}

/// A batch of operations applied in order; `ids[k]` is the identifier a
/// fact created by the `k`-th operation receives.
pub open spec fn apply_all(p: PageView, ops: Seq<OpView>, now: Seq<char>, ids: Seq<Seq<char>>) -> PageView
    decreases ops.len(),
{
    if ops.len() == 0 {
        p
    } else {
        apply_spec(apply_all(p, ops.drop_last(), now, ids), ops.last(), now, ids[ops.len() - 1])
    }
}

/// After a batch: a page whose summary is empty or still the placeholder of
/// page creation takes its first fact as summary, and the page is dated.
pub open spec fn finish_spec(p: PageView, now: Seq<char>) -> PageView {
    let summary = if p.summary.len() == 0 || crate::text::contains(
        crate::text::lowercase(p.summary),
        "creating page"@,
    ) {
        if p.facts.len() > 0 {
            p.facts[0].text
        } else {
            seq![]
        }
    } else {
        p.summary
    };
    PageView { summary, updated: now, ..p }
}

/// The page a commit starts from: the stored one, or a blank one.
pub open spec fn start_page(page: Option<EntityPage>, slug: Seq<char>, now: Seq<char>) -> PageView {
    match page {
        Some(p) => p@,
        None => blank_page(slug, now),
    }
}

pub open spec fn all_fresh(ids: Seq<Seq<char>>) -> bool {
    forall|k: int| 0 <= k < ids.len() ==> fresh_fact_id(#[trigger] ids[k])
}

/// The page that a valid batch of operations produces: the stored page (or a
/// blank one), with the operations applied in order, then finished.
pub fn commit_page(page: Option<EntityPage>, slug: &str, ops: Vec<PatchOp>, now: &str) -> (r:
    EntityPage)
    ensures
        exists|ids: Seq<Seq<char>>|
            ids.len() == ops@.len() && all_fresh(ids) && #[trigger] finish_spec(
                apply_all(start_page(page, slug@, now@), ops_view(ops@), now@, ids),
                now@,
            ) == r@,
{
    let mut p = match page {
        Some(p) => p,
        None => new_page(slug, now),
    };
    let ghost base = p@;
    assert(base == start_page(page, slug@, now@));
    let ghost all = ops_view(ops@);
    let ghost mut ids: Seq<Seq<char>> = seq![];
    let mut ops = ops;
    let mut i: usize = 0;
    let n = ops.len();
    assert(all.skip(0) == all);
    assert(all.take(0) =~= Seq::<OpView>::empty());
    while ops.len() > 0
        invariant
            n == all.len(),
            i + ops@.len() == n,
            ops_view(ops@) == all.skip(i as int),
            ids.len() == i,
            all_fresh(ids),
            p@ == apply_all(base, all.take(i as int), now@, ids),
        decreases ops@.len(),
    {
        let ghost before_ops = ops@;
        let op = ops.remove(0);
        let ghost opv = op@;
        proof {
            assert(ops_view(before_ops)[0] == before_ops[0]@);
            assert(all.skip(i as int)[0] == all[i as int]);
            assert(opv == all[i as int]);
            assert forall|k: int| 0 <= k < ops@.len() implies ops_view(ops@)[k] == all.skip(i + 1)[k] by {
                assert(ops@[k] == before_ops[k + 1]);
                assert(ops_view(before_ops)[k + 1] == before_ops[k + 1]@);
            }
            assert(ops_view(ops@) =~= all.skip(i + 1));
        }
        let ghost pre = p@;
        apply_op(&mut p, op, now);
        proof {
            let f = choose|f: Seq<char>| fresh_fact_id(f) && #[trigger] apply_spec(pre, opv, now@, f) == p@;
            let ids2 = ids.push(f);
            lemma_apply_all_ids(base, all.take(i as int), now@, ids, ids2);
            let t = all.take(i + 1);
            assert(t.drop_last() == all.take(i as int));
            assert(t.last() == opv);
            assert(ids2[t.len() - 1] == f);
            assert(apply_all(base, t, now@, ids2) == p@);
            assert forall|k: int| 0 <= k < ids2.len() implies fresh_fact_id(#[trigger] ids2[k]) by {
                if k < ids.len() {
                    assert(ids2[k] == ids[k]);
                }
            }
            ids = ids2;
        }
        i = i + 1;
    }
    assert(all.take(n as int) == all);
    let ghost applied = p@;
    let marker: Vec<char> = chars_of("creating page");
    let lower = crate::text::to_lowercase(p.summary.as_str());
    let lower_v = chars_of(lower.as_str());
    if p.summary.as_str().is_empty() || crate::text::contains_chars(lower_v.as_slice(), marker.as_slice()) {
        if p.facts.len() > 0 {
            p.summary = p.facts[0].text.clone();
        } else {
            p.summary = String::new();
        }
    }
    p.updated = now.to_owned();
    assert(finish_spec(applied, now@) == p@);
    assert(finish_spec(apply_all(base, all, now@, ids), now@) == p@);
    p
}

pub proof fn lemma_apply_all_ids(
    p: PageView,
    ops: Seq<OpView>,
    now: Seq<char>,
    a: Seq<Seq<char>>,
    b: Seq<Seq<char>>,
)
    requires
        a.len() >= ops.len(),
        b.len() >= ops.len(),
        forall|k: int| 0 <= k < ops.len() ==> a[k] == b[k],
    ensures
        apply_all(p, ops, now, a) == apply_all(p, ops, now, b),
    decreases ops.len(),
{
    if ops.len() > 0 {
        lemma_apply_all_ids(p, ops.drop_last(), now, a, b);
    }
}


// ---------------------------------------------------------------------------
// Routing operations to pages
// ---------------------------------------------------------------------------

/// The page an operation writes to: its explicit target for fact updates,
/// supersessions and contradictions, otherwise the page being reconciled.
pub open spec fn target_of(op: OpView, current: Seq<char>) -> Seq<char> {
    match op {
        OpView::UpdateFact { target_slug: Some(t), .. } => t,
        OpView::SupersedeFact { target_slug: Some(t), .. } => t,
        OpView::FlagContradiction { target_slug: Some(t), .. } => t,
        _ => current,
    }
}

/// The operations of a batch that write to `slug`, in order.
pub open spec fn ops_for(ops: Seq<OpView>, slug: Seq<char>, current: Seq<char>) -> Seq<OpView>
    decreases ops.len(),
{
    if ops.len() == 0 {
        seq![]
    } else if target_of(ops.last(), current) == slug {
        ops_for(ops.drop_last(), slug, current).push(ops.last())
    } else {
        ops_for(ops.drop_last(), slug, current)
    }
}

pub proof fn lemma_ops_for_none(ops: Seq<OpView>, slug: Seq<char>, current: Seq<char>)
    requires
        forall|k: int| 0 <= k < ops.len() ==> target_of(#[trigger] ops[k], current) != slug,
    ensures
        ops_for(ops, slug, current) == Seq::<OpView>::empty(),
    decreases ops.len(),
{
    if ops.len() > 0 {
        assert forall|k: int| 0 <= k < ops.drop_last().len() implies target_of(
            #[trigger] ops.drop_last()[k],
            current,
        ) != slug by {
            assert(ops.drop_last()[k] == ops[k]);
        }
        lemma_ops_for_none(ops.drop_last(), slug, current);
    }
}

fn target_slug_of(op: &PatchOp, current: &str) -> (r: String)
    ensures
        r@ == target_of(op@, current@),
{
    match op {
        PatchOp::UpdateFact { target_slug: Some(t), .. } => t.clone(),
        PatchOp::SupersedeFact { target_slug: Some(t), .. } => t.clone(),
        PatchOp::FlagContradiction { target_slug: Some(t), .. } => t.clone(),
        _ => current.to_owned(),
    }
}

/// A well-formed routing of a batch: groups keyed by target page, keys in
/// strictly increasing order, each group the operations for its key in batch
/// order, and every operation in some group.
pub open spec fn routed(groups: Seq<(Seq<char>, Seq<OpView>)>, ops: Seq<OpView>, current: Seq<char>) -> bool {
    &&& forall|a: int, b: int|
        0 <= a < b < groups.len() ==> crate::text::str_lt(#[trigger] groups[a].0, #[trigger] groups[b].0)
    &&& forall|a: int|
        0 <= a < groups.len() ==> (#[trigger] groups[a]).1 == ops_for(ops, groups[a].0, current)
            && groups[a].1.len() > 0
    &&& forall|k: int|
        0 <= k < ops.len() ==> exists|a: int|
            0 <= a < groups.len() && (#[trigger] groups[a]).0 == target_of(#[trigger] ops[k], current)
}

pub open spec fn groups_view(g: Seq<(String, Vec<PatchOp>)>) -> Seq<(Seq<char>, Seq<OpView>)> {
    g.map_values(|x: (String, Vec<PatchOp>)| (x.0@, ops_view(x.1@)))
}

/// Groups a batch of operations by the page each writes to, pages in
/// ascending slug order, as `commit_routed` commits them.
pub fn route_ops(current: &str, ops: Vec<PatchOp>) -> (r: Vec<(String, Vec<PatchOp>)>)
    ensures
        routed(groups_view(r@), ops_view(ops@), current@),
{
    let ghost all = ops_view(ops@);
    let mut groups: Vec<(String, Vec<PatchOp>)> = Vec::new();
    let mut ops = ops;
    let mut i: usize = 0;
    let n = ops.len();
    assert(all.skip(0) == all);
    while ops.len() > 0
        invariant
            n == all.len(),
            i + ops@.len() == n,
            ops_view(ops@) == all.skip(i as int),
            routed(groups_view(groups@), all.take(i as int), current@),
        decreases ops@.len(),
    {
        let ghost before_ops = ops@;
        let op = ops.remove(0);
        let ghost opv = op@;
        let ghost gv = groups_view(groups@);
        let ghost done = all.take(i as int);
        let ghost done2 = all.take(i + 1);
        proof {
            assert(ops_view(before_ops)[0] == before_ops[0]@);
            assert(opv == all[i as int]);
            assert forall|k: int| 0 <= k < ops@.len() implies ops_view(ops@)[k] == all.skip(i + 1)[k] by {
                assert(ops@[k] == before_ops[k + 1]);
                assert(ops_view(before_ops)[k + 1] == before_ops[k + 1]@);
            }
            assert(ops_view(ops@) =~= all.skip(i + 1));
            assert(done2.drop_last() == done);
            assert(done2.last() == opv);
        }
        let key = target_slug_of(&op, current);
        let key_v = chars_of(key.as_str());
        // position of the first group whose key is not below `key`
        let mut p: usize = 0;
        while p < groups.len() && crate::text::str_less(groups[p].0.as_str(), key.as_str())
            invariant
                0 <= p <= groups@.len(),
                gv == groups_view(groups@),
                forall|a: int| 0 <= a < p ==> crate::text::str_lt(#[trigger] gv[a].0, key@),
            decreases groups@.len() - p,
        {
            assert(gv[p as int].0 == groups@[p as int].0@);
            p = p + 1;
        }
        let same = p < groups.len() && str_eq(groups[p].0.as_str(), key.as_str());
        if p < groups.len() {
            assert(gv[p as int].0 == groups@[p as int].0@);
        }
        if same {
            let mut g = groups.remove(p);
            let ghost gold = g;
            g.1.push(op);
            assert(ops_view(g.1@) =~= ops_view(gold.1@).push(opv));
            groups.insert(p, g);
            proof {
                let gv2 = groups_view(groups@);
                assert(gv2 =~= gv.update(p as int, (gv[p as int].0, gv[p as int].1.push(opv))));
                assert forall|a: int| 0 <= a < gv2.len() implies (#[trigger] gv2[a]).1 == ops_for(
                    done2,
                    gv2[a].0,
                    current@,
                ) && gv2[a].1.len() > 0 by {
                    assert(ops_for(done2, gv2[a].0, current@) == if target_of(opv, current@) == gv2[a].0 {
                        ops_for(done, gv2[a].0, current@).push(opv)
                    } else {
                        ops_for(done, gv2[a].0, current@)
                    });
                    if a != p {
                        if gv[a].0 == key@ {
                            if a < p {
                                crate::text::lemma_str_lt_irrefl(key@);
                            } else {
                                crate::text::lemma_str_lt_irrefl(key@);
                            }
                        }
                    }
                }
                assert forall|k: int| 0 <= k < done2.len() implies exists|a: int|
                    0 <= a < gv2.len() && (#[trigger] gv2[a]).0 == target_of(#[trigger] done2[k], current@) by {
                    if k < i {
                        assert(done2[k] == done[k]);
                        let a = choose|a: int| 0 <= a < gv.len() && (#[trigger] gv[a]).0 == target_of(done[k], current@);
                        assert(gv2[a].0 == gv[a].0);
                    } else {
                        assert(gv2[p as int].0 == key@);
                    }
                }
            }
        } else {
            let mut v: Vec<PatchOp> = Vec::new();
            v.push(op);
            let g = (key, v);
            assert(ops_view(v@) =~= seq![opv]);
            groups.insert(p, g);
            proof {
                let gv2 = groups_view(groups@);
                assert(gv2 =~= gv.insert(p as int, (key@, seq![opv])));
                if p < gv.len() {
                    assert(gv[p as int].0 != key@);
                    crate::text::lemma_str_lt_total(gv[p as int].0, key@);
                }
                assert forall|a: int, b: int| 0 <= a < b < gv2.len() implies crate::text::str_lt(
                    #[trigger] gv2[a].0,
                    #[trigger] gv2[b].0,
                ) by {
                    if b < p {
                    } else if b == p {
                    } else if a < p {
                        assert(gv2[b].0 == gv[b - 1].0);
                        if b - 1 > p {
                            assert(crate::text::str_lt(gv[p as int].0, gv[b - 1].0));
                            crate::text::lemma_str_lt_trans(key@, gv[p as int].0, gv[b - 1].0);
                        }
                        crate::text::lemma_str_lt_trans(gv[a].0, key@, gv[b - 1].0);
                    } else if a == p {
                        assert(gv2[b].0 == gv[b - 1].0);
                        if b - 1 > p {
                            crate::text::lemma_str_lt_trans(key@, gv[p as int].0, gv[b - 1].0);
                        }
                    } else {
                        assert(gv2[a].0 == gv[a - 1].0);
                        assert(gv2[b].0 == gv[b - 1].0);
                    }
                }
                assert forall|k: int| 0 <= k < done.len() implies target_of(
                    #[trigger] done[k],
                    current@,
                ) != key@ by {
                    let a = choose|a: int| 0 <= a < gv.len() && (#[trigger] gv[a]).0 == target_of(done[k], current@);
                    if a < p {
                        crate::text::lemma_str_lt_irrefl(key@);
                    } else {
                    }
                }
                lemma_ops_for_none(done, key@, current@);
                assert forall|a: int| 0 <= a < gv2.len() implies (#[trigger] gv2[a]).1 == ops_for(
                    done2,
                    gv2[a].0,
                    current@,
                ) && gv2[a].1.len() > 0 by {
                    if a < p {
                        if gv[a].0 == key@ {
                            crate::text::lemma_str_lt_irrefl(key@);
                        }
                    } else if a == p {
                        assert(seq![opv] =~= Seq::<OpView>::empty().push(opv));
                    } else {
                        assert(gv2[a] == gv[a - 1]);
                        if gv[a - 1].0 == key@ {
                            if a - 1 > p {
                                crate::text::lemma_str_lt_trans(key@, gv[p as int].0, gv[a - 1].0);
                            }
                            crate::text::lemma_str_lt_irrefl(key@);
                        }
                    }
                }
                assert forall|k: int| 0 <= k < done2.len() implies exists|a: int|
                    0 <= a < gv2.len() && (#[trigger] gv2[a]).0 == target_of(#[trigger] done2[k], current@) by {
                    if k < i {
                        assert(done2[k] == done[k]);
                        let a = choose|a: int| 0 <= a < gv.len() && (#[trigger] gv[a]).0 == target_of(done[k], current@);
                        if a < p {
                            assert(gv2[a].0 == gv[a].0);
                        } else {
                            assert(gv2[a + 1].0 == gv[a].0);
                        }
                    } else {
                        assert(gv2[p as int].0 == key@);
                    }
                }
            }
        }
        i = i + 1;
    }
    assert(all.take(n as int) == all);
    groups
}


// ---------------------------------------------------------------------------
// Cross-linking
// ---------------------------------------------------------------------------

/// The page links to `target` already.
pub open spec fn links_to(links: Seq<LinkView>, target: Seq<char>) -> bool {
    exists|i: int| 0 <= i < links.len() && (#[trigger] links[i]).target_slug == target
}

/// The slugs, in order, that a page must still link to: the other touched
/// slugs it does not link to yet.
pub open spec fn missing_links(slugs: Seq<Seq<char>>, slug: Seq<char>, links: Seq<LinkView>) -> Seq<Seq<char>>
    decreases slugs.len(),
{
    if slugs.len() == 0 {
        seq![]
    } else {
        let rest = missing_links(slugs.drop_last(), slug, links);
        if slugs.last() != slug && !links_to(links, slugs.last()) {
            rest.push(slugs.last())
        } else {
            rest
        }
    }
}

pub open spec fn is_plain_link(op: OpView, target: Seq<char>) -> bool {
    op == OpView::AddLink { target_slug: target, relation: None }
}

/// The links that `cross_link` adds to one page of entities that appeared
/// together in a source: none when fewer than two pages were touched,
/// otherwise a link without relation to every other touched page that the
/// page does not link to yet.
pub fn cross_link_ops(slugs: &Vec<String>, slug: &str, page: &EntityPage) -> (r: Vec<PatchOp>)
    ensures
        slugs@.len() < 2 ==> r@.len() == 0,
        slugs@.len() >= 2 ==> ({
            let m = missing_links(strs_view(slugs@), slug@, page@.links);
            &&& r@.len() == m.len()
            &&& forall|k: int| 0 <= k < m.len() ==> is_plain_link(#[trigger] r@[k]@, m[k])
        }),
{
    let mut r: Vec<PatchOp> = Vec::new();
    if slugs.len() < 2 {
        return r;
    }
    let ghost sv = strs_view(slugs@);
    let n = slugs.len();
    for i in 0..n
        invariant
            n == slugs@.len(),
            sv == strs_view(slugs@),
            r@.len() == missing_links(sv.take(i as int), slug@, page@.links).len(),
            forall|k: int| 0 <= k < r@.len() ==> is_plain_link(
                #[trigger] r@[k]@,
                missing_links(sv.take(i as int), slug@, page@.links)[k],
            ),
    {
        let s = &slugs[i];
        let ghost t = sv.take(i + 1);
        assert(t.drop_last() == sv.take(i as int));
        assert(t.last() == s@);
        let mut linked = false;
        let m = page.links.len();
        for j in 0..m
            invariant
                m == page.links@.len(),
                !linked ==> forall|q: int| 0 <= q < j ==> (#[trigger] page@.links[q]).target_slug != s@,
                linked ==> links_to(page@.links, s@),
        {
            if !linked && str_eq(page.links[j].target_slug.as_str(), s.as_str()) {
                assert(page@.links[j as int].target_slug == s@);
                linked = true;
            }
        }
        if !str_eq(s.as_str(), slug) && !linked {
            let op = PatchOp::AddLink { target_slug: s.clone(), relation: None };
            assert(opt_str_view(None) == Option::<Seq<char>>::None);
            r.push(op);
        }
    }
    assert(sv.take(n as int) == sv);
    r
}


// ---------------------------------------------------------------------------
// Laws of the writer
// ---------------------------------------------------------------------------

pub open spec fn is_prefix<A>(a: Seq<A>, b: Seq<A>) -> bool {
    a.len() <= b.len() && b.take(a.len() as int) == a
}

pub open spec fn no_dups<A>(s: Seq<A>) -> bool {
    forall|i: int, j: int| 0 <= i < j < s.len() ==> s[i] != s[j]
}

pub open spec fn distinct_targets(links: Seq<LinkView>) -> bool {
    forall|i: int, j: int|
        0 <= i < j < links.len() ==> (#[trigger] links[i]).target_slug != (#[trigger] links[j]).target_slug
}

proof fn lemma_prefix_push<A>(a: Seq<A>, x: A)
    ensures
        is_prefix(a, a.push(x)),
{
    assert(a.push(x).take(a.len() as int) == a);
}

proof fn lemma_prefix_refl<A>(a: Seq<A>)
    ensures
        is_prefix(a, a),
{
    assert(a.take(a.len() as int) == a);
}

proof fn lemma_prefix_trans<A>(a: Seq<A>, b: Seq<A>, c: Seq<A>)
    requires
        is_prefix(a, b),
        is_prefix(b, c),
    ensures
        is_prefix(a, c),
{
    assert(c.take(a.len() as int) == b.take(a.len() as int));
}

/// History, contradictions and sources only ever grow at their end: an
/// operation never rewrites or drops an entry of them.
pub proof fn law_append_only(p: PageView, op: OpView, now: Seq<char>, fresh: Seq<char>)
    ensures
        is_prefix(p.history, apply_spec(p, op, now, fresh).history),
        is_prefix(p.contradictions, apply_spec(p, op, now, fresh).contradictions),
        is_prefix(p.sources, apply_spec(p, op, now, fresh).sources),
        is_prefix(p.links, apply_spec(p, op, now, fresh).links),
{
    let q = apply_spec(p, op, now, fresh);
    lemma_prefix_refl(p.history);
    lemma_prefix_refl(p.contradictions);
    lemma_prefix_refl(p.sources);
    lemma_prefix_refl(p.links);
    lemma_prefix_push(p.sources, op_source(op));
    match op {
        OpView::UpdateFact { fact_id, .. } => {
            if let Some(i) = fact_index(p.facts, fact_id) {
                lemma_prefix_push(p.history, q.history.last());
                assert(q.history == p.history.push(q.history.last()));
            }
        },
        OpView::SupersedeFact { fact_id, .. } => {
            if let Some(i) = fact_index(p.facts, fact_id) {
                lemma_prefix_push(p.history, q.history.last());
                assert(q.history == p.history.push(q.history.last()));
            }
        },
        OpView::FlagContradiction { .. } => {
            lemma_prefix_push(p.contradictions, q.contradictions.last());
            assert(q.contradictions == p.contradictions.push(q.contradictions.last()));
        },
        OpView::AddLink { target_slug, relation } => {
            lemma_prefix_push(p.links, LinkView { target_slug, relation });
        },
        _ => {},
    }
}

/// The source an operation lists on its page (only meaningful for the
/// operations that rest on a claim).
pub open spec fn op_source(op: OpView) -> Seq<char> {
    match claim_of_spec(op) {
        Some(c) => c.source_id,
        None => seq![],
    }
}

/// A page never lists a source twice, nor links twice to one page, and an
/// operation keeps it so.
pub proof fn law_no_duplicates(p: PageView, op: OpView, now: Seq<char>, fresh: Seq<char>)
    requires
        no_dups(p.sources),
        distinct_targets(p.links),
    ensures
        no_dups(apply_spec(p, op, now, fresh).sources),
        distinct_targets(apply_spec(p, op, now, fresh).links),
{
    let q = apply_spec(p, op, now, fresh);
    if q.sources != p.sources {
        let id = op_source(op);
        assert(q.sources == p.sources.push(id));
        assert(!p.sources.contains(id));
        assert forall|i: int, j: int| 0 <= i < j < q.sources.len() implies q.sources[i] != q.sources[j] by {
            if j == p.sources.len() {
                assert(q.sources[i] == p.sources[i]);
            }
        }
    }
    if let OpView::AddLink { target_slug, relation } = op {
        if !links_to(p.links, target_slug) {
            assert forall|i: int, j: int| 0 <= i < j < q.links.len() implies (#[trigger] q.links[i]).target_slug
                != (#[trigger] q.links[j]).target_slug by {
                if j == p.links.len() {
                    assert(q.links[i] == p.links[i]);
                } else {
                    assert(q.links[i] == p.links[i]);
                    assert(q.links[j] == p.links[j]);
                }
            }
        }
    }
}

/// No fact is ever silently lost: after any operation each earlier fact
/// still stands, unchanged (id, text and provenance), or it was updated or
/// superseded and History holds it with its id, text and provenance, dated
/// `now`.
pub proof fn law_facts_kept_or_historied(p: PageView, op: OpView, now: Seq<char>, fresh: Seq<char>, k: int)
    requires
        0 <= k < p.facts.len(),
    ensures
        ({
            let q = apply_spec(p, op, now, fresh);
            q.facts.contains(p.facts[k]) || q.history.contains(
                HistoryView {
                    id: p.facts[k].id,
                    text: p.facts[k].text,
                    prov: p.facts[k].prov,
                    superseded_at: now,
                },
            )
        }),
        apply_spec(p, op, now, fresh).facts.len() >= p.facts.len(),
{
    let q = apply_spec(p, op, now, fresh);
    let h = HistoryView { id: p.facts[k].id, text: p.facts[k].text, prov: p.facts[k].prov, superseded_at: now };
    match op {
        OpView::UpdateFact { fact_id, .. } => {
            if let Some(i) = fact_index(p.facts, fact_id) {
                lemma_fact_index_from(p.facts, fact_id, 0);
                if k != i {
                    assert(q.facts[k] == p.facts[k]);
                } else {
                    assert(q.history.last() == h);
                    assert(q.history[q.history.len() - 1] == q.history.last());
                }
            } else {
                assert(q.facts[k] == p.facts[k]);
            }
        },
        OpView::SupersedeFact { fact_id, .. } => {
            if let Some(i) = fact_index(p.facts, fact_id) {
                lemma_fact_index_from(p.facts, fact_id, 0);
                if k < i {
                    assert(q.facts[k] == p.facts[k]);
                } else if k > i {
                    assert(q.facts[k - 1] == p.facts[k]);
                } else {
                    assert(q.history.last() == h);
                    assert(q.history[q.history.len() - 1] == q.history.last());
                }
            } else {
                assert(q.facts[k] == p.facts[k]);
            }
        },
        OpView::AppendFact { .. } => {
            assert(q.facts[k] == p.facts[k]);
        },
        _ => {
            assert(q.facts[k] == p.facts[k]);
        },
    }
}

/// Supersession moves the superseded fact to History and adds the new
/// fact at the end of Facts.
pub proof fn law_supersede_moves_to_history(
    p: PageView,
    fact_id: Seq<char>,
    new_fact: Seq<char>,
    claim: ClaimView,
    target_slug: Option<Seq<char>>,
    now: Seq<char>,
    fresh: Seq<char>,
)
    requires
        fact_index(p.facts, fact_id).is_some(),
    ensures
        ({
            let i = fact_index(p.facts, fact_id).unwrap();
            let q = apply_spec(
                p,
                OpView::SupersedeFact { fact_id, new_fact, claim, target_slug },
                now,
                fresh,
            );
            &&& q.history == p.history.push(
                HistoryView {
                    id: p.facts[i].id,
                    text: p.facts[i].text,
                    prov: p.facts[i].prov,
                    superseded_at: now,
                },
            )
            &&& q.facts == p.facts.remove(i).push(
                FactView { id: fresh, text: new_fact, prov: prov_of(claim) },
            )
            &&& q.sources.contains(claim.source_id)
        }),
{
    let q = apply_spec(p, OpView::SupersedeFact { fact_id, new_fact, claim, target_slug }, now, fresh);
    if !q.sources.contains(claim.source_id) {
        assert(q.sources.last() == claim.source_id);
        assert(q.sources[q.sources.len() - 1] == claim.source_id);
    }
}

/// A contradiction keeps both sides: the facts stay as they were, and the
/// recorded note quotes the existing fact and carries the conflicting note.
pub proof fn law_contradiction_keeps_both_sides(
    p: PageView,
    fact_id: Seq<char>,
    conflicting: ClaimView,
    note: Seq<char>,
    target_slug: Option<Seq<char>>,
    now: Seq<char>,
    fresh: Seq<char>,
)
    requires
        fact_index(p.facts, fact_id).is_some(),
    ensures
        ({
            let i = fact_index(p.facts, fact_id).unwrap();
            let q = apply_spec(
                p,
                OpView::FlagContradiction { fact_id, conflicting, note, target_slug },
                now,
                fresh,
            );
            let c = q.contradictions.last();
            &&& q.facts == p.facts
            &&& q.contradictions.len() == p.contradictions.len() + 1
            &&& crate::text::starts_with(c, seq!['"'] + p.facts[i].text + seq!['"'])
            &&& crate::text::contains(c, note)
        }),
{
    let i = fact_index(p.facts, fact_id).unwrap();
    let q = apply_spec(p, OpView::FlagContradiction { fact_id, conflicting, note, target_slug }, now, fresh);
    let c = q.contradictions.last();
    let head = seq!['"'] + p.facts[i].text + seq!['"'];
    let mid = " \u{2194} \""@;
    let tail = "\" (src:"@ + conflicting.source_id + "). \u{5f85}\u{4eba}\u{5de5}\u{88c1}\u{51b3}\u{3002}"@;
    assert(c == contradiction_note(p.facts, fact_id, note, conflicting.source_id));
    assert(c =~= head + mid + note + tail);
    assert(c.subrange(0, head.len() as int) =~= head);
    let at: int = (head.len() + mid.len()) as int;
    assert(c.subrange(at, at + note.len()) =~= note);
    assert(crate::text::occurs_at(c, note, at));
}

/// Linking is idempotent: adding the same link twice changes the page once.
pub proof fn law_add_link_idempotent(
    p: PageView,
    target_slug: Seq<char>,
    relation: Option<Seq<char>>,
    now: Seq<char>,
    fresh: Seq<char>,
)
    ensures
        ({
            let op = OpView::AddLink { target_slug, relation };
            apply_spec(apply_spec(p, op, now, fresh), op, now, fresh) == apply_spec(p, op, now, fresh)
        }),
{
    let op = OpView::AddLink { target_slug, relation };
    let q = apply_spec(p, op, now, fresh);
    if !links_to(p.links, target_slug) {
        let n = p.links.len();
        assert(q.links[n as int].target_slug == target_slug);
        assert(links_to(q.links, target_slug));
    }
}

/// A link, once there, stays: no operation drops a link target.
proof fn lemma_link_kept(p: PageView, op: OpView, now: Seq<char>, fresh: Seq<char>, t: Seq<char>)
    requires
        links_to(p.links, t),
    ensures
        links_to(apply_spec(p, op, now, fresh).links, t),
{
    law_append_only(p, op, now, fresh);
    let q = apply_spec(p, op, now, fresh);
    let i = choose|i: int| 0 <= i < p.links.len() && (#[trigger] p.links[i]).target_slug == t;
    assert(q.links.take(p.links.len() as int)[i] == q.links[i]);
}

/// After plain links to `m[0..k]` are added, the page links to each of them
/// and to everything it linked to before.
proof fn lemma_links_added(p: PageView, ops: Seq<OpView>, m: Seq<Seq<char>>, now: Seq<char>, ids: Seq<Seq<char>>, k: int)
    requires
        0 <= k <= ops.len(),
        ops.len() == m.len(),
        ids.len() >= ops.len(),
        forall|j: int| 0 <= j < m.len() ==> is_plain_link(#[trigger] ops[j], m[j]),
    ensures
        forall|t: Seq<char>| links_to(p.links, t) ==> links_to(#[trigger] apply_all(p, ops.take(k), now, ids).links, t),
        forall|j: int| 0 <= j < k ==> links_to(apply_all(p, ops.take(k), now, ids).links, #[trigger] m[j]),
    decreases k,
{
    if k > 0 {
        lemma_links_added(p, ops, m, now, ids, k - 1);
        let prev = apply_all(p, ops.take(k - 1), now, ids);
        assert(ops.take(k).drop_last() == ops.take(k - 1));
        assert(ops.take(k).last() == ops[k - 1]);
        let q = apply_all(p, ops.take(k), now, ids);
        assert(q == apply_spec(prev, ops[k - 1], now, ids[k - 1]));
        assert forall|t: Seq<char>| links_to(p.links, t) implies links_to(#[trigger] apply_all(p, ops.take(k), now, ids).links, t) by {
            lemma_link_kept(prev, ops[k - 1], now, ids[k - 1], t);
        }
        assert forall|j: int| 0 <= j < k implies links_to(apply_all(p, ops.take(k), now, ids).links, #[trigger] m[j]) by {
            if j < k - 1 {
                lemma_link_kept(prev, ops[k - 1], now, ids[k - 1], m[j]);
            } else {
                assert(is_plain_link(ops[j], m[j]));
                if !links_to(prev.links, m[j]) {
                    assert(q.links[prev.links.len() as int].target_slug == m[j]);
                }
            }
        }
    }
}

/// Every slug of `slugs` that a page does not link to yet and that is not
/// its own is among the missing links.
proof fn lemma_missing_covers(slugs: Seq<Seq<char>>, slug: Seq<char>, links: Seq<LinkView>, s: Seq<char>)
    requires
        slugs.contains(s),
        s != slug,
        !links_to(links, s),
    ensures
        missing_links(slugs, slug, links).contains(s),
    decreases slugs.len(),
{
    if slugs.last() == s {
        assert(missing_links(slugs, slug, links).last() == s);
    } else {
        let i = choose|i: int| 0 <= i < slugs.len() && slugs[i] == s;
        assert(slugs.drop_last()[i] == s);
        lemma_missing_covers(slugs.drop_last(), slug, links, s);
        let rest = missing_links(slugs.drop_last(), slug, links);
        let j = choose|j: int| 0 <= j < rest.len() && rest[j] == s;
        assert(missing_links(slugs, slug, links)[j] == s);
    }
}

/// Entities that appeared together in a source end up linked: committing
/// the links that `cross_link_ops` gives a page makes it link to every other
/// touched page, and keeps the links it had.
pub proof fn law_cross_link_connects(
    slugs: Seq<Seq<char>>,
    slug: Seq<char>,
    p: PageView,
    ops: Seq<OpView>,
    now: Seq<char>,
    ids: Seq<Seq<char>>,
)
    requires
        ops.len() == missing_links(slugs, slug, p.links).len(),
        forall|k: int|
            0 <= k < ops.len() ==> is_plain_link(#[trigger] ops[k], missing_links(slugs, slug, p.links)[k]),
        ids.len() == ops.len(),
    ensures
        forall|s: Seq<char>|
            slugs.contains(s) && s != slug ==> links_to(
                #[trigger] finish_spec(apply_all(p, ops, now, ids), now).links,
                s,
            ),
        forall|t: Seq<char>|
            links_to(p.links, t) ==> links_to(finish_spec(apply_all(p, ops, now, ids), now).links, t),
{
    let m = missing_links(slugs, slug, p.links);
    lemma_links_added(p, ops, m, now, ids, ops.len() as int);
    assert(ops.take(ops.len() as int) == ops);
    assert forall|s: Seq<char>| slugs.contains(s) && s != slug implies links_to(
        #[trigger] finish_spec(apply_all(p, ops, now, ids), now).links,
        s,
    ) by {
        if !links_to(p.links, s) {
            lemma_missing_covers(slugs, slug, p.links, s);
            let j = choose|j: int| 0 <= j < m.len() && m[j] == s;
            assert(links_to(apply_all(p, ops, now, ids).links, m[j]));
        }
    }
}

/// Whether a fact carries the provenance of the claim of one of the
/// operations.
pub open spec fn cites_claim(f: FactView, ops: Seq<OpView>) -> bool {
    exists|k: int|
        0 <= k < ops.len() && (#[trigger] claim_of_spec(ops[k])).is_some() && f.prov == prov_of(
            claim_of_spec(ops[k])->Some_0,
        )
}

/// One operation keeps the facts it finds, or adds or rewrites one with the
/// provenance of its claim.
proof fn lemma_step_facts(q: PageView, op: OpView, now: Seq<char>, fresh: Seq<char>, j: int)
    requires
        0 <= j < apply_spec(q, op, now, fresh).facts.len(),
    ensures
        ({
            let f = apply_spec(q, op, now, fresh).facts[j];
            q.facts.contains(f) || (claim_of_spec(op).is_some() && f.prov == prov_of(claim_of_spec(op)->Some_0))
        }),
{
    let r = apply_spec(q, op, now, fresh);
    let f = r.facts[j];
    match op {
        OpView::AppendFact { .. } => {
            if j < q.facts.len() {
                assert(q.facts[j] == f);
            }
        },
        OpView::UpdateFact { fact_id, .. } => {
            match fact_index(q.facts, fact_id) {
                Some(i) => {
                    lemma_fact_index_from(q.facts, fact_id, 0);
                    if j != i {
                        assert(q.facts[j] == f);
                    }
                },
                None => {
                    if j < q.facts.len() {
                        assert(q.facts[j] == f);
                    }
                },
            }
        },
        OpView::SupersedeFact { fact_id, .. } => {
            match fact_index(q.facts, fact_id) {
                Some(i) => {
                    lemma_fact_index_from(q.facts, fact_id, 0);
                    if j < q.facts.len() - 1 {
                        if j < i {
                            assert(q.facts[j] == f);
                        } else {
                            assert(q.facts[j + 1] == f);
                        }
                    }
                },
                None => {
                    if j < q.facts.len() {
                        assert(q.facts[j] == f);
                    }
                },
            }
        },
        _ => {
            assert(q.facts[j] == f);
        },
    }
}

/// Every fact points back to evidence: after a batch, each fact on the page
/// is one it already had, unchanged, or carries the provenance (source and
/// UTF-16 range) of the claim of one of the batch's operations, the claims
/// that the writer validates against their sources.
pub proof fn law_facts_cite_claims(p: PageView, ops: Seq<OpView>, now: Seq<char>, ids: Seq<Seq<char>>)
    requires
        ids.len() >= ops.len(),
    ensures
        forall|j: int|
            0 <= j < apply_all(p, ops, now, ids).facts.len() ==> p.facts.contains(
                #[trigger] apply_all(p, ops, now, ids).facts[j],
            ) || cites_claim(apply_all(p, ops, now, ids).facts[j], ops),
    decreases ops.len(),
{
    if ops.len() > 0 {
        let prev_ops = ops.drop_last();
        law_facts_cite_claims(p, prev_ops, now, ids);
        let q = apply_all(p, prev_ops, now, ids);
        let n = ops.len() - 1;
        let op = ops[n];
        let r = apply_all(p, ops, now, ids);
        assert(r == apply_spec(q, op, now, ids[n]));
        assert forall|j: int| 0 <= j < r.facts.len() implies p.facts.contains(#[trigger] r.facts[j])
            || cites_claim(r.facts[j], ops) by {
            lemma_step_facts(q, op, now, ids[n], j);
            let f = r.facts[j];
            if q.facts.contains(f) {
                let i = choose|i: int| 0 <= i < q.facts.len() && q.facts[i] == f;
                assert(p.facts.contains(q.facts[i]) || cites_claim(q.facts[i], prev_ops));
                if !p.facts.contains(f) {
                    let k = choose|k: int|
                        0 <= k < prev_ops.len() && (#[trigger] claim_of_spec(prev_ops[k])).is_some() && f.prov
                            == prov_of(claim_of_spec(prev_ops[k])->Some_0);
                    assert(ops[k] == prev_ops[k]);
                    assert(claim_of_spec(ops[k]).is_some());
                }
            } else {
                assert(claim_of_spec(ops[n]).is_some());
            }
        }
    }
}

/// Over a whole batch, History, contradictions and sources only grow at their
/// end, and the number of facts never falls.
pub proof fn law_batch_append_only(p: PageView, ops: Seq<OpView>, now: Seq<char>, ids: Seq<Seq<char>>)
    requires
        ids.len() >= ops.len(),
    ensures
        is_prefix(p.history, apply_all(p, ops, now, ids).history),
        is_prefix(p.contradictions, apply_all(p, ops, now, ids).contradictions),
        is_prefix(p.sources, apply_all(p, ops, now, ids).sources),
        apply_all(p, ops, now, ids).facts.len() >= p.facts.len(),
    decreases ops.len(),
{
    if ops.len() == 0 {
        lemma_prefix_refl(p.history);
        lemma_prefix_refl(p.contradictions);
        lemma_prefix_refl(p.sources);
    } else {
        law_batch_append_only(p, ops.drop_last(), now, ids);
        let m = apply_all(p, ops.drop_last(), now, ids);
        let f = ids[ops.len() - 1];
        law_append_only(m, ops.last(), now, f);
        lemma_prefix_trans(p.history, m.history, apply_spec(m, ops.last(), now, f).history);
        lemma_prefix_trans(
            p.contradictions,
            m.contradictions,
            apply_spec(m, ops.last(), now, f).contradictions,
        );
        lemma_prefix_trans(p.sources, m.sources, apply_spec(m, ops.last(), now, f).sources);
        if m.facts.len() > 0 {
            law_facts_kept_or_historied(m, ops.last(), now, f, 0);
        } else {
            assert(apply_spec(m, ops.last(), now, f).facts.len() >= 0);
        }
    }
}

} // verus!
