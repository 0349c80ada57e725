//! The offline provider: notes, claims, reconciliation and answers made from
//! the text alone, without a language model.
use vstd::prelude::*;
use crate::ai::{
    cue, jaccard, jaccard_ratio, numbers_differ, proper_nouns, ranked_names, sentences,
    sentences_of, strings_view, has_cue, triples_view, years_differ, years_from,
};
use crate::domain::{CandidateEntity, Claim, ClaimView, Entity, ExtractClaim, ExtractResult, Note, PatchOp, ReconcileInput};
use crate::page::{EntityView, OpView, clone_claim, ops_view};
use crate::text::{
    chars_of, contains, contains_chars, extend_chars, extend_str, join, lowercase, string_of,
    to_lowercase, trim, trim_chars,
};
use crate::order::{pos_from, stable_sort};

verus! {

/// The first `n` items, or all when there are fewer.
pub open spec fn take_up_to<A>(s: Seq<A>, n: int) -> Seq<A> {
    if s.len() <= n {
        s
    } else {
        s.take(n)
    }
}

pub open spec fn candidates_view(v: Seq<CandidateEntity>) -> Seq<(Seq<char>, Seq<char>, Seq<char>)> {
    v.map_values(|e: CandidateEntity| (e.name@, e.kind@, e.why@))
}

pub open spec fn entities_view(v: Seq<Entity>) -> Seq<EntityView> {
    v.map_values(|e: Entity| e@)
}

pub open spec fn extract_claims_view(v: Seq<ExtractClaim>) -> Seq<(Seq<char>, Seq<char>, Seq<char>)> {
    v.map_values(|c: ExtractClaim| (c.entity_name@, c.text@, c.span@))
}

/// The provider that works without a model.
#[derive(Debug, Clone, Copy, PartialEq, Eq)]
pub struct MockProvider;

impl MockProvider {
    /// A note on a source: its first sentence as the summary (the first 120
    /// characters when it has none), its first five sentences as key points,
    /// its six most frequent names as candidate entities and the three most
    /// frequent, lower-cased, as tags.
    pub fn note(&self, title: &str, content: &str) -> (r: Note)
        ensures
            r.tldr@ == (if sentences_of(content@).len() > 0 {
                sentences_of(content@)[0]
            } else {
                take_up_to(content@, 120)
            }),
            strings_view(r.key_points@) == take_up_to(sentences_of(content@), 5),
            candidates_view(r.candidate_entities@) == take_up_to(ranked_names(content@), 6).map_values(
                |t: (Seq<char>, Seq<char>, nat)| (t.0, t.1, "mentioned in source"@),
            ),
            strings_view(r.tags@) == take_up_to(ranked_names(content@), 3).map_values(
                |t: (Seq<char>, Seq<char>, nat)| lowercase(t.0),
            ),
    {
        let entities = proper_nouns(content);
        let ss = sentences(content);
        let ghost ev = triples_view(entities@);
        let tldr = if ss.len() > 0 {
            ss[0].clone()
        } else {
            let v = chars_of(content);
            let k = if v.len() <= 120 {
                v.len()
            } else {
                120
            };
            let t = crate::lines::slice_chars(v.as_slice(), 0, k);
            assert(t@ == take_up_to(content@, 120));
            string_of(t.as_slice())
        };
        let mut key_points: Vec<String> = Vec::new();
        let nk = if ss.len() < 5 {
            ss.len()
        } else {
            5
        };
        for i in 0..nk
            invariant
                nk <= ss@.len(),
                nk == (if ss@.len() < 5 { ss@.len() } else { 5 }),
                strings_view(key_points@) == strings_view(ss@).take(i as int),
        {
            let ghost before = strings_view(key_points@);
            key_points.push(ss[i].clone());
            assert(strings_view(key_points@) =~= before.push(strings_view(ss@)[i as int]));
            assert(strings_view(ss@).take(i + 1) =~= strings_view(ss@).take(i as int).push(
                strings_view(ss@)[i as int],
            ));
        }
        assert(strings_view(ss@).take(nk as int) =~= take_up_to(sentences_of(content@), 5));
        let mut cands: Vec<CandidateEntity> = Vec::new();
        let nc = if entities.len() < 6 {
            entities.len()
        } else {
            6
        };
        let ghost cspec = ev.map_values(
            |t: (Seq<char>, Seq<char>, nat)| (t.0, t.1, "mentioned in source"@),
        );
        for i in 0..nc
            invariant
                nc <= entities@.len(),
                ev == triples_view(entities@),
                cspec == ev.map_values(
                    |t: (Seq<char>, Seq<char>, nat)| (t.0, t.1, "mentioned in source"@),
                ),
                candidates_view(cands@) == cspec.take(i as int),
        {
            let ghost before = candidates_view(cands@);
            let c = CandidateEntity {
                name: entities[i].0.clone(),
                kind: entities[i].1.clone(),
                why: "mentioned in source".to_string(),
            };
            cands.push(c);
            assert(candidates_view(cands@) =~= before.push(cspec[i as int]));
            assert(cspec.take(i + 1) =~= cspec.take(i as int).push(cspec[i as int]));
        }
        assert(cspec.take(nc as int) =~= take_up_to(ranked_names(content@), 6).map_values(
            |t: (Seq<char>, Seq<char>, nat)| (t.0, t.1, "mentioned in source"@),
        ));
        let mut tags: Vec<String> = Vec::new();
        let nt = if entities.len() < 3 {
            entities.len()
        } else {
            3
        };
        let ghost tspec = ev.map_values(|t: (Seq<char>, Seq<char>, nat)| lowercase(t.0));
        for i in 0..nt
            invariant
                nt <= entities@.len(),
                ev == triples_view(entities@),
                tspec == ev.map_values(|t: (Seq<char>, Seq<char>, nat)| lowercase(t.0)),
                strings_view(tags@) == tspec.take(i as int),
        {
            let ghost before = strings_view(tags@);
            tags.push(to_lowercase(entities[i].0.as_str()));
            assert(strings_view(tags@) =~= before.push(tspec[i as int]));
            assert(tspec.take(i + 1) =~= tspec.take(i as int).push(tspec[i as int]));
        }
        assert(tspec.take(nt as int) =~= take_up_to(ranked_names(content@), 3).map_values(
            |t: (Seq<char>, Seq<char>, nat)| lowercase(t.0),
        ));
        Note { tldr, key_points, candidate_entities: cands, tags }
    }

    /// The entities and claims of a source: the candidates (or, when there
    /// are none, the ranked names) as entities, and every sentence of at
    /// least 15 characters that mentions a ranked name, ignoring case, as a
    /// claim about the first such name, the sentence being both its text and
    /// its excerpt.
    pub fn extract(&self, content: &str, candidates: &Vec<CandidateEntity>) -> (r: ExtractResult)
        ensures
            entities_view(r.entities@) == (if candidates@.len() == 0 {
                ranked_names(content@).map_values(
                    |t: (Seq<char>, Seq<char>, nat)| EntityView { name: t.0, kind: t.1, aliases: seq![] },
                )
            } else {
                candidates@.map_values(
                    |e: CandidateEntity| EntityView { name: e.name@, kind: e.kind@, aliases: seq![] },
                )
            }),
            extract_claims_view(r.claims@) == mock_claims(sentences_of(content@), ranked_names(content@)),
    {
        let ranked = proper_nouns(content);
        let ghost rv = triples_view(ranked@);
        let mut entities: Vec<Entity> = Vec::new();
        if candidates.len() == 0 {
            let ghost sp = rv.map_values(
                |t: (Seq<char>, Seq<char>, nat)| EntityView { name: t.0, kind: t.1, aliases: seq![] },
            );
            for i in 0..ranked.len()
                invariant
                    rv == triples_view(ranked@),
                    sp == rv.map_values(
                        |t: (Seq<char>, Seq<char>, nat)| EntityView { name: t.0, kind: t.1, aliases: seq![] },
                    ),
                    entities_view(entities@) == sp.take(i as int),
            {
                let ghost before = entities_view(entities@);
                let e = Entity { name: ranked[i].0.clone(), kind: ranked[i].1.clone(), aliases: Vec::new() };
                entities.push(e);
                assert(e@.aliases =~= Seq::<Seq<char>>::empty());
                assert(entities_view(entities@) =~= before.push(sp[i as int]));
                assert(sp.take(i + 1) =~= sp.take(i as int).push(sp[i as int]));
            }
            assert(sp.take(ranked@.len() as int) == sp);
        } else {
            let ghost sp = candidates@.map_values(
                |e: CandidateEntity| EntityView { name: e.name@, kind: e.kind@, aliases: seq![] },
            );
            for i in 0..candidates.len()
                invariant
                    sp == candidates@.map_values(
                        |e: CandidateEntity| EntityView { name: e.name@, kind: e.kind@, aliases: seq![] },
                    ),
                    entities_view(entities@) == sp.take(i as int),
            {
                let ghost before = entities_view(entities@);
                let e = Entity {
                    name: candidates[i].name.clone(),
                    kind: candidates[i].kind.clone(),
                    aliases: Vec::new(),
                };
                entities.push(e);
                assert(e@.aliases =~= Seq::<Seq<char>>::empty());
                assert(entities_view(entities@) =~= before.push(sp[i as int]));
                assert(sp.take(i + 1) =~= sp.take(i as int).push(sp[i as int]));
            }
            assert(sp.take(candidates@.len() as int) == sp);
        }
        let ss = sentences(content);
        let ghost sv = strings_view(ss@);
        let mut lowered: Vec<Vec<char>> = Vec::new();
        for k in 0..ranked.len()
            invariant
                rv == triples_view(ranked@),
                lowered@.len() == k,
                forall|q: int| 0 <= q < k ==> (#[trigger] lowered@[q])@ == lowercase(rv[q].0),
        {
            let l = to_lowercase(ranked[k].0.as_str());
            lowered.push(chars_of(l.as_str()));
        }
        let mut claims: Vec<ExtractClaim> = Vec::new();
        for i in 0..ss.len()
            invariant
                sv == strings_view(ss@),
                rv == triples_view(ranked@),
                lowered@.len() == rv.len(),
                forall|q: int| 0 <= q < rv.len() ==> (#[trigger] lowered@[q])@ == lowercase(rv[q].0),
                extract_claims_view(claims@) == mock_claims(sv.take(i as int), rv),
        {
            assert(sv.take(i + 1).drop_last() == sv.take(i as int));
            assert(sv.take(i + 1).last() == sv[i as int]);
            let span = &ss[i];
            let sc = chars_of(span.as_str());
            if sc.len() >= 15 {
                let ls = to_lowercase(span.as_str());
                let lc = chars_of(ls.as_str());
                let mut k: usize = 0;
                let mut found: Option<usize> = None;
                while k < ranked.len()
                    invariant
                        rv == triples_view(ranked@),
                        lowered@.len() == rv.len(),
                        forall|q: int| 0 <= q < rv.len() ==> (#[trigger] lowered@[q])@ == lowercase(rv[q].0),
                        lc@ == lowercase(sv[i as int]),
                        k <= rv.len(),
                        found.is_none() ==> first_named(rv, sv[i as int], 0) == first_named(rv, sv[i as int], k as int),
                        found.is_some() ==> first_named(rv, sv[i as int], 0) == Some(found.unwrap() as int) && found.unwrap() < rv.len(),
                    decreases rv.len() - k,
                {
                    if found.is_none() && contains_chars(lc.as_slice(), lowered[k].as_slice()) {
                        found = Some(k);
                    }
                    k = k + 1;
                }
                match found {
                    Some(j) => {
                        let ghost before = extract_claims_view(claims@);
                        let c = ExtractClaim {
                            entity_name: ranked[j].0.clone(),
                            text: span.clone(),
                            span: span.clone(),
                        };
                        claims.push(c);
                        assert(extract_claims_view(claims@) =~= before.push((rv[j as int].0, sv[i as int], sv[i as int])));
                    },
                    None => {
                        assert(first_named(rv, sv[i as int], rv.len() as int).is_none());
                    },
                }
            }
        }
        assert(sv.take(ss@.len() as int) == sv);
        ExtractResult { entities, claims }
    }
}

/// The first ranked name, from index `k` on, that the lower-cased sentence
/// contains lower-cased.
pub open spec fn first_named(names: Seq<(Seq<char>, Seq<char>, nat)>, span: Seq<char>, k: int) -> Option<int>
    decreases names.len() - k,
{
    if k < 0 || k >= names.len() {
        None
    } else if contains(lowercase(span), lowercase(names[k].0)) {
        Some(k)
    } else {
        first_named(names, span, k + 1)
    }
}

/// The claims found in the sentences: `(entity, text, excerpt)`.
pub open spec fn mock_claims(sents: Seq<Seq<char>>, names: Seq<(Seq<char>, Seq<char>, nat)>) -> Seq<
    (Seq<char>, Seq<char>, Seq<char>),
>
    decreases sents.len(),
{
    if sents.len() == 0 {
        seq![]
    } else {
        let rest = mock_claims(sents.drop_last(), names);
        let span = sents.last();
        if span.len() >= 15 {
            match first_named(names, span, 0) {
                Some(k) => rest.push((names[k].0, span, span)),
                None => rest,
            }
        } else {
            rest
        }
    }
}


// ---------------------------------------------------------------------------
// Reconciliation
// ---------------------------------------------------------------------------

/// `a <= b` for fractions with non-zero denominators.
pub open spec fn ratio_le(a: (nat, nat), b: (nat, nat)) -> bool {
    a.0 * b.1 <= b.0 * a.1
}

/// The fact that overlaps a claim's text the most; of several, the last.
pub open spec fn best_fact(facts: Seq<(Seq<char>, Seq<char>)>, text: Seq<char>) -> Option<int>
    decreases facts.len(),
{
    if facts.len() == 0 {
        None
    } else {
        let i = facts.len() - 1;
        match best_fact(facts.drop_last(), text) {
            None => Some(i),
            Some(j) => if ratio_le(jaccard_ratio(text, facts[j].1), jaccard_ratio(text, facts[i].1)) {
                Some(i)
            } else {
                Some(j)
            },
        }
    }
}

pub open spec fn contra_words() -> Seq<Seq<char>> {
    seq!["actually"@, "however"@, "but"@, "dispute"@, "reportedly"@, "allegedly"@]
}

pub open spec fn status_words() -> Seq<Seq<char>> {
    seq![
        "stepped down"@,
        "resigned"@,
        "former"@,
        "no longer"@,
        "until"@,
        "left"@,
        "replaced"@,
        "departed"@,
    ]
}

pub open spec fn utf8_len(s: Seq<char>) -> nat {
    vstd::utf8::encode_utf8(s).len()
}

/// What the offline reconciler does with one claim, given the page's facts
/// `(id, text)`: append it when no fact overlaps it by 18% or more; else,
/// against the most overlapping fact, flag a contradiction when the claim
/// has a contradiction cue and the two name different years, supersede the
/// fact when the claim has a change-of-status cue, update it when the claim
/// is more than 15% longer, and do nothing otherwise.
pub open spec fn claim_op(facts: Seq<(Seq<char>, Seq<char>)>, claim: ClaimView) -> Option<OpView> {
    match best_fact(facts, claim.text) {
        None => Some(OpView::AppendFact { fact: claim.text, claim }),
        Some(k) => {
            let id = facts[k].0;
            let text = facts[k].1;
            let sc = jaccard_ratio(claim.text, text);
            if 100 * sc.0 < 18 * sc.1 {
                Some(OpView::AppendFact { fact: claim.text, claim })
            } else if has_cue(claim.text, contra_words()) && years_differ(claim.text, text) {
                Some(
                    OpView::FlagContradiction {
                        fact_id: id,
                        conflicting: claim,
                        note: claim.text,
                        target_slug: None,
                    },
                )
            } else if has_cue(claim.text, status_words()) {
                Some(
                    OpView::SupersedeFact {
                        fact_id: id,
                        new_fact: claim.text,
                        claim,
                        target_slug: None,
                    },
                )
            } else if utf8_len(claim.text) > utf8_len(text) * 115 / 100 {
                Some(
                    OpView::UpdateFact {
                        fact_id: id,
                        new_fact: claim.text,
                        claim,
                        target_slug: None,
                    },
                )
            } else {
                None
            }
        },
    }
}

proof fn lemma_best_fact_in_range(facts: Seq<(Seq<char>, Seq<char>)>, text: Seq<char>)
    ensures
        match best_fact(facts, text) {
            Some(k) => 0 <= k < facts.len(),
            None => facts.len() == 0,
        },
    decreases facts.len(),
{
    if facts.len() > 0 {
        lemma_best_fact_in_range(facts.drop_last(), text);
    }
}

/// A contradiction flagged by the offline reconciler, as the reconciler
/// must justify it: the conflicting claim is one of the new claims, the
/// note is its text, it has a contradiction cue, and some fact with the
/// flagged id and the claim both name years, none of them in common.
pub open spec fn justified_flag(
    op: OpView,
    facts: Seq<(Seq<char>, Seq<char>)>,
    claims: Seq<ClaimView>,
) -> bool {
    match op {
        OpView::FlagContradiction { fact_id, conflicting, note, target_slug } => {
            let yc = years_from(conflicting.text, 0);
            &&& claims.contains(conflicting)
            &&& note == conflicting.text
            &&& has_cue(conflicting.text, contra_words())
            &&& exists|f: int|
                0 <= f < facts.len() && (#[trigger] facts[f]).0 == fact_id && yc.len() > 0 && years_from(
                    facts[f].1,
                    0,
                ).len() > 0 && forall|y: int|
                    0 <= y < yc.len() ==> !years_from(facts[f].1, 0).contains(#[trigger] yc[y])
        },
        _ => true,
    }
}

proof fn lemma_claim_ops_flags(facts: Seq<(Seq<char>, Seq<char>)>, claims: Seq<ClaimView>)
    ensures
        forall|k: int| 0 <= k < claim_ops(facts, claims).len() ==> justified_flag(#[trigger] claim_ops(facts, claims)[k], facts, claims),
    decreases claims.len(),
{
    if claims.len() > 0 {
        let prev = claims.drop_last();
        lemma_claim_ops_flags(facts, prev);
        let c = claims.last();
        let r = claim_ops(facts, claims);
        let d = claim_ops(facts, prev);
        lemma_best_fact_in_range(facts, c.text);
        assert(claims[claims.len() - 1] == c);
        assert forall|k: int| 0 <= k < r.len() implies justified_flag(#[trigger] r[k], facts, claims) by {
            if k < d.len() {
                assert(r[k] == d[k]);
                assert(justified_flag(d[k], facts, prev));
                if let OpView::FlagContradiction { conflicting, .. } = d[k] {
                    let i = choose|i: int| 0 <= i < prev.len() && prev[i] == conflicting;
                    assert(claims[i] == conflicting);
                }
            } else {
                if let OpView::FlagContradiction { fact_id, .. } = r[k] {
                    let f = best_fact(facts, c.text)->Some_0;
                    assert(facts[f].0 == fact_id);
                }
            }
        }
    }
}

/// The offline reconciler flags a contradiction against a fact only when
/// the claim has a contradiction cue and the claim and that fact both name
/// four-digit years with none in common: where their years overlap, or one
/// names none, it never flags one.
pub proof fn law_mock_flags_need_different_years(
    exists: bool,
    title: Seq<char>,
    kind: Seq<char>,
    facts: Seq<(Seq<char>, Seq<char>)>,
    claims: Seq<ClaimView>,
)
    ensures
        forall|k: int|
            0 <= k < mock_ops(exists, title, kind, facts, claims).len() ==> justified_flag(
                #[trigger] mock_ops(exists, title, kind, facts, claims)[k],
                facts,
                claims,
            ),
{
    lemma_claim_ops_flags(facts, claims);
    let m = mock_ops(exists, title, kind, facts, claims);
    let r = claim_ops(facts, claims);
    let h: int = if exists { 0 } else { 1 };
    assert forall|k: int| 0 <= k < m.len() implies justified_flag(#[trigger] m[k], facts, claims) by {
        if k >= h {
            assert(m[k] == r[k - h]);
        }
    }
}

/// The operations for the claims, in order.
pub open spec fn claim_ops(facts: Seq<(Seq<char>, Seq<char>)>, claims: Seq<ClaimView>) -> Seq<OpView>
    decreases claims.len(),
{
    if claims.len() == 0 {
        seq![]
    } else {
        let rest = claim_ops(facts, claims.drop_last());
        match claim_op(facts, claims.last()) {
            Some(op) => rest.push(op),
            None => rest,
        }
    }
}

pub open spec fn facts_view(v: Seq<(String, String)>) -> Seq<(Seq<char>, Seq<char>)> {
    v.map_values(|p: (String, String)| (p.0@, p.1@))
}

pub open spec fn claims_view(v: Seq<Claim>) -> Seq<ClaimView> {
    v.map_values(|c: Claim| c@)
}

/// The offline reconciler's operations: a new page first when the entity
/// has none (named after the entity, summarised by the first claim), then
/// what `claim_op` gives for each claim.
pub open spec fn mock_ops(
    exists: bool,
    title: Seq<char>,
    kind: Seq<char>,
    facts: Seq<(Seq<char>, Seq<char>)>,
    claims: Seq<ClaimView>,
) -> Seq<OpView> {
    (if !exists {
        seq![
            OpView::CreatePage {
                entity: EntityView { name: title, kind, aliases: seq![] },
                summary: if claims.len() > 0 {
                    claims[0].text
                } else {
                    title
                },
            },
        ]
    } else {
        seq![]
    }) + claim_ops(facts, claims)
}

fn mul_wide(a: usize, b: usize) -> (r: u128)
    ensures
        r == a * b,
{
    let x = a as u128;
    let y = b as u128;
    assert(x * y <= 0xffff_ffff_ffff_ffff_u128 * 0xffff_ffff_ffff_ffff_u128) by (nonlinear_arith)
        requires
            x <= 0xffff_ffff_ffff_ffff_u128,
            y <= 0xffff_ffff_ffff_ffff_u128,
    ;
    x * y
}

fn ratio_le_exec(a: (usize, usize), b: (usize, usize)) -> (r: bool)
    ensures
        r == ratio_le((a.0 as nat, a.1 as nat), (b.0 as nat, b.1 as nat)),
{
    mul_wide(a.0, b.1) <= mul_wide(b.0, a.1)
}

fn best_fact_exec(facts: &Vec<(String, String)>, text: &str) -> (r: Option<usize>)
    ensures
        match r {
            Some(k) => best_fact(facts_view(facts@), text@) == Some(k as int) && k < facts@.len(),
            None => best_fact(facts_view(facts@), text@).is_none(),
        },
{
    let ghost fv = facts_view(facts@);
    let mut best: Option<usize> = None;
    let mut bs: (usize, usize) = (0, 1);
    for i in 0..facts.len()
        invariant
            fv == facts_view(facts@),
            match best {
                Some(k) => best_fact(fv.take(i as int), text@) == Some(k as int) && k < i
                    && bs.0 == jaccard_ratio(text@, fv[k as int].1).0 && bs.1 == jaccard_ratio(
                    text@,
                    fv[k as int].1,
                ).1,
                None => best_fact(fv.take(i as int), text@).is_none() && i == 0,
            },
    {
        assert(fv.take(i + 1).drop_last() == fv.take(i as int));
        assert(fv.take(i + 1)[i as int] == fv[i as int]);
        let sc = jaccard(text, facts[i].1.as_str());
        match best {
            None => {
                best = Some(i);
                bs = sc;
            },
            Some(k) => {
                if ratio_le_exec(bs, sc) {
                    best = Some(i);
                    bs = sc;
                }
            },
        }
    }
    assert(fv.take(facts@.len() as int) == fv);
    best
}

fn word_list<'a>(words: &[&'a str]) -> (r: Vec<&'a str>)
    ensures
        r@ == words@,
{
    let mut v: Vec<&str> = Vec::new();
    for i in 0..words.len()
        invariant
            v@ == words@.take(i as int),
    {
        v.push(words[i]);
        assert(words@.take(i + 1) == words@.take(i as int).push(words@[i as int]));
    }
    assert(words@.take(words@.len() as int) == words@);
    v
}

fn claim_op_exec(facts: &Vec<(String, String)>, claim: &Claim) -> (r: Option<PatchOp>)
    ensures
        match r {
            Some(op) => claim_op(facts_view(facts@), claim@) == Some(op@),
            None => claim_op(facts_view(facts@), claim@).is_none(),
        },
{
    let t = claim.text.as_str();
    match best_fact_exec(facts, t) {
        None => Some(PatchOp::AppendFact { fact: claim.text.clone(), claim: clone_claim(claim) }),
        Some(k) => {
            let id = &facts[k].0;
            let text = facts[k].1.as_str();
            let sc = jaccard(t, text);
            if 100 * (sc.0 as u128) < 18 * (sc.1 as u128) {
                return Some(PatchOp::AppendFact { fact: claim.text.clone(), claim: clone_claim(claim) });
            }
            let contra = ["actually", "however", "but", "dispute", "reportedly", "allegedly"];
            proof {
                reveal_strlit("actually");
            }
            let cw = word_list(&contra);
            assert(cw@.map_values(|w: &str| w@) =~= contra_words());
            if cue(t, cw.as_slice()) && numbers_differ(t, text) {
                return Some(
                    PatchOp::FlagContradiction {
                        fact_id: id.clone(),
                        conflicting: clone_claim(claim),
                        note: claim.text.clone(),
                        target_slug: None,
                    },
                );
            }
            let status = [
                "stepped down",
                "resigned",
                "former",
                "no longer",
                "until",
                "left",
                "replaced",
                "departed",
            ];
            let sw = word_list(&status);
            assert(sw@.map_values(|w: &str| w@) =~= status_words());
            if cue(t, sw.as_slice()) {
                return Some(
                    PatchOp::SupersedeFact {
                        fact_id: id.clone(),
                        new_fact: claim.text.clone(),
                        claim: clone_claim(claim),
                        target_slug: None,
                    },
                );
            }
            let lc = t.as_bytes().len() as u128;
            let lt = text.as_bytes().len() as u128;
            if lc > lt * 115 / 100 {
                return Some(
                    PatchOp::UpdateFact {
                        fact_id: id.clone(),
                        new_fact: claim.text.clone(),
                        claim: clone_claim(claim),
                        target_slug: None,
                    },
                );
            }
            None
        },
    }
}

impl MockProvider {
    /// The offline reconciler: a new page first when the entity has none,
    /// then, for each claim, the operation `claim_op` describes.
    pub fn reconcile(&self, input: &ReconcileInput) -> (r: Vec<PatchOp>)
        ensures
            ops_view(r@) == mock_ops(
                input.exists,
                input.title@,
                input.kind@,
                facts_view(input.current_facts@),
                claims_view(input.new_claims@),
            ),
    {
        let ghost fv = facts_view(input.current_facts@);
        let ghost cv = claims_view(input.new_claims@);
        let mut ops: Vec<PatchOp> = Vec::new();
        if !input.exists {
            let summary = if input.new_claims.len() > 0 {
                input.new_claims[0].text.clone()
            } else {
                input.title.clone()
            };
            let e = Entity { name: input.title.clone(), kind: input.kind.clone(), aliases: Vec::new() };
            assert(e@.aliases =~= Seq::<Seq<char>>::empty());
            ops.push(PatchOp::CreatePage { entity: e, summary });
        }
        let ghost head = ops_view(ops@);
        assert(head == (if !input.exists {
            seq![
                OpView::CreatePage {
                    entity: EntityView { name: input.title@, kind: input.kind@, aliases: seq![] },
                    summary: if cv.len() > 0 {
                        cv[0].text
                    } else {
                        input.title@
                    },
                },
            ]
        } else {
            seq![]
        }));
        assert(head + claim_ops(fv, cv.take(0)) == head);
        for i in 0..input.new_claims.len()
            invariant
                fv == facts_view(input.current_facts@),
                cv == claims_view(input.new_claims@),
                ops_view(ops@) == head + claim_ops(fv, cv.take(i as int)),
        {
            assert(cv.take(i + 1).drop_last() == cv.take(i as int));
            assert(cv.take(i + 1).last() == input.new_claims@[i as int]@);
            match claim_op_exec(&input.current_facts, &input.new_claims[i]) {
                Some(op) => {
                    let ghost before = ops_view(ops@);
                    ops.push(op);
                    assert(ops_view(ops@) =~= before.push(op@));
                    assert(head + claim_ops(fv, cv.take(i + 1)) =~= (head + claim_ops(fv, cv.take(i as int))).push(op@));
                },
                None => {},
            }
        }
        assert(cv.take(input.new_claims@.len() as int) == cv);
        ops
    }
}


// ---------------------------------------------------------------------------
// Answers
// ---------------------------------------------------------------------------

/// A context line worth quoting: longer than ten bytes once trimmed.
pub open spec fn quotable(l: Seq<char>) -> bool {
    utf8_len(trim(l)) > 10
}

/// The quotable lines, each with its overlap with the question.
pub open spec fn scored_lines(q: Seq<char>, ls: Seq<Seq<char>>) -> Seq<((nat, nat), Seq<char>)>
    decreases ls.len(),
{
    if ls.len() == 0 {
        seq![]
    } else {
        let rest = scored_lines(q, ls.drop_last());
        let l = ls.last();
        if quotable(l) {
            rest.push((jaccard_ratio(q, l), trim(l)))
        } else {
            rest
        }
    }
}

/// Higher overlap first.
pub open spec fn by_score_desc() -> spec_fn(((nat, nat), Seq<char>), ((nat, nat), Seq<char>)) -> bool {
    |a: ((nat, nat), Seq<char>), b: ((nat, nat), Seq<char>)| b.0.0 * a.0.1 < a.0.0 * b.0.1
}

/// The offline answer: the four context lines that overlap the question
/// most, as a list.
pub open spec fn mock_answer(q: Seq<char>, context: Seq<char>) -> Seq<char> {
    let best = take_up_to(
        stable_sort(scored_lines(q, crate::lines::lines(context)), by_score_desc()),
        4,
    );
    "(mock) Based on your wiki:\n"@ + join(
        best.map_values(|x: ((nat, nat), Seq<char>)| "- "@ + x.1),
        "\n"@,
    )
}

spec fn sview(t: Seq<(usize, usize, Vec<char>)>) -> Seq<((nat, nat), Seq<char>)> {
    t.map_values(|e: (usize, usize, Vec<char>)| ((e.0 as nat, e.1 as nat), e.2@))
}

fn sort_by_score(items: Vec<(usize, usize, Vec<char>)>) -> (r: Vec<(usize, usize, Vec<char>)>)
    ensures
        sview(r@) == stable_sort(sview(items@), by_score_desc()),
{
    let mut out: Vec<(usize, usize, Vec<char>)> = Vec::new();
    let ghost all = sview(items@);
    let n = items.len();
    let mut i: usize = 0;
    let mut items = items;
    assert(sview(items@) == all.skip(0));
    while items.len() > 0
        invariant
            n == all.len(),
            i + items@.len() == n,
            sview(items@) == all.skip(i as int),
            sview(out@) == stable_sort(all.take(i as int), by_score_desc()),
        decreases items@.len(),
    {
        let ghost before_items = items@;
        let x = items.remove(0);
        assert(sview(before_items)[0] == all[i as int]);
        assert(sview(items@) =~= all.skip(i + 1)) by {
            assert forall|z: int| 0 <= z < items@.len() implies sview(items@)[z] == all.skip(i + 1)[z] by {
                assert(items@[z] == before_items[z + 1]);
                assert(sview(before_items)[z + 1] == all.skip(i as int)[z + 1]);
            }
        }
        let ghost ov = sview(out@);
        let ghost xv = ((x.0 as nat, x.1 as nat), x.2@);
        let mut k: usize = 0;
        while k < out.len() && !(mul_wide(out[k].0, x.1) < mul_wide(x.0, out[k].1))
            invariant
                0 <= k <= out@.len(),
                ov == sview(out@),
                xv == ((x.0 as nat, x.1 as nat), x.2@),
                pos_from(ov, xv, by_score_desc(), 0) == pos_from(ov, xv, by_score_desc(), k as int),
            decreases out@.len() - k,
        {
            k = k + 1;
        }
        proof {
            crate::order::lemma_stable_sort_step(all, by_score_desc(), i as int);
        }
        out.insert(k, x);
        assert(sview(out@) =~= ov.insert(k as int, xv));
        i = i + 1;
    }
    assert(all.take(n as int) == all);
    out
}

impl MockProvider {
    /// The offline answer: the four quotable context lines that overlap the
    /// question most (the first of equals first), each as a list item.
    pub fn answer(&self, question: &str, context: &str) -> (r: String)
        ensures
            r@ == mock_answer(question@, context@),
    {
        let c = chars_of(context);
        let (_, ls) = crate::lines::split_lines(c.as_slice());
        let ghost lv = ls@.map_values(|v: Vec<char>| v@);
        let mut items: Vec<(usize, usize, Vec<char>)> = Vec::new();
        for i in 0..ls.len()
            invariant
                lv == ls@.map_values(|v: Vec<char>| v@),
                lv == crate::lines::lines(context@),
                sview(items@) == scored_lines(question@, lv.take(i as int)),
        {
            assert(lv.take(i + 1).drop_last() == lv.take(i as int));
            assert(lv.take(i + 1).last() == ls@[i as int]@);
            let t = trim_chars(ls[i].as_slice());
            let ts = string_of(t.as_slice());
            if ts.as_str().as_bytes().len() > 10 {
                let l = string_of(ls[i].as_slice());
                let sc = jaccard(question, l.as_str());
                let ghost before = sview(items@);
                items.push((sc.0, sc.1, t));
                assert(sview(items@) =~= before.push((jaccard_ratio(question@, lv[i as int]), trim(lv[i as int]))));
            }
        }
        assert(lv.take(ls@.len() as int) == lv);
        let sorted = sort_by_score(items);
        let ghost sv = sview(sorted@);
        let m = if sorted.len() < 4 {
            sorted.len()
        } else {
            4
        };
        let ghost parts = take_up_to(sv, 4).map_values(|x: ((nat, nat), Seq<char>)| "- "@ + x.1);
        let mut body: Vec<char> = Vec::new();
        assert(parts.take(0) =~= Seq::<Seq<char>>::empty());
        for j in 0..m
            invariant
                sv == sview(sorted@),
                m <= sorted@.len(),
                m == (if sorted@.len() < 4 { sorted@.len() } else { 4 }),
                parts == take_up_to(sv, 4).map_values(|x: ((nat, nat), Seq<char>)| "- "@ + x.1),
                body@ == join(parts.take(j as int), "\n"@),
        {
            let mut item = chars_of("- ");
            extend_chars(&mut item, sorted[j].2.as_slice());
            assert(item@ == parts[j as int]);
            assert(parts.take(j + 1).drop_last() == parts.take(j as int));
            assert(parts.take(j + 1).last() == parts[j as int]);
            if j > 0 {
                extend_str(&mut body, "\n");
            } else {
                assert(parts.take(1) == seq![parts[0]]);
            }
            extend_chars(&mut body, item.as_slice());
        }
        assert(parts.take(m as int) == parts);
        let mut out = chars_of("(mock) Based on your wiki:\n");
        extend_chars(&mut out, body.as_slice());
        string_of(out.as_slice())
    }
}

} // verus!
