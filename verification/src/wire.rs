//! What is said to a language model and what is made of its answers: the
//! prompts, the code fences around a JSON answer, and the reconciler's
//! operations read into typed page changes.
use vstd::prelude::*;
use crate::domain::{Claim, ClaimView, CandidateEntity, Entity, PatchOp, ReconcileInput, RelatedFact};
use crate::mock::{claims_view, facts_view};
use crate::page::{EntityView, OpView, clone_claim, ops_view};
use crate::text::{
    chars_eq, chars_of, extend_chars, extend_str, join, occurs_at, starts_with, ends_with,
    string_of, trim, trim_chars,
};
use crate::domain::opt_str_view;

verus! {

/// One operation as the reconciler model states it.
#[derive(Debug, Clone, PartialEq, Eq)]
pub struct WireOp {
    pub op: String,
    pub summary: Option<String>,
    pub fact_id: Option<String>,
    pub new_fact: Option<String>,
    pub claim_id: Option<String>,
    pub note: Option<String>,
    pub page: Option<String>,
}

pub ghost struct WireView {
    pub op: Seq<char>,
    pub summary: Option<Seq<char>>,
    pub fact_id: Option<Seq<char>>,
    pub new_fact: Option<Seq<char>>,
    pub claim_id: Option<Seq<char>>,
    pub note: Option<Seq<char>>,
    pub page: Option<Seq<char>>,
}

impl View for WireOp {
    type V = WireView;

    open spec fn view(&self) -> WireView {
        WireView {
            op: self.op@,
            summary: opt_str_view(self.summary),
            fact_id: opt_str_view(self.fact_id),
            new_fact: opt_str_view(self.new_fact),
            claim_id: opt_str_view(self.claim_id),
            note: opt_str_view(self.note),
            page: opt_str_view(self.page),
        }
    }
}

/// The claim with the given id; of several, the last.
pub open spec fn claim_by_id(claims: Seq<ClaimView>, id: Seq<char>) -> Option<ClaimView>
    decreases claims.len(),
{
    if claims.len() == 0 {
        None
    } else if claims.last().id == id {
        Some(claims.last())
    } else {
        claim_by_id(claims.drop_last(), id)
    }
}

pub open spec fn or_else(o: Option<Seq<char>>, d: Seq<char>) -> Seq<char> {
    match o {
        Some(x) => x,
        None => d,
    }
}

/// One stated operation read as a page change: `Ok(None)` for an operation
/// of no known kind, an error for an unknown claim id or a missing fact id.
pub open spec fn wire_op(w: WireView, title: Seq<char>, kind: Seq<char>, claims: Seq<ClaimView>) -> Result<
    Option<OpView>,
    Seq<char>,
> {
    let c = claim_by_id(claims, or_else(w.claim_id, seq![]));
    if w.op == "create_page"@ {
        Ok(
            Some(
                OpView::CreatePage {
                    entity: EntityView { name: title, kind, aliases: seq![] },
                    summary: or_else(w.summary, title),
                },
            ),
        )
    } else if w.op == "append_fact"@ || w.op == "update_fact"@ || w.op == "supersede_fact"@ || w.op
        == "flag_contradiction"@ {
        match c {
            None => Err("unknown claim id"@),
            Some(c) => if w.op == "append_fact"@ {
                Ok(Some(OpView::AppendFact { fact: c.text, claim: c }))
            } else {
                match w.fact_id {
                    None => Err("missing fact_id"@),
                    Some(f) => if w.op == "update_fact"@ {
                        Ok(
                            Some(
                                OpView::UpdateFact {
                                    fact_id: f,
                                    new_fact: or_else(w.new_fact, c.text),
                                    claim: c,
                                    target_slug: w.page,
                                },
                            ),
                        )
                    } else if w.op == "supersede_fact"@ {
                        Ok(
                            Some(
                                OpView::SupersedeFact {
                                    fact_id: f,
                                    new_fact: or_else(w.new_fact, c.text),
                                    claim: c,
                                    target_slug: w.page,
                                },
                            ),
                        )
                    } else {
                        Ok(
                            Some(
                                OpView::FlagContradiction {
                                    fact_id: f,
                                    conflicting: c,
                                    note: or_else(w.note, c.text),
                                    target_slug: w.page,
                                },
                            ),
                        )
                    }
                }
            },
        }
    } else {
        Ok(None)
    }
}

/// The stated operations read in order; the first error stops the reading.
pub open spec fn map_wire(ws: Seq<WireView>, title: Seq<char>, kind: Seq<char>, claims: Seq<ClaimView>) -> Result<
    Seq<OpView>,
    Seq<char>,
>
    decreases ws.len(),
{
    if ws.len() == 0 {
        Ok(seq![])
    } else {
        match map_wire(ws.drop_last(), title, kind, claims) {
            Err(e) => Err(e),
            Ok(ops) => match wire_op(ws.last(), title, kind, claims) {
                Err(e) => Err(e),
                Ok(None) => Ok(ops),
                Ok(Some(op)) => Ok(ops.push(op)),
            },
        }
    }
}

pub open spec fn wires_view(v: Seq<WireOp>) -> Seq<WireView> {
    v.map_values(|w: WireOp| w@)
}

fn clone_opt_str(o: &Option<String>) -> (r: Option<String>)
    ensures
        opt_str_view(r) == opt_str_view(*o),
{
    match o {
        Some(s) => Some(s.clone()),
        None => None,
    }
}

fn find_claim(claims: &Vec<Claim>, id: &str) -> (r: Option<usize>)
    ensures
        match r {
            Some(k) => k < claims@.len() && claim_by_id(claims_view(claims@), id@) == Some(
                claims@[k as int]@,
            ),
            None => claim_by_id(claims_view(claims@), id@).is_none(),
        },
{
    let ghost cv = claims_view(claims@);
    let target = chars_of(id);
    let mut k = claims.len();
    assert(cv.take(k as int) == cv);
    while k > 0
        invariant
            k <= claims@.len(),
            cv == claims_view(claims@),
            target@ == id@,
            claim_by_id(cv, id@) == claim_by_id(cv.take(k as int), id@),
        decreases k,
    {
        assert(cv.take(k as int).drop_last() == cv.take(k - 1));
        assert(cv.take(k as int).last() == claims@[k - 1]@);
        let cid = chars_of(claims[k - 1].id.as_str());
        if chars_eq(cid.as_slice(), target.as_slice()) {
            return Some(k - 1);
        }
        k = k - 1;
    }
    assert(cv.take(0).len() == 0);
    None
}

fn str_is(s: &str, lit: &str) -> (r: bool)
    ensures
        r == (s@ == lit@),
{
    crate::text::str_eq(s, lit)
}

fn wire_op_exec(w: &WireOp, input: &ReconcileInput) -> (r: Result<Option<PatchOp>, String>)
    ensures
        match (r, wire_op(w@, input.title@, input.kind@, claims_view(input.new_claims@))) {
            (Ok(Some(a)), Ok(Some(b))) => a@ == b,
            (Ok(None), Ok(None)) => true,
            (Err(a), Err(b)) => a@ == b,
            _ => false,
        },
{
    let op = w.op.as_str();
    let empty = String::new();
    let cid = match &w.claim_id {
        Some(x) => x.as_str(),
        None => empty.as_str(),
    };
    proof {
        reveal_strlit("");
    }
    assert(cid@ == or_else(w@.claim_id, seq![]));
    if str_is(op, "create_page") {
        let summary = match &w.summary {
            Some(s) => s.clone(),
            None => input.title.clone(),
        };
        let e = Entity { name: input.title.clone(), kind: input.kind.clone(), aliases: Vec::new() };
        assert(e@.aliases =~= Seq::<Seq<char>>::empty());
        return Ok(Some(PatchOp::CreatePage { entity: e, summary }));
    }
    let is_append = str_is(op, "append_fact");
    let is_update = str_is(op, "update_fact");
    let is_supersede = str_is(op, "supersede_fact");
    let is_flag = str_is(op, "flag_contradiction");
    if !(is_append || is_update || is_supersede || is_flag) {
        return Ok(None);
    }
    let k = match find_claim(&input.new_claims, cid) {
        Some(k) => k,
        None => {
            return Err("unknown claim id".to_string());
        },
    };
    let c = &input.new_claims[k];
    if is_append {
        return Ok(Some(PatchOp::AppendFact { fact: c.text.clone(), claim: clone_claim(c) }));
    }
    let f = match &w.fact_id {
        Some(f) => f.clone(),
        None => {
            return Err("missing fact_id".to_string());
        },
    };
    if is_update {
        let nf = match &w.new_fact {
            Some(x) => x.clone(),
            None => c.text.clone(),
        };
        Ok(
            Some(
                PatchOp::UpdateFact {
                    fact_id: f,
                    new_fact: nf,
                    claim: clone_claim(c),
                    target_slug: clone_opt_str(&w.page),
                },
            ),
        )
    } else if is_supersede {
        let nf = match &w.new_fact {
            Some(x) => x.clone(),
            None => c.text.clone(),
        };
        Ok(
            Some(
                PatchOp::SupersedeFact {
                    fact_id: f,
                    new_fact: nf,
                    claim: clone_claim(c),
                    target_slug: clone_opt_str(&w.page),
                },
            ),
        )
    } else {
        let note = match &w.note {
            Some(x) => x.clone(),
            None => c.text.clone(),
        };
        Ok(
            Some(
                PatchOp::FlagContradiction {
                    fact_id: f,
                    conflicting: clone_claim(c),
                    note,
                    target_slug: clone_opt_str(&w.page),
                },
            ),
        )
    }
}

/// The claim found by id is one of the claims, with that id.
proof fn lemma_claim_by_id_member(claims: Seq<ClaimView>, id: Seq<char>)
    ensures
        claim_by_id(claims, id) matches Some(c) ==> claims.contains(c) && c.id == id,
    decreases claims.len(),
{
    if claims.len() > 0 {
        lemma_claim_by_id_member(claims.drop_last(), id);
        if claims.last().id == id {
            assert(claims[claims.len() - 1] == claims.last());
        } else if let Some(c) = claim_by_id(claims.drop_last(), id) {
            let i = choose|i: int| 0 <= i < claims.drop_last().len() && claims.drop_last()[i] == c;
            assert(claims[i] == c);
        }
    }
}

/// Every fact-changing operation that a reconciler's answer becomes rests on
/// one of the claims the reconciler was given, found by its id.
pub proof fn law_wire_ops_use_known_claims(
    ws: Seq<WireView>,
    title: Seq<char>,
    kind: Seq<char>,
    claims: Seq<ClaimView>,
)
    ensures
        map_wire(ws, title, kind, claims) matches Ok(ops) ==> forall|k: int|
            0 <= k < ops.len() && (#[trigger] crate::page::claim_of_spec(ops[k])).is_some() ==> claims.contains(
                crate::page::claim_of_spec(ops[k])->Some_0,
            ),
    decreases ws.len(),
{
    if ws.len() > 0 {
        law_wire_ops_use_known_claims(ws.drop_last(), title, kind, claims);
        lemma_claim_by_id_member(claims, or_else(ws.last().claim_id, seq![]));
        if let Ok(ops) = map_wire(ws, title, kind, claims) {
            let prev = map_wire(ws.drop_last(), title, kind, claims)->Ok_0;
            assert forall|k: int|
                0 <= k < ops.len() && (#[trigger] crate::page::claim_of_spec(ops[k])).is_some() implies claims.contains(
                crate::page::claim_of_spec(ops[k])->Some_0,
            ) by {
                if k < prev.len() {
                    assert(ops[k] == prev[k]);
                    assert(crate::page::claim_of_spec(prev[k]).is_some());
                }
            }
        }
    }
}

/// Reads the reconciler model's operations into page changes, in order:
/// `create_page` names the page after the entity, the others take the claim
/// whose id they give; an unknown claim id or a missing fact id fails the
/// whole answer, and operations of other kinds are skipped.
pub fn map_wire_ops(wire: Vec<WireOp>, input: &ReconcileInput) -> (r: Result<Vec<PatchOp>, String>)
    ensures
        match (r, map_wire(wires_view(wire@), input.title@, input.kind@, claims_view(input.new_claims@))) {
            (Ok(a), Ok(b)) => ops_view(a@) == b,
            (Err(a), Err(b)) => a@ == b,
            _ => false,
        },
{
    let ghost wv = wires_view(wire@);
    let ghost cv = claims_view(input.new_claims@);
    let mut out: Vec<PatchOp> = Vec::new();
    assert(wv.take(0).len() == 0);
    assert(ops_view(out@) =~= Seq::<OpView>::empty());
    for i in 0..wire.len()
        invariant
            wv == wires_view(wire@),
            cv == claims_view(input.new_claims@),
            map_wire(wv.take(i as int), input.title@, input.kind@, cv) == Ok::<Seq<OpView>, Seq<char>>(ops_view(out@)),
    {
        assert(wv.take(i + 1).drop_last() == wv.take(i as int));
        assert(wv.take(i + 1).last() == wire@[i as int]@);
        match wire_op_exec(&wire[i], input) {
            Err(e) => {
                assert(map_wire(wv.take(i + 1), input.title@, input.kind@, cv) == Err::<Seq<OpView>, Seq<char>>(e@));
                proof {
                    lemma_map_wire_err_sticks(wv, input.title@, input.kind@, cv, i + 1, e@);
                }
                return Err(e);
            },
            Ok(None) => {},
            Ok(Some(op)) => {
                let ghost before = ops_view(out@);
                out.push(op);
                assert(ops_view(out@) =~= before.push(op@));
            },
        }
    }
    assert(wv.take(wire@.len() as int) == wv);
    Ok(out)
}

proof fn lemma_map_wire_err_sticks(
    ws: Seq<WireView>,
    title: Seq<char>,
    kind: Seq<char>,
    claims: Seq<ClaimView>,
    k: int,
    e: Seq<char>,
)
    requires
        0 <= k <= ws.len(),
        map_wire(ws.take(k), title, kind, claims) == Err::<Seq<OpView>, Seq<char>>(e),
    ensures
        map_wire(ws, title, kind, claims) == Err::<Seq<OpView>, Seq<char>>(e),
    decreases ws.len() - k,
{
    if k < ws.len() {
        assert(ws.take(k + 1).drop_last() == ws.take(k));
        lemma_map_wire_err_sticks(ws, title, kind, claims, k + 1, e);
    } else {
        assert(ws.take(k) == ws);
    }
}


// ---------------------------------------------------------------------------
// Prompts and answers
// ---------------------------------------------------------------------------

/// Joins pieces with a separator.
pub fn join_parts(parts: &Vec<Vec<char>>, sep: &str) -> (r: Vec<char>)
    ensures
        r@ == join(crate::ai::vv(parts@), sep@),
{
    let ghost pv = crate::ai::vv(parts@);
    let mut v: Vec<char> = Vec::new();
    let n = parts.len();
    assert(pv.take(0) =~= Seq::<Seq<char>>::empty());
    for i in 0..n
        invariant
            n == parts@.len(),
            pv == crate::ai::vv(parts@),
            v@ == join(pv.take(i as int), sep@),
    {
        assert(pv.take(i + 1).drop_last() == pv.take(i as int));
        assert(pv.take(i + 1).last() == parts@[i as int]@);
        if i > 0 {
            extend_str(&mut v, sep);
        } else {
            assert(pv.take(1) == seq![pv[0]]);
        }
        extend_chars(&mut v, parts[i].as_slice());
    }
    assert(pv.take(n as int) == pv);
    v
}

pub open spec fn bool_text(b: bool) -> Seq<char> {
    if b {
        "true"@
    } else {
        "false"@
    }
}

pub open spec fn related_view(v: Seq<RelatedFact>) -> Seq<(Seq<char>, Seq<char>, Seq<char>)> {
    v.map_values(|r: RelatedFact| (r.slug@, r.fact_id@, r.text@))
}

/// The reconciler's prompt: the entity, its current facts (`(none)` when
/// there are none), the new claims and the related facts, one per line.
pub open spec fn reconcile_text(
    slug: Seq<char>,
    title: Seq<char>,
    kind: Seq<char>,
    exists: bool,
    facts: Seq<(Seq<char>, Seq<char>)>,
    claims: Seq<ClaimView>,
    related: Seq<(Seq<char>, Seq<char>, Seq<char>)>,
) -> Seq<char> {
    "ENTITY "@ + title + " ("@ + kind + ") slug="@ + slug + " exists="@ + bool_text(exists)
        + "\nCURRENT:\n"@ + (if facts.len() == 0 {
        "(none)"@
    } else {
        join(
            facts.map_values(|f: (Seq<char>, Seq<char>)| "["@ + f.0 + "] "@ + f.1),
            "\n"@,
        )
    }) + "\nNEW:\n"@ + join(claims.map_values(|c: ClaimView| "["@ + c.id + "] "@ + c.text), "\n"@)
        + "\nRELATED:\n"@ + join(
        related.map_values(
            |r: (Seq<char>, Seq<char>, Seq<char>)| "["@ + r.1 + "] page="@ + r.0 + " "@ + r.2,
        ),
        "\n"@,
    )
}

/// The user prompt of the reconciler model.
pub fn reconcile_prompt(i: &ReconcileInput) -> (r: String)
    ensures
        r@ == reconcile_text(
            i.slug@,
            i.title@,
            i.kind@,
            i.exists,
            facts_view(i.current_facts@),
            claims_view(i.new_claims@),
            related_view(i.related_facts@),
        ),
{
    let ghost fv = facts_view(i.current_facts@);
    let ghost fp = fv.map_values(|f: (Seq<char>, Seq<char>)| "["@ + f.0 + "] "@ + f.1);
    let mut fparts: Vec<Vec<char>> = Vec::new();
    for k in 0..i.current_facts.len()
        invariant
            fv == facts_view(i.current_facts@),
            fp == fv.map_values(|f: (Seq<char>, Seq<char>)| "["@ + f.0 + "] "@ + f.1),
            crate::ai::vv(fparts@) == fp.take(k as int),
    {
        let mut x = chars_of("[");
        extend_str(&mut x, i.current_facts[k].0.as_str());
        extend_str(&mut x, "] ");
        extend_str(&mut x, i.current_facts[k].1.as_str());
        let ghost before = crate::ai::vv(fparts@);
        fparts.push(x);
        assert(crate::ai::vv(fparts@) =~= before.push(fp[k as int]));
        assert(fp.take(k + 1) =~= fp.take(k as int).push(fp[k as int]));
    }
    assert(fp.take(fv.len() as int) == fp);
    let ghost cv = claims_view(i.new_claims@);
    let ghost cp = cv.map_values(|c: ClaimView| "["@ + c.id + "] "@ + c.text);
    let mut cparts: Vec<Vec<char>> = Vec::new();
    for k in 0..i.new_claims.len()
        invariant
            cv == claims_view(i.new_claims@),
            cp == cv.map_values(|c: ClaimView| "["@ + c.id + "] "@ + c.text),
            crate::ai::vv(cparts@) == cp.take(k as int),
    {
        let mut x = chars_of("[");
        extend_str(&mut x, i.new_claims[k].id.as_str());
        extend_str(&mut x, "] ");
        extend_str(&mut x, i.new_claims[k].text.as_str());
        let ghost before = crate::ai::vv(cparts@);
        cparts.push(x);
        assert(crate::ai::vv(cparts@) =~= before.push(cp[k as int]));
        assert(cp.take(k + 1) =~= cp.take(k as int).push(cp[k as int]));
    }
    assert(cp.take(cv.len() as int) == cp);
    let ghost rv = related_view(i.related_facts@);
    let ghost rp = rv.map_values(
        |r: (Seq<char>, Seq<char>, Seq<char>)| "["@ + r.1 + "] page="@ + r.0 + " "@ + r.2,
    );
    let mut rparts: Vec<Vec<char>> = Vec::new();
    for k in 0..i.related_facts.len()
        invariant
            rv == related_view(i.related_facts@),
            rp == rv.map_values(
                |r: (Seq<char>, Seq<char>, Seq<char>)| "["@ + r.1 + "] page="@ + r.0 + " "@ + r.2,
            ),
            crate::ai::vv(rparts@) == rp.take(k as int),
    {
        let mut x = chars_of("[");
        extend_str(&mut x, i.related_facts[k].fact_id.as_str());
        extend_str(&mut x, "] page=");
        extend_str(&mut x, i.related_facts[k].slug.as_str());
        extend_str(&mut x, " ");
        extend_str(&mut x, i.related_facts[k].text.as_str());
        let ghost before = crate::ai::vv(rparts@);
        rparts.push(x);
        assert(crate::ai::vv(rparts@) =~= before.push(rp[k as int]));
        assert(rp.take(k + 1) =~= rp.take(k as int).push(rp[k as int]));
    }
    assert(rp.take(rv.len() as int) == rp);
    let mut out = chars_of("ENTITY ");
    extend_str(&mut out, i.title.as_str());
    extend_str(&mut out, " (");
    extend_str(&mut out, i.kind.as_str());
    extend_str(&mut out, ") slug=");
    extend_str(&mut out, i.slug.as_str());
    extend_str(&mut out, " exists=");
    if i.exists {
        extend_str(&mut out, "true");
    } else {
        extend_str(&mut out, "false");
    }
    extend_str(&mut out, "\nCURRENT:\n");
    if i.current_facts.len() == 0 {
        extend_str(&mut out, "(none)");
    } else {
        let f = join_parts(&fparts, "\n");
        extend_chars(&mut out, f.as_slice());
    }
    extend_str(&mut out, "\nNEW:\n");
    let c = join_parts(&cparts, "\n");
    extend_chars(&mut out, c.as_slice());
    extend_str(&mut out, "\nRELATED:\n");
    let r = join_parts(&rparts, "\n");
    extend_chars(&mut out, r.as_slice());
    string_of(out.as_slice())
}

/// The extractor's prompt: the candidate entities as `name (kind)`, comma
/// separated (`(none)` when there are none), and the article.
pub open spec fn extract_text(cands: Seq<(Seq<char>, Seq<char>)>, content: Seq<char>) -> Seq<char> {
    "CANDIDATES: "@ + (if cands.len() == 0 {
        "(none)"@
    } else {
        join(cands.map_values(|c: (Seq<char>, Seq<char>)| c.0 + " ("@ + c.1 + ")"@), ", "@)
    }) + "\n\nARTICLE:\n"@ + content
}

pub fn extract_prompt(content: &str, candidates: &Vec<CandidateEntity>) -> (r: String)
    ensures
        r@ == extract_text(
            candidates@.map_values(|c: CandidateEntity| (c.name@, c.kind@)),
            content@,
        ),
{
    let ghost cv = candidates@.map_values(|c: CandidateEntity| (c.name@, c.kind@));
    let ghost cp = cv.map_values(|c: (Seq<char>, Seq<char>)| c.0 + " ("@ + c.1 + ")"@);
    let mut parts: Vec<Vec<char>> = Vec::new();
    for k in 0..candidates.len()
        invariant
            cv == candidates@.map_values(|c: CandidateEntity| (c.name@, c.kind@)),
            cp == cv.map_values(|c: (Seq<char>, Seq<char>)| c.0 + " ("@ + c.1 + ")"@),
            crate::ai::vv(parts@) == cp.take(k as int),
    {
        let mut x = chars_of(candidates[k].name.as_str());
        extend_str(&mut x, " (");
        extend_str(&mut x, candidates[k].kind.as_str());
        extend_str(&mut x, ")");
        let ghost before = crate::ai::vv(parts@);
        parts.push(x);
        assert(crate::ai::vv(parts@) =~= before.push(cp[k as int]));
        assert(cp.take(k + 1) =~= cp.take(k as int).push(cp[k as int]));
    }
    assert(cp.take(cv.len() as int) == cp);
    let mut out = chars_of("CANDIDATES: ");
    if candidates.len() == 0 {
        extend_str(&mut out, "(none)");
    } else {
        let j = join_parts(&parts, ", ");
        extend_chars(&mut out, j.as_slice());
    }
    extend_str(&mut out, "\n\nARTICLE:\n");
    extend_str(&mut out, content);
    string_of(out.as_slice())
}

/// The note model's prompt: the title and the text.
pub fn note_prompt(title: &str, content: &str) -> (r: String)
    ensures
        r@ == "TITLE: "@ + title@ + "\n\n"@ + content@,
{
    let mut out = chars_of("TITLE: ");
    extend_str(&mut out, title);
    extend_str(&mut out, "\n\n");
    extend_str(&mut out, content);
    string_of(out.as_slice())
}

/// The research model's prompt: the question and the wiki context.
pub fn answer_prompt(question: &str, context: &str) -> (r: String)
    ensures
        r@ == "QUESTION: "@ + question@ + "\n\nCONTEXT:\n"@ + context@,
{
    let mut out = chars_of("QUESTION: ");
    extend_str(&mut out, question);
    extend_str(&mut out, "\n\nCONTEXT:\n");
    extend_str(&mut out, context);
    string_of(out.as_slice())
}

/// `str::trim_start_matches` with a non-empty string pattern.
pub open spec fn strip_prefixes(s: Seq<char>, p: Seq<char>) -> Seq<char>
    decreases s.len(),
{
    if p.len() > 0 && starts_with(s, p) {
        strip_prefixes(s.skip(p.len() as int), p)
    } else {
        s
    }
}

/// `str::trim_end_matches` with a non-empty string pattern.
pub open spec fn strip_suffixes(s: Seq<char>, p: Seq<char>) -> Seq<char>
    decreases s.len(),
{
    if p.len() > 0 && ends_with(s, p) {
        strip_suffixes(s.take(s.len() - p.len()), p)
    } else {
        s
    }
}

/// A model's JSON answer without the code fences it may be wrapped in.
pub open spec fn unfenced(text: Seq<char>) -> Seq<char> {
    trim(strip_suffixes(strip_prefixes(strip_prefixes(trim(text), "```json"@), "```"@), "```"@))
}

fn strip_prefixes_exec(s: Vec<char>, p: &[char]) -> (r: Vec<char>)
    requires
        p@.len() > 0,
    ensures
        r@ == strip_prefixes(s@, p@),
{
    let mut start: usize = 0;
    let n = s.len();
    assert(s@.skip(0) == s@);
    while crate::text::occurs_at_exec(s.as_slice(), p, start)
        invariant
            n == s@.len(),
            start <= n,
            p@.len() > 0,
            strip_prefixes(s@, p@) == strip_prefixes(s@.skip(start as int), p@),
        decreases n - start,
    {
        assert(s@.skip(start as int).subrange(0, p@.len() as int) == s@.subrange(start as int, start + p@.len()));
        assert(s@.skip(start as int).skip(p@.len() as int) == s@.skip(start + p@.len()));
        start = start + p.len();
    }
    if p.len() <= n - start {
        assert(s@.skip(start as int).subrange(0, p@.len() as int) == s@.subrange(start as int, start + p@.len()));
    }
    crate::lines::slice_chars(s.as_slice(), start, n)
}

fn strip_suffixes_exec(s: Vec<char>, p: &[char]) -> (r: Vec<char>)
    requires
        p@.len() > 0,
    ensures
        r@ == strip_suffixes(s@, p@),
{
    let mut end: usize = s.len();
    assert(s@.take(end as int) == s@);
    while end >= p.len() && crate::text::occurs_at_exec(s.as_slice(), p, end - p.len())
        invariant
            end <= s@.len(),
            p@.len() > 0,
            strip_suffixes(s@, p@) == strip_suffixes(s@.take(end as int), p@),
        decreases end,
    {
        assert(s@.take(end as int).subrange(end - p@.len(), end as int) == s@.subrange(end - p@.len(), end as int));
        assert(s@.take(end as int).take(end - p@.len()) == s@.take(end - p@.len()));
        end = end - p.len();
    }
    if end >= p.len() {
        assert(s@.take(end as int).subrange(end - p@.len(), end as int) == s@.subrange(end - p@.len(), end as int));
    }
    crate::lines::slice_chars(s.as_slice(), 0, end)
}

/// A model's answer without the code fences around its JSON: trimmed,
/// without leading `` ```json `` and `` ``` `` and trailing `` ``` ``.
pub fn strip_fences(text: &str) -> (r: String)
    ensures
        r@ == unfenced(text@),
{
    let v = chars_of(text);
    let t = trim_chars(v.as_slice());
    let j = chars_of("```json");
    let f = chars_of("```");
    proof {
        reveal_strlit("```json");
        reveal_strlit("```");
    }
    let a = strip_prefixes_exec(t, j.as_slice());
    let b = strip_prefixes_exec(a, f.as_slice());
    let c = strip_suffixes_exec(b, f.as_slice());
    let d = trim_chars(c.as_slice());
    string_of(d.as_slice())
}

} // verus!
