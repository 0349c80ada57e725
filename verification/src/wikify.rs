//! Turning a source's extracted claims into wiki pages: for each entity, in
//! name order, find its page, ask for operations, commit them (retrying a
//! stale page up to three times), and log what happened. The model calls,
//! file reads and writes are the caller's; this machine decides what comes
//! next.
use vstd::prelude::*;
use crate::agent::{claim_groups_view, claims_grouped, slugify, slugify_spec};
use crate::domain::{
    Claim, ClaimView, EntityPage, Entity, ExtractResult, PatchOp, ReconcileInput, RelatedFact,
    WikifyEntityReport, WikifyReport, strs_view,
};
use crate::mock::{claims_view, facts_view, entities_view};
use crate::page::{CommitStatus, EntityView, OpView, ops_view};
use crate::text::{chars_of, dec, extend_chars, extend_str, string_of, usize_to_chars};
use crate::order::stable_sort;
use crate::vault::str_order;

verus! {

/// What the machine waits for.
#[derive(Debug, Clone, Copy, PartialEq, Eq, Structural)]
pub enum Phase {
    Locating,
    Preparing,
    Reconciling,
    Committing,
    Logging,
    Done,
}

/// What the caller is to do next.
pub enum WikifyStep {
    /// Find the page of entity `name` (or one of its aliases); answer with
    /// `located`.
    Locate { name: String, aliases: Vec<String> },
    /// Read page `slug`, the hash of its file, and the facts related to
    /// `claims`; answer with `prepared`.
    Prepare { slug: String, claims: Vec<Claim> },
    /// Ask the reconciler; answer with `reconciled`.
    Reconcile(ReconcileInput),
    /// Commit the operations, routed from page `slug`, against `base`, the
    /// hash page `slug` had when the reconciler's input was read; answer
    /// with `committed`.
    Commit { slug: String, ops: Vec<PatchOp>, base: String },
    /// Append the line to the log; answer with `logged`.
    Log(String),
    /// Cross-link the touched pages, commit the vault with `message`, and
    /// return the report.
    Finish { touched: Vec<String>, report: WikifyReport, message: String },
}

/// The machine's state.
pub struct Wikify {
    source_id: String,
    known: Vec<Entity>,
    groups: Vec<(String, Vec<Claim>)>,
    group: usize,
    slug: String,
    base: String,
    attempt: usize,
    status: String,
    op_count: usize,
    entities: Vec<WikifyEntityReport>,
    touched: Vec<String>,
    phase: Phase,
}

pub ghost struct WikifyView {
    pub source_id: Seq<char>,
    pub known: Seq<EntityView>,
    pub groups: Seq<(Seq<char>, Seq<ClaimView>)>,
    pub group: nat,
    pub slug: Seq<char>,
    pub base: Seq<char>,
    pub attempt: nat,
    pub status: Seq<char>,
    pub op_count: nat,
    pub entities: Seq<(Seq<char>, nat, Seq<char>)>,
    pub touched: Seq<Seq<char>>,
    pub phase: Phase,
}

pub open spec fn reports_view(v: Seq<WikifyEntityReport>) -> Seq<(Seq<char>, nat, Seq<char>)> {
    v.map_values(|e: WikifyEntityReport| (e.slug@, e.ops as nat, e.result@))
}

impl View for Wikify {
    type V = WikifyView;

    closed spec fn view(&self) -> WikifyView {
        WikifyView {
            source_id: self.source_id@,
            known: entities_view(self.known@),
            groups: claim_groups_view(self.groups@),
            group: self.group as nat,
            slug: self.slug@,
            base: self.base@,
            attempt: self.attempt as nat,
            status: self.status@,
            op_count: self.op_count as nat,
            entities: reports_view(self.entities@),
            touched: strs_view(self.touched@),
            phase: self.phase,
        }
    }
}

pub ghost enum StepView {
    Locate { name: Seq<char>, aliases: Seq<Seq<char>> },
    Prepare { slug: Seq<char>, claims: Seq<ClaimView> },
    Reconcile {
        slug: Seq<char>,
        title: Seq<char>,
        kind: Seq<char>,
        exists: bool,
        current_facts: Seq<(Seq<char>, Seq<char>)>,
        new_claims: Seq<ClaimView>,
        related: Seq<(Seq<char>, Seq<char>, Seq<char>)>,
    },
    Commit { slug: Seq<char>, ops: Seq<OpView>, base: Seq<char> },
    Log { line: Seq<char> },
    Finish { touched: Seq<Seq<char>>, source_id: Seq<char>, entities: Seq<(Seq<char>, nat, Seq<char>)>, message: Seq<char> },
}

impl View for WikifyStep {
    type V = StepView;

    open spec fn view(&self) -> StepView {
        match self {
            WikifyStep::Locate { name, aliases } => StepView::Locate { name: name@, aliases: strs_view(aliases@) },
            WikifyStep::Prepare { slug, claims } => StepView::Prepare { slug: slug@, claims: claims_view(claims@) },
            WikifyStep::Reconcile(i) => StepView::Reconcile {
                slug: i.slug@,
                title: i.title@,
                kind: i.kind@,
                exists: i.exists,
                current_facts: facts_view(i.current_facts@),
                new_claims: claims_view(i.new_claims@),
                related: crate::wire::related_view(i.related_facts@),
            },
            WikifyStep::Commit { slug, ops, base } => StepView::Commit {
                slug: slug@,
                ops: ops_view(ops@),
                base: base@,
            },
            WikifyStep::Log(l) => StepView::Log { line: l@ },
            WikifyStep::Finish { touched, report, message } => StepView::Finish {
                touched: strs_view(touched@),
                source_id: report.source_id@,
                entities: reports_view(report.entities@),
                message: message@,
            },
        }
    }
}

/// The kind the extractor gave entity `name` (the last mention wins), or
/// `concept`.
pub open spec fn kind_for(known: Seq<EntityView>, name: Seq<char>) -> Seq<char>
    decreases known.len(),
{
    if known.len() == 0 {
        "concept"@
    } else if known.last().name == name {
        known.last().kind
    } else {
        kind_for(known.drop_last(), name)
    }
}

/// The aliases the extractor gave entity `name` (the last mention wins).
pub open spec fn aliases_for(known: Seq<EntityView>, name: Seq<char>) -> Seq<Seq<char>>
    decreases known.len(),
{
    if known.len() == 0 {
        seq![]
    } else if known.last().name == name {
        known.last().aliases
    } else {
        aliases_for(known.drop_last(), name)
    }
}

/// The log line of one entity: `[wikify] <source> → [[<slug>]] (<n> ops, <status>)`.
pub open spec fn log_line(source_id: Seq<char>, slug: Seq<char>, ops: nat, status: Seq<char>) -> Seq<char> {
    "[wikify] "@ + source_id + " → [["@ + slug + "]] ("@ + dec(ops) + " ops, "@ + status + ")"@
}

/// The index of the first page creation among the operations.
pub open spec fn first_create(ops: Seq<OpView>, k: int) -> Option<int>
    decreases ops.len() - k,
{
    if k < 0 || k >= ops.len() {
        None
    } else if ops[k] is CreatePage {
        Some(k)
    } else {
        first_create(ops, k + 1)
    }
}

/// The operations with the extractor's aliases put on the first page
/// creation.
pub open spec fn with_aliases(ops: Seq<OpView>, aliases: Seq<Seq<char>>) -> Seq<OpView> {
    match first_create(ops, 0) {
        Some(k) => match ops[k] {
            OpView::CreatePage { entity, summary } => ops.update(
                k,
                OpView::CreatePage {
                    entity: EntityView { name: entity.name, kind: entity.kind, aliases },
                    summary,
                },
            ),
            _ => ops,
        },
        None => ops,
    }
}

/// Strictly ascending, without repeats: `sort` then `dedup`.
pub open spec fn dedup_sorted(s: Seq<Seq<char>>) -> Seq<Seq<char>>
    decreases s.len(),
{
    if s.len() == 0 {
        seq![]
    } else {
        let d = dedup_sorted(s.drop_last());
        if d.len() > 0 && d.last() == s.last() {
            d
        } else {
            d.push(s.last())
        }
    }
}

/// The step that starts entity group `g`, or the end.
pub open spec fn next_group_step(v: WikifyView, g: nat, entities: Seq<(Seq<char>, nat, Seq<char>)>, touched: Seq<Seq<char>>) -> StepView {
    if g < v.groups.len() {
        StepView::Locate { name: v.groups[g as int].0, aliases: aliases_for(v.known, v.groups[g as int].0) }
    } else {
        StepView::Finish {
            touched: dedup_sorted(stable_sort(touched, str_order())),
            source_id: v.source_id,
            entities,
            message: "wikify: "@ + v.source_id,
        }
    }
}

impl Wikify {
    pub closed spec fn wf(&self) -> bool {
        &&& self.group <= self.groups@.len()
        &&& self.phase != Phase::Done ==> self.group < self.groups@.len()
        &&& self.attempt < 3
        &&& self.op_count <= usize::MAX
    }

    /// What the machine waits for.
    pub fn phase(&self) -> (r: Phase)
        ensures
            r == self@.phase,
    {
        self.phase
    }
}


fn kind_for_exec(known: &Vec<Entity>, name: &str) -> (r: String)
    ensures
        r@ == kind_for(entities_view(known@), name@),
{
    let ghost kv = entities_view(known@);
    let mut k = known.len();
    assert(kv.take(k as int) == kv);
    while k > 0
        invariant
            k <= known@.len(),
            kv == entities_view(known@),
            kind_for(kv, name@) == kind_for(kv.take(k as int), name@),
        decreases k,
    {
        assert(kv.take(k as int).drop_last() == kv.take(k - 1));
        assert(kv.take(k as int).last() == known@[k - 1]@);
        if crate::text::str_eq(known[k - 1].name.as_str(), name) {
            return known[k - 1].kind.clone();
        }
        k = k - 1;
    }
    assert(kv.take(0).len() == 0);
    "concept".to_string()
}

fn clone_strings(v: &Vec<String>) -> (r: Vec<String>)
    ensures
        strs_view(r@) == strs_view(v@),
{
    let mut out: Vec<String> = Vec::new();
    for i in 0..v.len()
        invariant
            strs_view(out@) == strs_view(v@).take(i as int),
    {
        let ghost before = strs_view(out@);
        out.push(v[i].clone());
        assert(strs_view(out@) =~= before.push(v@[i as int]@));
        assert(strs_view(v@).take(i + 1) =~= strs_view(v@).take(i as int).push(v@[i as int]@));
    }
    assert(strs_view(v@).take(v@.len() as int) == strs_view(v@));
    out
}

fn aliases_for_exec(known: &Vec<Entity>, name: &str) -> (r: Vec<String>)
    ensures
        strs_view(r@) == aliases_for(entities_view(known@), name@),
{
    let ghost kv = entities_view(known@);
    let mut k = known.len();
    assert(kv.take(k as int) == kv);
    while k > 0
        invariant
            k <= known@.len(),
            kv == entities_view(known@),
            aliases_for(kv, name@) == aliases_for(kv.take(k as int), name@),
        decreases k,
    {
        assert(kv.take(k as int).drop_last() == kv.take(k - 1));
        assert(kv.take(k as int).last() == known@[k - 1]@);
        if crate::text::str_eq(known[k - 1].name.as_str(), name) {
            return clone_strings(&known[k - 1].aliases);
        }
        k = k - 1;
    }
    assert(kv.take(0).len() == 0);
    let r: Vec<String> = Vec::new();
    assert(strs_view(r@) =~= Seq::<Seq<char>>::empty());
    r
}

fn log_line_exec(source_id: &str, slug: &str, ops: usize, status: &str) -> (r: String)
    ensures
        r@ == log_line(source_id@, slug@, ops as nat, status@),
{
    let mut v = chars_of("[wikify] ");
    extend_str(&mut v, source_id);
    extend_str(&mut v, " → [[");
    extend_str(&mut v, slug);
    extend_str(&mut v, "]] (");
    let d = usize_to_chars(ops);
    extend_chars(&mut v, d.as_slice());
    extend_str(&mut v, " ops, ");
    extend_str(&mut v, status);
    extend_str(&mut v, ")");
    string_of(v.as_slice())
}

fn is_create(op: &PatchOp) -> (r: bool)
    ensures
        r == (op@ is CreatePage),
{
    match op {
        PatchOp::CreatePage { .. } => true,
        _ => false,
    }
}

fn with_aliases_exec(ops: Vec<PatchOp>, aliases: Vec<String>) -> (r: Vec<PatchOp>)
    ensures
        ops_view(r@) == with_aliases(ops_view(ops@), strs_view(aliases@)),
{
    let ghost ov = ops_view(ops@);
    let mut k: usize = 0;
    while k < ops.len() && !is_create(&ops[k])
        invariant
            ov == ops_view(ops@),
            k <= ops@.len(),
            first_create(ov, 0) == first_create(ov, k as int),
        decreases ops@.len() - k,
    {
        k = k + 1;
    }
    if k == ops.len() {
        return ops;
    }
    let mut ops = ops;
    let old_op = ops.remove(k);
    let ghost rest = ops@;
    match old_op {
        PatchOp::CreatePage { entity, summary } => {
            let e = Entity { name: entity.name, kind: entity.kind, aliases };
            let op = PatchOp::CreatePage { entity: e, summary };
            ops.insert(k, op);
            assert(ops_view(ops@) =~= ov.update(k as int, op@));
        },
        other => {
            ops.insert(k, other);
        },
    }
    ops
}

fn dedup_sorted_exec(v: Vec<String>) -> (r: Vec<String>)
    ensures
        strs_view(r@) == dedup_sorted(strs_view(v@)),
{
    let ghost sv = strs_view(v@);
    let mut out: Vec<String> = Vec::new();
    for i in 0..v.len()
        invariant
            sv == strs_view(v@),
            strs_view(out@) == dedup_sorted(sv.take(i as int)),
    {
        assert(sv.take(i + 1).drop_last() == sv.take(i as int));
        assert(sv.take(i + 1).last() == v@[i as int]@);
        let ghost before = strs_view(out@);
        let n = out.len();
        if n > 0 && crate::text::str_eq(out[n - 1].as_str(), v[i].as_str()) {
        } else {
            out.push(v[i].clone());
            assert(strs_view(out@) =~= before.push(v@[i as int]@));
        }
    }
    assert(sv.take(v@.len() as int) == sv);
    out
}

fn clone_claims(v: &Vec<Claim>) -> (r: Vec<Claim>)
    ensures
        claims_view(r@) == claims_view(v@),
{
    let mut out: Vec<Claim> = Vec::new();
    for i in 0..v.len()
        invariant
            claims_view(out@) == claims_view(v@).take(i as int),
    {
        let ghost before = claims_view(out@);
        out.push(crate::page::clone_claim(&v[i]));
        assert(claims_view(out@) =~= before.push(v@[i as int]@));
        assert(claims_view(v@).take(i + 1) =~= claims_view(v@).take(i as int).push(v@[i as int]@));
    }
    assert(claims_view(v@).take(v@.len() as int) == claims_view(v@));
    out
}

fn clone_reports(v: &Vec<WikifyEntityReport>) -> (r: Vec<WikifyEntityReport>)
    ensures
        reports_view(r@) == reports_view(v@),
{
    let mut out: Vec<WikifyEntityReport> = Vec::new();
    for i in 0..v.len()
        invariant
            reports_view(out@) == reports_view(v@).take(i as int),
    {
        let ghost before = reports_view(out@);
        let e = WikifyEntityReport { slug: v[i].slug.clone(), ops: v[i].ops, result: v[i].result.clone() };
        out.push(e);
        assert(reports_view(out@) =~= before.push(reports_view(v@)[i as int]));
        assert(reports_view(v@).take(i + 1) =~= reports_view(v@).take(i as int).push(reports_view(v@)[i as int]));
    }
    assert(reports_view(v@).take(v@.len() as int) == reports_view(v@));
    out
}

impl Wikify {
    /// The step that starts the group at `self.group`, or the end.
    fn group_step(&self) -> (r: WikifyStep)
        requires
            self.group <= self.groups@.len(),
        ensures
            r@ == next_group_step(self@, self.group as nat, self@.entities, self@.touched),
    {
        if self.group < self.groups.len() {
            let name = self.groups[self.group].0.clone();
            let aliases = aliases_for_exec(&self.known, name.as_str());
            WikifyStep::Locate { name, aliases }
        } else {
            let mut t: Vec<String> = Vec::new();
            for i in 0..self.touched.len()
                invariant
                    strs_view(t@) == strs_view(self.touched@).take(i as int),
            {
                let ghost before = strs_view(t@);
                t.push(self.touched[i].clone());
                assert(strs_view(t@) =~= before.push(self.touched@[i as int]@));
                assert(strs_view(self.touched@).take(i + 1) =~= strs_view(self.touched@).take(i as int).push(
                    self.touched@[i as int]@,
                ));
            }
            assert(strs_view(self.touched@).take(self.touched@.len() as int) == strs_view(self.touched@));
            let sorted = crate::vault::sort_strings(t);
            let touched = dedup_sorted_exec(sorted);
            let mut message = chars_of("wikify: ");
            extend_str(&mut message, self.source_id.as_str());
            let report = WikifyReport { source_id: self.source_id.clone(), entities: clone_reports(&self.entities) };
            WikifyStep::Finish { touched, report, message: string_of(message.as_slice()) }
        }
    }

    /// Starts on what the extractor returned for a source: the claims are
    /// located and grouped by entity, names ascending; the first group's
    /// entity is to be found (or, with no group, the work is done).
    pub fn start(source_id: &str, content: &str, extracted: ExtractResult) -> (r: (Wikify, WikifyStep))
        requires
            content@.len() <= usize::MAX / 4,
        ensures
            r.0.wf(),
            r.0@.source_id == source_id@,
            r.0@.known == entities_view(extracted.entities@),
            claims_grouped(r.0@.groups, extracted.claims@, content@, source_id@),
            r.0@.group == 0,
            r.0@.entities.len() == 0,
            r.0@.touched.len() == 0,
            r.0@.phase == (if r.0@.groups.len() > 0 {
                Phase::Locating
            } else {
                Phase::Done
            }),
            r.1@ == next_group_step(r.0@, 0, seq![], seq![]),
    {
        let ExtractResult { entities, claims } = extracted;
        let groups = crate::agent::group_claims(content, source_id, claims);
        let phase = if groups.len() > 0 {
            Phase::Locating
        } else {
            Phase::Done
        };
        let w = Wikify {
            source_id: source_id.to_string(),
            known: entities,
            groups,
            group: 0,
            slug: String::new(),
            base: String::new(),
            attempt: 0,
            status: String::new(),
            op_count: 0,
            entities: Vec::new(),
            touched: Vec::new(),
            phase,
        };
        assert(w@.entities =~= Seq::<(Seq<char>, nat, Seq<char>)>::empty());
        assert(w@.touched =~= Seq::<Seq<char>>::empty());
        let step = w.group_step();
        (w, step)
    }

    /// The entity's page was found (or not): its slug is the page found, or
    /// the slug of its name; the page and related facts are to be read.
    pub fn located(&mut self, found: Option<String>) -> (r: WikifyStep)
        requires
            old(self).wf(),
            old(self)@.phase == Phase::Locating,
        ensures
            final(self).wf(),
            ({
                let o = old(self)@;
                let g = o.groups[o.group as int];
                let slug = match found {
                    Some(s) => s@,
                    None => slugify_spec(g.0),
                };
                &&& final(self)@ == (WikifyView {
                    slug,
                    attempt: 0,
                    status: "noop"@,
                    op_count: 0,
                    phase: Phase::Preparing,
                    ..o
                })
                &&& r@ == (StepView::Prepare { slug, claims: g.1 })
            }),
    {
        let slug = match found {
            Some(s) => s,
            None => slugify(self.groups[self.group].0.as_str()),
        };
        self.slug = slug;
        self.attempt = 0;
        self.status = "noop".to_string();
        self.op_count = 0;
        self.phase = Phase::Preparing;
        WikifyStep::Prepare { slug: self.slug.clone(), claims: clone_claims(&self.groups[self.group].1) }
    }

    /// The page (if any), the hash of its file (`base`, empty when there is
    /// none) and the related facts were read: the hash is kept for the
    /// commit, and the reconciler is to be asked about the group's claims.
    pub fn prepared(&mut self, page: Option<EntityPage>, base: String, related: Vec<RelatedFact>) -> (r:
        WikifyStep)
        requires
            old(self).wf(),
            old(self)@.phase == Phase::Preparing,
        ensures
            final(self).wf(),
            ({
                let o = old(self)@;
                let g = o.groups[o.group as int];
                &&& final(self)@ == (WikifyView { phase: Phase::Reconciling, base: base@, ..o })
                &&& r@ == (StepView::Reconcile {
                    slug: o.slug,
                    title: g.0,
                    kind: kind_for(o.known, g.0),
                    exists: page.is_some(),
                    current_facts: match page {
                        Some(p) => p@.facts.map_values(|f: crate::domain::FactView| (f.id, f.text)),
                        None => seq![],
                    },
                    new_claims: g.1,
                    related: crate::wire::related_view(related@),
                })
            }),
    {
        let name = self.groups[self.group].0.clone();
        let kind = kind_for_exec(&self.known, name.as_str());
        let exists = page.is_some();
        let mut current: Vec<(String, String)> = Vec::new();
        match page {
            Some(p) => {
                let ghost fv = p@.facts.map_values(|f: crate::domain::FactView| (f.id, f.text));
                for k in 0..p.facts.len()
                    invariant
                        fv == p@.facts.map_values(|f: crate::domain::FactView| (f.id, f.text)),
                        facts_view(current@) == fv.take(k as int),
                {
                    let ghost before = facts_view(current@);
                    current.push((p.facts[k].id.clone(), p.facts[k].text.clone()));
                    assert(facts_view(current@) =~= before.push(fv[k as int]));
                    assert(fv.take(k + 1) =~= fv.take(k as int).push(fv[k as int]));
                }
                assert(fv.take(p.facts@.len() as int) == fv);
            },
            None => {
                assert(facts_view(current@) =~= Seq::<(Seq<char>, Seq<char>)>::empty());
            },
        }
        self.phase = Phase::Reconciling;
        self.base = base;
        let input = ReconcileInput {
            slug: self.slug.clone(),
            title: name,
            kind,
            exists,
            current_facts: current,
            new_claims: clone_claims(&self.groups[self.group].1),
            related_facts: related,
        };
        WikifyStep::Reconcile(input)
    }

    /// The reconciler answered: no operation means nothing to do
    /// (`dedup/noop`); otherwise the operations, the entity's aliases put on
    /// a page creation, are to be committed.
    pub fn reconciled(&mut self, ops: Vec<PatchOp>) -> (r: WikifyStep)
        requires
            old(self).wf(),
            old(self)@.phase == Phase::Reconciling,
        ensures
            final(self).wf(),
            ({
                let o = old(self)@;
                let g = o.groups[o.group as int];
                if ops@.len() == 0 {
                    &&& final(self)@ == (WikifyView {
                        status: "dedup/noop"@,
                        op_count: 0,
                        phase: Phase::Logging,
                        ..o
                    })
                    &&& r@ == (StepView::Log { line: log_line(o.source_id, o.slug, 0, "dedup/noop"@) })
                } else {
                    &&& final(self)@ == (WikifyView {
                        op_count: ops@.len(),
                        phase: Phase::Committing,
                        ..o
                    })
                    &&& r@ == (StepView::Commit {
                        slug: o.slug,
                        ops: with_aliases(ops_view(ops@), aliases_for(o.known, g.0)),
                        base: o.base,
                    })
                }
            }),
    {
        let n = ops.len();
        self.op_count = n;
        if n == 0 {
            self.status = "dedup/noop".to_string();
            self.phase = Phase::Logging;
            return WikifyStep::Log(
                log_line_exec(self.source_id.as_str(), self.slug.as_str(), 0, self.status.as_str()),
            );
        }
        let aliases = aliases_for_exec(&self.known, self.groups[self.group].0.as_str());
        let ops = with_aliases_exec(ops, aliases);
        self.phase = Phase::Committing;
        WikifyStep::Commit { slug: self.slug.clone(), ops, base: self.base.clone() }
    }

    /// The commit's outcome: a commit touches the page; a stale page is
    /// tried again, three times in all; an invalid claim stops the entity.
    pub fn committed(&mut self, outcome: CommitStatus) -> (r: WikifyStep)
        requires
            old(self).wf(),
            old(self)@.phase == Phase::Committing,
        ensures
            final(self).wf(),
            ({
                let o = old(self)@;
                let g = o.groups[o.group as int];
                match outcome {
                    CommitStatus::Committed => {
                        &&& final(self)@ == (WikifyView {
                            status: "committed"@,
                            touched: o.touched.push(o.slug),
                            phase: Phase::Logging,
                            ..o
                        })
                        &&& r@ == (StepView::Log { line: log_line(o.source_id, o.slug, o.op_count, "committed"@) })
                    },
                    CommitStatus::Stale => if o.attempt + 1 < 3 {
                        &&& final(self)@ == (WikifyView {
                            status: "retry-stale"@,
                            attempt: o.attempt + 1,
                            phase: Phase::Preparing,
                            ..o
                        })
                        &&& r@ == (StepView::Prepare { slug: o.slug, claims: g.1 })
                    } else {
                        &&& final(self)@ == (WikifyView {
                            status: "retry-stale"@,
                            phase: Phase::Logging,
                            ..o
                        })
                        &&& r@ == (StepView::Log { line: log_line(o.source_id, o.slug, o.op_count, "retry-stale"@) })
                    },
                    CommitStatus::Invalid(x) => {
                        &&& final(self)@ == (WikifyView {
                            status: "invalid-claim "@ + x@,
                            phase: Phase::Logging,
                            ..o
                        })
                        &&& r@ == (StepView::Log {
                            line: log_line(o.source_id, o.slug, o.op_count, "invalid-claim "@ + x@),
                        })
                    },
                }
            }),
    {
        match outcome {
            CommitStatus::Committed => {
                self.status = "committed".to_string();
                let ghost before = self.touched@;
                self.touched.push(self.slug.clone());
                assert(strs_view(self.touched@) =~= strs_view(before).push(self.slug@));
                self.phase = Phase::Logging;
                WikifyStep::Log(
                    log_line_exec(self.source_id.as_str(), self.slug.as_str(), self.op_count, self.status.as_str()),
                )
            },
            CommitStatus::Stale => {
                self.status = "retry-stale".to_string();
                if self.attempt + 1 < 3 {
                    self.attempt = self.attempt + 1;
                    self.phase = Phase::Preparing;
                    WikifyStep::Prepare { slug: self.slug.clone(), claims: clone_claims(&self.groups[self.group].1) }
                } else {
                    self.phase = Phase::Logging;
                    WikifyStep::Log(
                        log_line_exec(self.source_id.as_str(), self.slug.as_str(), self.op_count, self.status.as_str()),
                    )
                }
            },
            CommitStatus::Invalid(x) => {
                let mut st = chars_of("invalid-claim ");
                extend_str(&mut st, x.as_str());
                self.status = string_of(st.as_slice());
                self.phase = Phase::Logging;
                WikifyStep::Log(
                    log_line_exec(self.source_id.as_str(), self.slug.as_str(), self.op_count, self.status.as_str()),
                )
            },
        }
    }

    /// The entity's line was logged: it joins the report, and the next
    /// entity's page is to be found (or, after the last, the work is done).
    pub fn logged(&mut self) -> (r: WikifyStep)
        requires
            old(self).wf(),
            old(self)@.phase == Phase::Logging,
        ensures
            final(self).wf(),
            ({
                let o = old(self)@;
                let es = o.entities.push((o.slug, o.op_count, o.status));
                &&& final(self)@ == (WikifyView {
                    entities: es,
                    group: o.group + 1,
                    phase: if o.group + 1 < o.groups.len() {
                        Phase::Locating
                    } else {
                        Phase::Done
                    },
                    ..o
                })
                &&& r@ == next_group_step(o, o.group + 1, es, o.touched)
            }),
    {
        let _n = self.groups.len();
        let e = WikifyEntityReport { slug: self.slug.clone(), ops: self.op_count, result: self.status.clone() };
        let ghost before = self.entities@;
        self.entities.push(e);
        assert(reports_view(self.entities@) =~= reports_view(before).push((self.slug@, self.op_count as nat, self.status@)));
        self.group = self.group + 1;
        self.phase = if self.group < self.groups.len() {
            Phase::Locating
        } else {
            Phase::Done
        };
        self.group_step()
    }
}

} // verus!
