//! The library's data: configuration, sources, entity pages and the
//! operations that change them, each with a mathematical view.
use vstd::prelude::*;

verus! {

/// Maps a vector of strings to the sequence of their views.
pub open spec fn strs_view(v: Seq<String>) -> Seq<Seq<char>> {
    v.map_values(|s: String| s@)
}

pub open spec fn opt_str_view(o: Option<String>) -> Option<Seq<char>> {
    match o {
        Some(s) => Some(s@),
        None => None,
    }
}

/// Persisted settings.
#[derive(Debug, Clone, PartialEq, Eq)]
pub struct AppConfig {
    pub provider: Option<String>,
    pub model: Option<String>,
    pub base_url: Option<String>,
    pub retriever: Option<String>,
    pub sync_remote: Option<String>,
}

impl Default for AppConfig {
    fn default() -> (r: AppConfig)
        ensures
            r.provider.is_none(),
            r.model.is_none(),
            r.base_url.is_none(),
            r.retriever.is_none(),
            r.sync_remote.is_none(),
    {
        AppConfig { provider: None, model: None, base_url: None, retriever: None, sync_remote: None }
    }
}

/// A settings change requested by the user; `None` leaves a field alone.
#[derive(Debug, Clone, PartialEq, Eq)]
pub struct ConfigPatch {
    pub provider: Option<String>,
    pub api_key: Option<String>,
    pub model: Option<String>,
    pub base_url: Option<String>,
    pub retriever: Option<String>,
    pub sync_remote: Option<String>,
}

/// The settings as shown to the user.
#[derive(Debug, Clone, PartialEq, Eq)]
pub struct AppConfigView {
    pub provider: String,
    pub model: Option<String>,
    pub base_url: Option<String>,
    pub has_key: bool,
    pub providers: Vec<String>,
    pub retriever: String,
    pub sync_remote: Option<String>,
    pub vault: String,
}

/// Metadata of an immutable source snapshot.
#[derive(Debug, Clone, PartialEq, Eq)]
pub struct SourceMeta {
    pub id: String,
    pub kind: String,
    pub title: String,
    pub author: Option<String>,
    pub url: Option<String>,
    pub fetched_at: String,
    pub content_hash: String,
    pub word_count: usize,
    pub doi: Option<String>,
    pub authors: Option<Vec<String>>,
    pub published: Option<String>,
    pub summarized: Option<bool>,
}

#[derive(Debug, Clone, PartialEq, Eq)]
pub struct SourceDetail {
    pub meta: SourceMeta,
    pub content: String,
    pub note: Option<String>,
}

#[derive(Debug, Clone, PartialEq, Eq)]
pub struct AddSourceInput {
    pub url: Option<String>,
    pub text: Option<String>,
    pub title: Option<String>,
}

#[derive(Debug, Clone, PartialEq, Eq)]
pub struct Entity {
    pub name: String,
    pub kind: String,
    pub aliases: Vec<String>,
}

#[derive(Debug, Clone, PartialEq, Eq)]
pub struct CandidateEntity {
    pub name: String,
    pub kind: String,
    pub why: String,
}

/// A note on one source: summary, key points, candidate entities and tags.
#[derive(Debug, Clone, PartialEq, Eq)]
pub struct Note {
    pub tldr: String,
    pub key_points: Vec<String>,
    pub candidate_entities: Vec<CandidateEntity>,
    pub tags: Vec<String>,
}

/// A claim as a model extracts it: the entity it is about, its text and the
/// exact source excerpt that supports it.
#[derive(Debug, Clone, PartialEq, Eq)]
pub struct ExtractClaim {
    pub entity_name: String,
    pub text: String,
    pub span: String,
}

#[derive(Debug, Clone, PartialEq, Eq)]
pub struct ExtractResult {
    pub entities: Vec<Entity>,
    pub claims: Vec<ExtractClaim>,
}

/// A located claim: its excerpt sits at UTF-16 offsets
/// `char_start..char_end` of source `source_id`.
#[derive(Debug, Clone, PartialEq, Eq)]
pub struct Claim {
    pub id: String,
    pub text: String,
    pub span: String,
    pub source_id: String,
    pub char_start: usize,
    pub char_end: usize,
}

pub ghost struct ClaimView {
    pub id: Seq<char>,
    pub text: Seq<char>,
    pub span: Seq<char>,
    pub source_id: Seq<char>,
    pub char_start: nat,
    pub char_end: nat,
}

impl View for Claim {
    type V = ClaimView;

    open spec fn view(&self) -> ClaimView {
        ClaimView {
            id: self.id@,
            text: self.text@,
            span: self.span@,
            source_id: self.source_id@,
            char_start: self.char_start as nat,
            char_end: self.char_end as nat,
        }
    }
}

#[derive(Debug, Clone, PartialEq, Eq)]
pub struct Provenance {
    pub source_id: String,
    pub start: usize,
    pub end: usize,
}

pub ghost struct ProvView {
    pub source_id: Seq<char>,
    pub start: nat,
    pub end: nat,
}

impl View for Provenance {
    type V = ProvView;

    open spec fn view(&self) -> ProvView {
        ProvView { source_id: self.source_id@, start: self.start as nat, end: self.end as nat }
    }
}

#[derive(Debug, Clone, PartialEq, Eq)]
pub struct FactEntry {
    pub id: String,
    pub text: String,
    pub prov: Provenance,
}

pub ghost struct FactView {
    pub id: Seq<char>,
    pub text: Seq<char>,
    pub prov: ProvView,
}

impl View for FactEntry {
    type V = FactView;

    open spec fn view(&self) -> FactView {
        FactView { id: self.id@, text: self.text@, prov: self.prov@ }
    }
}

#[derive(Debug, Clone, PartialEq, Eq)]
pub struct HistoryEntry {
    pub id: String,
    pub text: String,
    pub prov: Provenance,
    pub superseded_at: String,
}

pub ghost struct HistoryView {
    pub id: Seq<char>,
    pub text: Seq<char>,
    pub prov: ProvView,
    pub superseded_at: Seq<char>,
}

impl View for HistoryEntry {
    type V = HistoryView;

    open spec fn view(&self) -> HistoryView {
        HistoryView {
            id: self.id@,
            text: self.text@,
            prov: self.prov@,
            superseded_at: self.superseded_at@,
        }
    }
}

#[derive(Debug, Clone, PartialEq, Eq)]
pub struct Contradiction {
    pub note: String,
}

#[derive(Debug, Clone, PartialEq, Eq)]
pub struct LinkEntry {
    pub target_slug: String,
    pub relation: Option<String>,
}

pub ghost struct LinkView {
    pub target_slug: Seq<char>,
    pub relation: Option<Seq<char>>,
}

impl View for LinkEntry {
    type V = LinkView;

    open spec fn view(&self) -> LinkView {
        LinkView { target_slug: self.target_slug@, relation: opt_str_view(self.relation) }
    }
}

/// One wiki page about an entity.
#[derive(Debug, Clone, PartialEq, Eq)]
pub struct EntityPage {
    pub slug: String,
    pub title: String,
    pub kind: String,
    pub aliases: Vec<String>,
    pub sources: Vec<String>,
    pub updated: String,
    pub summary: String,
    pub facts: Vec<FactEntry>,
    pub history: Vec<HistoryEntry>,
    pub contradictions: Vec<Contradiction>,
    pub links: Vec<LinkEntry>,
}

pub ghost struct PageView {
    pub slug: Seq<char>,
    pub title: Seq<char>,
    pub kind: Seq<char>,
    pub aliases: Seq<Seq<char>>,
    pub sources: Seq<Seq<char>>,
    pub updated: Seq<char>,
    pub summary: Seq<char>,
    pub facts: Seq<FactView>,
    pub history: Seq<HistoryView>,
    pub contradictions: Seq<Seq<char>>,
    pub links: Seq<LinkView>,
}

impl View for EntityPage {
    type V = PageView;

    open spec fn view(&self) -> PageView {
        PageView {
            slug: self.slug@,
            title: self.title@,
            kind: self.kind@,
            aliases: strs_view(self.aliases@),
            sources: strs_view(self.sources@),
            updated: self.updated@,
            summary: self.summary@,
            facts: self.facts@.map_values(|f: FactEntry| f@),
            history: self.history@.map_values(|h: HistoryEntry| h@),
            contradictions: self.contradictions@.map_values(|c: Contradiction| c.note@),
            links: self.links@.map_values(|l: LinkEntry| l@),
        }
    }
}

#[derive(Debug, Clone, PartialEq, Eq)]
pub struct EntitySummary {
    pub slug: String,
    pub title: String,
    pub kind: String,
    pub summary: String,
    pub updated: String,
}

#[derive(Debug, Clone, PartialEq, Eq)]
pub struct EntityDetail {
    pub page: EntityPage,
    pub backlinks: Vec<String>,
}

#[derive(Debug, Clone, PartialEq, Eq)]
pub struct GraphNode {
    pub slug: String,
    pub title: String,
    pub kind: String,
}

#[derive(Debug, Clone, PartialEq, Eq)]
pub struct GraphEdge {
    pub source: String,
    pub target: String,
}

#[derive(Debug, Clone, PartialEq, Eq)]
pub struct GraphData {
    pub nodes: Vec<GraphNode>,
    pub edges: Vec<GraphEdge>,
}

#[derive(Debug, Clone, PartialEq, Eq)]
pub struct WikifyEntityReport {
    pub slug: String,
    pub ops: usize,
    pub result: String,
}

#[derive(Debug, Clone, PartialEq, Eq)]
pub struct WikifyReport {
    pub source_id: String,
    pub entities: Vec<WikifyEntityReport>,
}

#[derive(Debug, Clone, PartialEq, Eq)]
pub struct AddSourceResult {
    pub source_id: String,
    pub meta: SourceMeta,
    pub report: WikifyReport,
}

#[derive(Debug, Clone, PartialEq, Eq)]
pub struct ResearchSource {
    pub slug: String,
    pub title: String,
}

#[derive(Debug, Clone, PartialEq, Eq)]
pub struct ResearchResult {
    pub answer: String,
    pub sources: Vec<ResearchSource>,
}

#[derive(Debug, Clone, PartialEq, Eq)]
pub struct LintReport {
    pub entities: usize,
    pub sources: usize,
    pub facts: usize,
    pub orphans: Vec<String>,
    pub empty_facts: Vec<String>,
    pub contradictions: Vec<LintContradiction>,
}

#[derive(Debug, Clone, PartialEq, Eq)]
pub struct LintContradiction {
    pub slug: String,
    pub count: usize,
}

#[derive(Debug, Clone, PartialEq, Eq)]
pub struct SyncResult {
    pub ok: bool,
    pub message: String,
}

#[derive(Debug, Clone, PartialEq, Eq)]
pub struct RelatedFact {
    pub slug: String,
    pub fact_id: String,
    pub text: String,
}

/// What the reconciler is shown about one entity.
#[derive(Debug, Clone, PartialEq, Eq)]
pub struct ReconcileInput {
    pub slug: String,
    pub title: String,
    pub kind: String,
    pub exists: bool,
    pub current_facts: Vec<(String, String)>,
    pub new_claims: Vec<Claim>,
    pub related_facts: Vec<RelatedFact>,
}

/// A typed change to an entity page.
#[derive(Debug, Clone, PartialEq, Eq)]
pub enum PatchOp {
    CreatePage { entity: Entity, summary: String },
    AppendFact { fact: String, claim: Claim },
    UpdateFact { fact_id: String, new_fact: String, claim: Claim, target_slug: Option<String> },
    SupersedeFact { fact_id: String, new_fact: String, claim: Claim, target_slug: Option<String> },
    FlagContradiction {
        fact_id: String,
        conflicting: Claim,
        note: String,
        target_slug: Option<String>,
    },
    AddLink { target_slug: String, relation: Option<String> },
}

} // verus!
