//! The agent core: settings, provider selection, the health scan and the
//! backup procedure, entity location, and the pure steps of ingest and
//! wikify.
use vstd::prelude::*;
use crate::domain::{
    AppConfig, AppConfigView, ConfigPatch, EntityPage, ExtractClaim, LintContradiction, LintReport, PageView,
    SyncResult, opt_str_view, strs_view,
};
use crate::text::{
    chars_of, extend_str, is_ws, str_eq, string_of, trim, trim_chars, trim_str,
};
use crate::vault::Vault;

verus! {

/// `non_empty`: the trimmed value, or `None` when nothing is left.
pub open spec fn non_empty_spec(v: Seq<char>) -> Option<Seq<char>> {
    if trim(v).len() == 0 {
        None
    } else {
        Some(trim(v))
    }
}

/// The trimmed value, or `None` when only whitespace was given.
pub fn non_empty(value: String) -> (r: Option<String>)
    ensures
        opt_str_view(r) == non_empty_spec(value@),
{
    let t = trim_str(value.as_str());
    if t.as_str().is_empty() {
        None
    } else {
        Some(t)
    }
}

/// The provider names offered in settings, in display order.
pub open spec fn provider_names() -> Seq<Seq<char>> {
    seq!["openai"@, "chatglm"@, "deepseek"@, "qwen"@, "llamacpp"@, "custom"@, "mock"@]
}

pub fn clone_opt(o: &Option<String>) -> (r: Option<String>)
    ensures
        r == *o,
{
    match o {
        Some(s) => Some(s.clone()),
        None => None,
    }
}

/// The configured provider name, `mock` when none is set.
pub open spec fn provider_name(c: AppConfig) -> Seq<char> {
    match c.provider {
        Some(p) => p@,
        None => "mock"@,
    }
}

/// The key store entry that an `api_key` change in a settings patch asks for.
#[derive(Debug, Clone, PartialEq, Eq)]
pub enum KeyChange {
    /// Remove the stored key (an empty key was given).
    Delete { provider: String },
    /// Store this key.
    Store { provider: String, key: String },
}

/// The agent core: the vault and the settings.
pub struct MnemeCore {
    pub vault: Vault,
    pub config: AppConfig,
}

impl MnemeCore {
    /// A core over a vault with the settings read from it.
    pub fn new(vault: Vault, config: AppConfig) -> (r: MnemeCore)
        ensures
            r.vault == vault,
            r.config == config,
    {
        MnemeCore { vault, config }
    }

    /// The configured provider's name, `mock` when none is set: the key
    /// store entry that the settings view reports on.
    pub fn active_provider(&self) -> (r: String)
        ensures
            r@ == provider_name(self.config),
    {
        match &self.config.provider {
            Some(p) => p.clone(),
            None => "mock".to_owned(),
        }
    }

    /// The settings as shown to the user; `has_key` tells whether the key
    /// store holds a key for the configured provider.
    pub fn config_view(&self, has_key: bool) -> (r: AppConfigView)
        ensures
            r.provider@ == provider_name(self.config),
            r.model == self.config.model,
            r.base_url == self.config.base_url,
            r.has_key == has_key,
            strs_view(r.providers@) == provider_names(),
            r.retriever@ == "builtin"@,
            r.sync_remote == self.config.sync_remote,
            r.vault@ == self.vault.root@,
    {
        let provider = self.active_provider();
        let mut providers: Vec<String> = Vec::new();
        providers.push("openai".to_owned());
        providers.push("chatglm".to_owned());
        providers.push("deepseek".to_owned());
        providers.push("qwen".to_owned());
        providers.push("llamacpp".to_owned());
        providers.push("custom".to_owned());
        providers.push("mock".to_owned());
        assert(strs_view(providers@) =~= provider_names());
        AppConfigView {
            provider,
            model: clone_opt(&self.config.model),
            base_url: clone_opt(&self.config.base_url),
            has_key,
            providers,
            retriever: "builtin".to_owned(),
            sync_remote: clone_opt(&self.config.sync_remote),
            vault: self.vault.root.clone(),
        }
    }

    /// The key store change that a settings patch asks for, made before the
    /// settings change: under the patch's provider, else the configured
    /// one, else `mock`; an empty key deletes, any other key is stored.
    pub fn key_change(&self, patch: &ConfigPatch) -> (r: Option<KeyChange>)
        ensures
            patch.api_key.is_none() ==> r.is_none(),
            patch.api_key.is_some() ==> r.is_some(),
            ({
                let who = match patch.provider {
                    Some(p) => p@,
                    None => provider_name(self.config),
                };
                match r {
                    Some(KeyChange::Delete { provider }) => provider@ == who
                        && patch.api_key->0@.len() == 0,
                    Some(KeyChange::Store { provider, key }) => provider@ == who && key
                        == patch.api_key->0 && key@.len() > 0,
                    None => true,
                }
            }),
    {
        match &patch.api_key {
            None => None,
            Some(key) => {
                let provider = match &patch.provider {
                    Some(p) => p.clone(),
                    None => match &self.config.provider {
                        Some(p) => p.clone(),
                        None => "mock".to_owned(),
                    },
                };
                if key.as_str().is_empty() {
                    Some(KeyChange::Delete { provider })
                } else {
                    Some(KeyChange::Store { provider, key: key.clone() })
                }
            },
        }
    }

    /// Applies a settings patch: a given provider replaces the current one;
    /// a given model, base URL or backup remote is trimmed and replaces the
    /// current value, clearing it when only whitespace was given; the
    /// retriever is always the built-in one.
    pub fn set_config(&mut self, patch: ConfigPatch)
        ensures
            final(self).vault == old(self).vault,
            final(self).config.provider == match patch.provider {
                Some(p) => Some(p),
                None => old(self).config.provider,
            },
            opt_str_view(final(self).config.model) == match patch.model {
                Some(v) => non_empty_spec(v@),
                None => opt_str_view(old(self).config.model),
            },
            opt_str_view(final(self).config.base_url) == match patch.base_url {
                Some(v) => non_empty_spec(v@),
                None => opt_str_view(old(self).config.base_url),
            },
            opt_str_view(final(self).config.sync_remote) == match patch.sync_remote {
                Some(v) => non_empty_spec(v@),
                None => opt_str_view(old(self).config.sync_remote),
            },
            opt_str_view(final(self).config.retriever) == Some("builtin"@),
    {
        if patch.provider.is_some() {
            self.config.provider = patch.provider;
        }
        if let Some(value) = patch.model {
            self.config.model = non_empty(value);
        }
        if let Some(value) = patch.base_url {
            self.config.base_url = non_empty(value);
        }
        if let Some(value) = patch.sync_remote {
            self.config.sync_remote = non_empty(value);
        }
        self.config.retriever = Some("builtin".to_owned());
    }
}


// ---------------------------------------------------------------------------
// Provider selection
// ---------------------------------------------------------------------------

/// The preset endpoint and model of a provider name, if it is known.
pub open spec fn preset(name: Seq<char>) -> Option<(Seq<char>, Seq<char>)> {
    if name == "openai"@ {
        Some(("https://api.openai.com/v1"@, "gpt-4o"@))
    } else if name == "deepseek"@ {
        Some(("https://api.deepseek.com/v1"@, "deepseek-chat"@))
    } else if name == "chatglm"@ {
        Some(("https://open.bigmodel.cn/api/paas/v4"@, "glm-4-plus"@))
    } else if name == "qwen"@ {
        Some(("https://dashscope.aliyuncs.com/compatible-mode/v1"@, "qwen-plus"@))
    } else if name == "llamacpp"@ {
        Some(("http://127.0.0.1:8080/v1"@, "local"@))
    } else if name == "custom"@ {
        Some((seq![], seq![]))
    } else {
        None
    }
}

fn preset_exec(name: &str) -> (r: Option<(String, String)>)
    ensures
        match (r, preset(name@)) {
            (Some(a), Some(b)) => a.0@ == b.0 && a.1@ == b.1,
            (None, None) => true,
            _ => false,
        },
{
    if str_eq(name, "openai") {
        Some(("https://api.openai.com/v1".to_owned(), "gpt-4o".to_owned()))
    } else if str_eq(name, "deepseek") {
        Some(("https://api.deepseek.com/v1".to_owned(), "deepseek-chat".to_owned()))
    } else if str_eq(name, "chatglm") {
        Some(("https://open.bigmodel.cn/api/paas/v4".to_owned(), "glm-4-plus".to_owned()))
    } else if str_eq(name, "qwen") {
        Some(("https://dashscope.aliyuncs.com/compatible-mode/v1".to_owned(), "qwen-plus".to_owned()))
    } else if str_eq(name, "llamacpp") {
        Some(("http://127.0.0.1:8080/v1".to_owned(), "local".to_owned()))
    } else if str_eq(name, "custom") {
        let e: Vec<char> = Vec::new();
        assert(e@ =~= Seq::<char>::empty());
        Some((string_of(e.as_slice()), string_of(e.as_slice())))
    } else {
        None
    }
}

/// A configured value unless it is blank, else the default.
pub open spec fn value_or(v: Option<String>, default: Seq<char>) -> Seq<char> {
    match v {
        Some(x) => if trim(x@).len() > 0 {
            x@
        } else {
            default
        },
        None => default,
    }
}

fn value_or_exec(v: &Option<String>, default: String) -> (r: String)
    ensures
        r@ == value_or(*v, default@),
{
    match v {
        Some(x) => {
            let t = trim_str(x.as_str());
            if t.as_str().is_empty() {
                default
            } else {
                x.clone()
            }
        },
        None => default,
    }
}

/// An OpenAI-compatible endpoint, ready but for its key.
#[derive(Debug, Clone, PartialEq, Eq)]
pub struct ProviderPlan {
    pub name: String,
    pub base_url: String,
    pub model: String,
}

/// Which model service answers.
#[derive(Debug, Clone, PartialEq, Eq)]
pub enum ProviderStep {
    /// The offline demo provider.
    Mock,
    /// An OpenAI-compatible endpoint; its key comes from the key store.
    NeedKey(ProviderPlan),
}

/// Settings of an OpenAI-compatible client.
#[derive(Debug, Clone, PartialEq, Eq)]
pub struct OpenAiSettings {
    pub name: String,
    pub base_url: String,
    pub key: Option<String>,
    pub model: String,
}

/// The string without its trailing slashes (`trim_end_matches('/')`).
pub open spec fn trim_slashes(s: Seq<char>) -> Seq<char>
    decreases s.len(),
{
    if s.len() > 0 && s.last() == '/' {
        trim_slashes(s.drop_last())
    } else {
        s
    }
}

impl OpenAiSettings {
    /// Settings for a client; the base URL loses its trailing slashes.
    pub fn new(name: String, base_url: String, key: Option<String>, model: String) -> (r:
        OpenAiSettings)
        ensures
            r.name == name,
            r.base_url@ == trim_slashes(base_url@),
            r.key == key,
            r.model == model,
    {
        let v = chars_of(base_url.as_str());
        let mut j: usize = v.len();
        assert(v@.take(v@.len() as int) == v@);
        while j > 0 && v[j - 1] == '/'
            invariant
                j <= v@.len(),
                trim_slashes(v@) == trim_slashes(v@.take(j as int)),
            decreases j,
        {
            assert(v@.take(j as int).drop_last() == v@.take(j - 1));
            j = j - 1;
        }
        if j > 0 {
            assert(v@.take(j as int).last() == v@[j - 1]);
        }
        assert(trim_slashes(v@.take(j as int)) == v@.take(j as int));
        let mut t: Vec<char> = Vec::new();
        for k in 0..j
            invariant
                j <= v@.len(),
                t@ == v@.take(k as int),
        {
            t.push(v[k]);
            assert(v@.take(k + 1) == v@.take(k as int).push(v@[k as int]));
        }
        OpenAiSettings { name, base_url: string_of(t.as_slice()), key, model }
    }
}

impl ProviderPlan {
    /// Completes the choice with the key store's answer: a key is required
    /// except for `llamacpp` and `custom`.
    pub fn with_key(self, key: Option<String>) -> (r: Result<OpenAiSettings, String>)
        ensures
            (key.is_none() && self.name@ != "llamacpp"@ && self.name@ != "custom"@) <==> r.is_err(),
            match r {
                Ok(s) => s.name == self.name && s.base_url@ == trim_slashes(self.base_url@) && s.key
                    == key && s.model == self.model,
                Err(e) => e@ == self.name@ + " API key is not configured"@,
            },
    {
        if !str_eq(self.name.as_str(), "llamacpp") && !str_eq(self.name.as_str(), "custom") && key.is_none() {
            let mut v = chars_of(self.name.as_str());
            extend_str(&mut v, " API key is not configured");
            return Err(string_of(v.as_slice()));
        }
        Ok(OpenAiSettings::new(self.name, self.base_url, key, self.model))
    }
}

impl MnemeCore {
    /// Which provider the settings select: the demo provider for `mock`
    /// (the default); otherwise a known preset, its endpoint and model
    /// overridden by non-blank settings. An unknown name, or an endpoint or
    /// model left empty (`custom` without settings), is an error.
    pub fn provider(&self) -> (r: Result<ProviderStep, String>)
        ensures
            ({
                let name = provider_name(self.config);
                if name == "mock"@ {
                    r == Ok::<ProviderStep, String>(ProviderStep::Mock)
                } else {
                    match preset(name) {
                        None => r.is_err() && r->Err_0@ == "unknown provider"@,
                        Some((u, m)) => {
                            let url = value_or(self.config.base_url, u);
                            let model = value_or(self.config.model, m);
                            if url.len() == 0 || model.len() == 0 {
                                r.is_err() && r->Err_0@ == "provider base URL and model are required"@
                            } else {
                                r.is_ok() && (r->Ok_0 matches ProviderStep::NeedKey(p) && p.name@ == name
                                    && p.base_url@ == url && p.model@ == model)
                            }
                        },
                    }
                }
            }),
    {
        let name = match &self.config.provider {
            Some(p) => p.clone(),
            None => "mock".to_owned(),
        };
        if str_eq(name.as_str(), "mock") {
            return Ok(ProviderStep::Mock);
        }
        let (default_url, default_model) = match preset_exec(name.as_str()) {
            Some(x) => x,
            None => {
                return Err("unknown provider".to_owned());
            },
        };
        let url = value_or_exec(&self.config.base_url, default_url);
        let model = value_or_exec(&self.config.model, default_model);
        if url.as_str().is_empty() || model.as_str().is_empty() {
            return Err("provider base URL and model are required".to_owned());
        }
        Ok(ProviderStep::NeedKey(ProviderPlan { name, base_url: url, model }))
    }
}


// ---------------------------------------------------------------------------
// Health scan
// ---------------------------------------------------------------------------

pub open spec fn fact_total(pages: Seq<(Seq<char>, PageView)>) -> nat
    decreases pages.len(),
{
    if pages.len() == 0 {
        0
    } else {
        fact_total(pages.drop_last()) + pages.last().1.facts.len()
    }
}

pub open spec fn empty_slugs(pages: Seq<(Seq<char>, PageView)>) -> Seq<Seq<char>>
    decreases pages.len(),
{
    if pages.len() == 0 {
        seq![]
    } else if pages.last().1.facts.len() == 0 {
        empty_slugs(pages.drop_last()).push(pages.last().0)
    } else {
        empty_slugs(pages.drop_last())
    }
}

pub open spec fn contradicted(pages: Seq<(Seq<char>, PageView)>) -> Seq<(Seq<char>, nat)>
    decreases pages.len(),
{
    if pages.len() == 0 {
        seq![]
    } else if pages.last().1.contradictions.len() > 0 {
        contradicted(pages.drop_last()).push((pages.last().0, pages.last().1.contradictions.len()))
    } else {
        contradicted(pages.drop_last())
    }
}

/// The health scan lists a page among the contradicted ones exactly when the
/// page has at least one contradiction, and with their number.
pub proof fn law_lint_contradictions(pages: Seq<(Seq<char>, PageView)>)
    ensures
        forall|i: int|
            0 <= i < pages.len() && (#[trigger] pages[i]).1.contradictions.len() > 0 ==> contradicted(pages).contains(
                (pages[i].0, pages[i].1.contradictions.len()),
            ),
        forall|j: int|
            0 <= j < contradicted(pages).len() ==> exists|i: int|
                0 <= i < pages.len() && (#[trigger] pages[i]).1.contradictions.len() > 0 && #[trigger] contradicted(pages)[j] == (
                    pages[i].0,
                    pages[i].1.contradictions.len(),
                ),
    decreases pages.len(),
{
    if pages.len() > 0 {
        let rest = pages.drop_last();
        law_lint_contradictions(rest);
        let c = contradicted(pages);
        let d = contradicted(rest);
        let n = pages.len() - 1;
        assert forall|i: int|
            0 <= i < pages.len() && (#[trigger] pages[i]).1.contradictions.len() > 0 implies c.contains(
            (pages[i].0, pages[i].1.contradictions.len()),
        ) by {
            if i < n {
                assert(rest[i] == pages[i]);
                let k = choose|k: int| 0 <= k < d.len() && d[k] == (rest[i].0, rest[i].1.contradictions.len());
                assert(c[k] == d[k]);
            } else {
                assert(c[c.len() - 1] == (pages[i].0, pages[i].1.contradictions.len()));
            }
        }
        assert forall|j: int| 0 <= j < c.len() implies exists|i: int|
            0 <= i < pages.len() && (#[trigger] pages[i]).1.contradictions.len() > 0 && #[trigger] c[j] == (
                pages[i].0,
                pages[i].1.contradictions.len(),
            ) by {
            if j < d.len() {
                assert(c[j] == d[j]);
                let i = choose|i: int|
                    0 <= i < rest.len() && (#[trigger] rest[i]).1.contradictions.len() > 0 && d[j] == (
                        rest[i].0,
                        rest[i].1.contradictions.len(),
                    );
                assert(rest[i] == pages[i]);
            } else {
                assert(pages[n] == pages.last());
            }
        }
    }
}

/// Some page links to `s`.
pub open spec fn linked(pages: Seq<(Seq<char>, PageView)>, s: Seq<char>) -> bool {
    exists|i: int, j: int|
        0 <= i < pages.len() && 0 <= j < pages[i].1.links.len() && (#[trigger] pages[i].1.links[j]).target_slug
            == s
}

/// The pages without links that no page links to, in listing order.
pub open spec fn orphans_of(pages: Seq<(Seq<char>, PageView)>, all: Seq<(Seq<char>, PageView)>) -> Seq<Seq<char>>
    decreases pages.len(),
{
    if pages.len() == 0 {
        seq![]
    } else if pages.last().1.links.len() == 0 && !linked(all, pages.last().0) {
        orphans_of(pages.drop_last(), all).push(pages.last().0)
    } else {
        orphans_of(pages.drop_last(), all)
    }
}

pub open spec fn lint_view(c: Seq<LintContradiction>) -> Seq<(Seq<char>, nat)> {
    c.map_values(|x: LintContradiction| (x.slug@, x.count as nat))
}

impl MnemeCore {
    /// The health scan over the readable pages (`pages`, in slug order) and
    /// the number of sources: counts of pages, sources and facts; the pages
    /// with no facts; the pages with contradictions and how many; and the
    /// orphans, pages without links that no page links to.
    pub fn lint(&self, pages: &Vec<(String, EntityPage)>, source_count: usize) -> (r: LintReport)
        requires
            fact_total(crate::vault::pages_view(pages@)) <= usize::MAX,
        ensures
            ({
                let pv = crate::vault::pages_view(pages@);
                &&& r.entities == pages@.len()
                &&& r.sources == source_count
                &&& r.facts == fact_total(pv)
                &&& strs_view(r.empty_facts@) == empty_slugs(pv)
                &&& lint_view(r.contradictions@) == contradicted(pv)
                &&& strs_view(r.orphans@) == orphans_of(pv, pv)
            }),
    {
        let ghost pv = crate::vault::pages_view(pages@);
        let n = pages.len();
        let mut facts: usize = 0;
        let mut empty: Vec<String> = Vec::new();
        let mut contradictions: Vec<LintContradiction> = Vec::new();
        let mut targets: Vec<String> = Vec::new();
        proof {
            lemma_fact_total_prefix(pv, 0);
        }
        for i in 0..n
            invariant
                n == pages@.len(),
                pv == crate::vault::pages_view(pages@),
                fact_total(pv) <= usize::MAX,
                facts == fact_total(pv.take(i as int)),
                strs_view(empty@) == empty_slugs(pv.take(i as int)),
                lint_view(contradictions@) == contradicted(pv.take(i as int)),
                strs_view(targets@) == all_targets(pv.take(i as int)),
        {
            let slug = &pages[i].0;
            let p = &pages[i].1;
            let ghost t = pv.take(i + 1);
            assert(t.drop_last() == pv.take(i as int));
            assert(t.last() == (slug@, p@));
            proof {
                lemma_fact_total_prefix(pv, i + 1);
            }
            facts = facts + p.facts.len();
            if p.facts.len() == 0 {
                let ghost e0 = empty@;
                empty.push(slug.clone());
                assert(strs_view(empty@) =~= strs_view(e0).push(slug@));
            }
            if p.contradictions.len() > 0 {
                let ghost c0 = contradictions@;
                let c = LintContradiction { slug: slug.clone(), count: p.contradictions.len() };
                contradictions.push(c);
                assert(lint_view(contradictions@) =~= lint_view(c0).push((slug@, p@.contradictions.len())));
            }
            let ghost tg0 = strs_view(targets@);
            let m = p.links.len();
            assert(p@.links.take(0).map_values(|l: crate::domain::LinkView| l.target_slug) =~= Seq::<Seq<char>>::empty());
            for j in 0..m
                invariant
                    m == p.links@.len(),
                    strs_view(targets@) == tg0 + p@.links.take(j as int).map_values(
                        |l: crate::domain::LinkView| l.target_slug,
                    ),
            {
                let ghost tj = targets@;
                targets.push(p.links[j].target_slug.clone());
                assert(strs_view(targets@) =~= strs_view(tj).push(p@.links[j as int].target_slug));
                assert(p@.links.take(j + 1).map_values(|l: crate::domain::LinkView| l.target_slug)
                    =~= p@.links.take(j as int).map_values(|l: crate::domain::LinkView| l.target_slug).push(
                    p@.links[j as int].target_slug,
                ));
            }
            assert(p@.links.take(m as int) == p@.links);
        }
        assert(pv.take(n as int) == pv);
        let mut orphans: Vec<String> = Vec::new();
        for i in 0..n
            invariant
                n == pages@.len(),
                pv == crate::vault::pages_view(pages@),
                strs_view(targets@) == all_targets(pv),
                strs_view(orphans@) == orphans_of(pv.take(i as int), pv),
        {
            proof {
                lemma_all_targets(pv, pages@[i as int].0@);
            }
            let slug = &pages[i].0;
            let p = &pages[i].1;
            let ghost t = pv.take(i + 1);
            assert(t.drop_last() == pv.take(i as int));
            assert(t.last() == (slug@, p@));
            if p.links.len() == 0 && !crate::page::strings_contain(&targets, slug.as_str()) {
                let ghost o0 = orphans@;
                orphans.push(slug.clone());
                assert(strs_view(orphans@) =~= strs_view(o0).push(slug@));
            }
        }
        LintReport {
            entities: pages.len(),
            sources: source_count,
            facts,
            orphans,
            empty_facts: empty,
            contradictions,
        }
    }
}

/// Every link target of every page, in listing order.
pub open spec fn all_targets(pages: Seq<(Seq<char>, PageView)>) -> Seq<Seq<char>>
    decreases pages.len(),
{
    if pages.len() == 0 {
        seq![]
    } else {
        all_targets(pages.drop_last()) + pages.last().1.links.map_values(
            |l: crate::domain::LinkView| l.target_slug,
        )
    }
}

proof fn lemma_all_targets(pages: Seq<(Seq<char>, PageView)>, s: Seq<char>)
    ensures
        all_targets(pages).contains(s) <==> linked(pages, s),
    decreases pages.len(),
{
    if pages.len() > 0 {
        let d = pages.drop_last();
        lemma_all_targets(d, s);
        let a = all_targets(d);
        let b = pages.last().1.links.map_values(|l: crate::domain::LinkView| l.target_slug);
        let c = a + b;
        if c.contains(s) {
            let z = choose|z: int| 0 <= z < c.len() && c[z] == s;
            if z < a.len() {
                assert(a[z] == s);
                let (x, y) = choose|x: int, y: int|
                    0 <= x < d.len() && 0 <= y < d[x].1.links.len() && (#[trigger] d[x].1.links[y]).target_slug == s;
                assert(pages[x] == d[x]);
            } else {
                assert(b[z - a.len()] == s);
                assert(pages[pages.len() - 1].1.links[z - a.len()].target_slug == s);
            }
        }
        if linked(pages, s) {
            let (x, y) = choose|x: int, y: int|
                0 <= x < pages.len() && 0 <= y < pages[x].1.links.len() && (#[trigger] pages[x].1.links[y]).target_slug == s;
            if x < d.len() {
                assert(d[x] == pages[x]);
                assert(linked(d, s));
                let z = choose|z: int| 0 <= z < a.len() && a[z] == s;
                assert(c[z] == s);
            } else {
                assert(b[y] == s);
                assert(c[a.len() + y] == s);
            }
        }
    }
}

proof fn lemma_fact_total_prefix(pv: Seq<(Seq<char>, PageView)>, i: int)
    requires
        0 <= i <= pv.len(),
    ensures
        fact_total(pv.take(i)) <= fact_total(pv),
    decreases pv.len() - i,
{
    if i < pv.len() {
        lemma_fact_total_prefix(pv, i + 1);
        assert(pv.take(i + 1).drop_last() == pv.take(i));
    } else {
        assert(pv.take(i) == pv);
    }
}

/// The log line of a health scan.
pub fn lint_log_line(r: &LintReport) -> (s: String)
    ensures
        s@ == "[lint] "@ + crate::text::dec(r.entities as nat) + " entities, "@ + crate::text::dec(
            r.orphans@.len(),
        ) + " orphans"@,
{
    let mut v: Vec<char> = Vec::new();
    extend_str(&mut v, "[lint] ");
    let a = crate::text::usize_to_chars(r.entities);
    crate::text::extend_chars(&mut v, a.as_slice());
    extend_str(&mut v, " entities, ");
    let b = crate::text::usize_to_chars(r.orphans.len());
    crate::text::extend_chars(&mut v, b.as_slice());
    extend_str(&mut v, " orphans");
    string_of(v.as_slice())
}

// ---------------------------------------------------------------------------
// Backup to a Git remote
// ---------------------------------------------------------------------------

/// Where the backup procedure stands.
#[derive(Debug, Clone, PartialEq, Eq)]
pub enum SyncStage {
    AddAll,
    Status,
    Commit,
    RemoveOrigin,
    AddOrigin,
    Push,
}

/// What the backup procedure asks for next: a Git command (its arguments),
/// or the end with its result.
#[derive(Debug, Clone, PartialEq, Eq)]
pub enum SyncAction {
    Git(Vec<String>),
    Finish(SyncResult),
}

/// The backup procedure between Git commands.
#[derive(Debug, Clone, PartialEq, Eq)]
pub struct SyncMachine {
    pub remote: String,
    pub today: String,
    pub stage: SyncStage,
}

pub open spec fn git_args(a: SyncAction) -> Seq<Seq<char>> {
    match a {
        SyncAction::Git(v) => strs_view(v@),
        _ => seq![],
    }
}

pub open spec fn finished(a: SyncAction, ok: bool, message: Seq<char>) -> bool {
    match a {
        SyncAction::Finish(r) => r.ok == ok && r.message@ == message,
        _ => false,
    }
}

pub open spec fn asks(a: SyncAction, args: Seq<Seq<char>>) -> bool {
    a is Git && git_args(a) == args
}

fn git_action(args: Vec<String>) -> (a: SyncAction)
    ensures
        asks(a, strs_view(args@)),
{
    SyncAction::Git(args)
}

fn finish(ok: bool, message: String) -> (a: SyncAction)
    ensures
        finished(a, ok, message@),
{
    SyncAction::Finish(SyncResult { ok, message })
}

fn prefixed(prefix: &str, rest: &str) -> (r: String)
    ensures
        r@ == prefix@ + rest@,
{
    let mut v = chars_of(prefix);
    extend_str(&mut v, rest);
    string_of(v.as_slice())
}

impl MnemeCore {
    /// Starts the backup: without a non-blank remote it finishes at once
    /// with "no remote configured"; otherwise it asks for `git add -A`.
    pub fn sync(&self, today: String) -> (r: (Option<SyncMachine>, SyncAction))
        ensures
            match self.config.sync_remote {
                Some(x) => if trim(x@).len() > 0 {
                    r.0 == Some(SyncMachine { remote: x, today, stage: SyncStage::AddAll })
                        && asks(r.1, seq!["add"@, "-A"@])
                } else {
                    r.0.is_none() && finished(r.1, false, "\u{672a}\u{914d}\u{7f6e}\u{8fdc}\u{7aef}"@)
                },
                None => r.0.is_none() && finished(r.1, false, "\u{672a}\u{914d}\u{7f6e}\u{8fdc}\u{7aef}"@),
            },
    {
        let remote = match &self.config.sync_remote {
            Some(x) => {
                let t = trim_str(x.as_str());
                if t.as_str().is_empty() {
                    None
                } else {
                    Some(x.clone())
                }
            },
            None => None,
        };
        match remote {
            None => (None, finish(false, "\u{672a}\u{914d}\u{7f6e}\u{8fdc}\u{7aef}".to_owned())),
            Some(remote) => {
                let mut args: Vec<String> = Vec::new();
                args.push("add".to_owned());
                args.push("-A".to_owned());
                assert(strs_view(args@) =~= seq!["add"@, "-A"@]);
                (Some(SyncMachine { remote, today, stage: SyncStage::AddAll }), git_action(args))
            },
        }
    }
}

impl SyncMachine {
    /// Takes the outcome of the Git command asked for last (its trimmed
    /// output, or its error text) and says what comes next: a failed add,
    /// status or commit finishes with that step's error; pending changes are
    /// committed as `sync <today>`; `origin` is removed (its outcome does
    /// not matter) and added again as the remote; a failed add of the remote
    /// finishes with its error; the push finishes with success, or with the
    /// first 300 characters of its error.
    pub fn step(&mut self, outcome: Result<String, String>) -> (a: SyncAction)
        ensures
            final(self).remote == old(self).remote,
            final(self).today == old(self).today,
            match (old(self).stage, outcome) {
                (SyncStage::AddAll, Err(e)) => finished(a, false, "git add failed: "@ + e@),
                (SyncStage::AddAll, Ok(_)) => final(self).stage == SyncStage::Status && asks(
                    a,
                    seq!["status"@, "--porcelain"@],
                ),
                (SyncStage::Status, Err(e)) => finished(a, false, "git status failed: "@ + e@),
                (SyncStage::Status, Ok(pending)) => if pending@.len() > 0 {
                    final(self).stage == SyncStage::Commit && asks(
                        a,
                        seq!["commit"@, "-m"@, "sync "@ + old(self).today@, "--quiet"@],
                    )
                } else {
                    final(self).stage == SyncStage::RemoveOrigin && asks(
                        a,
                        seq!["remote"@, "remove"@, "origin"@],
                    )
                },
                (SyncStage::Commit, Err(e)) => finished(a, false, "git commit failed: "@ + e@),
                (SyncStage::Commit, Ok(_)) => final(self).stage == SyncStage::RemoveOrigin && asks(
                    a,
                    seq!["remote"@, "remove"@, "origin"@],
                ),
                (SyncStage::RemoveOrigin, _) => final(self).stage == SyncStage::AddOrigin && asks(
                    a,
                    seq!["remote"@, "add"@, "origin"@, old(self).remote@],
                ),
                (SyncStage::AddOrigin, Err(e)) => finished(a, false, e@),
                (SyncStage::AddOrigin, Ok(_)) => final(self).stage == SyncStage::Push && asks(
                    a,
                    seq!["push"@, "-u"@, "origin"@, "HEAD"@, "--quiet"@],
                ),
                (SyncStage::Push, Ok(_)) => finished(a, true, "\u{5df2}\u{63a8}\u{9001}\u{5907}\u{4efd}"@),
                (SyncStage::Push, Err(e)) => finished(
                    a,
                    false,
                    e@.take(if e@.len() < 300 { e@.len() as int } else { 300 }),
                ),
            },
    {
        let mut args: Vec<String> = Vec::new();
        match self.stage {
            SyncStage::AddAll => match outcome {
                Err(e) => finish(false, prefixed("git add failed: ", e.as_str())),
                Ok(_) => {
                    self.stage = SyncStage::Status;
                    args.push("status".to_owned());
                    args.push("--porcelain".to_owned());
                    assert(strs_view(args@) =~= seq!["status"@, "--porcelain"@]);
                    git_action(args)
                },
            },
            SyncStage::Status => match outcome {
                Err(e) => finish(false, prefixed("git status failed: ", e.as_str())),
                Ok(pending) => {
                    if pending.as_str().is_empty() {
                        self.stage = SyncStage::RemoveOrigin;
                        args.push("remote".to_owned());
                        args.push("remove".to_owned());
                        args.push("origin".to_owned());
                        assert(strs_view(args@) =~= seq!["remote"@, "remove"@, "origin"@]);
                        git_action(args)
                    } else {
                        self.stage = SyncStage::Commit;
                        args.push("commit".to_owned());
                        args.push("-m".to_owned());
                        args.push(prefixed("sync ", self.today.as_str()));
                        args.push("--quiet".to_owned());
                        assert(strs_view(args@) =~= seq![
                            "commit"@,
                            "-m"@,
                            "sync "@ + self.today@,
                            "--quiet"@,
                        ]);
                        git_action(args)
                    }
                },
            },
            SyncStage::Commit => match outcome {
                Err(e) => finish(false, prefixed("git commit failed: ", e.as_str())),
                Ok(_) => {
                    self.stage = SyncStage::RemoveOrigin;
                    args.push("remote".to_owned());
                    args.push("remove".to_owned());
                    args.push("origin".to_owned());
                    assert(strs_view(args@) =~= seq!["remote"@, "remove"@, "origin"@]);
                    git_action(args)
                },
            },
            SyncStage::RemoveOrigin => {
                self.stage = SyncStage::AddOrigin;
                args.push("remote".to_owned());
                args.push("add".to_owned());
                args.push("origin".to_owned());
                args.push(self.remote.clone());
                assert(strs_view(args@) =~= seq!["remote"@, "add"@, "origin"@, self.remote@]);
                git_action(args)
            },
            SyncStage::AddOrigin => match outcome {
                Err(e) => finish(false, e),
                Ok(_) => {
                    self.stage = SyncStage::Push;
                    args.push("push".to_owned());
                    args.push("-u".to_owned());
                    args.push("origin".to_owned());
                    args.push("HEAD".to_owned());
                    args.push("--quiet".to_owned());
                    assert(strs_view(args@) =~= seq![
                        "push"@,
                        "-u"@,
                        "origin"@,
                        "HEAD"@,
                        "--quiet"@,
                    ]);
                    git_action(args)
                },
            },
            SyncStage::Push => match outcome {
                Ok(_) => finish(true, "\u{5df2}\u{63a8}\u{9001}\u{5907}\u{4efd}".to_owned()),
                Err(e) => {
                    let v = chars_of(e.as_str());
                    let k: usize = if v.len() < 300 {
                        v.len()
                    } else {
                        300
                    };
                    let mut t: Vec<char> = Vec::new();
                    for q in 0..k
                        invariant
                            k <= v@.len(),
                            t@ == v@.take(q as int),
                    {
                        t.push(v[q]);
                        assert(v@.take(q + 1) == v@.take(q as int).push(v@[q as int]));
                    }
                    finish(false, string_of(t.as_slice()))
                },
            },
        }
    }
}


// ---------------------------------------------------------------------------
// Slugs and entity location
// ---------------------------------------------------------------------------

/// A character `slugify` keeps: an alphanumeric one, which among ASCII
/// characters is a letter or a digit (as std documents `is_alphanumeric`).
pub open spec fn slug_char(c: char) -> bool {
    if (c as u32) < 128 {
        crate::text::ascii_alnum(c)
    } else {
        crate::text::alphanumeric(c)
    }
}

/// The dash-separated run of alphanumeric characters that `slugify` builds
/// before trimming: each alphanumeric character is kept, and a run of other
/// characters after some output becomes one dash.
pub open spec fn slug_core(t: Seq<char>) -> Seq<char>
    decreases t.len(),
{
    if t.len() == 0 {
        seq![]
    } else {
        let o = slug_core(t.drop_last());
        let c = t.last();
        if slug_char(c) {
            o.push(c)
        } else if o.len() > 0 && o.last() != '-' {
            o.push('-')
        } else {
            o
        }
    }
}

/// The string without leading and trailing dashes.
pub open spec fn trim_dashes(s: Seq<char>) -> Seq<char>
    decreases s.len(),
{
    if s.len() > 0 && s[0] == '-' {
        trim_dashes(s.drop_first())
    } else if s.len() > 0 && s.last() == '-' {
        trim_dashes(s.drop_last())
    } else {
        s
    }
}

/// `slugify`: the lower-cased name reduced to alphanumeric runs joined by
/// dashes; a name with no alphanumeric character becomes `entity-` and the
/// first ten hexadecimal digits of its SHA-256.
pub open spec fn slugify_spec(s: Seq<char>) -> Seq<char> {
    let t = trim_dashes(slug_core(crate::text::lowercase(s)));
    if t.len() == 0 {
        "entity-"@ + crate::hash::hash_hex(vstd::utf8::encode_utf8(s)).take(10)
    } else {
        t
    }
}

/// The slug built before trimming holds only kept characters and single
/// dashes between them.
proof fn lemma_core_shape(t: Seq<char>)
    ensures
        forall|i: int| 0 <= i < slug_core(t).len() ==> #[trigger] slug_core(t)[i] == '-' || slug_char(slug_core(t)[i]),
        forall|i: int| 0 <= i < slug_core(t).len() - 1 ==> !(#[trigger] slug_core(t)[i] == '-' && slug_core(t)[i + 1] == '-'),
    decreases t.len(),
{
    if t.len() > 0 {
        lemma_core_shape(t.drop_last());
        let o = slug_core(t.drop_last());
        let r = slug_core(t);
        assert(!slug_char('-'));
        assert forall|i: int| 0 <= i < r.len() implies #[trigger] r[i] == '-' || slug_char(r[i]) by {
            if i < o.len() {
                assert(r[i] == o[i]);
            }
        }
        assert forall|i: int| 0 <= i < r.len() - 1 implies !(#[trigger] r[i] == '-' && r[i + 1] == '-') by {
            if i + 1 < o.len() {
                assert(r[i] == o[i] && r[i + 1] == o[i + 1]);
            } else if r.len() > o.len() {
                assert(r[i] == o[i]);
                assert(o.len() > 0 ==> o.last() == o[o.len() - 1]);
            }
        }
    }
}

/// Trimming dashes keeps a contiguous part, with no dash at either end.
proof fn lemma_trim_dashes(x: Seq<char>)
    ensures
        exists|a: int, b: int| 0 <= a <= b <= x.len() && #[trigger] x.subrange(a, b) == trim_dashes(x),
        trim_dashes(x).len() > 0 ==> trim_dashes(x)[0] != '-' && trim_dashes(x).last() != '-',
    decreases x.len(),
{
    if x.len() > 0 && x[0] == '-' {
        lemma_trim_dashes(x.drop_first());
        let (a, b) = choose|a: int, b: int|
            0 <= a <= b <= x.drop_first().len() && #[trigger] x.drop_first().subrange(a, b) == trim_dashes(x.drop_first());
        assert(x.subrange(a + 1, b + 1) == x.drop_first().subrange(a, b));
    } else if x.len() > 0 && x.last() == '-' {
        lemma_trim_dashes(x.drop_last());
        let (a, b) = choose|a: int, b: int|
            0 <= a <= b <= x.drop_last().len() && #[trigger] x.drop_last().subrange(a, b) == trim_dashes(x.drop_last());
        assert(x.subrange(a, b) == x.drop_last().subrange(a, b));
    } else {
        assert(x.subrange(0, x.len() as int) == x);
    }
}

/// The shape of a slug: never empty and never starting with a dash; a slug
/// built from the name's alphanumeric characters holds only those and single
/// dashes between them, and does not end with a dash. (Of a name with no
/// alphanumeric character the slug is `entity-` and a digest prefix, as
/// `slugify_spec` says.)
pub proof fn law_slug_shape(s: Seq<char>)
    ensures
        slugify_spec(s).len() > 0,
        slugify_spec(s)[0] != '-',
        trim_dashes(slug_core(crate::text::lowercase(s))).len() > 0 ==> ({
            let r = slugify_spec(s);
            &&& r.last() != '-'
            &&& forall|i: int| 0 <= i < r.len() ==> #[trigger] r[i] == '-' || slug_char(r[i])
            &&& forall|i: int| 0 <= i < r.len() - 1 ==> !(#[trigger] r[i] == '-' && r[i + 1] == '-')
        }),
{
    let o = slug_core(crate::text::lowercase(s));
    let t = trim_dashes(o);
    lemma_core_shape(crate::text::lowercase(s));
    lemma_trim_dashes(o);
    if t.len() == 0 {
        reveal_strlit("entity-");
        assert(slugify_spec(s)[0] == ("entity-"@)[0]);
    } else {
        let (a, b) = choose|a: int, b: int| 0 <= a <= b <= o.len() && #[trigger] o.subrange(a, b) == t;
        assert forall|i: int| 0 <= i < t.len() implies #[trigger] t[i] == '-' || slug_char(t[i]) by {
            assert(t[i] == o[a + i]);
        }
        assert forall|i: int| 0 <= i < t.len() - 1 implies !(#[trigger] t[i] == '-' && t[i + 1] == '-') by {
            assert(t[i] == o[a + i]);
            assert(t[i + 1] == o[a + i + 1]);
        }
    }
}

pub fn slugify(s: &str) -> (r: String)
    ensures
        r@ == slugify_spec(s@),
{
    let lower = crate::text::to_lowercase(s);
    let t = chars_of(lower.as_str());
    let mut out: Vec<char> = Vec::new();
    let n = t.len();
    for i in 0..n
        invariant
            n == t@.len(),
            out@ == slug_core(t@.take(i as int)),
    {
        let c = t[i];
        assert(t@.take(i + 1).drop_last() == t@.take(i as int));
        assert(t@.take(i + 1).last() == c);
        if crate::text::is_alphanumeric(c) {
            out.push(c);
        } else if out.len() > 0 && out[out.len() - 1] != '-' {
            out.push('-');
        }
    }
    assert(t@.take(n as int) == t@);
    // trim dashes on both ends
    let mut a: usize = 0;
    let mut b: usize = out.len();
    assert(out@.subrange(0, out@.len() as int) == out@);
    while a < b && (out[a] == '-' || out[b - 1] == '-')
        invariant
            0 <= a <= b <= out@.len(),
            trim_dashes(out@) == trim_dashes(out@.subrange(a as int, b as int)),
        decreases b - a,
    {
        let ghost w = out@.subrange(a as int, b as int);
        if out[a] == '-' {
            assert(w[0] == '-');
            assert(w.drop_first() == out@.subrange(a + 1, b as int));
            a = a + 1;
        } else {
            assert(w.last() == '-');
            assert(w.drop_last() == out@.subrange(a as int, b - 1));
            b = b - 1;
        }
    }
    let ghost w = out@.subrange(a as int, b as int);
    if a < b {
        assert(w[0] == out@[a as int] && w.last() == out@[b - 1]);
    }
    assert(trim_dashes(w) == w);
    if a == b {
        let mut r: Vec<char> = Vec::new();
        extend_str(&mut r, "entity-");
        let h = crate::hash::hash_str(s);
        for k in 0..10
            invariant
                h@.len() == 64,
                r@ == "entity-"@ + h@.take(k as int),
        {
            r.push(h[k]);
            assert(h@.take(k + 1) == h@.take(k as int).push(h@[k as int]));
        }
        string_of(r.as_slice())
    } else {
        let mut r: Vec<char> = Vec::new();
        let mut k: usize = a;
        while k < b
            invariant
                a <= k <= b <= out@.len(),
                r@ == out@.subrange(a as int, k as int),
            decreases b - k,
        {
            r.push(out[k]);
            assert(out@.subrange(a as int, k + 1) == out@.subrange(a as int, k as int).push(out@[k as int]));
            k = k + 1;
        }
        string_of(r.as_slice())
    }
}

/// The first match of `locate`'s first two stages: the name's slug if a page
/// has it, else the slug of the first alias that a page has.
pub open spec fn locate_by_slug_spec(name: Seq<char>, aliases: Seq<Seq<char>>, slugs: Seq<Seq<char>>) -> Option<Seq<char>> {
    if slugs.contains(slugify_spec(name)) {
        Some(slugify_spec(name))
    } else {
        first_alias_slug(aliases, slugs, 0)
    }
}

pub open spec fn first_alias_slug(aliases: Seq<Seq<char>>, slugs: Seq<Seq<char>>, k: int) -> Option<Seq<char>>
    decreases aliases.len() - k,
{
    if k < 0 || k >= aliases.len() {
        None
    } else if slugs.contains(slugify_spec(aliases[k])) {
        Some(slugify_spec(aliases[k]))
    } else {
        first_alias_slug(aliases, slugs, k + 1)
    }
}

/// A page whose title or one of whose aliases equals the name, ignoring
/// ASCII case.
pub open spec fn titled(p: PageView, name: Seq<char>) -> bool {
    crate::text::eq_ignore_ascii_case(p.title, name) || exists|k: int|
        0 <= k < p.aliases.len() && crate::text::eq_ignore_ascii_case(#[trigger] p.aliases[k], name)
}

pub open spec fn first_titled(pages: Seq<(Seq<char>, PageView)>, name: Seq<char>, k: int) -> Option<Seq<char>>
    decreases pages.len() - k,
{
    if k < 0 || k >= pages.len() {
        None
    } else if titled(pages[k].1, name) {
        Some(pages[k].0)
    } else {
        first_titled(pages, name, k + 1)
    }
}

proof fn lemma_first_titled_from(pages: Seq<(Seq<char>, PageView)>, name: Seq<char>, k: int)
    requires
        0 <= k <= pages.len(),
    ensures
        match first_titled(pages, name, k) {
            Some(s) => exists|m: int|
                k <= m < pages.len() && s == pages[m].0 && (crate::text::eq_ignore_ascii_case(pages[m].1.title, name)
                    || exists|j: int|
                    0 <= j < pages[m].1.aliases.len() && crate::text::eq_ignore_ascii_case(
                        #[trigger] pages[m].1.aliases[j],
                        name,
                    )) && forall|i: int|
                    k <= i < m ==> !crate::text::eq_ignore_ascii_case(#[trigger] pages[i].1.title, name)
                        && forall|j: int|
                        0 <= j < pages[i].1.aliases.len() ==> !crate::text::eq_ignore_ascii_case(
                            #[trigger] pages[i].1.aliases[j],
                            name,
                        ),
            None => forall|i: int|
                k <= i < pages.len() ==> !crate::text::eq_ignore_ascii_case(#[trigger] pages[i].1.title, name)
                    && forall|j: int|
                    0 <= j < pages[i].1.aliases.len() ==> !crate::text::eq_ignore_ascii_case(
                        #[trigger] pages[i].1.aliases[j],
                        name,
                    ),
        },
    decreases pages.len() - k,
{
    if k < pages.len() {
        lemma_first_titled_from(pages, name, k + 1);
        if !titled(pages[k].1, name) {
            match first_titled(pages, name, k + 1) {
                Some(s) => {
                    let m = choose|m: int|
                        k + 1 <= m < pages.len() && s == pages[m].0 && (crate::text::eq_ignore_ascii_case(
                            pages[m].1.title,
                            name,
                        ) || exists|j: int|
                            0 <= j < pages[m].1.aliases.len() && crate::text::eq_ignore_ascii_case(
                                #[trigger] pages[m].1.aliases[j],
                                name,
                            )) && forall|i: int|
                            k + 1 <= i < m ==> !crate::text::eq_ignore_ascii_case(
                                #[trigger] pages[i].1.title,
                                name,
                            ) && forall|j: int|
                                0 <= j < pages[i].1.aliases.len() ==> !crate::text::eq_ignore_ascii_case(
                                    #[trigger] pages[i].1.aliases[j],
                                    name,
                                );
                    assert(k <= m);
                },
                None => {},
            }
        }
    }
}

/// Locating an entity by title finds the first page, in slug order, whose
/// title or any of whose aliases equals the name ignoring ASCII case, and
/// none only when no page's title or alias does; so a page that lists the
/// name as an alias is always found.
pub proof fn law_locate_by_title(pages: Seq<(Seq<char>, PageView)>, name: Seq<char>)
    ensures
        (exists|k: int, j: int|
            0 <= k < pages.len() && 0 <= j < pages[k].1.aliases.len() && crate::text::eq_ignore_ascii_case(
                #[trigger] pages[k].1.aliases[j],
                name,
            )) ==> first_titled(pages, name, 0).is_some(),
        match first_titled(pages, name, 0) {
            Some(s) => exists|m: int|
                0 <= m < pages.len() && s == pages[m].0 && (crate::text::eq_ignore_ascii_case(pages[m].1.title, name)
                    || exists|j: int|
                    0 <= j < pages[m].1.aliases.len() && crate::text::eq_ignore_ascii_case(
                        #[trigger] pages[m].1.aliases[j],
                        name,
                    )) && forall|i: int|
                    0 <= i < m ==> !crate::text::eq_ignore_ascii_case(#[trigger] pages[i].1.title, name)
                        && forall|j: int|
                        0 <= j < pages[i].1.aliases.len() ==> !crate::text::eq_ignore_ascii_case(
                            #[trigger] pages[i].1.aliases[j],
                            name,
                        ),
            None => forall|i: int|
                0 <= i < pages.len() ==> !crate::text::eq_ignore_ascii_case(#[trigger] pages[i].1.title, name)
                    && forall|j: int|
                    0 <= j < pages[i].1.aliases.len() ==> !crate::text::eq_ignore_ascii_case(
                        #[trigger] pages[i].1.aliases[j],
                        name,
                    ),
        },
{
    lemma_first_titled_from(pages, name, 0);
    if exists|k: int, j: int|
        0 <= k < pages.len() && 0 <= j < pages[k].1.aliases.len() && crate::text::eq_ignore_ascii_case(
            #[trigger] pages[k].1.aliases[j],
            name,
        ) {
        let (k, j) = choose|k: int, j: int|
            0 <= k < pages.len() && 0 <= j < pages[k].1.aliases.len() && crate::text::eq_ignore_ascii_case(
                #[trigger] pages[k].1.aliases[j],
                name,
            );
        if first_titled(pages, name, 0).is_none() {
            let t = pages[k].1.title;
            assert(!crate::text::eq_ignore_ascii_case(t, name) && forall|jj: int|
                0 <= jj < pages[k].1.aliases.len() ==> !crate::text::eq_ignore_ascii_case(
                    #[trigger] pages[k].1.aliases[jj],
                    name,
                ));
            assert(crate::text::eq_ignore_ascii_case(pages[k].1.aliases[j], name));
        }
    }
}

impl MnemeCore {
    /// The first two stages of locating an entity's page among the existing
    /// slugs: by the slug of its name, then by the slugs of its aliases.
    pub fn locate(&self, name: &str, aliases: &Vec<String>, slugs: &Vec<String>) -> (r: Option<String>)
        ensures
            opt_str_view(r) == locate_by_slug_spec(name@, strs_view(aliases@), strs_view(slugs@)),
    {
        let target = slugify(name);
        if crate::page::strings_contain(slugs, target.as_str()) {
            return Some(target);
        }
        let ghost av = strs_view(aliases@);
        let n = aliases.len();
        for k in 0..n
            invariant
                n == aliases@.len(),
                av == strs_view(aliases@),
                !strs_view(slugs@).contains(slugify_spec(name@)),
                first_alias_slug(av, strs_view(slugs@), 0) == first_alias_slug(av, strs_view(slugs@), k as int),
        {
            let s = slugify(aliases[k].as_str());
            assert(av[k as int] == aliases@[k as int]@);
            if crate::page::strings_contain(slugs, s.as_str()) {
                return Some(s);
            }
        }
        None
    }

    /// The last stage of locating an entity's page: the first page, in slug
    /// order, whose title or an alias equals the name ignoring ASCII case.
    pub fn locate_by_title(&self, name: &str, pages: &Vec<(String, EntityPage)>) -> (r: Option<String>)
        ensures
            opt_str_view(r) == first_titled(crate::vault::pages_view(pages@), name@, 0),
    {
        let ghost pv = crate::vault::pages_view(pages@);
        let nm = chars_of(name);
        let n = pages.len();
        for k in 0..n
            invariant
                n == pages@.len(),
                pv == crate::vault::pages_view(pages@),
                nm@ == name@,
                first_titled(pv, name@, 0) == first_titled(pv, name@, k as int),
        {
            let p = &pages[k].1;
            assert(pv[k as int] == (pages@[k as int].0@, p@));
            let title = chars_of(p.title.as_str());
            let mut hit = crate::text::eq_ignore_ascii_case_exec(title.as_slice(), nm.as_slice());
            let m = p.aliases.len();
            for j in 0..m
                invariant
                    m == p.aliases@.len(),
                    nm@ == name@,
                    hit == (crate::text::eq_ignore_ascii_case(p@.title, name@) || exists|q: int|
                        0 <= q < j && crate::text::eq_ignore_ascii_case(#[trigger] p@.aliases[q], name@)),
            {
                let a = chars_of(p.aliases[j].as_str());
                assert(p@.aliases[j as int] == p.aliases@[j as int]@);
                if crate::text::eq_ignore_ascii_case_exec(a.as_slice(), nm.as_slice()) {
                    hit = true;
                }
            }
            if hit {
                return Some(pages[k].0.clone());
            }
        }
        None
    }
}


// ---------------------------------------------------------------------------
// Locating extracted claims
// ---------------------------------------------------------------------------

/// The identifier of a claim: `c` and the first twelve hexadecimal digits
/// of the SHA-256 of `<source id>:<excerpt>`.
pub open spec fn claim_id(source_id: Seq<char>, span: Seq<char>) -> Seq<char> {
    "c"@ + crate::hash::hash_hex(vstd::utf8::encode_utf8(source_id + ":"@ + span)).take(12)
}

/// An extracted claim located in its source: its excerpt's first occurrence
/// gives the UTF-16 range; a claim whose excerpt does not occur is dropped.
pub open spec fn locate_claim(content: Seq<char>, source_id: Seq<char>, c: ExtractClaim) -> Option<crate::domain::ClaimView> {
    match crate::text::first_occurrence(content, c.span@) {
        Some(i) => {
            let start = crate::utf16::encode_utf16(content.take(i)).len();
            Some(
                crate::domain::ClaimView {
                    id: claim_id(source_id, c.span@),
                    text: c.text@,
                    span: c.span@,
                    source_id,
                    char_start: start,
                    char_end: start + crate::utf16::encode_utf16(c.span@).len(),
                },
            )
        },
        None => None,
    }
}

/// The located claims about entity `name`, in extraction order.
pub open spec fn claims_for(cs: Seq<ExtractClaim>, name: Seq<char>, content: Seq<char>, source_id: Seq<char>) -> Seq<
    crate::domain::ClaimView,
>
    decreases cs.len(),
{
    if cs.len() == 0 {
        seq![]
    } else {
        let rest = claims_for(cs.drop_last(), name, content, source_id);
        match locate_claim(content, source_id, cs.last()) {
            Some(v) => if cs.last().entity_name@ == name {
                rest.push(v)
            } else {
                rest
            },
            None => rest,
        }
    }
}

pub proof fn lemma_claims_for_none(cs: Seq<ExtractClaim>, name: Seq<char>, content: Seq<char>, source_id: Seq<char>)
    requires
        forall|k: int|
            0 <= k < cs.len() && #[trigger] locate_claim(content, source_id, cs[k]).is_some() ==> cs[k].entity_name@ != name,
    ensures
        claims_for(cs, name, content, source_id) == Seq::<crate::domain::ClaimView>::empty(),
    decreases cs.len(),
{
    if cs.len() > 0 {
        assert forall|k: int|
            0 <= k < cs.drop_last().len() && #[trigger] locate_claim(content, source_id, cs.drop_last()[k]).is_some() implies cs.drop_last()[k].entity_name@ != name by {
            assert(cs.drop_last()[k] == cs[k]);
        }
        lemma_claims_for_none(cs.drop_last(), name, content, source_id);
        assert(cs[cs.len() - 1] == cs.last());
    }
}

/// A well-formed grouping of located claims: keyed by entity name in strictly
/// ascending order (a `BTreeMap`), each group the located claims about its
/// entity in order, and every located claim in its entity's group.
pub open spec fn claims_grouped(
    groups: Seq<(Seq<char>, Seq<crate::domain::ClaimView>)>,
    cs: Seq<ExtractClaim>,
    content: Seq<char>,
    source_id: Seq<char>,
) -> bool {
    &&& forall|a: int, b: int|
        0 <= a < b < groups.len() ==> crate::text::str_lt(#[trigger] groups[a].0, #[trigger] groups[b].0)
    &&& forall|a: int|
        0 <= a < groups.len() ==> (#[trigger] groups[a]).1 == claims_for(cs, groups[a].0, content, source_id)
            && groups[a].1.len() > 0
    &&& forall|k: int|
        0 <= k < cs.len() && #[trigger] locate_claim(content, source_id, cs[k]).is_some() ==> exists|a: int|
            0 <= a < groups.len() && (#[trigger] groups[a]).0 == cs[k].entity_name@
}

pub open spec fn claim_groups_view(g: Seq<(String, Vec<crate::domain::Claim>)>) -> Seq<(Seq<char>, Seq<crate::domain::ClaimView>)> {
    g.map_values(|x: (String, Vec<crate::domain::Claim>)| (x.0@, x.1@.map_values(|c: crate::domain::Claim| c@)))
}

/// The identifier of a claim about excerpt `span` of a source.
pub fn claim_identifier(source_id: &str, span: &[char]) -> (r: String)
    ensures
        r@ == claim_id(source_id@, span@),
{
    let mut key = chars_of(source_id);
    key.push(':');
    crate::text::extend_chars(&mut key, span);
    let ks = string_of(key.as_slice());
    assert(ks@ == source_id@ + ":"@ + span@) by {
        assert(":"@ == seq![':']) by {
            reveal_strlit(":");
        }
    }
    let h = crate::hash::hash_str(ks.as_str());
    let mut id: Vec<char> = Vec::new();
    id.push('c');
    for k in 0..12
        invariant
            h@.len() == 64,
            id@ == seq!['c'] + h@.take(k as int),
    {
        id.push(h[k]);
        assert(h@.take(k + 1) == h@.take(k as int).push(h@[k as int]));
    }
    assert("c"@ == seq!['c']) by {
        reveal_strlit("c");
    }
    string_of(id.as_slice())
}

/// Locates an extracted claim in the source content.
pub fn locate_claim_exec(content: &[char], source_id: &str, c: &ExtractClaim) -> (r: Option<crate::domain::Claim>)
    requires
        content@.len() <= usize::MAX / 4,
    ensures
        match (r, locate_claim(content@, source_id@, *c)) {
            (Some(a), Some(b)) => a@ == b,
            (None, None) => true,
            _ => false,
        },
{
    let span = chars_of(c.span.as_str());
    match crate::text::find_chars(content, span.as_slice()) {
        None => None,
        Some(i) => {
            let start = crate::utf16::utf16_len_upto(content, i);
            let span_len = crate::utf16::utf16_len(span.as_slice());
            let end = start + span_len;
            Some(
                crate::domain::Claim {
                    id: claim_identifier(source_id, span.as_slice()),
                    text: c.text.clone(),
                    span: c.span.clone(),
                    source_id: source_id.to_owned(),
                    char_start: start,
                    char_end: end,
                },
            )
        },
    }
}

proof fn lemma_encode_prefix_len(s: Seq<char>, k: int)
    requires
        0 <= k <= s.len(),
    ensures
        crate::utf16::encode_utf16(s.take(k)).len() <= 2 * k,
    decreases k,
{
    if k > 0 {
        lemma_encode_prefix_len(s, k - 1);
        assert(s.take(k).drop_last() == s.take(k - 1));
    } else {
        assert(s.take(0) =~= Seq::<char>::empty());
    }
}

/// Groups the claims a model extracted from a source by the entity each is
/// about, entity names ascending, after locating each in the source and
/// dropping those whose excerpt does not occur.
#[verifier::rlimit(60)]
pub fn group_claims(content: &str, source_id: &str, claims: Vec<ExtractClaim>) -> (r: Vec<(String, Vec<crate::domain::Claim>)>)
    requires
        content@.len() <= usize::MAX / 4,
    ensures
        claims_grouped(claim_groups_view(r@), claims@, content@, source_id@),
{
    let text = chars_of(content);
    let ghost all = claims@;
    let ghost cv = content@;
    let mut groups: Vec<(String, Vec<crate::domain::Claim>)> = Vec::new();
    let mut claims = claims;
    let mut i: usize = 0;
    let n = claims.len();
    assert(all.skip(0) == all);
    while claims.len() > 0
        invariant
            n == all.len(),
            i + claims@.len() == n,
            claims@ == all.skip(i as int),
            text@ == cv,
            cv.len() <= usize::MAX / 4,
            claims_grouped(claim_groups_view(groups@), all.take(i as int), cv, source_id@),
        decreases claims@.len(),
    {
        let ghost before = claims@;
        let c = claims.remove(0);
        assert(all.skip(i as int)[0] == all[i as int]);
        assert(claims@ =~= all.skip(i + 1));
        let ghost gv = claim_groups_view(groups@);
        let ghost done = all.take(i as int);
        let ghost done2 = all.take(i + 1);
        assert(done2.drop_last() == done);
        assert(done2.last() == c);
        match locate_claim_exec(text.as_slice(), source_id, &c) {
            None => {
                proof {
                    assert forall|a: int| 0 <= a < gv.len() implies (#[trigger] gv[a]).1 == claims_for(
                        done2,
                        gv[a].0,
                        cv,
                        source_id@,
                    ) && gv[a].1.len() > 0 by {}
                    assert forall|k: int|
                        0 <= k < done2.len() && #[trigger] locate_claim(cv, source_id@, done2[k]).is_some() implies exists|a: int|
                            0 <= a < gv.len() && (#[trigger] gv[a]).0 == done2[k].entity_name@ by {
                        assert(k < i);
                        assert(done2[k] == done[k]);
                    }
                }
            },
            Some(located) => {
                let ghost lv = located@;
                let key = c.entity_name;
                let mut p: usize = 0;
                while p < groups.len() && crate::text::str_less(groups[p].0.as_str(), key.as_str())
                    invariant
                        0 <= p <= groups@.len(),
                        gv == claim_groups_view(groups@),
                        forall|a: int| 0 <= a < p ==> crate::text::str_lt(#[trigger] gv[a].0, key@),
                    decreases groups@.len() - p,
                {
                    assert(gv[p as int].0 == groups@[p as int].0@);
                    p = p + 1;
                }
                let same = p < groups.len() && str_eq(groups[p].0.as_str(), key.as_str());
                if p < groups.len() {
                    assert(gv[p as int].0 == groups@[p as int].0@);
                }
                proof {
                    assert forall|a: int| 0 <= a < gv.len() implies claims_for(done2, #[trigger] gv[a].0, cv, source_id@) == if c.entity_name@ == gv[a].0 {
                        claims_for(done, gv[a].0, cv, source_id@).push(lv)
                    } else {
                        claims_for(done, gv[a].0, cv, source_id@)
                    } by {}
                }
                if same {
                    let mut g = groups.remove(p);
                    let ghost gold = g;
                    g.1.push(located);
                    assert(g.1@.map_values(|c: crate::domain::Claim| c@) =~= gold.1@.map_values(|c: crate::domain::Claim| c@).push(lv));
                    groups.insert(p, g);
                    proof {
                        let gv2 = claim_groups_view(groups@);
                        assert(gv2 =~= gv.update(p as int, (gv[p as int].0, gv[p as int].1.push(lv))));
                        assert forall|a: int| 0 <= a < gv2.len() implies (#[trigger] gv2[a]).1 == claims_for(
                            done2,
                            gv2[a].0,
                            cv,
                            source_id@,
                        ) && gv2[a].1.len() > 0 by {
                            if a != p && gv[a].0 == key@ {
                                crate::text::lemma_str_lt_irrefl(key@);
                            }
                        }
                        assert forall|k: int|
                            0 <= k < done2.len() && #[trigger] locate_claim(cv, source_id@, done2[k]).is_some() implies exists|a: int|
                                0 <= a < gv2.len() && (#[trigger] gv2[a]).0 == done2[k].entity_name@ by {
                            if k < i {
                                assert(done2[k] == done[k]);
                                let a = choose|a: int| 0 <= a < gv.len() && (#[trigger] gv[a]).0 == done[k].entity_name@;
                                assert(gv2[a].0 == gv[a].0);
                            } else {
                                assert(gv2[p as int].0 == key@);
                            }
                        }
                    }
                } else {
                    let mut v: Vec<crate::domain::Claim> = Vec::new();
                    v.push(located);
                    assert(v@.map_values(|c: crate::domain::Claim| c@) =~= seq![lv]);
                    let ghost kv = key@;
                    groups.insert(p, (key, v));
                    proof {
                        let gv2 = claim_groups_view(groups@);
                        assert(gv2 =~= gv.insert(p as int, (kv, seq![lv])));
                        if p < gv.len() {
                            assert(gv[p as int].0 != kv);
                            crate::text::lemma_str_lt_total(gv[p as int].0, kv);
                        }
                        assert forall|a: int, b: int| 0 <= a < b < gv2.len() implies crate::text::str_lt(
                            #[trigger] gv2[a].0,
                            #[trigger] gv2[b].0,
                        ) by {
                            if b < p {
                            } else if b == p {
                            } else if a < p {
                                assert(gv2[b].0 == gv[b - 1].0);
                                if b - 1 > p {
                                    crate::text::lemma_str_lt_trans(kv, gv[p as int].0, gv[b - 1].0);
                                }
                                crate::text::lemma_str_lt_trans(gv[a].0, kv, gv[b - 1].0);
                            } else if a == p {
                                assert(gv2[b].0 == gv[b - 1].0);
                                if b - 1 > p {
                                    crate::text::lemma_str_lt_trans(kv, gv[p as int].0, gv[b - 1].0);
                                }
                            } else {
                                assert(gv2[a].0 == gv[a - 1].0);
                                assert(gv2[b].0 == gv[b - 1].0);
                            }
                        }
                        assert forall|k: int|
                            0 <= k < done.len() && #[trigger] locate_claim(cv, source_id@, done[k]).is_some() implies done[k].entity_name@ != kv by {
                            let a = choose|a: int| 0 <= a < gv.len() && (#[trigger] gv[a]).0 == done[k].entity_name@;
                            if a < p {
                                crate::text::lemma_str_lt_irrefl(kv);
                            }
                        }
                        lemma_claims_for_none(done, kv, cv, source_id@);
                        assert forall|a: int| 0 <= a < gv2.len() implies (#[trigger] gv2[a]).1 == claims_for(
                            done2,
                            gv2[a].0,
                            cv,
                            source_id@,
                        ) && gv2[a].1.len() > 0 by {
                            if a < p {
                                if gv[a].0 == kv {
                                    crate::text::lemma_str_lt_irrefl(kv);
                                }
                            } else if a == p {
                                assert(seq![lv] =~= Seq::<crate::domain::ClaimView>::empty().push(lv));
                            } else {
                                assert(gv2[a] == gv[a - 1]);
                                if gv[a - 1].0 == kv {
                                    if a - 1 > p {
                                        crate::text::lemma_str_lt_trans(kv, gv[p as int].0, gv[a - 1].0);
                                    }
                                    crate::text::lemma_str_lt_irrefl(kv);
                                }
                            }
                        }
                        assert forall|k: int|
                            0 <= k < done2.len() && #[trigger] locate_claim(cv, source_id@, done2[k]).is_some() implies exists|a: int|
                                0 <= a < gv2.len() && (#[trigger] gv2[a]).0 == done2[k].entity_name@ by {
                            if k < i {
                                assert(done2[k] == done[k]);
                                let a = choose|a: int| 0 <= a < gv.len() && (#[trigger] gv[a]).0 == done[k].entity_name@;
                                if a < p {
                                    assert(gv2[a].0 == gv[a].0);
                                } else {
                                    assert(gv2[a + 1].0 == gv[a].0);
                                }
                            } else {
                                assert(gv2[p as int].0 == kv);
                            }
                        }
                    }
                }
            },
        }
        i = i + 1;
    }
    assert(all.take(n as int) == all);
    groups
}

} // verus!
