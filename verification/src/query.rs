//! Searching the wiki: scored hits, the facts related to new claims, and the
//! context a research question is answered from.
use vstd::prelude::*;
use crate::agent::MnemeCore;
use crate::ai::{jaccard, jaccard_ratio, lemma_jaccard_bounds, vv};
use crate::domain::{Claim, ClaimView, EntityPage, FactView, PageView, RelatedFact, ResearchResult, ResearchSource};
use crate::mock::take_up_to;
use crate::order::{pos_from, stable_sort};
use crate::text::{
    chars_of, contains, contains_chars, extend_chars, extend_str, join, lowercase, str_lt,
    str_lt_chars, string_of, to_lowercase, trim, trim_chars,
};
use crate::vault::pages_view;

verus! {

/// How well a page matches a query: the share `shared / all` of distinct
/// tokens, plus one when the page's text contains the query itself.
#[derive(Debug, Clone, Copy, PartialEq, Eq)]
pub struct Score {
    pub shared: usize,
    pub all: usize,
    pub phrase: bool,
}

/// A page found by a search.
#[derive(Debug, Clone, PartialEq, Eq)]
pub struct SearchHit {
    pub slug: String,
    pub title: String,
    pub snippet: String,
    pub score: Score,
}

pub ghost struct HitView {
    pub slug: Seq<char>,
    pub title: Seq<char>,
    pub snippet: Seq<char>,
    pub shared: nat,
    pub all: nat,
    pub phrase: bool,
}

impl View for SearchHit {
    type V = HitView;

    open spec fn view(&self) -> HitView {
        HitView {
            slug: self.slug@,
            title: self.title@,
            snippet: self.snippet@,
            shared: self.score.shared as nat,
            all: self.score.all as nat,
            phrase: self.score.phrase,
        }
    }
}

pub open spec fn hits_view(v: Seq<SearchHit>) -> Seq<HitView> {
    v.map_values(|h: SearchHit| h@)
}

/// The numerator of a score over its denominator `all`.
pub open spec fn score_num(h: HitView) -> nat {
    h.shared + if h.phrase {
        h.all
    } else {
        0
    }
}

/// Higher score first.
pub open spec fn by_score() -> spec_fn(HitView, HitView) -> bool {
    |a: HitView, b: HitView| score_num(b) * a.all < score_num(a) * b.all
}

/// Pages by title.
pub open spec fn by_page_title() -> spec_fn((Seq<char>, PageView), (Seq<char>, PageView)) -> bool {
    |a: (Seq<char>, PageView), b: (Seq<char>, PageView)| str_lt(a.1.title, b.1.title)
}

/// The text a page is searched in: title, summary and facts.
pub open spec fn page_text(p: PageView) -> Seq<char> {
    p.title + " "@ + p.summary + " "@ + join(p.facts.map_values(|f: FactView| f.text), " "@)
}

/// The first page with the given slug.
pub open spec fn slug_index(pages: Seq<(Seq<char>, PageView)>, slug: Seq<char>, k: int) -> Option<int>
    decreases pages.len() - k,
{
    if k < 0 || k >= pages.len() {
        None
    } else if pages[k].0 == slug {
        Some(k)
    } else {
        slug_index(pages, slug, k + 1)
    }
}

/// The page read back for a listed slug.
pub open spec fn page_for(pages: Seq<(Seq<char>, PageView)>, entry: (Seq<char>, PageView)) -> PageView {
    match slug_index(pages, entry.0, 0) {
        Some(i) => pages[i].1,
        None => entry.1,
    }
}

/// The hit a listed page makes for query `q`, if it scores above zero.
pub open spec fn hit_for(q: Seq<char>, entry: (Seq<char>, PageView), p: PageView) -> Option<HitView> {
    let j = jaccard_ratio(q, page_text(p));
    let phrase = contains(lowercase(page_text(p)), lowercase(q));
    if j.0 > 0 || phrase {
        Some(
            HitView {
                slug: entry.0,
                title: entry.1.title,
                snippet: if entry.1.summary.len() == 0 {
                    if p.facts.len() > 0 {
                        p.facts[0].text
                    } else {
                        seq![]
                    }
                } else {
                    entry.1.summary
                },
                shared: j.0,
                all: j.1,
                phrase,
            },
        )
    } else {
        None
    }
}

pub open spec fn hits_of(q: Seq<char>, ordered: Seq<(Seq<char>, PageView)>, pages: Seq<(Seq<char>, PageView)>) -> Seq<HitView>
    decreases ordered.len(),
{
    if ordered.len() == 0 {
        seq![]
    } else {
        let rest = hits_of(q, ordered.drop_last(), pages);
        match hit_for(q, ordered.last(), page_for(pages, ordered.last())) {
            Some(h) => rest.push(h),
            None => rest,
        }
    }
}

/// A search: for a non-blank query, the pages in title order that score
/// above zero, best first (equal scores in title order), at most `limit`.
pub open spec fn search_spec(query: Seq<char>, limit: nat, pages: Seq<(Seq<char>, PageView)>) -> Seq<HitView> {
    let q = trim(query);
    if q.len() == 0 {
        seq![]
    } else {
        take_up_to(
            stable_sort(hits_of(q, stable_sort(pages, by_page_title()), pages), by_score()),
            limit as int,
        )
    }
}

fn mul_wide(a: usize, b: usize) -> (r: u128)
    ensures
        r == a * b,
{
    let x = a as u128;
    let y = b as u128;
    assert(x * y <= 0xffff_ffff_ffff_ffff_u128 * 0xffff_ffff_ffff_ffff_u128) by (nonlinear_arith)
        requires
            x <= 0xffff_ffff_ffff_ffff_u128,
            y <= 0xffff_ffff_ffff_ffff_u128,
    ;
    x * y
}

/// Whether score `a` is higher than score `b`.
fn score_gt(a: Score, b: Score) -> (r: bool)
    requires
        a.shared <= a.all,
        b.shared <= b.all,
        a.all > 0,
        b.all > 0,
    ensures
        r == (score_num(HitView { slug: seq![], title: seq![], snippet: seq![], shared: b.shared as nat, all: b.all as nat, phrase: b.phrase }) * a.all
            < score_num(HitView { slug: seq![], title: seq![], snippet: seq![], shared: a.shared as nat, all: a.all as nat, phrase: a.phrase }) * b.all),
{
    let ghost (as_, aa, bs, ba) = (a.shared as int, a.all as int, b.shared as int, b.all as int);
    if a.phrase == b.phrase {
        if a.phrase {
            assert((bs + ba) * aa < (as_ + aa) * ba <==> bs * aa < as_ * ba) by (nonlinear_arith);
        }
        mul_wide(b.shared, a.all) < mul_wide(a.shared, b.all)
    } else if a.phrase {
        assert(bs * aa < (as_ + aa) * ba <==> !(bs == ba && as_ == 0)) by (nonlinear_arith)
            requires
                0 <= as_ <= aa,
                0 <= bs <= ba,
                aa > 0,
                ba > 0,
        ;
        !(b.shared == b.all && a.shared == 0)
    } else {
        assert(!((bs + ba) * aa < as_ * ba)) by (nonlinear_arith)
            requires
                0 <= as_ <= aa,
                0 <= bs <= ba,
                aa > 0,
                ba > 0,
        ;
        false
    }
}

/// Page indices in title order.
fn title_order(pages: &Vec<(String, EntityPage)>) -> (r: Vec<usize>)
    ensures
        r@.map_values(|i: usize| pages_view(pages@)[i as int]) == stable_sort(pages_view(pages@), by_page_title()),
        forall|k: int| 0 <= k < r@.len() ==> (#[trigger] r@[k]) < pages@.len(),
{
    let ghost pv = pages_view(pages@);
    let ghost f = |i: usize| pv[i as int];
    let ghost before_i = |a: usize, b: usize| str_lt(pv[a as int].1.title, pv[b as int].1.title);
    let n = pages.len();
    let mut ids: Vec<usize> = Vec::new();
    for i in 0..n
        invariant
            n == pages@.len(),
            ids@.len() == i,
            forall|k: int| 0 <= k < i ==> #[trigger] ids@[k] == k,
    {
        ids.push(i);
    }
    assert(ids@.map_values(f) =~= pv);
    let mut out: Vec<usize> = Vec::new();
    let ghost all = ids@;
    let mut j: usize = 0;
    while j < n
        invariant
            n == all.len(),
            n == pages@.len(),
            pv == pages_view(pages@),
            all == ids@,
            before_i == (|a: usize, b: usize| str_lt(pv[a as int].1.title, pv[b as int].1.title)),
            forall|k: int| 0 <= k < n ==> #[trigger] all[k] == k,
            j <= n,
            out@ == stable_sort(all.take(j as int), before_i),
            forall|k: int| 0 <= k < out@.len() ==> (#[trigger] out@[k]) < n,
        decreases n - j,
    {
        let x = j;
        assert(all[j as int] == x);
        let xt = chars_of(pages[x].1.title.as_str());
        let mut k: usize = 0;
        proof {
            crate::order::lemma_stable_sort_len(all.take(j as int), before_i);
            crate::order::lemma_stable_sort_perm(all.take(j as int), before_i);
        }
        while k < out.len() && !str_lt_chars(xt.as_slice(), chars_of(pages[out[k]].1.title.as_str()).as_slice())
            invariant
                0 <= k <= out@.len(),
                x < n,
                before_i == (|a: usize, b: usize| str_lt(pv[a as int].1.title, pv[b as int].1.title)),
                xt@ == pv[x as int].1.title,
                pv == pages_view(pages@),
                n == pages@.len(),
                forall|q: int| 0 <= q < out@.len() ==> (#[trigger] out@[q]) < n,
                pos_from(out@, x, before_i, 0) == pos_from(out@, x, before_i, k as int),
            decreases out@.len() - k,
        {
            assert(pv[out@[k as int] as int].1.title == pages@[out@[k as int] as int].1.title@);
            assert(!before_i(x, out@[k as int]));
            k = k + 1;
        }
        if k < out.len() {
            assert(pv[out@[k as int] as int].1.title == pages@[out@[k as int] as int].1.title@);
            assert(before_i(x, out@[k as int]));
        }
        assert(pos_from(out@, x, before_i, k as int) == k);
        proof {
            crate::order::lemma_stable_sort_step(all, before_i, j as int);
        }
        out.insert(k, x);
        j = j + 1;
    }
    assert(all.take(n as int) == all);
    proof {
        crate::order::lemma_stable_sort_map(all, f, by_page_title(), before_i);
    }
    out
}

/// The index of the first page with the given slug.
fn find_slug(pages: &Vec<(String, EntityPage)>, slug: &str) -> (r: Option<usize>)
    ensures
        match r {
            Some(i) => slug_index(pages_view(pages@), slug@, 0) == Some(i as int) && i < pages@.len(),
            None => slug_index(pages_view(pages@), slug@, 0).is_none(),
        },
{
    let ghost pv = pages_view(pages@);
    let n = pages.len();
    for k in 0..n
        invariant
            n == pages@.len(),
            pv == pages_view(pages@),
            slug_index(pv, slug@, 0) == slug_index(pv, slug@, k as int),
    {
        if crate::text::str_eq(pages[k].0.as_str(), slug) {
            return Some(k);
        }
    }
    None
}

/// The searched text of a page.
fn page_text_exec(p: &EntityPage) -> (r: Vec<char>)
    ensures
        r@ == page_text(p@),
{
    let mut parts: Vec<Vec<char>> = Vec::new();
    let ghost ft = p@.facts.map_values(|f: FactView| f.text);
    for k in 0..p.facts.len()
        invariant
            ft == p@.facts.map_values(|f: FactView| f.text),
            vv(parts@) == ft.take(k as int),
    {
        let ghost before = vv(parts@);
        parts.push(chars_of(p.facts[k].text.as_str()));
        assert(vv(parts@) =~= before.push(ft[k as int]));
        assert(ft.take(k + 1) =~= ft.take(k as int).push(ft[k as int]));
    }
    assert(ft.take(p.facts@.len() as int) == ft);
    let mut out = chars_of(p.title.as_str());
    extend_str(&mut out, " ");
    extend_str(&mut out, p.summary.as_str());
    extend_str(&mut out, " ");
    let j = crate::wire::join_parts(&parts, " ");
    extend_chars(&mut out, j.as_slice());
    out
}

fn sort_hits(items: Vec<SearchHit>) -> (r: Vec<SearchHit>)
    requires
        forall|k: int| 0 <= k < items@.len() ==> (#[trigger] items@[k]).score.shared <= items@[k].score.all && items@[k].score.all > 0,
    ensures
        hits_view(r@) == stable_sort(hits_view(items@), by_score()),
{
    let mut out: Vec<SearchHit> = Vec::new();
    let ghost all = hits_view(items@);
    let ghost raw = items@;
    let n = items.len();
    let mut i: usize = 0;
    let mut items = items;
    assert(hits_view(items@) == all.skip(0));
    assert(items@ == raw.skip(0));
    while items.len() > 0
        invariant
            n == all.len(),
            all == hits_view(raw),
            forall|k: int| 0 <= k < raw.len() ==> (#[trigger] raw[k]).score.shared <= raw[k].score.all && raw[k].score.all > 0,
            i + items@.len() == n,
            items@ == raw.skip(i as int),
            forall|k: int| 0 <= k < out@.len() ==> (#[trigger] out@[k]).score.shared <= out@[k].score.all && out@[k].score.all > 0,
            hits_view(out@) == stable_sort(all.take(i as int), by_score()),
        decreases items@.len(),
    {
        let x = items.remove(0);
        assert(raw.skip(i as int)[0] == raw[i as int]);
        assert(items@ =~= raw.skip(i + 1));
        let ghost ov = hits_view(out@);
        let mut k: usize = 0;
        while k < out.len() && !score_gt(x.score, out[k].score)
            invariant
                0 <= k <= out@.len(),
                ov == hits_view(out@),
                x.score.shared <= x.score.all && x.score.all > 0,
                forall|q: int| 0 <= q < out@.len() ==> (#[trigger] out@[q]).score.shared <= out@[q].score.all && out@[q].score.all > 0,
                pos_from(ov, x@, by_score(), 0) == pos_from(ov, x@, by_score(), k as int),
            decreases out@.len() - k,
        {
            k = k + 1;
        }
        proof {
            crate::order::lemma_stable_sort_step(all, by_score(), i as int);
        }
        out.insert(k, x);
        assert(hits_view(out@) =~= ov.insert(k as int, x@));
        i = i + 1;
    }
    assert(all.take(n as int) == all);
    out
}

impl MnemeCore {
/// Searches the pages (each slug with its page, in listing order) for a
/// query: the pages, in title order, whose text shares tokens with the
/// trimmed query or contains it ignoring case, best score first, at most
/// `limit`; nothing for a blank query.
pub fn search(&self, query: &str, limit: usize, pages: &Vec<(String, EntityPage)>) -> (r: Vec<SearchHit>)
    ensures
        hits_view(r@) == search_spec(query@, limit as nat, pages_view(pages@)),
{
    let ghost pv = pages_view(pages@);
    let qv = chars_of(query);
    let qt = trim_chars(qv.as_slice());
    if qt.len() == 0 {
        return Vec::new();
    }
    let q = string_of(qt.as_slice());
    let lower_q = to_lowercase(q.as_str());
    let lq = chars_of(lower_q.as_str());
    let order = title_order(pages);
    let ghost ordered = stable_sort(pv, by_page_title());
    assert(order@.map_values(|i: usize| pv[i as int]) == ordered);
    let mut hits: Vec<SearchHit> = Vec::new();
    for t in 0..order.len()
        invariant
            pv == pages_view(pages@),
            ordered == stable_sort(pv, by_page_title()),
            order@.map_values(|i: usize| pv[i as int]) == ordered,
            forall|k: int| 0 <= k < order@.len() ==> (#[trigger] order@[k]) < pages@.len(),
            q@ == trim(query@),
            lq@ == lowercase(q@),
            hits_view(hits@) == hits_of(q@, ordered.take(t as int), pv),
            forall|k: int| 0 <= k < hits@.len() ==> (#[trigger] hits@[k]).score.shared <= hits@[k].score.all && hits@[k].score.all > 0,
    {
        let e = order[t];
        assert(ordered[t as int] == pv[e as int]);
        assert(ordered.take(t + 1).drop_last() == ordered.take(t as int));
        assert(ordered.take(t + 1).last() == pv[e as int]);
        let entry = &pages[e];
        let pi = match find_slug(pages, entry.0.as_str()) {
            Some(i) => i,
            None => e,
        };
        let p = &pages[pi].1;
        assert(page_for(pv, pv[e as int]) == p@);
        let blob = page_text_exec(p);
        let bs = string_of(blob.as_slice());
        let sc = jaccard(q.as_str(), bs.as_str());
        proof {
            lemma_jaccard_bounds(q@, page_text(p@));
        }
        let lb = to_lowercase(bs.as_str());
        let phrase = contains_chars(chars_of(lb.as_str()).as_slice(), lq.as_slice());
        if sc.0 > 0 || phrase {
            let sum_chars = chars_of(entry.1.summary.as_str());
            let snippet = if sum_chars.len() == 0 {
                if p.facts.len() > 0 {
                    p.facts[0].text.clone()
                } else {
                    String::new()
                }
            } else {
                entry.1.summary.clone()
            };
            let h = SearchHit {
                slug: entry.0.clone(),
                title: entry.1.title.clone(),
                snippet,
                score: Score { shared: sc.0, all: sc.1, phrase },
            };
            let ghost before = hits_view(hits@);
            hits.push(h);
            assert(hits_view(hits@) =~= before.push(h@));
        }
    }
    assert(ordered.take(order@.len() as int) == ordered) by {
        crate::order::lemma_stable_sort_len(pv, by_page_title());
    }
    let mut sorted = sort_hits(hits);
    let ghost sv = hits_view(sorted@);
    if sorted.len() > limit {
        sorted.truncate(limit);
        assert(hits_view(sorted@) =~= sv.take(limit as int));
    }
    sorted
}
}


// ---------------------------------------------------------------------------
// Related facts
// ---------------------------------------------------------------------------

/// The facts of a page as related facts `(slug, fact id, text)`.
pub open spec fn facts_of_page(slug: Seq<char>, p: PageView) -> Seq<(Seq<char>, Seq<char>, Seq<char>)> {
    p.facts.map_values(|f: FactView| (slug, f.id, f.text))
}

/// The facts of the hit pages other than `exclude`, hit by hit.
pub open spec fn facts_of_hits(hits: Seq<HitView>, exclude: Seq<char>, pages: Seq<(Seq<char>, PageView)>) -> Seq<
    (Seq<char>, Seq<char>, Seq<char>),
>
    decreases hits.len(),
{
    if hits.len() == 0 {
        seq![]
    } else {
        let rest = facts_of_hits(hits.drop_last(), exclude, pages);
        let h = hits.last();
        if h.slug == exclude {
            rest
        } else {
            match slug_index(pages, h.slug, 0) {
                Some(i) => rest + facts_of_page(h.slug, pages[i].1),
                None => rest,
            }
        }
    }
}

/// The facts of every page other than `exclude`, page by page.
pub open spec fn facts_of_all(pages: Seq<(Seq<char>, PageView)>, exclude: Seq<char>) -> Seq<
    (Seq<char>, Seq<char>, Seq<char>),
>
    decreases pages.len(),
{
    if pages.len() == 0 {
        seq![]
    } else {
        let rest = facts_of_all(pages.drop_last(), exclude);
        if pages.last().0 == exclude {
            rest
        } else {
            rest + facts_of_page(pages.last().0, pages.last().1)
        }
    }
}

/// The facts shown to the reconciler next to new claims: those of the (at
/// most six) pages that the claims' texts find, the entity's own page left
/// out; when there are none, those of every other page; at most twelve.
pub open spec fn related_spec(claims: Seq<ClaimView>, exclude: Seq<char>, pages: Seq<(Seq<char>, PageView)>) -> Seq<
    (Seq<char>, Seq<char>, Seq<char>),
> {
    let q = join(claims.map_values(|c: ClaimView| c.text), " "@);
    let a = facts_of_hits(search_spec(q, 6, pages), exclude, pages);
    take_up_to(
        if a.len() == 0 {
            facts_of_all(pages, exclude)
        } else {
            a
        },
        12,
    )
}

fn push_page_facts(out: &mut Vec<RelatedFact>, slug: &str, p: &EntityPage)
    ensures
        crate::wire::related_view(final(out)@) == crate::wire::related_view(old(out)@) + facts_of_page(slug@, p@),
{
    let ghost start = crate::wire::related_view(out@);
    let ghost fp = facts_of_page(slug@, p@);
    for k in 0..p.facts.len()
        invariant
            fp == facts_of_page(slug@, p@),
            crate::wire::related_view(out@) == start + fp.take(k as int),
    {
        let ghost before = crate::wire::related_view(out@);
        let r = RelatedFact { slug: slug.to_string(), fact_id: p.facts[k].id.clone(), text: p.facts[k].text.clone() };
        out.push(r);
        assert(crate::wire::related_view(out@) =~= before.push(fp[k as int]));
        assert(fp.take(k + 1) =~= fp.take(k as int).push(fp[k as int]));
    }
    assert(fp.take(p.facts@.len() as int) == fp);
}

impl MnemeCore {
/// The facts related to a page's new claims (see `related_spec`); `pages`
/// are the wiki's pages, each with its slug, in slug order.
pub fn related_facts(&self, claims: &Vec<Claim>, exclude: &str, pages: &Vec<(String, EntityPage)>) -> (r: Vec<RelatedFact>)
    ensures
        crate::wire::related_view(r@) == related_spec(crate::mock::claims_view(claims@), exclude@, pages_view(pages@)),
{
    let ghost pv = pages_view(pages@);
    let ghost cv = crate::mock::claims_view(claims@);
    let ghost texts = cv.map_values(|c: ClaimView| c.text);
    let mut parts: Vec<Vec<char>> = Vec::new();
    for k in 0..claims.len()
        invariant
            cv == crate::mock::claims_view(claims@),
            texts == cv.map_values(|c: ClaimView| c.text),
            vv(parts@) == texts.take(k as int),
    {
        let ghost before = vv(parts@);
        parts.push(chars_of(claims[k].text.as_str()));
        assert(vv(parts@) =~= before.push(texts[k as int]));
        assert(texts.take(k + 1) =~= texts.take(k as int).push(texts[k as int]));
    }
    assert(texts.take(claims@.len() as int) == texts);
    let q = string_of(crate::wire::join_parts(&parts, " ").as_slice());
    let hits = self.search(q.as_str(), 6, pages);
    let ghost hv = hits_view(hits@);
    let mut out: Vec<RelatedFact> = Vec::new();
    for k in 0..hits.len()
        invariant
            hv == hits_view(hits@),
            pv == pages_view(pages@),
            crate::wire::related_view(out@) == facts_of_hits(hv.take(k as int), exclude@, pv),
    {
        assert(hv.take(k + 1).drop_last() == hv.take(k as int));
        assert(hv.take(k + 1).last() == hits@[k as int]@);
        if !crate::text::str_eq(hits[k].slug.as_str(), exclude) {
            match find_slug(pages, hits[k].slug.as_str()) {
                Some(i) => {
                    push_page_facts(&mut out, hits[k].slug.as_str(), &pages[i].1);
                },
                None => {},
            }
        }
    }
    assert(hv.take(hits@.len() as int) == hv);
    if out.len() == 0 {
        for k in 0..pages.len()
            invariant
                pv == pages_view(pages@),
                crate::wire::related_view(out@) == facts_of_all(pv.take(k as int), exclude@),
        {
            assert(pv.take(k + 1).drop_last() == pv.take(k as int));
            assert(pv.take(k + 1).last() == pv[k as int]);
            if !crate::text::str_eq(pages[k].0.as_str(), exclude) {
                push_page_facts(&mut out, pages[k].0.as_str(), &pages[k].1);
            }
        }
        assert(pv.take(pages@.len() as int) == pv);
    }
    let ghost all = crate::wire::related_view(out@);
    if out.len() > 12 {
        out.truncate(12);
        assert(crate::wire::related_view(out@) =~= all.take(12));
    }
    out
}
}

// ---------------------------------------------------------------------------
// Research
// ---------------------------------------------------------------------------

/// How a fact is quoted to the research model: its text and provenance.
pub open spec fn quoted_fact(f: FactView) -> Seq<char> {
    "- "@ + f.text + " (src:"@ + f.prov.source_id + "@"@ + crate::text::dec(f.prov.start) + "-"@
        + crate::text::dec(f.prov.end) + ")"@
}

/// A page as research context: a link to it with its title, its summary
/// and its quoted facts.
pub open spec fn context_block(slug: Seq<char>, p: PageView) -> Seq<char> {
    "[["@ + slug + "]] "@ + p.title + "\n"@ + p.summary + "\n"@ + join(
        p.facts.map_values(|f: FactView| quoted_fact(f)),
        "\n"@,
    )
}

pub open spec fn context_blocks(hits: Seq<HitView>, pages: Seq<(Seq<char>, PageView)>) -> Seq<Seq<char>>
    decreases hits.len(),
{
    if hits.len() == 0 {
        seq![]
    } else {
        let rest = context_blocks(hits.drop_last(), pages);
        match slug_index(pages, hits.last().slug, 0) {
            Some(i) => rest.push(context_block(hits.last().slug, pages[i].1)),
            None => rest,
        }
    }
}

fn quoted_fact_exec(f: &crate::domain::FactEntry) -> (r: Vec<char>)
    ensures
        r@ == quoted_fact(f@),
{
    let mut v = chars_of("- ");
    extend_str(&mut v, f.text.as_str());
    extend_str(&mut v, " (src:");
    extend_str(&mut v, f.prov.source_id.as_str());
    extend_str(&mut v, "@");
    let a = crate::text::usize_to_chars(f.prov.start);
    extend_chars(&mut v, a.as_slice());
    extend_str(&mut v, "-");
    let b = crate::text::usize_to_chars(f.prov.end);
    extend_chars(&mut v, b.as_slice());
    extend_str(&mut v, ")");
    v
}

fn context_block_exec(slug: &str, p: &EntityPage) -> (r: Vec<char>)
    ensures
        r@ == context_block(slug@, p@),
{
    let ghost qf = p@.facts.map_values(|f: FactView| quoted_fact(f));
    let mut parts: Vec<Vec<char>> = Vec::new();
    for k in 0..p.facts.len()
        invariant
            qf == p@.facts.map_values(|f: FactView| quoted_fact(f)),
            vv(parts@) == qf.take(k as int),
    {
        let ghost before = vv(parts@);
        parts.push(quoted_fact_exec(&p.facts[k]));
        assert(vv(parts@) =~= before.push(qf[k as int]));
        assert(qf.take(k + 1) =~= qf.take(k as int).push(qf[k as int]));
    }
    assert(qf.take(p.facts@.len() as int) == qf);
    let mut v = chars_of("[[");
    extend_str(&mut v, slug);
    extend_str(&mut v, "]] ");
    extend_str(&mut v, p.title.as_str());
    extend_str(&mut v, "\n");
    extend_str(&mut v, p.summary.as_str());
    extend_str(&mut v, "\n");
    let j = crate::wire::join_parts(&parts, "\n");
    extend_chars(&mut v, j.as_slice());
    v
}

impl MnemeCore {
/// What a research question is answered from: the (at most six) pages the
/// question finds, and their context blocks separated by blank lines.
pub fn research_context(&self, question: &str, pages: &Vec<(String, EntityPage)>) -> (r: (String, Vec<SearchHit>))
    ensures
        hits_view(r.1@) == search_spec(question@, 6, pages_view(pages@)),
        r.0@ == join(context_blocks(hits_view(r.1@), pages_view(pages@)), "\n\n"@),
{
    let ghost pv = pages_view(pages@);
    let hits = self.search(question, 6, pages);
    let ghost hv = hits_view(hits@);
    let mut blocks: Vec<Vec<char>> = Vec::new();
    for k in 0..hits.len()
        invariant
            hv == hits_view(hits@),
            pv == pages_view(pages@),
            vv(blocks@) == context_blocks(hv.take(k as int), pv),
    {
        assert(hv.take(k + 1).drop_last() == hv.take(k as int));
        assert(hv.take(k + 1).last() == hits@[k as int]@);
        match find_slug(pages, hits[k].slug.as_str()) {
            Some(i) => {
                let b = context_block_exec(hits[k].slug.as_str(), &pages[i].1);
                let ghost before = vv(blocks@);
                blocks.push(b);
                assert(vv(blocks@) =~= before.push(b@));
            },
            None => {},
        }
    }
    assert(hv.take(hits@.len() as int) == hv);
    let c = crate::wire::join_parts(&blocks, "\n\n");
    (string_of(c.as_slice()), hits)
}
}

impl MnemeCore {
/// The result of a research question, once the model has answered it from
/// what `research_context` gave: the answer and the pages found; and the
/// log line `[query] "<question>" — <n> hits`.
pub fn research(&self, question: &str, answer: String, hits: Vec<SearchHit>) -> (r: (ResearchResult, String))
    ensures
        r.0.answer@ == answer@,
        r.0.sources@.map_values(|s: ResearchSource| (s.slug@, s.title@)) == hits_view(hits@).map_values(
            |h: HitView| (h.slug, h.title),
        ),
        r.1@ == "[query] \""@ + question@ + "\" — "@ + crate::text::dec(hits@.len() as nat) + " hits"@,
{
    let n = hits.len();
    let ghost hv = hits_view(hits@).map_values(|h: HitView| (h.slug, h.title));
    let mut sources: Vec<ResearchSource> = Vec::new();
    for k in 0..n
        invariant
            n == hits@.len(),
            hv == hits_view(hits@).map_values(|h: HitView| (h.slug, h.title)),
            sources@.map_values(|s: ResearchSource| (s.slug@, s.title@)) == hv.take(k as int),
    {
        let ghost before = sources@.map_values(|s: ResearchSource| (s.slug@, s.title@));
        let s = ResearchSource { slug: hits[k].slug.clone(), title: hits[k].title.clone() };
        sources.push(s);
        assert(sources@.map_values(|s: ResearchSource| (s.slug@, s.title@)) =~= before.push(hv[k as int]));
        assert(hv.take(k + 1) =~= hv.take(k as int).push(hv[k as int]));
    }
    assert(hv.take(n as int) == hv);
    let mut line = chars_of("[query] \"");
    extend_str(&mut line, question);
    extend_str(&mut line, "\" — ");
    let d = crate::text::usize_to_chars(n);
    extend_chars(&mut line, d.as_slice());
    extend_str(&mut line, " hits");
    (ResearchResult { answer, sources }, string_of(line.as_slice()))
}
}

} // verus!
