use mneme::agent::{claim_identifier, group_claims, lint_log_line, MnemeCore};
use mneme::domain::{
    AddSourceInput, AppConfig, Claim, Entity, EntityPage, ExtractClaim, FactEntry, LinkEntry,
    PatchOp, Provenance, RelatedFact,
};
use mneme::fetch::{accept_chunk, fetch_target, Fetch, UrlParts};
use mneme::ingest::{ingest_log_line, plan_input, render_note, source_meta, InputPlan, Normalized};
use mneme::mock::MockProvider;
use mneme::page::{
    apply_op, check_claims, claims_to_check, commit_page, cross_link_ops, new_fact_id, new_page,
    route_ops, writer_checks, after_group, first_group, CommitStatus, RoutedStep,
};
use mneme::vault::Vault;
use mneme::wikify::{Phase, Wikify, WikifyStep};

const TESLA: &str = "Tesla was founded in 2003. Elon Musk became CEO in 2008.";

fn claim(id: &str, text: &str, source: &str, start: usize, end: usize) -> Claim {
    Claim {
        id: id.to_string(),
        text: text.to_string(),
        span: text.to_string(),
        source_id: source.to_string(),
        char_start: start,
        char_end: end,
    }
}

fn fact(id: &str, text: &str) -> FactEntry {
    FactEntry {
        id: id.to_string(),
        text: text.to_string(),
        prov: Provenance { source_id: "S1".to_string(), start: 0, end: 4 },
    }
}

fn page(slug: &str, title: &str, summary: &str, facts: Vec<FactEntry>) -> EntityPage {
    let mut p = new_page(slug, "2026-01-01");
    p.title = title.to_string();
    p.summary = summary.to_string();
    p.facts = facts;
    p
}

fn is_fresh_id(id: &str) -> bool {
    id.len() == 33
        && id.starts_with('f')
        && id[1..].chars().all(|c| c.is_ascii_digit() || ('a'..='f').contains(&c))
}

fn make_core() -> MnemeCore {
    MnemeCore::new(Vault::new("/tmp/vault".to_string()), AppConfig::default())
}

#[test]
fn fresh_fact_ids_are_uuid_hex() {
    let a = new_fact_id();
    let b = new_fact_id();
    assert!(is_fresh_id(&a), "{a}");
    assert!(is_fresh_id(&b), "{b}");
    assert_ne!(a, b);
}

#[test]
fn blank_page_defaults() {
    let p = new_page("acme", "2026-02-03");
    assert_eq!(p.title, "acme");
    assert_eq!(p.kind, "concept");
    assert_eq!(p.updated, "2026-02-03");
    assert!(p.summary.is_empty() && p.facts.is_empty() && p.sources.is_empty());
}

#[test]
fn append_and_update_facts() {
    let mut p = new_page("tesla", "2026-01-01");
    let c = claim("c1", "Tesla was founded in 2003.", "S1", 0, 26);
    apply_op(&mut p, PatchOp::AppendFact { fact: "Founded 2003".into(), claim: c.clone() }, "2026-01-02");
    assert_eq!(p.facts.len(), 1);
    assert!(is_fresh_id(&p.facts[0].id));
    assert_eq!(p.facts[0].text, "Founded 2003");
    assert_eq!(p.facts[0].prov, Provenance { source_id: "S1".into(), start: 0, end: 26 });
    assert_eq!(p.sources, vec!["S1".to_string()]);
    let id = p.facts[0].id.clone();
    let c2 = claim("c2", "Tesla was founded in 2003 in Texas.", "S2", 5, 9);
    apply_op(
        &mut p,
        PatchOp::UpdateFact { fact_id: id.clone(), new_fact: "Founded 2003 in Texas".into(), claim: c2.clone(), target_slug: None },
        "2026-01-03",
    );
    assert_eq!(p.facts.len(), 1);
    assert_ne!(p.facts[0].id, id);
    assert!(is_fresh_id(&p.facts[0].id));
    assert_eq!(p.facts[0].text, "Founded 2003 in Texas");
    assert_eq!(p.history.len(), 1);
    assert_eq!(p.history[0].id, id);
    assert_eq!(p.history[0].text, "Founded 2003");
    assert_eq!(p.history[0].prov, Provenance { source_id: "S1".into(), start: 0, end: 26 });
    assert_eq!(p.history[0].superseded_at, "2026-01-03");
    assert_eq!(p.facts[0].prov, Provenance { source_id: "S2".into(), start: 5, end: 9 });
    assert_eq!(p.sources, vec!["S1".to_string(), "S2".to_string()]);
    apply_op(
        &mut p,
        PatchOp::UpdateFact { fact_id: "fmissing".into(), new_fact: "Other".into(), claim: c2, target_slug: None },
        "2026-01-03",
    );
    assert_eq!(p.facts.len(), 2);
    assert_eq!(p.facts[1].text, "Other");
    assert_eq!(p.history.len(), 1);
    assert_eq!(p.sources.len(), 2);
}

#[test]
fn supersede_moves_fact_to_history() {
    let mut p = new_page("tesla", "2026-01-01");
    p.facts = vec![fact("fa", "CEO is Eberhard"), fact("fb", "Makes cars")];
    let c = claim("c3", "Musk became CEO in 2008.", "S3", 1, 2);
    apply_op(
        &mut p,
        PatchOp::SupersedeFact { fact_id: "fa".into(), new_fact: "CEO is Musk".into(), claim: c, target_slug: None },
        "2026-05-05",
    );
    assert_eq!(p.facts.len(), 2);
    assert_eq!(p.facts[0].id, "fb");
    assert_eq!(p.facts[1].text, "CEO is Musk");
    assert_eq!(p.history.len(), 1);
    assert_eq!(p.history[0].id, "fa");
    assert_eq!(p.history[0].text, "CEO is Eberhard");
    assert_eq!(p.history[0].superseded_at, "2026-05-05");
    assert_eq!(p.sources, vec!["S3".to_string()]);
}

#[test]
fn contradictions_and_links() {
    let mut p = new_page("tesla", "2026-01-01");
    p.facts = vec![fact("fa", "Founded 2003")];
    let c = claim("c4", "Founded 2004", "S4", 0, 1);
    apply_op(
        &mut p,
        PatchOp::FlagContradiction { fact_id: "fa".into(), conflicting: c.clone(), note: "Founded 2004".into(), target_slug: None },
        "2026-01-01",
    );
    apply_op(
        &mut p,
        PatchOp::FlagContradiction { fact_id: "fz".into(), conflicting: c, note: "x".into(), target_slug: None },
        "2026-01-01",
    );
    assert_eq!(p.contradictions.len(), 2);
    assert_eq!(p.contradictions[0].note, "\"Founded 2003\" ↔ \"Founded 2004\" (src:S4). 待人工裁决。");
    assert_eq!(p.contradictions[1].note, "fact fz ↔ \"x\" (src:S4). 待人工裁决。");
    assert_eq!(p.sources, vec!["S4".to_string()]);
    assert_eq!(p.facts.len(), 1);
    apply_op(&mut p, PatchOp::AddLink { target_slug: "spacex".into(), relation: Some("sibling".into()) }, "d");
    apply_op(&mut p, PatchOp::AddLink { target_slug: "spacex".into(), relation: None }, "d");
    assert_eq!(p.links, vec![LinkEntry { target_slug: "spacex".into(), relation: Some("sibling".into()) }]);
}

#[test]
fn create_page_sets_identity_once() {
    let mut p = new_page("tesla", "2026-01-01");
    let e = Entity { name: "Tesla".into(), kind: "org".into(), aliases: vec!["TSLA".into(), "TSLA".into()] };
    apply_op(&mut p, PatchOp::CreatePage { entity: e.clone(), summary: "An automaker".into() }, "d");
    apply_op(&mut p, PatchOp::CreatePage { entity: e, summary: "Other".into() }, "d");
    assert_eq!(p.title, "Tesla");
    assert_eq!(p.kind, "org");
    assert_eq!(p.aliases, vec!["TSLA".to_string()]);
    assert_eq!(p.summary, "An automaker");
}

#[test]
fn commit_fills_summary_and_date() {
    let c = claim("c1", "Tesla was founded in 2003.", "S1", 0, 26);
    let ops = vec![
        PatchOp::CreatePage {
            entity: Entity { name: "Tesla".into(), kind: "org".into(), aliases: vec![] },
            summary: "Creating page for Tesla".into(),
        },
        PatchOp::AppendFact { fact: "Tesla was founded in 2003.".into(), claim: c },
    ];
    let p = commit_page(None, "tesla", ops, "2026-03-04");
    assert_eq!(p.slug, "tesla");
    assert_eq!(p.title, "Tesla");
    assert_eq!(p.summary, "Tesla was founded in 2003.");
    assert_eq!(p.updated, "2026-03-04");
    let q = commit_page(Some(p.clone()), "tesla", vec![], "2026-03-05");
    assert_eq!(q.summary, p.summary);
    assert_eq!(q.updated, "2026-03-05");
    assert_eq!(q.facts, p.facts);
}

#[test]
fn routing_groups_by_target_page() {
    let c = claim("c1", "x", "S1", 0, 1);
    let ops = vec![
        PatchOp::AppendFact { fact: "a".into(), claim: c.clone() },
        PatchOp::UpdateFact { fact_id: "f1".into(), new_fact: "b".into(), claim: c.clone(), target_slug: Some("zeta".into()) },
        PatchOp::SupersedeFact { fact_id: "f2".into(), new_fact: "c".into(), claim: c.clone(), target_slug: Some("alpha".into()) },
        PatchOp::AddLink { target_slug: "zeta".into(), relation: None },
    ];
    let groups = route_ops("middle", ops);
    let names: Vec<&str> = groups.iter().map(|g| g.0.as_str()).collect();
    assert_eq!(names, vec!["alpha", "middle", "zeta"]);
    assert_eq!(groups[1].1.len(), 2);
    assert_eq!(groups[0].1.len(), 1);
    assert_eq!(groups[2].1.len(), 1);
    assert!(matches!(groups[1].1[1], PatchOp::AddLink { .. }));
}

#[test]
fn claims_are_checked_against_sources() {
    let a = claim("ca", "Tesla  was founded", "S1", 0, 18);
    let b = claim("cb", "in 2003", "S1", 19, 26);
    let ops = vec![
        PatchOp::AppendFact { fact: "x".into(), claim: a.clone() },
        PatchOp::AddLink { target_slug: "y".into(), relation: None },
        PatchOp::AppendFact { fact: "y".into(), claim: b.clone() },
    ];
    let claims = claims_to_check(&ops);
    assert_eq!(claims, vec![a.clone(), b.clone()]);
    let ok = vec![Ok("Tesla was\nfounded".to_string()), Ok("in 2003".to_string())];
    assert_eq!(check_claims(&claims, &ok), Ok(None));
    let bad = vec![Ok("Tesla was founded".to_string()), Ok("in 2004".to_string())];
    assert_eq!(check_claims(&claims, &bad), Ok(Some("cb".to_string())));
    let err = vec![Err("provenance range out of bounds".to_string()), Ok("in 2004".to_string())];
    assert_eq!(check_claims(&claims, &err), Err("provenance range out of bounds".to_string()));
    assert_eq!(writer_checks("h1", "h2", &claims, &ok), Ok(Some(CommitStatus::Stale)));
    assert_eq!(writer_checks("h1", "h2", &claims, &err), Ok(Some(CommitStatus::Stale)));
    assert_eq!(writer_checks("h1", "h1", &claims, &ok), Ok(None));
    assert_eq!(writer_checks("h1", "h1", &claims, &bad), Ok(Some(CommitStatus::Invalid("cb".to_string()))));
    assert_eq!(writer_checks("", "", &claims, &err), Err("provenance range out of bounds".to_string()));
}

#[test]
fn cross_links_missing_pages_only() {
    let slugs = vec!["a".to_string(), "b".to_string(), "c".to_string()];
    let mut p = new_page("a", "d");
    p.links.push(LinkEntry { target_slug: "b".into(), relation: Some("r".into()) });
    let ops = cross_link_ops(&slugs, "a", &p);
    assert_eq!(ops, vec![PatchOp::AddLink { target_slug: "c".into(), relation: None }]);
    let linked = commit_page(Some(p.clone()), "a", ops, "d2");
    let targets: Vec<&str> = linked.links.iter().map(|l| l.target_slug.as_str()).collect();
    assert_eq!(targets, vec!["b", "c"]);
    assert_eq!(linked.links[0].relation, Some("r".to_string()));
    assert!(cross_link_ops(&vec!["a".to_string()], "a", &p).is_empty());
}

#[test]
fn search_ranks_and_limits() {
    let pages = vec![
        ("spacex".to_string(), page("spacex", "SpaceX", "Rockets by Musk.", vec![])),
        ("tesla".to_string(), page("tesla", "Tesla", "", vec![fact("f1", "Tesla makes cars.")])),
        ("zed".to_string(), page("zed", "Zed", "Nothing here.", vec![])),
    ];
    assert!(make_core().search("   ", 10, &pages).is_empty());
    let hits = make_core().search(" tesla ", 10, &pages);
    assert_eq!(hits.len(), 1);
    assert_eq!(hits[0].slug, "tesla");
    assert_eq!(hits[0].title, "Tesla");
    assert_eq!(hits[0].snippet, "Tesla makes cars.");
    assert!(hits[0].score.phrase);
    let hits = make_core().search("Musk cars", 10, &pages);
    let slugs: Vec<&str> = hits.iter().map(|h| h.slug.as_str()).collect();
    assert_eq!(slugs, vec!["tesla", "spacex"]);
    assert!(!hits[0].score.phrase);
    assert_eq!(make_core().search("Musk cars", 1, &pages).len(), 1);
}

#[test]
fn related_facts_fall_back_to_all_pages() {
    let pages = vec![
        ("spacex".to_string(), page("spacex", "SpaceX", "", vec![fact("f1", "Launches rockets.")])),
        ("tesla".to_string(), page("tesla", "Tesla", "", vec![fact("f2", "Makes cars.")])),
    ];
    let claims = vec![claim("c1", "Rockets are launched", "S1", 0, 1)];
    let r = make_core().related_facts(&claims, "tesla", &pages);
    assert_eq!(r, vec![RelatedFact { slug: "spacex".into(), fact_id: "f1".into(), text: "Launches rockets.".into() }]);
    let claims = vec![claim("c2", "zzz", "S1", 0, 1)];
    let r = make_core().related_facts(&claims, "spacex", &pages);
    assert_eq!(r, vec![RelatedFact { slug: "tesla".into(), fact_id: "f2".into(), text: "Makes cars.".into() }]);
}

#[test]
fn research_collects_context_and_log() {
    let mut f = fact("f1", "Tesla makes cars.");
    f.prov = Provenance { source_id: "S9".into(), start: 2, end: 7 };
    let pages = vec![("tesla".to_string(), page("tesla", "Tesla", "Automaker", vec![f]))];
    let (context, hits) = make_core().research_context("tesla", &pages);
    assert_eq!(context, "[[tesla]] Tesla\nAutomaker\n- Tesla makes cars. (src:S9@2-7)");
    assert_eq!(hits.len(), 1);
    let (result, line) = make_core().research("tesla", "Cars.".to_string(), hits);
    assert_eq!(result.answer, "Cars.");
    assert_eq!(result.sources.len(), 1);
    assert_eq!(result.sources[0].slug, "tesla");
    assert_eq!(line, "[query] \"tesla\" — 1 hits");
}

#[test]
fn input_plans() {
    let fetch = plan_input(&AddSourceInput { url: Some("  https://x.org/a ".into()), text: Some("t".into()), title: None }).unwrap();
    match fetch {
        InputPlan::Fetch { url, title } => {
            assert_eq!(url, "https://x.org/a");
            assert_eq!(title, None);
        }
        _ => panic!("expected a fetch"),
    }
    let text = plan_input(&AddSourceInput { url: Some(" ".into()), text: Some(" body ".into()), title: Some("  ".into()) }).unwrap();
    match text {
        InputPlan::Text(n) => {
            assert_eq!(n.kind, "text");
            assert_eq!(n.title, "Untitled");
            assert_eq!(n.content, "body");
        }
        _ => panic!("expected a text"),
    }
    assert_eq!(
        plan_input(&AddSourceInput { url: None, text: Some("\n".into()), title: None }).err(),
        Some("url or text is required".to_string())
    );
}

#[test]
fn source_metadata_and_log() {
    let n = Normalized {
        kind: "web".into(),
        title: "T".into(),
        author: Some("Ann".into()),
        url: Some("https://example.com/a".into()),
        content: "Tesla was founded in 2003.".into(),
        original: None,
        doi: None,
        authors: None,
        published: Some("2020".into()),
    };
    let meta = source_meta(&n, "2026-01-01");
    assert_eq!(meta.id, "S46672014b1");
    assert_eq!(meta.word_count, 5);
    assert_eq!(meta.fetched_at, "2026-01-01");
    assert_eq!(meta.url, Some("https://example.com/a".to_string()));
    assert_eq!(meta.author, Some("Ann".to_string()));
    assert_eq!(meta.published, Some("2020".to_string()));
    assert_eq!(meta.summarized, None);
    assert_eq!(ingest_log_line(&meta, 3), "[ingest] S46672014b1 \"T\" (web) — 3 entities");
}

#[test]
fn note_is_rendered() {
    let n = Normalized {
        kind: "text".into(),
        title: "Tesla timeline".into(),
        author: None,
        url: None,
        content: TESLA.into(),
        original: None,
        doi: None,
        authors: None,
        published: None,
    };
    let meta = source_meta(&n, "2026-01-01");
    let note = MockProvider.note(&meta.title, &n.content);
    let md = render_note(&meta, &note);
    assert!(md.starts_with("---\nsource: Sea98fb8596\ntitle: Tesla timeline\nkind: text\n---\n\n## TL;DR\nTesla was founded in 2003.\n\n## Key points\n- Tesla was founded in 2003.\n- Elon Musk became CEO in 2008.\n\n## Candidate entities\n- Tesla (concept) — mentioned in source\n"), "{md}");
    assert!(md.ends_with("\n\n## Tags\n#tesla #elon musk #ceo\n"), "{md}");
}

#[test]
fn claims_are_located_and_grouped() {
    let claims = vec![
        ExtractClaim { entity_name: "Tesla".into(), text: "t1".into(), span: "Tesla was founded in 2003.".into() },
        ExtractClaim { entity_name: "Elon Musk".into(), text: "t2".into(), span: "Elon Musk became CEO in 2008.".into() },
        ExtractClaim { entity_name: "Tesla".into(), text: "t3".into(), span: "not in the text".into() },
    ];
    let groups = group_claims(TESLA, "Sea98fb8596", claims);
    assert_eq!(groups.len(), 2);
    assert_eq!(groups[0].0, "Elon Musk");
    assert_eq!(groups[1].0, "Tesla");
    let musk = &groups[0].1[0];
    assert_eq!(musk.id, "c394e62ab20eb");
    assert_eq!((musk.char_start, musk.char_end), (27, 56));
    assert_eq!(groups[1].1.len(), 1);
    assert_eq!(groups[1].1[0].id, "ceebc6824505e");
    let chars: Vec<char> = "Tesla was founded in 2003.".chars().collect();
    assert_eq!(claim_identifier("Sea98fb8596", &chars), "ceebc6824505e");
}

fn url(href: &str, scheme: &str, host: Option<&str>, port: Option<u16>, path: &str) -> UrlParts {
    UrlParts {
        href: href.into(),
        scheme: scheme.into(),
        host: host.map(|h| h.to_string()),
        port,
        path: path.into(),
        last_segment: path.rsplit('/').next().map(|s| s.to_string()),
    }
}

#[test]
fn fetch_targets() {
    assert_eq!(
        fetch_target(&url("https://a.org/", "https", Some("a.org"), Some(443), "/")),
        Ok(("a.org".to_string(), 443))
    );
    assert_eq!(
        fetch_target(&url("ftp://a.org/", "ftp", Some("a.org"), Some(21), "/")),
        Err("only http and https URLs are allowed".to_string())
    );
    assert_eq!(fetch_target(&url("http:x", "http", None, Some(80), "x")), Err("URL has no host".to_string()));
    assert_eq!(fetch_target(&url("http://a/", "http", Some("a"), None, "/")), Err("URL has no known port".to_string()));
}

#[test]
fn fetch_start_and_redirects() {
    let (mut f, req) = Fetch::start("https://example.com/a/b", Some("T".into())).unwrap();
    assert_eq!(req.url, "https://example.com/a/b");
    assert_eq!(req.host, "example.com");
    assert_eq!(req.port, 443);
    assert_eq!(f.requests, 1);
    assert_eq!(f.url.last_segment, Some("b".to_string()));
    let next = f.redirected(Some("../c".into())).unwrap();
    assert_eq!(next.url, "https://example.com/c");
    assert_eq!(f.requests, 2);
    assert_eq!(f.redirected(None).err(), Some("redirect has no Location header".to_string()));
    for _ in 0..4 {
        f.redirected(Some("http://example.org:8080/x".into())).unwrap();
    }
    assert_eq!(f.requests, 6);
    assert_eq!(f.url.port, Some(8080));
    assert_eq!(f.redirected(Some("/y".into())).err(), Some("too many redirects".to_string()));
    assert!(Fetch::start("not a url", None).is_err());
    assert_eq!(Fetch::start("file:///etc/passwd", None).err(), Some("only http and https URLs are allowed".to_string()));
}

#[test]
fn fetch_answers_and_limits() {
    let (f, _) = Fetch::start("http://example.com/", None).unwrap();
    assert_eq!(f.answered(false, "404 Not Found", None), Err("fetch failed: 404 Not Found".to_string()));
    assert_eq!(f.answered(true, "200 OK", Some(10_485_761)), Err("source exceeds 10 MB".to_string()));
    assert_eq!(f.answered(true, "200 OK", Some(10_485_760)), Ok(()));
    assert_eq!(f.answered(true, "200 OK", None), Ok(()));
    assert_eq!(accept_chunk(10_485_000, 760), Ok(10_485_760));
    assert_eq!(accept_chunk(10_485_000, 761), Err("source exceeds 10 MB".to_string()));
}

#[test]
fn fetched_web_page_becomes_text() {
    let (f, _) = Fetch::start("https://example.com/post", None).unwrap();
    let html = "<html><head><title> Post </title></head><body><main><p>First.</p>\n<p> Second </p></main></body></html>";
    let n = f.web_body(html.as_bytes()).unwrap();
    assert_eq!(n.kind, "web");
    assert_eq!(n.title, "Post");
    assert_eq!(n.content, "First.\n\nSecond");
    assert_eq!(n.url, Some("https://example.com/post".to_string()));
    assert_eq!(n.original, Some(html.to_string()));
    let empty = "<html><head><title></title></head><body>  </body></html>";
    assert_eq!(f.web_body(empty.as_bytes()).err(), Some("web page contained no readable text".to_string()));
    let (g, _) = Fetch::start("https://example.com/x", Some("Mine".into())).unwrap();
    let n = g.web_body("<body><article>A</article><p>B</p></body>".as_bytes()).unwrap();
    assert_eq!(n.title, "Mine");
    assert_eq!(n.content, "A\n\nB");
    let n = g.web_body("<p>Body text</p>".as_bytes()).unwrap();
    assert_eq!(n.content, "Body text");
}

#[test]
fn fetched_pdf_becomes_text() {
    let (f, _) = Fetch::start("https://example.com/papers/paper.PDF", None).unwrap();
    assert!(f.wants_pdf("application/octet-stream"));
    assert!(f.wants_pdf("application/pdf"));
    let n = f.pdf_body(Ok("Page one".to_string())).unwrap();
    assert_eq!(n.kind, "pdf");
    assert_eq!(n.title, "paper.PDF");
    assert_eq!(n.content, "Page one");
    assert_eq!(n.url, Some("https://example.com/papers/paper.PDF".to_string()));
    assert_eq!(n.original, None);
    assert_eq!(f.pdf_body(Err("bad header".to_string())).err(), Some("bad header".to_string()));
    let (g, _) = Fetch::start("https://example.com/", Some("Mine".into())).unwrap();
    assert!(!g.wants_pdf("text/html"));
    assert_eq!(g.pdf_body(Ok("x".to_string())).unwrap().title, "Mine");
    let (h, _) = Fetch::start("https://example.com/", None).unwrap();
    assert_eq!(h.pdf_body(Ok("x".to_string())).unwrap().title, "");
}

#[test]
fn lint_counts_facts_and_orphans() {
    let mut a = page("a", "A", "", vec![fact("f1", "x"), fact("f2", "y")]);
    a.links.push(LinkEntry { target_slug: "b".into(), relation: None });
    let b = page("b", "B", "", vec![]);
    let c = page("c", "C", "", vec![]);
    let pages = vec![("a".to_string(), a), ("b".to_string(), b), ("c".to_string(), c)];
    let r = make_core().lint(&pages, 4);
    assert_eq!(r.entities, 3);
    assert_eq!(r.sources, 4);
    assert_eq!(r.facts, 2);
    assert_eq!(r.empty_facts, vec!["b".to_string(), "c".to_string()]);
    assert_eq!(r.orphans, vec!["c".to_string()]);
    assert_eq!(lint_log_line(&r), "[lint] 3 entities, 1 orphans");
}

/// A stand-in for a page file's hash in the in-memory vault.
fn version(pages: &Vec<(String, EntityPage)>, slug: &str) -> String {
    pages.iter().find(|p| p.0 == slug).map(|p| format!("{:?}", p.1)).unwrap_or_default()
}

fn upsert(pages: &mut Vec<(String, EntityPage)>, p: EntityPage) {
    pages.retain(|x| x.0 != p.slug);
    pages.push((p.slug.clone(), p));
    pages.sort_by(|x, y| x.0.cmp(&y.0));
}

#[test]
fn mock_ingest_wikify_search_round_trip() {
    let input = AddSourceInput {
        title: Some("Tesla timeline".into()),
        text: Some(TESLA.into()),
        url: None,
    };
    let n = match plan_input(&input).unwrap() {
        InputPlan::Text(n) => n,
        _ => panic!("expected a text"),
    };
    let meta = source_meta(&n, "2026-01-01");
    assert_eq!(meta.id, "Sea98fb8596");
    let provider = MockProvider;
    let note = provider.note(&meta.title, &n.content);
    let extracted = provider.extract(&n.content, &note.candidate_entities);
    let core = make_core();
    let vault = Vault::new("/tmp/vault".to_string());
    let mut pages: Vec<(String, EntityPage)> = Vec::new();
    let (mut w, mut step) = Wikify::start(&meta.id, &n.content, extracted);
    let mut logs = Vec::new();
    let report = loop {
        step = match step {
            WikifyStep::Locate { name, aliases } => {
                let slugs: Vec<String> = pages.iter().map(|p| p.0.clone()).collect();
                let found = core.locate(&name, &aliases, &slugs).or_else(|| core.locate_by_title(&name, &pages));
                w.located(found)
            }
            WikifyStep::Prepare { slug, claims } => {
                let current = pages.iter().find(|p| p.0 == slug).map(|p| p.1.clone());
                let base = version(&pages, &slug);
                let related = core.related_facts(&claims, &slug, &pages);
                w.prepared(current, base, related)
            }
            WikifyStep::Reconcile(input) => w.reconciled(provider.reconcile(&input)),
            WikifyStep::Commit { slug, ops, base } => {
                assert_eq!(base, version(&pages, &slug));
                let mut outcome = CommitStatus::Committed;
                for (target, group) in route_ops(&slug, ops) {
                    let claims = claims_to_check(&group);
                    let spans: Vec<Result<String, String>> = claims
                        .iter()
                        .map(|c| vault.read_raw_utf16_span(&n.content, c.char_start, c.char_end))
                        .collect();
                    let now = version(&pages, &target);
                    let was = if target == slug { base.clone() } else { now.clone() };
                    match writer_checks(&was, &now, &claims, &spans) {
                        Ok(None) => {
                            let current = pages.iter().find(|p| p.0 == target).map(|p| p.1.clone());
                            upsert(&mut pages, commit_page(current, &target, group, "2026-01-01"));
                        }
                        Ok(Some(status)) => {
                            outcome = status;
                            break;
                        }
                        Err(e) => panic!("{e}"),
                    }
                }
                w.committed(outcome)
            }
            WikifyStep::Log(line) => {
                logs.push(line);
                w.logged()
            }
            WikifyStep::Finish { touched, report, message } => {
                assert_eq!(message, "wikify: Sea98fb8596");
                for slug in &touched {
                    let current = pages.iter().find(|p| &p.0 == slug).map(|p| p.1.clone()).unwrap();
                    let ops = cross_link_ops(&touched, slug, &current);
                    if !ops.is_empty() {
                        upsert(&mut pages, commit_page(Some(current), slug, ops, "2026-01-01"));
                    }
                }
                break report;
            }
        };
    };
    assert_eq!(w.phase(), Phase::Done);
    assert!(!report.entities.is_empty());
    assert_eq!(report.source_id, "Sea98fb8596");
    assert!(report.entities.iter().all(|e| e.result == "committed"));
    assert_eq!(logs.len(), report.entities.len());
    assert!(logs[0].starts_with("[wikify] Sea98fb8596 → [["));
    assert!(!core.search("Tesla", 10, &pages).is_empty());
    assert!(core.lint(&pages, 1).facts > 0);
    let tesla = &pages.iter().find(|p| p.0 == "tesla").unwrap().1;
    assert_eq!(tesla.facts[0].text, "Tesla was founded in 2003.");
    assert_eq!(tesla.facts[0].prov, Provenance { source_id: "Sea98fb8596".into(), start: 0, end: 26 });
    assert_eq!(tesla.sources, vec!["Sea98fb8596".to_string()]);
}

#[test]
fn wikify_commits_against_the_hash_read_with_the_page() {
    let extracted = mneme::domain::ExtractResult {
        entities: vec![Entity { name: "Tesla".into(), kind: "org".into(), aliases: vec!["TSLA".into()] }],
        claims: vec![ExtractClaim { entity_name: "Tesla".into(), text: "t".into(), span: "Tesla was founded in 2003.".into() }],
    };
    let (mut w, step) = Wikify::start("S1", TESLA, extracted);
    assert!(matches!(step, WikifyStep::Locate { .. }));
    let step = w.located(None);
    let claims = match step {
        WikifyStep::Prepare { slug, claims } => {
            assert_eq!(slug, "tesla");
            claims
        }
        _ => panic!("expected prepare"),
    };
    let step = w.prepared(None, "h0".to_string(), vec![]);
    let input = match step {
        WikifyStep::Reconcile(input) => input,
        _ => panic!("expected reconcile"),
    };
    assert!(!input.exists);
    let ops = vec![PatchOp::AppendFact { fact: "t".into(), claim: claims[0].clone() }];
    match w.reconciled(ops.clone()) {
        WikifyStep::Commit { slug, base, ops } => {
            assert_eq!(slug, "tesla");
            assert_eq!(base, "h0");
            assert_eq!(ops.len(), 1);
        }
        _ => panic!("expected commit"),
    }
    assert!(matches!(w.committed(CommitStatus::Stale), WikifyStep::Prepare { .. }));
    w.prepared(Some(new_page("tesla", "d")), "h1".to_string(), vec![]);
    match w.reconciled(ops) {
        WikifyStep::Commit { base, .. } => assert_eq!(base, "h1"),
        _ => panic!("expected commit"),
    }
    match w.committed(CommitStatus::Committed) {
        WikifyStep::Log(line) => assert_eq!(line, "[wikify] S1 → [[tesla]] (1 ops, committed)"),
        _ => panic!("expected log"),
    }
}

#[test]
fn routed_commits_stop_at_the_first_failure() {
    assert_eq!(first_group(0), RoutedStep::Finish(CommitStatus::Committed));
    assert_eq!(first_group(3), RoutedStep::Group(0));
    assert_eq!(after_group(0, 3, CommitStatus::Committed), RoutedStep::Group(1));
    assert_eq!(after_group(2, 3, CommitStatus::Committed), RoutedStep::Finish(CommitStatus::Committed));
    assert_eq!(after_group(0, 3, CommitStatus::Stale), RoutedStep::Finish(CommitStatus::Stale));
    assert_eq!(
        after_group(1, 3, CommitStatus::Invalid("c1".into())),
        RoutedStep::Finish(CommitStatus::Invalid("c1".into()))
    );
}
