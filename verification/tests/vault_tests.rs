use mneme::domain::{
    Contradiction, EntityPage, FactEntry, HistoryEntry, LinkEntry, Provenance, SourceMeta,
};
use mneme::entity_md::{parse_entity, parse_footnote_exec, serialize_entity, split_entity, EntityFrontmatter};
use mneme::vault::{gitignore_rules, safe_component, Snapshot, Vault};

fn yaml_of(p: &EntityPage) -> String {
    let mut m = serde_yaml::Mapping::new();
    let s = |x: &str| serde_yaml::Value::String(x.to_string());
    m.insert(s("slug"), s(&p.slug));
    m.insert(s("title"), s(&p.title));
    m.insert(s("kind"), s(&p.kind));
    m.insert(s("aliases"), serde_yaml::Value::Sequence(p.aliases.iter().map(|a| s(a)).collect()));
    m.insert(s("sources"), serde_yaml::Value::Sequence(p.sources.iter().map(|a| s(a)).collect()));
    m.insert(s("updated"), s(&p.updated));
    serde_yaml::to_string(&serde_yaml::Value::Mapping(m)).unwrap()
}

fn frontmatter_of(yaml: &str) -> EntityFrontmatter {
    let v: serde_yaml::Value = serde_yaml::from_str(yaml).unwrap();
    let text = |k: &str| v.get(k).and_then(|x| x.as_str()).unwrap_or("").to_string();
    let list = |k: &str| {
        v.get(k)
            .and_then(|x| x.as_sequence())
            .map(|xs| xs.iter().filter_map(|x| x.as_str().map(|s| s.to_string())).collect())
            .unwrap_or_default()
    };
    EntityFrontmatter {
        slug: text("slug"),
        title: text("title"),
        kind: text("kind"),
        aliases: list("aliases"),
        sources: list("sources"),
        updated: text("updated"),
    }
}

fn read_back(slug: &str, body: &str) -> EntityPage {
    let (yaml, content) = split_entity(body).unwrap();
    parse_entity(slug, frontmatter_of(&yaml), &content)
}

fn meta(id: &str, hash: &str, fetched_at: &str) -> SourceMeta {
    SourceMeta {
        id: id.into(),
        kind: "text".into(),
        title: "x".into(),
        author: None,
        url: None,
        fetched_at: fetched_at.into(),
        content_hash: hash.into(),
        word_count: 1,
        doi: None,
        authors: None,
        published: None,
        summarized: None,
    }
}

#[test]
fn entity_round_trip_preserves_provenance() {
    let page = EntityPage {
        slug: "测试".into(),
        title: "测试".into(),
        kind: "concept".into(),
        aliases: vec!["Test".into()],
        sources: vec!["S1".into()],
        updated: "2026-01-01".into(),
        summary: "摘要".into(),
        facts: vec![FactEntry {
            id: "f1".into(),
            text: "事实".into(),
            prov: Provenance { source_id: "S1".into(), start: 1, end: 3 },
        }],
        history: vec![],
        contradictions: vec![],
        links: vec![],
    };
    let body = serialize_entity(&page, &yaml_of(&page));
    let parsed = read_back("测试", &body);
    assert_eq!(parsed.facts[0].prov.start, 1);
    assert_eq!(parsed.title, "测试");
}

#[test]
fn full_page_round_trip() {
    let page = EntityPage {
        slug: "tesla".into(),
        title: "Tesla".into(),
        kind: "org".into(),
        aliases: vec!["Tesla Motors".into()],
        sources: vec!["S1".into(), "S2".into()],
        updated: "2026-02-02".into(),
        summary: "An electric car maker.".into(),
        facts: vec![
            FactEntry {
                id: "fa".into(),
                text: "Tesla was founded in 2003.".into(),
                prov: Provenance { source_id: "S1".into(), start: 0, end: 26 },
            },
            FactEntry {
                id: "fb".into(),
                text: "It makes cars (mostly).".into(),
                prov: Provenance { source_id: "S2".into(), start: 40, end: 63 },
            },
        ],
        history: vec![HistoryEntry {
            id: "fz".into(),
            text: "Tesla had one model.".into(),
            prov: Provenance { source_id: "S1".into(), start: 5, end: 9 },
            superseded_at: "2026-01-15".into(),
        }],
        contradictions: vec![Contradiction { note: "\"a\" ↔ \"b\" (src:S2). 待人工裁决。".into() }],
        links: vec![
            LinkEntry { target_slug: "elon-musk".into(), relation: Some("founded by".into()) },
            LinkEntry { target_slug: "spacex".into(), relation: None },
        ],
    };
    let body = serialize_entity(&page, &yaml_of(&page));
    assert!(body.starts_with("---\n"));
    assert!(body.contains("- Tesla was founded in 2003. [^p_fa] <!--fact:fa-->\n"));
    assert!(body.contains("- (superseded 2026-01-15) Tesla had one model. [^p_fz] <!--fact:fz-->\n"));
    assert!(body.contains("[[elon-musk]] (founded by) · [[spacex]]\n"));
    assert!(body.contains("[[S1]] · [[S2]]\n"));
    assert!(body.ends_with("[^p_fa]: src:S1@0-26\n[^p_fb]: src:S2@40-63\n[^p_fz]: src:S1@5-9\n"));
    let parsed = read_back("tesla", &body);
    assert_eq!(parsed, page);
}

#[test]
fn empty_page_writes_placeholders() {
    let page = EntityPage {
        slug: "x".into(),
        title: "X".into(),
        kind: "concept".into(),
        aliases: vec![],
        sources: vec![],
        updated: "d".into(),
        summary: String::new(),
        facts: vec![],
        history: vec![],
        contradictions: vec![],
        links: vec![],
    };
    let body = serialize_entity(&page, "slug: x\n");
    assert_eq!(
        body,
        "---\nslug: x\n---\n\n## Summary\n(pending)\n\n## Facts\n(none)\n\n## Sources\n\n\n\n"
    );
    let parsed = read_back("x", &body);
    assert_eq!(parsed.summary, "");
    assert!(parsed.facts.is_empty());
}

#[test]
fn missing_footnote_gives_unknown_provenance() {
    let content = "\n## Facts\n- A fact [^p_q] <!--fact:q-->\n";
    let fm = EntityFrontmatter {
        slug: "s".into(),
        title: "S".into(),
        kind: "concept".into(),
        aliases: vec![],
        sources: vec![],
        updated: "d".into(),
    };
    let p = parse_entity("s", fm, content);
    assert_eq!(p.facts.len(), 1);
    assert_eq!(p.facts[0].prov.source_id, "?");
    assert_eq!(p.facts[0].prov.start, 0);
}

#[test]
fn frontmatter_is_required() {
    assert_eq!(split_entity("no frontmatter").unwrap_err(), "invalid entity frontmatter");
    assert_eq!(split_entity("---\nslug: x\n").unwrap_err(), "invalid entity frontmatter");
    let (y, c) = split_entity("---\na: 1\n---\nbody").unwrap();
    assert_eq!(y, "a: 1");
    assert_eq!(c, "body");
}

#[test]
fn utf16_provenance_handles_emoji() {
    let v = Vault::new("/tmp/v".into());
    assert_eq!(v.read_raw_utf16_span("a😀中", 1, 3).unwrap(), "😀");
}

#[test]
fn utf16_span_errors() {
    let v = Vault::new("/tmp/v".into());
    assert_eq!(v.read_raw_utf16_span("abc", 2, 1).unwrap_err(), "provenance range out of bounds");
    assert_eq!(v.read_raw_utf16_span("abc", 0, 4).unwrap_err(), "provenance range out of bounds");
    assert_eq!(
        v.read_raw_utf16_span("a😀", 1, 2).unwrap_err(),
        "invalid utf-16: lone surrogate found"
    );
}

#[test]
fn path_components_are_checked() {
    assert!(safe_component("S1").is_ok());
    for bad in ["", ".", "..", "a/b", "a\\b"] {
        assert_eq!(safe_component(bad).unwrap_err(), "invalid path component");
    }
    let v = Vault::new("/data/vault".into());
    assert_eq!(v.read_raw("S1").unwrap(), "/data/vault/raw/S1/content.md");
    assert_eq!(v.read_entity("tesla").unwrap(), "/data/vault/wiki/entities/tesla.md");
    assert_eq!(v.write_note("S1").unwrap(), "/data/vault/wiki/notes/S1.md");
    assert_eq!(v.read_raw("../x").unwrap_err(), "invalid path component");
}

#[test]
fn write_entity_returns_path_body_and_hash() {
    let v = Vault::new("/v".into());
    let page = EntityPage {
        slug: "a".into(),
        title: "A".into(),
        kind: "concept".into(),
        aliases: vec![],
        sources: vec![],
        updated: "d".into(),
        summary: String::new(),
        facts: vec![],
        history: vec![],
        contradictions: vec![],
        links: vec![],
    };
    let (path, body, bytes, hash) = v.write_entity(&page, "slug: a\n").unwrap();
    assert_eq!(bytes, body.as_bytes().to_vec());
    assert_eq!(v.entity_hash(Some(&bytes)), hash);
    assert_eq!(path, "/v/wiki/entities/a.md");
    assert_eq!(hash, mneme::hash::hash_bytes(body.as_bytes()));
    let mut bad = page.clone();
    bad.slug = "a/b".into();
    assert_eq!(v.write_entity(&bad, "").unwrap_err(), "invalid path component");
}

#[test]
fn initialization_preserves_custom_gitignore_rules() {
    let ignore = gitignore_rules("private-notes/\n");
    assert!(ignore.contains("private-notes/"));
    assert!(ignore.contains("config.json"));
    assert_eq!(ignore, "private-notes/\nconfig.json\n.index/\n");
    assert_eq!(gitignore_rules(""), "config.json\n.index/\n");
    assert_eq!(gitignore_rules("x\n  config.json  \n.index/"), "x\n  config.json  \n.index/");
    assert_eq!(gitignore_rules("x"), "x\nconfig.json\n.index/\n");
    assert_eq!(gitignore_rules("config.json\r"), "config.json\r\n.index/\n");
    let once = gitignore_rules("x");
    assert_eq!(gitignore_rules(&once), once);
}

#[test]
fn incomplete_source_snapshot_is_rejected() {
    let vault = Vault::new("/v".into());
    let m = meta("Sbroken", &mneme::hash::hash_bytes(b"partial"), "x");
    assert!(vault.write_raw(&m, "partial", &Snapshot::Incomplete).unwrap_err().contains("incomplete"));
    assert_eq!(vault.write_raw(&m, "partial", &Snapshot::Absent), Ok(true));
    let same = Snapshot::Present { content: "partial".into(), content_hash: m.content_hash.clone() };
    assert_eq!(vault.write_raw(&m, "partial", &same), Ok(false));
    let other = Snapshot::Present { content: "other".into(), content_hash: m.content_hash.clone() };
    assert_eq!(vault.write_raw(&m, "partial", &other).unwrap_err(), "immutable source id collision");
}

#[test]
fn listings_are_ordered() {
    let v = Vault::new("/v".into());
    assert_eq!(v.source_ids(vec!["S2".into(), "S1".into()]), vec!["S1".to_string(), "S2".to_string()]);
    assert_eq!(
        v.entity_slugs(vec!["b.md".into(), "a.md".into(), "notes.txt".into()]),
        vec!["a".to_string(), "b".to_string()]
    );
    let listed = v.list_sources(vec![
        (meta("S1", "h", "2026-01-01"), false),
        (meta("S2", "h", "2026-03-01"), true),
    ]);
    assert_eq!(listed[0].id, "S2");
    assert_eq!(listed[0].summarized, Some(true));
    assert_eq!(listed[1].summarized, Some(false));
}

#[test]
fn vault_paths_and_log_lines() {
    let v = Vault::new("/v".to_string());
    assert_eq!(v.read_meta("S1"), Ok("/v/raw/S1/meta.json".to_string()));
    assert_eq!(v.read_meta("../x"), Err("invalid path component".to_string()));
    assert_eq!(v.read_note("S1"), Ok("/v/wiki/notes/S1.md".to_string()));
    assert_eq!(v.read_note(""), Err("invalid path component".to_string()));
    assert_eq!(v.config_path(), "/v/config.json");
    assert_eq!(v.entity_hash(None), "");
    assert_eq!(
        v.entity_hash(Some(b"abc")),
        "ba7816bf8f01cfea414140de5dae2223b00361a396177a9cb410ff61f20015ad"
    );
    assert_eq!(v.append_log("[lint] 1 entities \n\t"), ("/v/log.md".to_string(), "[lint] 1 entities\n".to_string()));
    assert_eq!(v.append_log(""), ("/v/log.md".to_string(), "\n".to_string()));
}

#[test]
fn footnote_numbers_follow_the_digit_class() {
    use_footnote("[^p_f1]: src:S1@١٢-٣", Some(("f1", "S1", 0, 0)));
    use_footnote("[^p_f1]: src: S1 @12-34", Some(("f1", "S1", 12, 34)));
    use_footnote("[^p_f1]: src:S1@99999999999999999999999-3", Some(("f1", "S1", 0, 3)));
    use_footnote("[^p_f1]: src:S1@1x-3", None);
}

fn use_footnote(line: &str, expected: Option<(&str, &str, usize, usize)>) {
    let chars: Vec<char> = line.chars().collect();
    let got = parse_footnote_exec(&chars).map(|(id, p)| (id.into_iter().collect::<String>(), p.source_id, p.start, p.end));
    assert_eq!(got, expected.map(|(a, b, c, d)| (a.to_string(), b.to_string(), c, d)));
}
