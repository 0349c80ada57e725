use mneme::chat::{chat_outcome, chat_request};
use mneme::ai::{cue, jaccard, numbers_differ, proper_nouns, sentences};
use mneme::domain::{CandidateEntity, Claim, Entity, PatchOp, ReconcileInput, RelatedFact};
use mneme::mock::MockProvider;
use mneme::wire::{
    answer_prompt, extract_prompt, map_wire_ops, note_prompt, reconcile_prompt, strip_fences, WireOp,
};

const TESLA: &str = "Tesla was founded in 2003. Elon Musk became CEO in 2008.";

fn claim(id: &str, text: &str) -> Claim {
    Claim {
        id: id.into(),
        text: text.into(),
        span: text.into(),
        source_id: "S1".into(),
        char_start: 0,
        char_end: text.encode_utf16().count(),
    }
}

fn input(exists: bool, facts: Vec<(&str, &str)>, claims: Vec<Claim>) -> ReconcileInput {
    ReconcileInput {
        slug: "tesla".into(),
        title: "Tesla".into(),
        kind: "org".into(),
        exists,
        current_facts: facts.into_iter().map(|(a, b)| (a.to_string(), b.to_string())).collect(),
        new_claims: claims,
        related_facts: vec![],
    }
}

fn wire(op: &str, claim_id: Option<&str>, fact_id: Option<&str>) -> WireOp {
    WireOp {
        op: op.into(),
        summary: None,
        fact_id: fact_id.map(|s| s.to_string()),
        new_fact: None,
        claim_id: claim_id.map(|s| s.to_string()),
        note: None,
        page: None,
    }
}

#[test]
fn sentences_split_on_terminators() {
    assert_eq!(sentences(TESLA), vec!["Tesla was founded in 2003.", "Elon Musk became CEO in 2008."]);
    assert_eq!(sentences("Hi!! Yes? trailing text"), vec!["Hi!!", "Yes?"]);
    assert_eq!(sentences("你好。再见！"), vec!["你好。", "再见！"]);
    assert!(sentences("no end").is_empty());
    assert!(sentences(" . ").len() == 1);
}

#[test]
fn jaccard_counts_distinct_tokens() {
    assert_eq!(jaccard("a b c", "B, C; d"), (2, 4));
    assert_eq!(jaccard("a a a", "a"), (1, 1));
    assert_eq!(jaccard("", "x"), (0, 1));
    assert_eq!(jaccard("!!", "x"), (0, 1));
}

#[test]
fn cue_words_ignore_case() {
    assert!(cue("He ACTUALLY left", &["actually", "however"]));
    assert!(!cue("He stayed", &["actually", "however"]));
}

#[test]
fn years_must_all_differ() {
    assert!(numbers_differ("in 2003", "in 2004"));
    assert!(!numbers_differ("in 2003", "2003 and 2010"));
    assert!(!numbers_differ("no year", "in 2004"));
    assert!(!numbers_differ("a12003", "2004"));
    assert!(numbers_differ("(1999)", "2004x_1 2005"));
}

#[test]
fn names_are_ranked_by_count() {
    let ranked = proper_nouns(TESLA);
    let names: Vec<(String, String, usize)> = ranked;
    assert_eq!(
        names,
        vec![
            ("Tesla".to_string(), "concept".to_string(), 1),
            ("Elon Musk".to_string(), "person".to_string(), 1),
            ("CEO".to_string(), "concept".to_string(), 1),
        ]
    );
    let ranked = proper_nouns("The Acme Labs grew. Acme Labs won. He left. The end.");
    assert_eq!(ranked[0], ("The Acme Labs".to_string(), "org".to_string(), 1));
    let ranked = proper_nouns("Bob met Ann today, and Ann met Bob, then Ann left.");
    assert_eq!(ranked[0], ("Ann".to_string(), "concept".to_string(), 3));
    assert_eq!(ranked[1], ("Bob".to_string(), "concept".to_string(), 2));
    let ranked = proper_nouns("Bob met Ann. Ann left.");
    assert_eq!(ranked[1], ("Ann. Ann".to_string(), "person".to_string(), 1));
}

#[test]
fn names_drop_trailing_dots_and_stop_words() {
    let ranked = proper_nouns("It is U.S. policy. A. Smith agreed.");
    let names: Vec<String> = ranked.into_iter().map(|x| x.0).collect();
    assert!(names.contains(&"U.S".to_string()));
    assert!(!names.contains(&"It".to_string()));
}

#[test]
fn mock_note_summarises() {
    let note = MockProvider.note("Tesla timeline", TESLA);
    assert_eq!(note.tldr, "Tesla was founded in 2003.");
    assert_eq!(note.key_points.len(), 2);
    assert_eq!(note.candidate_entities.len(), 3);
    assert_eq!(note.candidate_entities[1].name, "Elon Musk");
    assert_eq!(note.candidate_entities[1].why, "mentioned in source");
    assert_eq!(note.tags, vec!["tesla", "elon musk", "ceo"]);
    let plain = MockProvider.note("t", "no sentence here");
    assert_eq!(plain.tldr, "no sentence here");
    assert!(plain.key_points.is_empty());
}

#[test]
fn mock_extract_finds_claims() {
    let r = MockProvider.extract(TESLA, &vec![]);
    assert_eq!(r.entities.len(), 3);
    assert_eq!(r.claims.len(), 2);
    assert_eq!(r.claims[0].entity_name, "Tesla");
    assert_eq!(r.claims[0].span, "Tesla was founded in 2003.");
    assert_eq!(r.claims[1].entity_name, "Elon Musk");
    let cands = vec![CandidateEntity { name: "SpaceX".into(), kind: "org".into(), why: "x".into() }];
    let r = MockProvider.extract(TESLA, &cands);
    assert_eq!(r.entities, vec![Entity { name: "SpaceX".into(), kind: "org".into(), aliases: vec![] }]);
}

#[test]
fn mock_reconcile_creates_and_appends() {
    let c = claim("c1", "Tesla was founded in 2003.");
    let ops = MockProvider.reconcile(&input(false, vec![], vec![c.clone()]));
    assert_eq!(
        ops,
        vec![
            PatchOp::CreatePage {
                entity: Entity { name: "Tesla".into(), kind: "org".into(), aliases: vec![] },
                summary: "Tesla was founded in 2003.".into(),
            },
            PatchOp::AppendFact { fact: c.text.clone(), claim: c },
        ]
    );
}

#[test]
fn mock_reconcile_decides_per_claim() {
    let fact = ("f1", "Tesla was founded in 2003.");
    let contra = claim("c2", "Tesla was actually founded in 2004.");
    match &MockProvider.reconcile(&input(true, vec![fact], vec![contra]))[0] {
        PatchOp::FlagContradiction { fact_id, note, .. } => {
            assert_eq!(fact_id, "f1");
            assert_eq!(note, "Tesla was actually founded in 2004.");
        }
        other => panic!("unexpected {other:?}"),
    }
    let status = claim("c3", "Elon Musk stepped down as CEO.");
    match &MockProvider.reconcile(&input(true, vec![("f2", "Elon Musk is the CEO.")], vec![status]))[0] {
        PatchOp::SupersedeFact { fact_id, .. } => assert_eq!(fact_id, "f2"),
        other => panic!("unexpected {other:?}"),
    }
    let longer = claim("c4", "Tesla was founded in 2003 in California by engineers.");
    match &MockProvider.reconcile(&input(true, vec![fact], vec![longer]))[0] {
        PatchOp::UpdateFact { fact_id, new_fact, .. } => {
            assert_eq!(fact_id, "f1");
            assert_eq!(new_fact, "Tesla was founded in 2003 in California by engineers.");
        }
        other => panic!("unexpected {other:?}"),
    }
    let same = claim("c5", "Tesla was founded in 2003.");
    assert!(MockProvider.reconcile(&input(true, vec![fact], vec![same])).is_empty());
    let other = claim("c6", "Paris is big.");
    match &MockProvider.reconcile(&input(true, vec![fact], vec![other]))[0] {
        PatchOp::AppendFact { fact, .. } => assert_eq!(fact, "Paris is big."),
        other => panic!("unexpected {other:?}"),
    }
}

#[test]
fn mock_reconcile_picks_last_best_fact() {
    let facts = vec![("f1", "alpha beta"), ("f2", "alpha beta")];
    let c = claim("c", "alpha beta gamma delta epsilon zeta.");
    match &MockProvider.reconcile(&input(true, facts, vec![c]))[0] {
        PatchOp::UpdateFact { fact_id, .. } => assert_eq!(fact_id, "f2"),
        other => panic!("unexpected {other:?}"),
    }
}

#[test]
fn mock_answer_quotes_best_lines() {
    let ctx = "[[tesla]] Tesla\nshort\n- Tesla was founded in 2003. (src:S1@0-26)";
    assert_eq!(
        MockProvider.answer("When was Tesla founded?", ctx),
        "(mock) Based on your wiki:\n- - Tesla was founded in 2003. (src:S1@0-26)\n- [[tesla]] Tesla"
    );
    assert_eq!(MockProvider.answer("q", ""), "(mock) Based on your wiki:\n");
}

#[test]
fn wire_ops_map_to_page_changes() {
    let inp = input(false, vec![], vec![claim("c1", "Tesla was founded in 2003.")]);
    let mut create = wire("create_page", None, None);
    create.summary = None;
    let mut update = wire("update_fact", Some("c1"), Some("f9"));
    update.page = Some("elon-musk".into());
    let ops = map_wire_ops(
        vec![create, wire("append_fact", Some("c1"), None), wire("delete_page", None, None), update],
        &inp,
    )
    .unwrap();
    assert_eq!(ops.len(), 3);
    match &ops[0] {
        PatchOp::CreatePage { entity, summary } => {
            assert_eq!(entity.name, "Tesla");
            assert_eq!(summary, "Tesla");
        }
        other => panic!("unexpected {other:?}"),
    }
    match &ops[2] {
        PatchOp::UpdateFact { fact_id, new_fact, target_slug, .. } => {
            assert_eq!(fact_id, "f9");
            assert_eq!(new_fact, "Tesla was founded in 2003.");
            assert_eq!(target_slug.as_deref(), Some("elon-musk"));
        }
        other => panic!("unexpected {other:?}"),
    }
}

#[test]
fn wire_ops_errors() {
    let inp = input(true, vec![], vec![claim("c1", "x")]);
    assert_eq!(map_wire_ops(vec![wire("append_fact", Some("zz"), None)], &inp).unwrap_err(), "unknown claim id");
    assert_eq!(map_wire_ops(vec![wire("append_fact", None, None)], &inp).unwrap_err(), "unknown claim id");
    assert_eq!(map_wire_ops(vec![wire("supersede_fact", Some("c1"), None)], &inp).unwrap_err(), "missing fact_id");
    assert_eq!(
        map_wire_ops(vec![wire("flag_contradiction", Some("c1"), None), wire("append_fact", Some("zz"), None)], &inp)
            .unwrap_err(),
        "missing fact_id"
    );
}

#[test]
fn fences_are_stripped() {
    assert_eq!(strip_fences("```json\n{\"ops\":[]}\n```"), "{\"ops\":[]}");
    assert_eq!(strip_fences("  ```\n{}\n```  "), "{}");
    assert_eq!(strip_fences("{}"), "{}");
}

#[test]
fn prompts_are_laid_out() {
    let mut inp = input(false, vec![], vec![claim("c1", "T.")]);
    assert_eq!(
        reconcile_prompt(&inp),
        "ENTITY Tesla (org) slug=tesla exists=false\nCURRENT:\n(none)\nNEW:\n[c1] T.\nRELATED:\n"
    );
    inp.exists = true;
    inp.current_facts = vec![("f1".into(), "A".into()), ("f2".into(), "B".into())];
    inp.related_facts = vec![RelatedFact { slug: "x".into(), fact_id: "f3".into(), text: "C".into() }];
    assert_eq!(
        reconcile_prompt(&inp),
        "ENTITY Tesla (org) slug=tesla exists=true\nCURRENT:\n[f1] A\n[f2] B\nNEW:\n[c1] T.\nRELATED:\n[f3] page=x C"
    );
    assert_eq!(extract_prompt("body", &vec![]), "CANDIDATES: (none)\n\nARTICLE:\nbody");
    let cands = vec![
        CandidateEntity { name: "A".into(), kind: "org".into(), why: String::new() },
        CandidateEntity { name: "B".into(), kind: "person".into(), why: String::new() },
    ];
    assert_eq!(extract_prompt("x", &cands), "CANDIDATES: A (org), B (person)\n\nARTICLE:\nx");
    assert_eq!(note_prompt("T", "c"), "TITLE: T\n\nc");
    assert_eq!(answer_prompt("q", "c"), "QUESTION: q\n\nCONTEXT:\nc");
}

#[test]
fn chat_request_bodies() {
    assert_eq!(
        chat_request("gpt-4o", "sys", "hi", false),
        "{\"model\":\"gpt-4o\",\"temperature\":0,\"messages\":[{\"role\":\"system\",\"content\":\"sys\"},{\"role\":\"user\",\"content\":\"hi\"}]}"
    );
    let body = chat_request("m", "a \"q\" \\ b", "line\nnext\ttab\u{1}é", true);
    assert!(body.ends_with(",\"response_format\":{\"type\":\"json_object\"}}"));
    assert!(body.contains("\"content\":\"a \\\"q\\\" \\\\ b\""));
    assert!(body.contains("\"content\":\"line\\nnext\\ttab\\u0001é\""));
    let v: serde_json::Value = serde_json::from_str(&body).unwrap();
    assert_eq!(v["messages"][1]["content"], "line\nnext\ttab\u{1}é");
    assert_eq!(v["temperature"], 0);
    assert_eq!(v["response_format"]["type"], "json_object");
    let user = "\u{8}\u{c}\r\u{1f}";
    let body = chat_request("m", "s", user, false);
    assert!(body.contains(&serde_json::to_string(user).unwrap()));
}

#[test]
fn chat_replies() {
    let ok = "{\"choices\":[{\"message\":{\"content\":\"Hello\"}}]}";
    assert_eq!(chat_outcome("openai", true, "200 OK", ok), Ok("Hello".to_string()));
    assert_eq!(
        chat_outcome("openai", true, "200 OK", "{\"choices\":[]}"),
        Err("provider returned no content".to_string())
    );
    let bad = chat_outcome("openai", true, "200 OK", "not json").unwrap_err();
    assert!(bad.starts_with("invalid provider response: "), "{bad}");
    let long = "x".repeat(600);
    assert_eq!(
        chat_outcome("deepseek", false, "401 Unauthorized", &long),
        Err(format!("deepseek 401 Unauthorized: {}", "x".repeat(500)))
    );
    assert_eq!(chat_outcome("qwen", false, "500 Internal Server Error", "oops"), Err("qwen 500 Internal Server Error: oops".to_string()));
}

#[test]
fn years_use_unicode_digits_and_word_boundaries() {
    assert!(numbers_differ("founded in ２００３ .", "founded in 2004"));
    assert!(!numbers_differ("founded in ２００３ .", "founded in ２００３"));
    assert!(!numbers_differ("founded ２００３年", "founded 2004"));
    assert!(numbers_differ("½2003", "2004"));
    assert!(!numbers_differ("x2003", "2004"));
    assert!(!numbers_differ("a_2003", "2004"));
}

#[test]
fn name_boundaries_follow_regex_word_characters() {
    assert!(proper_nouns("e\u{301}Tesla").is_empty());
    assert_eq!(proper_nouns("x Tesla")[0].0, "Tesla");
    assert_eq!(proper_nouns("½Tesla")[0].0, "Tesla");
    assert!(proper_nouns("_Tesla").is_empty());
}
