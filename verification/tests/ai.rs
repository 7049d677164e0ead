use uad::ai::{
    accept_enrichment, add_lookups, batch_chunks, chat_reply, enrich_prompt, insert_lookup,
    nonempty_reply, successful_lookups, trim, AiInfo, ENRICH_PROMPT_HEAD, ENRICH_PROMPT_TAIL,
};

fn info(name: &str, desc: &str) -> AiInfo {
    AiInfo {
        friendly_name: name.to_string(),
        description: desc.to_string(),
        safe_to_remove: "safe".to_string(),
    }
}

#[test]
fn empty_answer_is_rejected() {
    assert!(info("", "").is_empty());
    assert!(!info("Netflix", "").is_empty());
    assert!(!info("", "Streams video").is_empty());
    assert_eq!(accept_enrichment(info("", "")), None);
    assert_eq!(
        accept_enrichment(info("Netflix", "Streams video")),
        Some(info("Netflix", "Streams video"))
    );
}

#[test]
fn prompt_embeds_the_package_id() {
    let p = enrich_prompt("com.netflix.mediaclient");
    assert_eq!(
        p,
        format!("{ENRICH_PROMPT_HEAD}com.netflix.mediaclient{ENRICH_PROMPT_TAIL}")
    );
    assert!(p.starts_with("Android package id: `com.netflix.mediaclient`. Respond with ONLY"));
    assert!(p.ends_with("a core framework/service is \"unsafe\"."));
}

#[test]
fn chat_reply_is_trimmed_and_non_empty() {
    assert_eq!(chat_reply("  hello there \n"), Some("hello there".to_string()));
    assert_eq!(chat_reply(" \t\n "), None);
    assert_eq!(chat_reply(""), None);
}

#[test]
fn only_successful_lookups_are_kept() {
    let results = vec![
        ("a".to_string(), Some(info("A", "x"))),
        ("b".to_string(), None),
        ("c".to_string(), Some(info("C", "y"))),
    ];
    let kept = successful_lookups(results);
    assert_eq!(
        kept,
        vec![
            ("a".to_string(), info("A", "x")),
            ("c".to_string(), info("C", "y"))
        ]
    );
    assert!(successful_lookups(Vec::new()).is_empty());
}

#[test]
fn chunks_cover_ids_at_most_concurrency_at_a_time() {
    assert_eq!(batch_chunks(5, 2), vec![(0, 2), (2, 4), (4, 5)]);
    assert_eq!(batch_chunks(4, 2), vec![(0, 2), (2, 4)]);
    assert_eq!(batch_chunks(3, 0), vec![(0, 1), (1, 2), (2, 3)]);
    assert_eq!(batch_chunks(0, 8), vec![]);
    assert_eq!(batch_chunks(3, 10), vec![(0, 3)]);
}

#[test]
fn trim_removes_unicode_white_space_like_std() {
    for s in [
        "",
        "  ",
        " a ",
        "\u{3000}hi\u{85}",
        "\u{a0}\u{2028}x y\u{202f}\t\n",
        "\u{200b}zero width stays\u{200b}",
        "mid  space",
    ] {
        assert_eq!(trim(s), s.trim());
    }
    assert_eq!(chat_reply("\u{3000}hi\u{85}"), Some("hi".to_string()));
    assert_eq!(nonempty_reply(String::new()), None);
    assert_eq!(nonempty_reply("x".to_string()), Some("x".to_string()));
}

#[test]
fn later_lookup_of_same_package_wins() {
    let mut entries = Vec::new();
    insert_lookup(&mut entries, "a".to_string(), info("A1", "x"));
    insert_lookup(&mut entries, "b".to_string(), info("B", "y"));
    insert_lookup(&mut entries, "a".to_string(), info("A2", "z"));
    assert_eq!(
        entries,
        vec![
            ("a".to_string(), info("A2", "z")),
            ("b".to_string(), info("B", "y"))
        ]
    );
    add_lookups(
        &mut entries,
        vec![
            ("c".to_string(), Some(info("C", "w"))),
            ("b".to_string(), None),
            ("a".to_string(), Some(info("A3", "v"))),
        ],
    );
    assert_eq!(
        entries,
        vec![
            ("a".to_string(), info("A3", "v")),
            ("b".to_string(), info("B", "y")),
            ("c".to_string(), info("C", "w"))
        ]
    );
}
