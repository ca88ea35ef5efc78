use lean_ctx::relevance::{
    extract_keywords, extract_query_terms, rank_keywords, select_within_budget, sort_terms,
    truncate_to_budget, KeywordIndex, MAX_ENTRIES,
};

#[test]
fn keyword_extraction_basic() {
    let content = "The proxy forward function handles HTTP requests with authentication tokens";
    let keywords = extract_keywords(content);
    assert!(keywords.contains(&"proxy".to_string()));
    assert!(keywords.contains(&"forward".to_string()));
    assert!(keywords.contains(&"function".to_string()));
    assert!(!keywords.contains(&"the".to_string())); // stopword
}

#[test]
fn keywords_rank_by_frequency_then_name() {
    let kws = extract_keywords("beta alpha beta gamma-ray alpha beta xy The the");
    assert_eq!(kws, vec!["beta", "alpha", "gamma-ray"]);
}

#[test]
fn keywords_keep_at_most_twenty() {
    let words: Vec<String> = (0..30).map(|i| format!("word{:02}", i)).collect();
    let kws = extract_keywords(&words.join(" "));
    assert_eq!(kws.len(), 20);
    assert_eq!(kws[0], "word00");
    assert_eq!(kws[19], "word19");
}

#[test]
fn query_terms_sorted_and_deduplicated() {
    let terms = extract_query_terms("How does the Proxy forward requests? proxy, PROXY!");
    assert_eq!(terms, vec!["does", "forward", "proxy", "requests"]);
}

#[test]
fn evicts_old_entries() {
    let mut index = KeywordIndex::new();
    for i in 0..150 {
        index.register(
            format!("entry_{}.log", i),
            &format!("content for entry number {}", i),
            "ctx_shell",
            100,
            10,
        );
    }
    assert!(index.entries.len() <= MAX_ENTRIES);
    assert_eq!(index.entries.len(), 100);
    assert_eq!(index.entries[0].handle, "entry_50.log");
    assert_eq!(index.entries[99].handle, "entry_149.log");
    assert_eq!(index.entries[99].seq_tick, 150);
}

#[test]
fn respects_token_budget() {
    let picked = select_within_budget(&[500; 10], 100);
    assert_eq!(picked, vec![100]);
    let total: usize = picked.iter().sum();
    assert!(total <= 100, "Should respect budget of 100 tokens");
    assert_eq!(select_within_budget(&[30, 50, 40, 10], 100), vec![30, 50, 20]);
    assert_eq!(select_within_budget(&[0, 50], 100), Vec::<usize>::new());
    assert_eq!(select_within_budget(&[60, 40, 5], 100), vec![60, 40]);
}

#[test]
fn truncation_respects_char_boundaries() {
    assert_eq!(truncate_to_budget("short", 2), "short");
    assert_eq!(truncate_to_budget("abcdefghij", 2), "abcdefgh…");
    // 'ä' takes two bytes: only three of them fit in 8 bytes with "ab".
    assert_eq!(truncate_to_budget("abääää", 2), "abäää…");
    assert_eq!(truncate_to_budget("abc", 0), "…");
}

fn strings(v: &[&str]) -> Vec<String> {
    v.iter().map(|s| s.to_string()).collect()
}

#[test]
fn ranking_of_given_words() {
    let words = strings(&["beta", "alpha", "beta", "gamma", "alpha", "beta", "delta"]);
    assert_eq!(rank_keywords(&words), strings(&["beta", "alpha", "delta", "gamma"]));
    let many: Vec<String> = (0..25).map(|i| format!("w{i:02}")).collect();
    let ranked = rank_keywords(&many);
    assert_eq!(ranked.len(), 20);
    assert_eq!(ranked[0], "w00");
    assert_eq!(ranked[19], "w19");
    assert!(rank_keywords(&[]).is_empty());
}

#[test]
fn sorting_of_given_words() {
    let words = strings(&["proxy", "does", "proxy", "forward", "Zeta"]);
    assert_eq!(sort_terms(&words), strings(&["Zeta", "does", "forward", "proxy"]));
    assert!(sort_terms(&[]).is_empty());
}
