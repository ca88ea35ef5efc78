use lean_ctx::sanitizer::{
    symbol_run_with, ascii_safe_symbols, has_degenerate_cjk_run, has_repeated_symbol, is_blank, is_cjk,
    is_symbol_flood, sanitize, trimmed,
};

#[test]
fn clean_passes_normal_english() {
    let input = "fn main() {\n    println!(\"hello\");\n}";
    assert_eq!(sanitize(input), input);
}

#[test]
fn clean_removes_degenerate_cjk_in_english() {
    let input = "Explored 22 files, 14 searches\n肛裂!!!!!!!!!!!!!!!!!!\nExploring >";
    let cleaned = sanitize(input);
    assert!(!cleaned.contains("肛裂"));
    assert!(cleaned.contains("Explored 22"));
    assert!(cleaned.contains("Exploring"));
}

#[test]
fn clean_preserves_genuine_cjk_content() {
    let input = "这是一个正常的中文文档，包含完整的句子结构。";
    assert_eq!(sanitize(input), input);
}

#[test]
fn clean_preserves_mixed_cjk_english_docs() {
    let input = "The function 関数 is documented in 文档 for reference.";
    // Only 2 CJK chars per run, should not be flagged
    assert_eq!(sanitize(input), input);
}

#[test]
fn clean_removes_symbol_flood() {
    let input = "normal line\n!!!!!!!!!!!!!!!!!!!!!!!\nanother line";
    let cleaned = sanitize(input);
    assert!(!cleaned.contains("!!!!!!!!!!!!"));
    assert!(cleaned.contains("normal line"));
    assert!(cleaned.contains("another line"));
}

#[test]
fn clean_preserves_normal_punctuation() {
    let input = "Error: something failed!!";
    assert_eq!(sanitize(input), input);
}

#[test]
fn ascii_safe_replaces_unicode_symbols() {
    let out = ascii_safe_symbols("fn → result ✓ or ✗");
    assert_eq!(out, "fn -> result ok or FAIL");
}

#[test]
fn ascii_safe_replaces_math_symbols() {
    let out = ascii_safe_symbols("A ≠ B, C ≈ D, x ∈ set, ∅");
    assert_eq!(out, "A != B, C ~= D, x in set, (none)");
}

#[test]
fn degenerate_cjk_mixed_with_exclamation() {
    assert!(has_degenerate_cjk_run("肛裂!!!!!!"));
    assert!(has_degenerate_cjk_run("result: 乱码输 garbled"));
}

#[test]
fn genuine_cjk_line_not_flagged() {
    assert!(!has_degenerate_cjk_run("这是完整的中文内容，不是乱码"));
}

#[test]
fn short_cjk_pair_not_flagged() {
    assert!(!has_degenerate_cjk_run("the 変数 variable"));
}

#[test]
fn output_sanitizer_empty_input() {
    assert_eq!(sanitize(""), "");
}

#[test]
fn symbol_flood_exact_threshold() {
    assert!(!is_symbol_flood("!!!!!!!!!")); // 9 — below threshold
    assert!(is_symbol_flood("!!!!!!!!!!")); // 10 — at threshold
}

#[test]
fn sanitize_joins_remaining_lines_with_newline() {
    // The flagged line goes; the rest is joined with "\n", and "\r\n"
    // endings of the remaining lines are normalized.
    let input = "first\r\n==========\nsecond\n";
    assert_eq!(sanitize(input), "first\nsecond");
}

#[test]
fn sanitize_keeps_text_without_flagged_line_byte_for_byte() {
    let input = "a\r\nb\n\n";
    assert_eq!(sanitize(input), input);
}

#[test]
fn flood_ignores_surrounding_whitespace_but_not_short_runs() {
    assert!(is_symbol_flood("   ----------   "));
    assert!(!is_symbol_flood("---------- x".replace('-', "ab").as_str()));
    assert!(!is_symbol_flood("          "));
}

#[test]
fn degenerate_requires_mostly_non_cjk_line() {
    // 3 of 5 characters are CJK: exactly 60%, still counted as degenerate.
    assert!(has_degenerate_cjk_run("乱码输ab"));
    // 3 of 4 characters: more than 60%, genuine.
    assert!(!has_degenerate_cjk_run("乱码输a"));
    // CJK with five repeated symbols.
    assert!(has_degenerate_cjk_run("abc 乱 #####"));
    assert!(!has_degenerate_cjk_run("abc 乱 ####"));
}

#[test]
fn ascii_safe_leaves_ascii_alone() {
    let s = "plain ASCII -> text, nothing to do!";
    assert_eq!(ascii_safe_symbols(s), s);
    assert_eq!(ascii_safe_symbols("Δ ⊕ ⊖ ← ∴ ⚠"), "delta + - <- :. WARN");
}

#[test]
fn repeated_symbol_runs() {
    assert!(has_repeated_symbol("a!!!!!b", 5));
    assert!(!has_repeated_symbol("a!!!!b", 5));
    assert!(!has_repeated_symbol("aaaaaa", 5));
    assert!(!has_repeated_symbol("a     b", 5));
    assert!(has_repeated_symbol("--", 0));
    assert!(!has_repeated_symbol("-", 1));
}

#[test]
fn cjk_ranges() {
    assert!(is_cjk('中'));
    assert!(is_cjk('、'));
    assert!(!is_cjk('あ'));
    assert!(is_cjk('한'));
    assert!(!is_cjk('a'));
    assert!(!is_cjk('é'));
}

#[test]
fn trimming_and_blankness() {
    assert_eq!(trimmed("\t a b \n"), "a b");
    assert!(is_blank(" \u{3000}\n"));
    assert!(!is_blank(" x "));
    assert!(is_blank(""));
}

#[test]
fn sanitizing_twice_changes_nothing_more() {
    let inputs = [
        "ok line\n肛裂!!!!!!\nmore text\r\nend",
        "=========================\r\nkept\r\r\nlast\r",
        "中文文档内容\n\n正常",
        "plain",
        "",
    ];
    for input in inputs {
        let once = sanitize(input);
        assert_eq!(sanitize(&once), once, "input {input:?}");
        for line in once.lines() {
            assert!(!has_degenerate_cjk_run(line) && !is_symbol_flood(line), "line {line:?}");
        }
    }
}

#[test]
fn cjk_with_a_flood_is_degenerate_whatever_the_ratio() {
    let line = format!("{}{}", "中".repeat(16), "!".repeat(10));
    assert!(has_degenerate_cjk_run(&line));
    assert!(!has_degenerate_cjk_run(&format!("{}{}", "中".repeat(16), "!".repeat(5))));
    assert!(has_degenerate_cjk_run(&format!("ab{}", "!".repeat(5)).replace("ab", "a中")));
}

#[test]
fn symbol_runs_from_given_flags() {
    let cs: Vec<char> = "ab!!!!!c".chars().collect();
    let flags: Vec<bool> = cs.iter().map(|c| c.is_alphanumeric()).collect();
    assert!(symbol_run_with(&cs, &flags, 5));
    assert!(!symbol_run_with(&cs, &flags, 6));
    // A run counts only where every character is flagged non-alphanumeric.
    let mut marked = flags.clone();
    marked[4] = true;
    assert!(!symbol_run_with(&cs, &marked, 5));
    let all_alnum = vec![true; cs.len()];
    assert!(!symbol_run_with(&cs, &all_alnum, 2));
    let none_alnum = vec![false; 3];
    assert!(symbol_run_with(&['x', 'x', 'y'], &none_alnum, 2));
    assert!(!symbol_run_with(&[' ', ' ', ' '], &none_alnum, 2));
}

#[test]
fn whitespace_matches_std() {
    for u in 0u32..0x3100 {
        if let Some(c) = char::from_u32(u) {
            assert_eq!(is_blank(&c.to_string()), c.is_whitespace(), "{u:#x}");
        }
    }
}
