//! Tests for the classifier: category precedence, description truncation,
//! file extraction, tool categorization and issue texts.

use session_diary::classify::{
    build_issue, categorize_tool, category_name, classify_prompt, describe, Category,
};
use session_diary::paths::extract_files;
use session_diary::text::{sorted_unique, truncate_chars};

#[test]
fn category_precedence_first_pattern_wins() {
    // "fix" (fix/debug group) stands before "document" (documentation group)
    // in the precedence table, so the earlier pattern decides the category.
    let acc = classify_prompt("fix and document the parser", None).unwrap();
    assert_eq!(acc.category, Category::CodeDevelopment);
    assert!(acc.description.starts_with("Fixed code issues"));
}

#[test]
fn category_precedence_reversed_wording() {
    // Even with "document" first in the text, the table order decides.
    let acc = classify_prompt("document then fix the parser", None).unwrap();
    assert_eq!(acc.category, Category::CodeDevelopment);
}

#[test]
fn at_most_one_accomplishment_per_prompt() {
    // A prompt matching several groups still yields exactly one entry.
    let acc = classify_prompt("fix, refactor, test and document everything", None);
    assert!(acc.is_some());
}

#[test]
fn truncation_81_char_line() {
    let mut line = String::from("fix");
    line.push_str(&"x".repeat(78));
    assert_eq!(line.chars().count(), 81);
    let acc = classify_prompt(&line, None).unwrap();
    let expected_excerpt: String = line.chars().take(77).collect();
    assert_eq!(acc.description, format!("Fixed code issues: {}", expected_excerpt));
}

#[test]
fn truncation_short_line_bare_default() {
    // A trimmed first line of 10 characters or fewer yields the bare phrase.
    let acc = classify_prompt("fix it", None).unwrap();
    assert_eq!(acc.description, "Fixed code issues");
}

#[test]
fn truncation_mid_length_line() {
    let acc = classify_prompt("fix the parser bug", None).unwrap();
    assert_eq!(acc.description, "Fixed code issues: fix the parser bug");
}

#[test]
fn describe_uses_first_line_only() {
    let d = describe("fix the parser\nand other lines\nmore", "Fixed code issues");
    assert_eq!(d, "Fixed code issues: fix the parser");
}

#[test]
fn describe_trims_whitespace() {
    let d = describe("   fix the parser bug   \nrest", "Fixed code issues");
    assert_eq!(d, "Fixed code issues: fix the parser bug");
}

#[test]
fn lowercasing_reaches_the_patterns() {
    // Would fail if the prompt were matched without lower-casing.
    let acc = classify_prompt("FIX THE PARSER BUG", None).unwrap();
    assert_eq!(acc.category, Category::CodeDevelopment);
    // The description excerpt keeps the raw casing.
    assert_eq!(acc.description, "Fixed code issues: FIX THE PARSER BUG");
}

#[test]
fn general_fallback_above_threshold() {
    let acc = classify_prompt("qqq www eee rrr ttt yyy uuu", None).unwrap();
    assert_eq!(acc.category, Category::General);
    assert!(acc.description.starts_with("Worked on project task"));
}

#[test]
fn short_unmatched_prompt_yields_nothing() {
    assert!(classify_prompt("zzz qqq", None).is_none());
}

#[test]
fn classification_keeps_duration() {
    let acc = classify_prompt("fix the parser bug", Some(250)).unwrap();
    assert_eq!(acc.duration_ms, Some(250));
}

#[test]
fn file_extraction_sorted_and_deduplicated() {
    let files = extract_files("edit src/main.rs and also src/main.rs again plus README.md");
    assert_eq!(files, vec!["README.md".to_string(), "src/main.rs".to_string()]);
}

#[test]
fn file_extraction_in_classification() {
    let acc = classify_prompt("fix src/lib.rs and docs/guide.md", None).unwrap();
    assert_eq!(acc.files_affected, vec!["docs/guide.md".to_string(), "src/lib.rs".to_string()]);
}

#[test]
fn file_extraction_overlapping_extensions() {
    // The extension battery is a heuristic: ".c" also matches inside a
    // ".cpp" name, and both results are kept.
    let files = extract_files("edit file.cpp");
    assert_eq!(files, vec!["file.c".to_string(), "file.cpp".to_string()]);
}

#[test]
fn file_extraction_none() {
    let files = extract_files("nothing path-like here");
    assert!(files.is_empty());
}

#[test]
fn tool_categorization_table() {
    assert_eq!(categorize_tool("Edit"), Category::CodeDevelopment);
    assert_eq!(categorize_tool("Write"), Category::CodeDevelopment);
    assert_eq!(categorize_tool("MultiEdit"), Category::CodeDevelopment);
    assert_eq!(categorize_tool("Read"), Category::CodeAnalysis);
    assert_eq!(categorize_tool("Glob"), Category::CodeAnalysis);
    assert_eq!(categorize_tool("LS"), Category::CodeAnalysis);
    assert_eq!(categorize_tool("Bash"), Category::SystemOperations);
    assert_eq!(categorize_tool("Grep"), Category::CodeSearch);
    assert_eq!(categorize_tool("Task"), Category::AiCollaboration);
    assert_eq!(categorize_tool("TodoWrite"), Category::ProjectManagement);
    assert_eq!(categorize_tool("WebFetch"), Category::Research);
    assert_eq!(categorize_tool("SomethingElse"), Category::Other);
}

#[test]
fn category_names() {
    assert_eq!(category_name(Category::CodeDevelopment), "Code Development");
    assert_eq!(category_name(Category::General), "General");
    assert_eq!(category_name(Category::AiCollaboration), "AI Collaboration");
}

#[test]
fn issue_text_truncated_with_ellipsis() {
    let long = "e".repeat(160);
    let issue = build_issue(&long);
    assert_eq!(issue, format!("Error encountered: {}...", "e".repeat(150)));
}

#[test]
fn issue_text_short_untouched() {
    assert_eq!(build_issue("boom"), "Error encountered: boom");
}

#[test]
fn truncate_chars_is_character_safe() {
    assert_eq!(truncate_chars("abcdef", 4), "abcd");
    assert_eq!(truncate_chars("abc", 4), "abc");
    assert_eq!(truncate_chars("ééééé", 3), "ééé");
}

#[test]
fn sorted_unique_sorts_and_dedupes() {
    let v = vec![
        "b.rs".to_string(),
        "a.rs".to_string(),
        "b.rs".to_string(),
        "a.rs".to_string(),
    ];
    assert_eq!(sorted_unique(&v), vec!["a.rs".to_string(), "b.rs".to_string()]);
}
