//! The narration pipeline: normalization, truncation and assembly.

use audio_transcription::narration::{
    clean_text_for_speech, process_content_for_audio, truncate_at_sentence,
};
use audio_transcription::ArticleContent;

#[test]
fn truncation_cuts_at_last_sentence() {
    let body = "Hello world. This is a test! Another sentence? End.";
    assert_eq!(truncate_at_sentence(body, 25), "Hello world.");
}

#[test]
fn truncation_within_budget_is_identity() {
    assert_eq!(truncate_at_sentence("short text", 25), "short text");
    assert_eq!(truncate_at_sentence("abc", 3), "abc");
}

#[test]
fn truncation_period_has_priority_over_later_exclamation() {
    let t = "A! B. C! Dxxxxxxxxxx";
    assert_eq!(truncate_at_sentence(t, 10), "A! B.");
}

#[test]
fn truncation_exclamation_when_no_period() {
    let t = "Wow! Amazing thing here and more text";
    assert_eq!(truncate_at_sentence(t, 12), "Wow!");
}

#[test]
fn truncation_question_mark() {
    let t = "Why? Who knows what comes after this";
    assert_eq!(truncate_at_sentence(t, 12), "Why?");
}

#[test]
fn truncation_word_fallback() {
    let t = "abc def ghij klmno";
    assert_eq!(truncate_at_sentence(t, 10), "abc def...");
}

#[test]
fn truncation_hard_cut_for_unbroken_token() {
    let t = "abcdefghijklmnop";
    assert_eq!(truncate_at_sentence(t, 5), "abcde...");
}

#[test]
fn normalization_strips_urls_and_smart_quotes() {
    let input = "Visit https://x.com/y now.  It\u{2019}s \u{201c}great\u{201d}!";
    assert_eq!(clean_text_for_speech(input), "Visit now. It's \"great\"!");
}

#[test]
fn normalization_collapses_whitespace_and_trims() {
    assert_eq!(
        clean_text_for_speech("  one\n\ttwo   three  "),
        "one two three"
    );
}

#[test]
fn normalization_replaces_dashes() {
    assert_eq!(clean_text_for_speech("a\u{2013}b"), "a - b");
    assert_eq!(clean_text_for_speech("x\u{2014}y"), "x - y");
}

#[test]
fn dash_beside_space_leaves_double_space() {
    // Dashes are replaced after whitespace is collapsed, so a spaced dash
    // yields double spaces; only a second pass would collapse them.
    assert_eq!(clean_text_for_speech("a \u{2013} b"), "a  -  b");
}

#[test]
fn normalization_idempotent_with_isolated_dash() {
    let once = clean_text_for_speech("alpha\u{2013}beta");
    assert_eq!(once, "alpha - beta");
    assert_eq!(clean_text_for_speech(&once), once);
}

#[test]
fn normalization_idempotent_on_dash_free_text() {
    let s = "Some   text with https://example.com/link and \u{201c}quotes\u{201d}. More.";
    let once = clean_text_for_speech(s);
    let twice = clean_text_for_speech(&once);
    assert_eq!(once, twice);
}

#[test]
fn narration_header_holds_title_author_and_date() {
    let a = ArticleContent {
        title: String::from("T"),
        author: Some(String::from("Jane")),
        published_date: Some(String::from("2024")),
        content: String::from("Body text here."),
        summary: None,
        url: String::from("https://example.com/a"),
    };
    assert_eq!(
        process_content_for_audio(&a, 5000),
        "Article: T\n\nBy Jane\n\nPublished 2024\n\nBody text here."
    );
}

#[test]
fn narration_header_omits_absent_fields() {
    let a = ArticleContent {
        title: String::from("T"),
        author: None,
        published_date: None,
        content: String::from("Body text here."),
        summary: None,
        url: String::from("https://example.com/a"),
    };
    assert_eq!(process_content_for_audio(&a, 5000), "Article: T\n\nBody text here.");
}

#[test]
fn narration_truncates_and_appends_trailer() {
    let a = ArticleContent {
        title: String::from("T"),
        author: None,
        published_date: None,
        content: String::from("AAAA. BBBB. CCCC. DDDD. EEEE."),
        summary: None,
        url: String::from("https://example.com/a"),
    };
    let out = process_content_for_audio(&a, 15);
    let trailer = "\n\nThis article has been shortened for audio. The full version is available at the original link.";
    assert_eq!(out, format!("Article: T\n\nAAAA. BBBB.{}", trailer));
    // The budget bound: header, at most the budget plus three, the trailer.
    assert!(out.chars().count() <= "Article: T\n\n".chars().count() + 15 + 3 + trailer.chars().count());
}
