//! The extraction engine against concrete HTML fixtures.

use audio_transcription::article_extractor::{extract, ExtractionError, StrategyId};

#[test]
fn guardian_title_first_selector_wins() {
    let html = "<html><body>\
        <h1 class=\"content__headline\">Secondary Headline</h1>\
        <h1 data-gu-name=\"headline\">Primary Headline</h1>\
        <div data-gu-name=\"body\">\
        <p>First paragraph long enough to pass.</p>\
        <p>Second paragraph long enough too.</p>\
        </div></body></html>";
    let a = extract(html, "https://www.theguardian.com/world/story").unwrap();
    assert_eq!(a.title, "Primary Headline");
    assert_eq!(
        a.content,
        "First paragraph long enough to pass.\n\nSecond paragraph long enough too."
    );
    assert_eq!(a.url, "https://www.theguardian.com/world/story");
    assert!(a.summary.is_none());
}

#[test]
fn guardian_title_falls_through_to_plain_h1() {
    let html = "<html><body>\
        <h1>Only Plain Heading</h1>\
        <div data-gu-name=\"body\"><p>A body paragraph that is long enough.</p></div>\
        </body></html>";
    let a = extract(html, "https://www.theguardian.com/x").unwrap();
    assert_eq!(a.title, "Only Plain Heading");
}

#[test]
fn guardian_title_placeholder_when_nothing_matches() {
    let html = "<html><body>\
        <div data-gu-name=\"body\"><p>A body paragraph that is long enough.</p></div>\
        </body></html>";
    let a = extract(html, "https://www.theguardian.com/x").unwrap();
    assert_eq!(a.title, "Untitled Article");
}

#[test]
fn whitespace_only_title_match_falls_back_to_placeholder() {
    let html = "<html><body><h1>   </h1>\
        <div data-gu-name=\"body\"><p>A body paragraph that is long enough.</p></div>\
        </body></html>";
    let a = extract(html, "https://www.theguardian.com/x").unwrap();
    assert_eq!(a.title, "Untitled Article");
}

#[test]
fn dispatch_matches_substring_anywhere_in_url() {
    let html = "<html><body></body></html>";
    let e = extract(html, "https://example.com/mirror/theguardian.com/story").unwrap_err();
    assert_eq!(e, ExtractionError::NoContent(StrategyId::Guardian));
}

#[test]
fn short_paragraphs_are_filtered() {
    // The known-site threshold keeps only paragraphs of more than ten
    // characters; a ten-character paragraph is dropped too.
    let html = "<html><body>\
        <h1>Head</h1>\
        <div data-gu-name=\"body\">\
        <p>tiny</p>\
        <p>abcdefghij</p>\
        <p>abcdefghijk</p>\
        </div></body></html>";
    let a = extract(html, "https://www.theguardian.com/x").unwrap();
    assert_eq!(a.content, "abcdefghijk");
}

#[test]
fn guardian_author_and_date() {
    let html = "<html><body>\
        <h1>Head</h1>\
        <a rel=\"author\">  Jane Writer </a>\
        <time datetime=\"2025-10-04T10:00:00Z\">4 Oct 2025</time>\
        <div data-gu-name=\"body\"><p>A body paragraph that is long enough.</p></div>\
        </body></html>";
    let a = extract(html, "https://www.theguardian.com/x").unwrap();
    assert_eq!(a.author.as_deref(), Some("Jane Writer"));
    assert_eq!(a.published_date.as_deref(), Some("2025-10-04T10:00:00Z"));
}

#[test]
fn empty_author_is_unset() {
    let html = "<html><body>\
        <h1>Head</h1>\
        <a rel=\"author\">   </a>\
        <div data-gu-name=\"body\"><p>A body paragraph that is long enough.</p></div>\
        </body></html>";
    let a = extract(html, "https://www.theguardian.com/x").unwrap();
    assert!(a.author.is_none());
}

#[test]
fn bbc_prefers_datetime_attribute() {
    let html = "<html><body>\
        <h1 data-testid=\"headline\">BBC Head</h1>\
        <time datetime=\"2024-01-01\">1 January 2024</time>\
        <div data-component=\"text-block\"><p>A BBC paragraph long enough.</p></div>\
        </body></html>";
    let a = extract(html, "https://www.bbc.com/news/story").unwrap();
    assert_eq!(a.title, "BBC Head");
    assert_eq!(a.published_date.as_deref(), Some("2024-01-01"));
    assert_eq!(a.content, "A BBC paragraph long enough.");
    assert!(a.author.is_none());
}

#[test]
fn bbc_date_falls_back_to_visible_text() {
    let html = "<html><body>\
        <span class=\"date\">2 February 2024</span>\
        <div data-component=\"text-block\"><p>A BBC paragraph long enough.</p></div>\
        </body></html>";
    let a = extract(html, "https://www.bbc.co.uk/news/story").unwrap();
    assert_eq!(a.title, "BBC Article");
    assert_eq!(a.published_date.as_deref(), Some("2 February 2024"));
}

#[test]
fn nytimes_author_and_placeholder() {
    let html = "<html><body>\
        <div data-testid=\"byline\"><span>By Jane Doe</span></div>\
        <div class=\"StoryBodyCompanionColumn\"><p>A Times paragraph long enough.</p></div>\
        </body></html>";
    let a = extract(html, "https://www.nytimes.com/2025/story.html").unwrap();
    assert_eq!(a.title, "New York Times Article");
    assert_eq!(a.author.as_deref(), Some("By Jane Doe"));
    assert!(a.published_date.is_none());
    assert_eq!(a.content, "A Times paragraph long enough.");
}

#[test]
fn generic_group_fallback() {
    // The first generic body group (article p) yields nothing qualifying;
    // the engine moves to the next group rather than giving up.
    let html = "<html><body>\
        <h1>Generic Title</h1>\
        <article><p>too short here</p></article>\
        <div class=\"content\"><p>This paragraph is definitely longer than twenty characters.</p></div>\
        </body></html>";
    let a = extract(html, "https://example.com/post").unwrap();
    assert_eq!(a.title, "Generic Title");
    assert_eq!(
        a.content,
        "This paragraph is definitely longer than twenty characters."
    );
}

#[test]
fn generic_no_content_fails() {
    // No paragraph matches any generic selector group: the error names the
    // generic strategy.
    let html = "<html><body><h1>Title</h1><p>loose paragraph under body only</p></body></html>";
    let e = extract(html, "https://example.com/post").unwrap_err();
    assert_eq!(e, ExtractionError::NoContent(StrategyId::Generic));
    assert_eq!(
        e.message(),
        "Could not extract article content from this page"
    );
}

#[test]
fn known_site_no_content_fails_without_generic_fallback() {
    // A Guardian page whose body selectors match nothing fails with the
    // Guardian error even though generic selectors would have matched.
    let html = "<html><body>\
        <h1>Head</h1>\
        <article><p>This paragraph is definitely longer than twenty characters.</p></article>\
        </body></html>";
    let e = extract(html, "https://www.theguardian.com/x").unwrap_err();
    assert_eq!(e, ExtractionError::NoContent(StrategyId::Guardian));
    assert_eq!(e.message(), "No article content found");
}

#[test]
fn invalid_url_rejected_before_any_work() {
    let html = "<html><body><h1>t</h1></body></html>";
    let e = extract(html, "not a url").unwrap_err();
    assert_eq!(e, ExtractionError::InvalidUrl);
    assert_eq!(e.message(), "Invalid URL provided");
}

#[test]
fn dispatch_prefers_registration_order() {
    // A URL naming both known sites dispatches to the first-registered one.
    let html = "<html><body></body></html>";
    let e = extract(html, "https://www.theguardian.com/about/bbc.com").unwrap_err();
    assert_eq!(e, ExtractionError::NoContent(StrategyId::Guardian));
}

#[test]
fn bbc_error_message_names_the_site() {
    let html = "<html><body></body></html>";
    let e = extract(html, "https://www.bbc.co.uk/news").unwrap_err();
    assert_eq!(e, ExtractionError::NoContent(StrategyId::Bbc));
    assert_eq!(e.message(), "No BBC article content found");
    let e2 = extract(html, "https://www.nytimes.com/x").unwrap_err();
    assert_eq!(e2.message(), "No NYT article content found");
}
