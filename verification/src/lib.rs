//! Turns web articles into narration-ready text: a site-aware extraction
//! engine that pulls title, author, date and body paragraphs out of HTML,
//! and a narration pipeline that normalizes and truncates the body for a
//! speech synthesizer.

use vstd::prelude::*;

pub mod article_extractor;
pub mod audio_processor;
pub mod narration;
pub mod query;
pub mod text;

verus! {

/// A structured article record: the output of extraction, the input of the
/// narration pipeline.
#[derive(Debug)]
pub struct ArticleContent {
    pub title: String,
    pub author: Option<String>,
    pub published_date: Option<String>,
    pub content: String,
    pub summary: Option<String>,
    pub url: String,
}

} // verus!
