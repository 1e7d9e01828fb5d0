//! The article extraction engine. A strategy — four ordered selector lists,
//! a paragraph-length threshold and a title placeholder — is chosen from the
//! source URL and run against the HTML document by one shared routine.
//!
//! Title, author and date use "first selector with any match, first matched
//! element" semantics. Body selectors are tried as whole groups: the first
//! selector whose filtered paragraph set is non-empty is accepted. When no
//! body selector yields a qualifying paragraph, extraction fails; it never
//! returns a record with an empty body.

use vstd::prelude::*;

verus! {

broadcast use vstd::string::group_string_axioms;

use crate::text::{
    trim_spec,
    trim_chars,
    str_chars,
    extend_chars,
    contains_seq,
    contains_chars,
};
use crate::query::{sel_ok, texts_of, attr_of, url_ok, query_texts, query_attr, parse_url_ok};
use crate::ArticleContent;

// ---------------------------------------------------------------------------
// Strategies.
// ---------------------------------------------------------------------------

#[derive(Clone, Copy, PartialEq, Eq, Structural, Debug)]
pub enum StrategyId {
    Guardian,
    Bbc,
    NyTimes,
    Generic,
}

#[derive(Clone, Copy, PartialEq, Eq, Structural, Debug)]
pub enum ExtractionError {
    /// The source URL does not parse.
    InvalidUrl,
    /// No body selector of the chosen strategy yielded a qualifying
    /// paragraph.
    NoContent(StrategyId),
}

/// The message of each extraction error, identifying the strategy that
/// failed.
pub open spec fn error_message_spec(e: ExtractionError) -> Seq<char> {
    match e {
        ExtractionError::InvalidUrl => "Invalid URL provided"@,
        ExtractionError::NoContent(StrategyId::Guardian) => "No article content found"@,
        ExtractionError::NoContent(StrategyId::Bbc) => "No BBC article content found"@,
        ExtractionError::NoContent(StrategyId::NyTimes) => "No NYT article content found"@,
        ExtractionError::NoContent(
            StrategyId::Generic,
        ) => "Could not extract article content from this page"@,
    }
}

impl ExtractionError {
    /// The human-readable message identifying which strategy failed.
    pub fn message(&self) -> (m: String)
        ensures
            m@ == error_message_spec(*self),
    {
        match self {
            ExtractionError::InvalidUrl => "Invalid URL provided".to_string(),
            ExtractionError::NoContent(StrategyId::Guardian) => "No article content found"
                .to_string(),
            ExtractionError::NoContent(StrategyId::Bbc) => "No BBC article content found"
                .to_string(),
            ExtractionError::NoContent(StrategyId::NyTimes) => "No NYT article content found"
                .to_string(),
            ExtractionError::NoContent(
                StrategyId::Generic,
            ) => "Could not extract article content from this page".to_string(),
        }
    }
}

/// The mathematical model of a strategy: its selector lists, its paragraph
/// threshold, and its title placeholder.
pub struct StrategySpec {
    pub title_sels: Seq<Seq<char>>,
    pub author_sels: Seq<Seq<char>>,
    pub date_sels: Seq<Seq<char>>,
    pub body_sels: Seq<Seq<char>>,
    pub threshold: int,
    pub placeholder: Seq<char>,
}

pub open spec fn guardian_spec() -> StrategySpec {
    StrategySpec {
        title_sels: seq!["h1[data-gu-name='headline']"@, "h1.content__headline"@, "h1"@],
        author_sels: seq!["a[rel='author']"@, ".byline a"@, ".contributor-full-name"@],
        date_sels: seq!["time[datetime]"@, ".content__dateline time"@],
        body_sels: seq![
            ".content__article-body p, .article-body-commercial-selector p, [data-gu-name='body'] p"@,
        ],
        threshold: 10,
        placeholder: "Untitled Article"@,
    }
}

pub open spec fn bbc_spec() -> StrategySpec {
    StrategySpec {
        title_sels: seq!["h1.story-body__h1"@, "h1[data-testid='headline']"@],
        author_sels: Seq::<Seq<char>>::empty(),
        date_sels: seq!["time[datetime]"@, ".date"@],
        body_sels: seq![".story-body__inner p, [data-component='text-block'] p"@],
        threshold: 10,
        placeholder: "BBC Article"@,
    }
}

pub open spec fn nytimes_spec() -> StrategySpec {
    StrategySpec {
        title_sels: seq!["h1[data-testid='headline']"@, "h1.headline"@],
        author_sels: seq!["[data-testid='byline'] span"@, ".byline-author"@],
        date_sels: Seq::<Seq<char>>::empty(),
        body_sels: seq![".StoryBodyCompanionColumn p, section[name='articleBody'] p"@],
        threshold: 10,
        placeholder: "New York Times Article"@,
    }
}

pub open spec fn generic_spec() -> StrategySpec {
    StrategySpec {
        title_sels: seq!["h1"@, "title"@, ".title"@, ".headline"@, ".entry-title"@, ".post-title"@],
        author_sels: seq![".author"@, ".byline"@, ".writer"@, "[rel='author']"@],
        date_sels: Seq::<Seq<char>>::empty(),
        body_sels: seq![
            "article p"@,
            ".content p"@,
            ".entry-content p"@,
            ".post-content p"@,
            ".article-body p"@,
            "main p"@,
            ".story p"@,
        ],
        threshold: 20,
        placeholder: "Article"@,
    }
}

pub open spec fn strat_spec(id: StrategyId) -> StrategySpec {
    match id {
        StrategyId::Guardian => guardian_spec(),
        StrategyId::Bbc => bbc_spec(),
        StrategyId::NyTimes => nytimes_spec(),
        StrategyId::Generic => generic_spec(),
    }
}

/// Strategy dispatch: substring matching on the source URL, known sites in
/// fixed registration order, the generic strategy last.
pub open spec fn strategy_for(url: Seq<char>) -> StrategyId {
    if contains_seq(url, "theguardian.com"@) {
        StrategyId::Guardian
    } else if contains_seq(url, "bbc.co.uk"@) || contains_seq(url, "bbc.com"@) {
        StrategyId::Bbc
    } else if contains_seq(url, "nytimes.com"@) {
        StrategyId::NyTimes
    } else {
        StrategyId::Generic
    }
}

// ---------------------------------------------------------------------------
// The executable strategy table.
// ---------------------------------------------------------------------------

pub struct Strategy {
    pub id: StrategyId,
    pub title_sels: Vec<String>,
    pub author_sels: Vec<String>,
    pub date_sels: Vec<String>,
    pub body_sels: Vec<String>,
    pub threshold: usize,
    pub placeholder: String,
}

pub open spec fn sels_view(v: Seq<String>) -> Seq<Seq<char>> {
    v.map_values(|s: String| s@)
}

pub open spec fn strat_view(s: Strategy) -> StrategySpec {
    StrategySpec {
        title_sels: sels_view(s.title_sels@),
        author_sels: sels_view(s.author_sels@),
        date_sels: sels_view(s.date_sels@),
        body_sels: sels_view(s.body_sels@),
        threshold: s.threshold as int,
        placeholder: s.placeholder@,
    }
}

fn push_sel(v: &mut Vec<String>, s: &str)
    ensures
        sels_view(final(v)@) == sels_view(old(v)@) + seq![s@],
{
    v.push(s.to_string());
    assert(sels_view(v@) =~= sels_view(old(v)@) + seq![s@]);
}

/// The strategy bound to `id`, as data.
pub fn strategy_table(id: StrategyId) -> (s: Strategy)
    ensures
        s.id == id,
        strat_view(s) == strat_spec(id),
{
    let mut title_sels: Vec<String> = Vec::new();
    let mut author_sels: Vec<String> = Vec::new();
    let mut date_sels: Vec<String> = Vec::new();
    let mut body_sels: Vec<String> = Vec::new();
    let threshold: usize;
    let placeholder: &str;
    match id {
        StrategyId::Guardian => {
            push_sel(&mut title_sels, "h1[data-gu-name='headline']");
            push_sel(&mut title_sels, "h1.content__headline");
            push_sel(&mut title_sels, "h1");
            push_sel(&mut author_sels, "a[rel='author']");
            push_sel(&mut author_sels, ".byline a");
            push_sel(&mut author_sels, ".contributor-full-name");
            push_sel(&mut date_sels, "time[datetime]");
            push_sel(&mut date_sels, ".content__dateline time");
            push_sel(
                &mut body_sels,
                ".content__article-body p, .article-body-commercial-selector p, [data-gu-name='body'] p",
            );
            threshold = 10;
            placeholder = "Untitled Article";
        },
        StrategyId::Bbc => {
            push_sel(&mut title_sels, "h1.story-body__h1");
            push_sel(&mut title_sels, "h1[data-testid='headline']");
            push_sel(&mut date_sels, "time[datetime]");
            push_sel(&mut date_sels, ".date");
            push_sel(&mut body_sels, ".story-body__inner p, [data-component='text-block'] p");
            threshold = 10;
            placeholder = "BBC Article";
        },
        StrategyId::NyTimes => {
            push_sel(&mut title_sels, "h1[data-testid='headline']");
            push_sel(&mut title_sels, "h1.headline");
            push_sel(&mut author_sels, "[data-testid='byline'] span");
            push_sel(&mut author_sels, ".byline-author");
            push_sel(&mut body_sels, ".StoryBodyCompanionColumn p, section[name='articleBody'] p");
            threshold = 10;
            placeholder = "New York Times Article";
        },
        StrategyId::Generic => {
            push_sel(&mut title_sels, "h1");
            push_sel(&mut title_sels, "title");
            push_sel(&mut title_sels, ".title");
            push_sel(&mut title_sels, ".headline");
            push_sel(&mut title_sels, ".entry-title");
            push_sel(&mut title_sels, ".post-title");
            push_sel(&mut author_sels, ".author");
            push_sel(&mut author_sels, ".byline");
            push_sel(&mut author_sels, ".writer");
            push_sel(&mut author_sels, "[rel='author']");
            push_sel(&mut body_sels, "article p");
            push_sel(&mut body_sels, ".content p");
            push_sel(&mut body_sels, ".entry-content p");
            push_sel(&mut body_sels, ".post-content p");
            push_sel(&mut body_sels, ".article-body p");
            push_sel(&mut body_sels, "main p");
            push_sel(&mut body_sels, ".story p");
            threshold = 20;
            placeholder = "Article";
        },
    }
    let s = Strategy {
        id,
        title_sels,
        author_sels,
        date_sels,
        body_sels,
        threshold,
        placeholder: placeholder.to_string(),
    };
    proof {
        assert(sels_view(Seq::<String>::empty()) =~= Seq::<Seq<char>>::empty());
        assert(strat_view(s).title_sels =~= strat_spec(id).title_sels);
        assert(strat_view(s).author_sels =~= strat_spec(id).author_sels);
        assert(strat_view(s).date_sels =~= strat_spec(id).date_sels);
        assert(strat_view(s).body_sels =~= strat_spec(id).body_sels);
    }
    s
}

// ---------------------------------------------------------------------------
// Field extraction: first-match semantics for title, author and date.
// ---------------------------------------------------------------------------

/// The index of the first selector at or after `i` that parses and matches
/// at least one element, or `-1`.
pub open spec fn first_hit(html: Seq<char>, sels: Seq<Seq<char>>, i: int) -> int
    decreases sels.len() - i,
{
    if i < 0 || i >= sels.len() {
        -1
    } else if sel_ok(sels[i]) && texts_of(html, sels[i]).len() > 0 {
        i
    } else {
        first_hit(html, sels, i + 1)
    }
}

/// The raw text of the first matched element of the first matching
/// selector, or `None` when no selector matches.
pub open spec fn first_text(html: Seq<char>, sels: Seq<Seq<char>>) -> Option<Seq<char>> {
    let j = first_hit(html, sels, 0);
    if j >= 0 {
        Some(texts_of(html, sels[j])[0])
    } else {
        None
    }
}

/// The extracted title: the trimmed first-match text when non-empty, else
/// the strategy placeholder. Never empty when the placeholder is not.
pub open spec fn title_spec(html: Seq<char>, st: StrategySpec) -> Seq<char> {
    match first_text(html, st.title_sels) {
        Some(t) => if trim_spec(t).len() > 0 {
            trim_spec(t)
        } else {
            st.placeholder
        },
        None => st.placeholder,
    }
}

/// The extracted author: the trimmed first-match text when non-empty.
pub open spec fn author_spec(html: Seq<char>, st: StrategySpec) -> Option<Seq<char>> {
    match first_text(html, st.author_sels) {
        Some(t) => if trim_spec(t).len() > 0 {
            Some(trim_spec(t))
        } else {
            None
        },
        None => None,
    }
}

/// The extracted date: from the first matching date selector, the
/// machine-readable `datetime` attribute when present, else the element's
/// visible text; trimmed, and unset when empty.
pub open spec fn date_spec(html: Seq<char>, st: StrategySpec) -> Option<Seq<char>> {
    date_like_spec(html, st.date_sels)
}

// ---------------------------------------------------------------------------
// Body extraction: collect all matches of a selector group, trim, filter by
// the threshold, and join with blank lines.
// ---------------------------------------------------------------------------

/// The texts at or after `i`, trimmed, keeping those longer than `thr`.
pub open spec fn qualify_list(ts: Seq<Seq<char>>, thr: int, i: int) -> Seq<Seq<char>>
    decreases ts.len() - i,
{
    if i < 0 || i >= ts.len() {
        Seq::<Seq<char>>::empty()
    } else {
        let t = trim_spec(ts[i]);
        let rest = qualify_list(ts, thr, i + 1);
        if t.len() > thr {
            seq![t] + rest
        } else {
            rest
        }
    }
}

/// The qualifying paragraphs of one body selector.
pub open spec fn body_paras(html: Seq<char>, sel: Seq<char>, thr: int) -> Seq<Seq<char>> {
    qualify_list(texts_of(html, sel), thr, 0)
}

/// The index of the first body selector at or after `i` that parses and
/// yields at least one qualifying paragraph, or `-1`.
pub open spec fn body_hit(html: Seq<char>, sels: Seq<Seq<char>>, thr: int, i: int) -> int
    decreases sels.len() - i,
{
    if i < 0 || i >= sels.len() {
        -1
    } else if sel_ok(sels[i]) && body_paras(html, sels[i], thr).len() > 0 {
        i
    } else {
        body_hit(html, sels, thr, i + 1)
    }
}

/// Paragraphs joined by one blank line.
pub open spec fn join_paras(ps: Seq<Seq<char>>, i: int) -> Seq<char>
    decreases ps.len() - i,
{
    if i < 0 || i >= ps.len() {
        Seq::<char>::empty()
    } else if i == ps.len() - 1 {
        ps[i]
    } else {
        ps[i] + "\n\n"@ + join_paras(ps, i + 1)
    }
}

/// The extracted body: the joined qualifying paragraphs of the first body
/// selector that yields any, or `None` when none does.
pub open spec fn body_spec(html: Seq<char>, st: StrategySpec) -> Option<Seq<char>> {
    let j = body_hit(html, st.body_sels, st.threshold, 0);
    if j < 0 {
        None
    } else {
        Some(join_paras(body_paras(html, st.body_sels[j], st.threshold), 0))
    }
}

// ---------------------------------------------------------------------------
// The extraction contract.
// ---------------------------------------------------------------------------

pub open spec fn opt_view(o: Option<String>) -> Option<Seq<char>> {
    match o {
        Some(s) => Some(s@),
        None => None,
    }
}

/// What running strategy `id` with tables `st` over `html` must return.
pub open spec fn strategy_post(
    html: Seq<char>,
    url: Seq<char>,
    id: StrategyId,
    st: StrategySpec,
    r: Result<ArticleContent, ExtractionError>,
) -> bool {
    match body_spec(html, st) {
        Some(b) => match r {
            Ok(a) => {
                &&& a.title@ == title_spec(html, st)
                &&& opt_view(a.author) == author_spec(html, st)
                &&& opt_view(a.published_date) == date_spec(html, st)
                &&& a.content@ == b
                &&& a.summary is None
                &&& a.url@ == url
            },
            Err(_) => false,
        },
        None => r == Err::<ArticleContent, ExtractionError>(ExtractionError::NoContent(id)),
    }
}

/// What `extract` must return: the invalid-URL error for URLs that do not
/// parse, else the result of the strategy the URL dispatches to.
pub open spec fn extraction_post(
    html: Seq<char>,
    url: Seq<char>,
    r: Result<ArticleContent, ExtractionError>,
) -> bool {
    if url_ok(url) {
        strategy_post(html, url, strategy_for(url), strat_spec(strategy_for(url)), r)
    } else {
        r == Err::<ArticleContent, ExtractionError>(ExtractionError::InvalidUrl)
    }
}

// ---------------------------------------------------------------------------
// The shared strategy-execution routine.
// ---------------------------------------------------------------------------

/// First-match text lookup over an ordered selector list.
fn first_match_text(html: &str, sels: &Vec<String>) -> (r: Option<Vec<char>>)
    ensures
        match r {
            Some(t) => first_text(html@, sels_view(sels@)) == Some(t@),
            None => first_text(html@, sels_view(sels@)) is None,
        },
{
    let mut k: usize = 0;
    while k < sels.len()
        invariant
            0 <= k <= sels@.len(),
            first_hit(html@, sels_view(sels@), 0) == first_hit(html@, sels_view(sels@), k as int),
        decreases sels@.len() - k,
    {
        assert(sels_view(sels@)[k as int] == sels@[k as int]@);
        match query_texts(html, sels[k].as_str()) {
            Some(v) => {
                if v.len() > 0 {
                    assert(first_hit(html@, sels_view(sels@), k as int) == k);
                    let t = str_chars(v[0].as_str());
                    assert(t@ == texts_of(html@, sels_view(sels@)[k as int])[0]);
                    return Some(t);
                }
            },
            None => {},
        }
        k = k + 1;
    }
    assert(first_hit(html@, sels_view(sels@), k as int) == -1);
    None
}

/// Trims, and keeps the paragraphs longer than the threshold.
fn filter_paras(v: &Vec<String>, thr: usize) -> (out: Vec<Vec<char>>)
    ensures
        paras_view(out@) == qualify_list(sels_view(v@), thr as int, 0),
{
    let mut out: Vec<Vec<char>> = Vec::new();
    let mut i: usize = 0;
    assert(paras_view(out@) =~= Seq::<Seq<char>>::empty());
    while i < v.len()
        invariant
            0 <= i <= v@.len(),
            qualify_list(sels_view(v@), thr as int, 0) == paras_view(out@) + qualify_list(
                sels_view(v@),
                thr as int,
                i as int,
            ),
        decreases v@.len() - i,
    {
        let ghost prev = paras_view(out@);
        assert(sels_view(v@)[i as int] == v@[i as int]@);
        let raw = str_chars(v[i].as_str());
        let t = trim_chars(&raw);
        if t.len() > thr {
            out.push(t);
            assert(paras_view(out@) =~= prev + seq![trim_spec(sels_view(v@)[i as int])]);
            assert(prev + qualify_list(sels_view(v@), thr as int, i as int) =~= paras_view(out@)
                + qualify_list(sels_view(v@), thr as int, i + 1));
        } else {
            assert(prev + qualify_list(sels_view(v@), thr as int, i as int) =~= paras_view(out@)
                + qualify_list(sels_view(v@), thr as int, i + 1));
        }
        i = i + 1;
    }
    assert(paras_view(out@) =~= qualify_list(sels_view(v@), thr as int, 0));
    out
}

pub open spec fn paras_view(v: Seq<Vec<char>>) -> Seq<Seq<char>> {
    v.map_values(|p: Vec<char>| p@)
}

/// Joins paragraphs with one blank line between them.
fn join_exec(ps: &Vec<Vec<char>>) -> (r: Vec<char>)
    ensures
        r@ == join_paras(paras_view(ps@), 0),
{
    let mut out: Vec<char> = Vec::new();
    let mut i: usize = 0;
    while i < ps.len()
        invariant
            0 <= i <= ps@.len(),
            join_paras(paras_view(ps@), 0) == out@ + join_paras(paras_view(ps@), i as int),
        decreases ps@.len() - i,
    {
        let ghost prev = out@;
        extend_chars(&mut out, &ps[i]);
        assert(paras_view(ps@)[i as int] == ps@[i as int]@);
        if i + 1 < ps.len() {
            out.push('\n');
            out.push('\n');
            proof {
                reveal_strlit("\n\n");
            }
            assert(prev + join_paras(paras_view(ps@), i as int) =~= out@ + join_paras(
                paras_view(ps@),
                i + 1,
            ));
        } else {
            assert(i == ps@.len() - 1);
            assert(prev + join_paras(paras_view(ps@), i as int) =~= out@ + join_paras(
                paras_view(ps@),
                i + 1,
            ));
        }
        i = i + 1;
    }
    assert(out@ =~= join_paras(paras_view(ps@), 0));
    out
}

/// Body extraction: the first selector group with a non-empty filtered
/// paragraph set wins; its paragraphs are joined with blank lines.
fn extract_body(html: &str, sels: &Vec<String>, thr: usize) -> (r: Option<Vec<char>>)
    ensures
        match r {
            Some(b) => {
                let j = body_hit(html@, sels_view(sels@), thr as int, 0);
                j >= 0 && b@ == join_paras(body_paras(html@, sels_view(sels@)[j], thr as int), 0)
            },
            None => body_hit(html@, sels_view(sels@), thr as int, 0) == -1,
        },
{
    let mut k: usize = 0;
    while k < sels.len()
        invariant
            0 <= k <= sels@.len(),
            body_hit(html@, sels_view(sels@), thr as int, 0) == body_hit(
                html@,
                sels_view(sels@),
                thr as int,
                k as int,
            ),
        decreases sels@.len() - k,
    {
        assert(sels_view(sels@)[k as int] == sels@[k as int]@);
        match query_texts(html, sels[k].as_str()) {
            Some(v) => {
                proof {
                    assert(sels_view(v@) =~= texts_of(html@, sels_view(sels@)[k as int]));
                }
                let paras = filter_paras(&v, thr);
                if paras.len() > 0 {
                    assert(paras_view(paras@).len() > 0);
                    assert(body_hit(html@, sels_view(sels@), thr as int, k as int) == k);
                    let joined = join_exec(&paras);
                    return Some(joined);
                }
                assert(body_paras(html@, sels_view(sels@)[k as int], thr as int).len() == 0) by {
                    assert(paras_view(paras@).len() == 0);
                }
            },
            None => {},
        }
        k = k + 1;
    }
    assert(body_hit(html@, sels_view(sels@), thr as int, k as int) == -1);
    None
}

/// Date extraction: from the first matching date selector, prefer the
/// `datetime` attribute over the visible text.
fn extract_date(html: &str, sels: &Vec<String>) -> (r: Option<Vec<char>>)
    ensures
        match r {
            Some(d) => date_like_spec(html@, sels_view(sels@)) == Some(d@),
            None => date_like_spec(html@, sels_view(sels@)) is None,
        },
{
    let mut k: usize = 0;
    while k < sels.len()
        invariant
            0 <= k <= sels@.len(),
            first_hit(html@, sels_view(sels@), 0) == first_hit(html@, sels_view(sels@), k as int),
        decreases sels@.len() - k,
    {
        assert(sels_view(sels@)[k as int] == sels@[k as int]@);
        match query_texts(html, sels[k].as_str()) {
            Some(v) => {
                if v.len() > 0 {
                    assert(first_hit(html@, sels_view(sels@), k as int) == k);
                    let raw: Vec<char> = match query_attr(html, sels[k].as_str(), "datetime") {
                        Some(a) => str_chars(a.as_str()),
                        None => str_chars(v[0].as_str()),
                    };
                    let t = trim_chars(&raw);
                    if t.len() > 0 {
                        return Some(t);
                    } else {
                        return None;
                    }
                }
            },
            None => {},
        }
        k = k + 1;
    }
    assert(first_hit(html@, sels_view(sels@), k as int) == -1);
    None
}

/// Date lookup over a bare selector list: the `datetime` attribute of the
/// first matching selector's first element when present, else its text.
pub open spec fn date_like_spec(html: Seq<char>, sels: Seq<Seq<char>>) -> Option<Seq<char>> {
    let j = first_hit(html, sels, 0);
    if j < 0 {
        None
    } else {
        let raw = match attr_of(html, sels[j], "datetime"@) {
            Some(a) => a,
            None => texts_of(html, sels[j])[0],
        };
        if trim_spec(raw).len() > 0 {
            Some(trim_spec(raw))
        } else {
            None
        }
    }
}

/// Runs one strategy over the document: the shared routine all strategies
/// go through.
pub fn run_strategy(html: &str, url: &str, st: &Strategy) -> (r: Result<
    ArticleContent,
    ExtractionError,
>)
    ensures
        strategy_post(html@, url@, st.id, strat_view(*st), r),
{
    let body = match extract_body(html, &st.body_sels, st.threshold) {
        Some(b) => b,
        None => {
            return Err(ExtractionError::NoContent(st.id));
        },
    };
    let title = match first_match_text(html, &st.title_sels) {
        Some(raw) => {
            let t = trim_chars(&raw);
            if t.len() > 0 {
                t
            } else {
                str_chars(st.placeholder.as_str())
            }
        },
        None => str_chars(st.placeholder.as_str()),
    };
    let author = match first_match_text(html, &st.author_sels) {
        Some(raw) => {
            let t = trim_chars(&raw);
            if t.len() > 0 {
                Some(crate::query::chars_string(&t))
            } else {
                None
            }
        },
        None => None,
    };
    let date = match extract_date(html, &st.date_sels) {
        Some(d) => Some(crate::query::chars_string(&d)),
        None => None,
    };
    let a = ArticleContent {
        title: crate::query::chars_string(&title),
        author,
        published_date: date,
        content: crate::query::chars_string(&body),
        summary: None,
        url: url.to_string(),
    };
    Ok(a)
}

/// Extracts a structured article record from raw HTML and its source URL.
/// Fails with `InvalidUrl` when the URL does not parse, and with
/// `NoContent` when no body selector of the chosen strategy yields a
/// qualifying paragraph.
pub fn extract(html: &str, url: &str) -> (r: Result<ArticleContent, ExtractionError>)
    ensures
        extraction_post(html@, url@, r),
{
    if !parse_url_ok(url) {
        return Err(ExtractionError::InvalidUrl);
    }
    let id = pick_strategy(url);
    let st = strategy_table(id);
    run_strategy(html, url, &st)
}

// ---------------------------------------------------------------------------
// Laws of the extraction engine.
// ---------------------------------------------------------------------------

proof fn lemma_first_hit_from(html: Seq<char>, sels: Seq<Seq<char>>, i: int, k: int)
    requires
        0 <= i <= k < sels.len(),
        sel_ok(sels[k]),
        texts_of(html, sels[k]).len() > 0,
        forall|j: int| i <= j < k ==> !(sel_ok(sels[j]) && texts_of(html, sels[j]).len() > 0),
    ensures
        first_hit(html, sels, i) == k,
    decreases k - i,
{
    if i < k {
        lemma_first_hit_from(html, sels, i + 1, k);
    }
}

/// First selector wins: when selector `k` of a field list matches at least
/// one element and no earlier selector does, the field text is the first
/// matched element of exactly selector `k`.
pub proof fn lemma_first_selector_wins(html: Seq<char>, sels: Seq<Seq<char>>, k: int)
    requires
        0 <= k < sels.len(),
        sel_ok(sels[k]),
        texts_of(html, sels[k]).len() > 0,
        forall|j: int| 0 <= j < k ==> !(sel_ok(sels[j]) && texts_of(html, sels[j]).len() > 0),
    ensures
        first_hit(html, sels, 0) == k,
        first_text(html, sels) == Some(texts_of(html, sels[k])[0]),
{
    lemma_first_hit_from(html, sels, 0, k);
}

/// First selector wins for the title: the engine returns the trimmed text
/// of the first matched element of the first matching title selector,
/// never a later one.
pub proof fn lemma_title_first_selector(html: Seq<char>, st: StrategySpec, k: int)
    requires
        0 <= k < st.title_sels.len(),
        sel_ok(st.title_sels[k]),
        texts_of(html, st.title_sels[k]).len() > 0,
        forall|j: int|
            0 <= j < k ==> !(sel_ok(st.title_sels[j]) && texts_of(html, st.title_sels[j]).len()
                > 0),
        trim_spec(texts_of(html, st.title_sels[k])[0]).len() > 0,
    ensures
        title_spec(html, st) == trim_spec(texts_of(html, st.title_sels[k])[0]),
{
    lemma_first_selector_wins(html, st.title_sels, k);
}

proof fn lemma_qualify_above_threshold(ts: Seq<Seq<char>>, thr: int, i: int)
    ensures
        forall|j: int|
            0 <= j < qualify_list(ts, thr, i).len() ==> #[trigger] qualify_list(ts, thr, i)[j].len()
                > thr,
    decreases ts.len() - i,
{
    if 0 <= i < ts.len() {
        lemma_qualify_above_threshold(ts, thr, i + 1);
        let t = trim_spec(ts[i]);
        let rest = qualify_list(ts, thr, i + 1);
        if t.len() > thr {
            assert forall|j: int| 0 <= j < qualify_list(ts, thr, i).len() implies #[trigger]
            qualify_list(ts, thr, i)[j].len() > thr by {
                if j > 0 {
                    assert(qualify_list(ts, thr, i)[j] == rest[j - 1]);
                }
            }
        }
    }
}

/// Body extraction never includes a paragraph whose trimmed length is at
/// or below the strategy's threshold.
pub proof fn lemma_body_paragraphs_above_threshold(html: Seq<char>, sel: Seq<char>, thr: int)
    ensures
        forall|j: int|
            0 <= j < body_paras(html, sel, thr).len() ==> #[trigger] body_paras(
                html,
                sel,
                thr,
            )[j].len() > thr,
{
    lemma_qualify_above_threshold(texts_of(html, sel), thr, 0);
}

proof fn lemma_body_hit_none(html: Seq<char>, sels: Seq<Seq<char>>, thr: int, i: int)
    requires
        0 <= i,
        forall|j: int| i <= j < sels.len() ==> body_paras(html, #[trigger] sels[j], thr).len() == 0,
    ensures
        body_hit(html, sels, thr, i) == -1,
    decreases sels.len() - i,
{
    if i < sels.len() {
        lemma_body_hit_none(html, sels, thr, i + 1);
    }
}

/// When every candidate body selector yields zero qualifying paragraphs,
/// extraction fails with the error identifying the chosen strategy; it
/// never fabricates a record.
pub proof fn lemma_all_empty_fails(
    html: Seq<char>,
    url: Seq<char>,
    r: Result<ArticleContent, ExtractionError>,
)
    requires
        url_ok(url),
        extraction_post(html, url, r),
        forall|j: int|
            0 <= j < strat_spec(strategy_for(url)).body_sels.len() ==> body_paras(
                html,
                #[trigger] strat_spec(strategy_for(url)).body_sels[j],
                strat_spec(strategy_for(url)).threshold,
            ).len() == 0,
    ensures
        r == Err::<ArticleContent, ExtractionError>(ExtractionError::NoContent(strategy_for(url))),
{
    lemma_body_hit_none(
        html,
        strat_spec(strategy_for(url)).body_sels,
        strat_spec(strategy_for(url)).threshold,
        0,
    );
}

proof fn lemma_join_lower(ps: Seq<Seq<char>>, i: int)
    requires
        0 <= i < ps.len(),
    ensures
        join_paras(ps, i).len() >= ps[i].len(),
{
}

/// On success the extracted body is never empty.
pub proof fn lemma_body_nonempty(html: Seq<char>, url: Seq<char>, a: ArticleContent)
    requires
        extraction_post(html, url, Ok(a)),
    ensures
        a.content@.len() > 0,
{
    let st = strat_spec(strategy_for(url));
    let j = body_hit(html, st.body_sels, st.threshold, 0);
    lemma_body_hit_pos(html, st.body_sels, st.threshold, 0);
    let ps = body_paras(html, st.body_sels[j], st.threshold);
    lemma_body_paragraphs_above_threshold(html, st.body_sels[j], st.threshold);
    assert(ps[0].len() > st.threshold);
    lemma_join_lower(ps, 0);
}

/// On success the title is never empty: a match with empty trimmed text
/// falls back to the strategy placeholder, and every placeholder is
/// non-empty.
pub proof fn lemma_title_nonempty(html: Seq<char>, url: Seq<char>, a: ArticleContent)
    requires
        extraction_post(html, url, Ok(a)),
    ensures
        a.title@.len() > 0,
{
    reveal_strlit("Untitled Article");
    reveal_strlit("BBC Article");
    reveal_strlit("New York Times Article");
    reveal_strlit("Article");
}

proof fn lemma_body_hit_pos(html: Seq<char>, sels: Seq<Seq<char>>, thr: int, i: int)
    requires
        0 <= i,
    ensures
        body_hit(html, sels, thr, i) >= 0 ==> {
            let j = body_hit(html, sels, thr, i);
            i <= j < sels.len() && body_paras(html, sels[j], thr).len() > 0
        },
    decreases sels.len() - i,
{
    if 0 <= i < sels.len() {
        lemma_body_hit_pos(html, sels, thr, i + 1);
    }
}

/// Picks the strategy for a source URL.
pub fn pick_strategy(url: &str) -> (id: StrategyId)
    ensures
        id == strategy_for(url@),
{
    let u = str_chars(url);
    let guardian = str_chars("theguardian.com");
    if contains_chars(&u, &guardian) {
        return StrategyId::Guardian;
    }
    let bbc1 = str_chars("bbc.co.uk");
    let bbc2 = str_chars("bbc.com");
    if contains_chars(&u, &bbc1) || contains_chars(&u, &bbc2) {
        return StrategyId::Bbc;
    }
    let nyt = str_chars("nytimes.com");
    if contains_chars(&u, &nyt) {
        return StrategyId::NyTimes;
    }
    StrategyId::Generic
}

} // verus!
