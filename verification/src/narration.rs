//! The narration pipeline: speech normalization of the article body and
//! sentence-boundary-aware truncation to a caller-supplied budget.
//!
//! Normalization applies, in this order: URL stripping, whitespace
//! collapsing, smart-quote and smart-apostrophe normalization, dash
//! replacement, blank-line collapsing, and a final trim. Each rewrite is a
//! spec function over `Seq<char>`, and the executable code is proved to
//! compute exactly those functions.

use vstd::prelude::*;

verus! {

use crate::text::{
    is_space,
    is_space_char,
    trim_spec,
    trim_chars,
    str_chars,
    extend_chars,
    first_non_space,
    last_non_space_end,
    lemma_first_non_space_bounds,
    lemma_last_non_space_end_bounds,
};
use crate::query::chars_string;
use crate::ArticleContent;

// ---------------------------------------------------------------------------
// URL stripping: every `http://`- or `https://`-prefixed token is removed up
// to the next whitespace character.
// ---------------------------------------------------------------------------

pub open spec fn http_at(s: Seq<char>, i: int) -> bool {
    &&& 0 <= i
    &&& i + 7 <= s.len()
    &&& s[i] == 'h'
    &&& s[i + 1] == 't'
    &&& s[i + 2] == 't'
    &&& s[i + 3] == 'p'
    &&& s[i + 4] == ':'
    &&& s[i + 5] == '/'
    &&& s[i + 6] == '/'
}

pub open spec fn https_at(s: Seq<char>, i: int) -> bool {
    &&& 0 <= i
    &&& i + 8 <= s.len()
    &&& s[i] == 'h'
    &&& s[i + 1] == 't'
    &&& s[i + 2] == 't'
    &&& s[i + 3] == 'p'
    &&& s[i + 4] == 's'
    &&& s[i + 5] == ':'
    &&& s[i + 6] == '/'
    &&& s[i + 7] == '/'
}

/// A URL token starts at `i`.
pub open spec fn url_at(s: Seq<char>, i: int) -> bool {
    http_at(s, i) || https_at(s, i)
}

/// The suffix of `s` from `i` with URL tokens removed. While `skipping`,
/// characters are dropped until the next whitespace character.
pub open spec fn strip_urls_from(s: Seq<char>, i: int, skipping: bool) -> Seq<char>
    decreases s.len() - i,
{
    if i < 0 || i >= s.len() {
        Seq::<char>::empty()
    } else if skipping && !is_space(s[i]) {
        strip_urls_from(s, i + 1, true)
    } else if url_at(s, i) {
        strip_urls_from(s, i + 1, true)
    } else {
        seq![s[i]] + strip_urls_from(s, i + 1, false)
    }
}

pub open spec fn strip_urls(s: Seq<char>) -> Seq<char> {
    strip_urls_from(s, 0, false)
}

fn url_at_exec(v: &Vec<char>, i: usize) -> (b: bool)
    requires
        i < v@.len(),
    ensures
        b == url_at(v@, i as int),
{
    if v[i] != 'h' {
        return false;
    }
    if v.len() - i >= 7 && v[i + 1] == 't' && v[i + 2] == 't' && v[i + 3] == 'p' {
        if v[i + 4] == ':' && v[i + 5] == '/' && v[i + 6] == '/' {
            return true;
        }
        if v.len() - i >= 8 && v[i + 4] == 's' && v[i + 5] == ':' && v[i + 6] == '/' && v[i + 7]
            == '/' {
            return true;
        }
    }
    false
}

fn strip_urls_exec(v: &Vec<char>) -> (r: Vec<char>)
    ensures
        r@ == strip_urls(v@),
{
    let mut out: Vec<char> = Vec::new();
    let mut i: usize = 0;
    let mut skipping: bool = false;
    while i < v.len()
        invariant
            0 <= i <= v@.len(),
            strip_urls(v@) == out@ + strip_urls_from(v@, i as int, skipping),
        decreases v@.len() - i,
    {
        let ghost prev = out@;
        let ghost osk = skipping;
        if skipping && !is_space_char(v[i]) {
        } else if url_at_exec(v, i) {
            skipping = true;
        } else {
            out.push(v[i]);
            skipping = false;
            assert(prev + strip_urls_from(v@, i as int, osk) =~= out@ + strip_urls_from(
                v@,
                i + 1,
                false,
            ));
        }
        i = i + 1;
    }
    assert(out@ =~= strip_urls(v@));
    out
}

// ---------------------------------------------------------------------------
// Whitespace collapsing: every maximal run of whitespace becomes one space.
// ---------------------------------------------------------------------------

/// The suffix of `s` from `i` with every whitespace run collapsed to a
/// single `' '`. While `in_run`, further whitespace of the current run is
/// dropped.
pub open spec fn collapse_ws_from(s: Seq<char>, i: int, in_run: bool) -> Seq<char>
    decreases s.len() - i,
{
    if i < 0 || i >= s.len() {
        Seq::<char>::empty()
    } else if is_space(s[i]) {
        if in_run {
            collapse_ws_from(s, i + 1, true)
        } else {
            seq![' '] + collapse_ws_from(s, i + 1, true)
        }
    } else {
        seq![s[i]] + collapse_ws_from(s, i + 1, false)
    }
}

pub open spec fn collapse_ws(s: Seq<char>) -> Seq<char> {
    collapse_ws_from(s, 0, false)
}

fn collapse_ws_exec(v: &Vec<char>) -> (r: Vec<char>)
    ensures
        r@ == collapse_ws(v@),
{
    let mut out: Vec<char> = Vec::new();
    let mut i: usize = 0;
    let mut in_run: bool = false;
    while i < v.len()
        invariant
            0 <= i <= v@.len(),
            collapse_ws(v@) == out@ + collapse_ws_from(v@, i as int, in_run),
        decreases v@.len() - i,
    {
        let ghost prev = out@;
        if is_space_char(v[i]) {
            if !in_run {
                out.push(' ');
                in_run = true;
                assert(prev + collapse_ws_from(v@, i as int, false) =~= out@ + collapse_ws_from(
                    v@,
                    i + 1,
                    true,
                ));
            }
        } else {
            out.push(v[i]);
            let ghost was = in_run;
            in_run = false;
            assert(prev + collapse_ws_from(v@, i as int, was) =~= out@ + collapse_ws_from(
                v@,
                i + 1,
                false,
            ));
        }
        i = i + 1;
    }
    assert(out@ =~= collapse_ws(v@));
    out
}

// ---------------------------------------------------------------------------
// Smart quotes and apostrophes.
// ---------------------------------------------------------------------------

/// Smart double quotes become `"`, smart single quotes become `'`.
pub open spec fn normalize_quote(c: char) -> char {
    if c == '\u{201c}' || c == '\u{201d}' {
        '"'
    } else if c == '\u{2018}' || c == '\u{2019}' {
        '\''
    } else {
        c
    }
}

pub open spec fn map_quotes_from(s: Seq<char>, i: int) -> Seq<char>
    decreases s.len() - i,
{
    if i < 0 || i >= s.len() {
        Seq::<char>::empty()
    } else {
        seq![normalize_quote(s[i])] + map_quotes_from(s, i + 1)
    }
}

pub open spec fn map_quotes(s: Seq<char>) -> Seq<char> {
    map_quotes_from(s, 0)
}

fn map_quotes_exec(v: &Vec<char>) -> (r: Vec<char>)
    ensures
        r@ == map_quotes(v@),
{
    let mut out: Vec<char> = Vec::new();
    let mut i: usize = 0;
    while i < v.len()
        invariant
            0 <= i <= v@.len(),
            map_quotes(v@) == out@ + map_quotes_from(v@, i as int),
        decreases v@.len() - i,
    {
        let ghost prev = out@;
        let c = v[i];
        if c == '\u{201c}' || c == '\u{201d}' {
            out.push('"');
        } else if c == '\u{2018}' || c == '\u{2019}' {
            out.push('\'');
        } else {
            out.push(c);
        }
        assert(prev + map_quotes_from(v@, i as int) =~= out@ + map_quotes_from(v@, i + 1));
        i = i + 1;
    }
    assert(out@ =~= map_quotes(v@));
    out
}

// ---------------------------------------------------------------------------
// Dashes: em and en dashes become " - ".
// ---------------------------------------------------------------------------

pub open spec fn is_dash(c: char) -> bool {
    c == '\u{2013}' || c == '\u{2014}'
}

pub open spec fn replace_dashes_from(s: Seq<char>, i: int) -> Seq<char>
    decreases s.len() - i,
{
    if i < 0 || i >= s.len() {
        Seq::<char>::empty()
    } else if is_dash(s[i]) {
        seq![' ', '-', ' '] + replace_dashes_from(s, i + 1)
    } else {
        seq![s[i]] + replace_dashes_from(s, i + 1)
    }
}

pub open spec fn replace_dashes(s: Seq<char>) -> Seq<char> {
    replace_dashes_from(s, 0)
}

fn replace_dashes_exec(v: &Vec<char>) -> (r: Vec<char>)
    ensures
        r@ == replace_dashes(v@),
{
    let mut out: Vec<char> = Vec::new();
    let mut i: usize = 0;
    while i < v.len()
        invariant
            0 <= i <= v@.len(),
            replace_dashes(v@) == out@ + replace_dashes_from(v@, i as int),
        decreases v@.len() - i,
    {
        let ghost prev = out@;
        let c = v[i];
        if c == '\u{2013}' || c == '\u{2014}' {
            out.push(' ');
            out.push('-');
            out.push(' ');
        } else {
            out.push(c);
        }
        assert(prev + replace_dashes_from(v@, i as int) =~= out@ + replace_dashes_from(v@, i + 1));
        i = i + 1;
    }
    assert(out@ =~= replace_dashes(v@));
    out
}

// ---------------------------------------------------------------------------
// Blank-line collapsing: a newline, optional whitespace, and another
// newline become exactly one blank line.
// ---------------------------------------------------------------------------

/// The last newline inside the whitespace run starting at `i`, or `-1` when
/// the run holds none.
pub open spec fn last_nl_in_run(s: Seq<char>, i: int) -> int
    decreases s.len() - i,
{
    if i < 0 || i >= s.len() || !is_space(s[i]) {
        -1
    } else {
        let rest = last_nl_in_run(s, i + 1);
        if rest >= 0 {
            rest
        } else if s[i] == '\n' {
            i
        } else {
            -1
        }
    }
}

pub proof fn lemma_last_nl_in_run(s: Seq<char>, i: int)
    requires
        0 <= i,
    ensures
        last_nl_in_run(s, i) == -1 || (i <= last_nl_in_run(s, i) < s.len() && s[last_nl_in_run(
            s,
            i,
        )] == '\n' && forall|k: int| i <= k <= last_nl_in_run(s, i) ==> is_space(s[k])),
    decreases s.len() - i,
{
    if 0 <= i < s.len() && is_space(s[i]) {
        lemma_last_nl_in_run(s, i + 1);
    }
}

pub open spec fn collapse_blank_from(s: Seq<char>, i: int) -> Seq<char>
    decreases s.len() - i,
    via collapse_blank_from_dec
{
    if i < 0 || i >= s.len() {
        Seq::<char>::empty()
    } else if s[i] == '\n' && last_nl_in_run(s, i + 1) >= 0 {
        seq!['\n', '\n'] + collapse_blank_from(s, last_nl_in_run(s, i + 1) + 1)
    } else {
        seq![s[i]] + collapse_blank_from(s, i + 1)
    }
}

#[via_fn]
proof fn collapse_blank_from_dec(s: Seq<char>, i: int) {
    if 0 <= i < s.len() && s[i] == '\n' && last_nl_in_run(s, i + 1) >= 0 {
        lemma_last_nl_in_run(s, i + 1);
    }
}

pub open spec fn collapse_blank(s: Seq<char>) -> Seq<char> {
    collapse_blank_from(s, 0)
}

/// The last newline seen inside the whitespace run starting at `i`, or
/// `None` when the run holds no newline.
fn scan_ws_run(v: &Vec<char>, i: usize) -> (r: Option<usize>)
    requires
        i <= v@.len(),
    ensures
        match r {
            Some(j) => j == last_nl_in_run(v@, i as int),
            None => last_nl_in_run(v@, i as int) == -1,
        },
    decreases v@.len() - i,
{
    if i < v.len() && is_space_char(v[i]) {
        let rest = scan_ws_run(v, i + 1);
        match rest {
            Some(j) => Some(j),
            None => if v[i] == '\n' {
                Some(i)
            } else {
                None
            },
        }
    } else {
        None
    }
}

fn collapse_blank_exec(v: &Vec<char>) -> (r: Vec<char>)
    ensures
        r@ == collapse_blank(v@),
{
    let mut out: Vec<char> = Vec::new();
    let mut i: usize = 0;
    while i < v.len()
        invariant
            0 <= i <= v@.len(),
            collapse_blank(v@) == out@ + collapse_blank_from(v@, i as int),
        decreases v@.len() - i,
    {
        let ghost prev = out@;
        if v[i] == '\n' {
            let nl = scan_ws_run(v, i + 1);
            if let Some(j) = nl {
                proof {
                    lemma_last_nl_in_run(v@, i + 1);
                }
                out.push('\n');
                out.push('\n');
                assert(prev + collapse_blank_from(v@, i as int) =~= out@ + collapse_blank_from(
                    v@,
                    j + 1,
                ));
                i = j + 1;
            } else {
                out.push(v[i]);
                assert(prev + collapse_blank_from(v@, i as int) =~= out@ + collapse_blank_from(
                    v@,
                    i + 1,
                ));
                i = i + 1;
            }
        } else {
            out.push(v[i]);
            assert(prev + collapse_blank_from(v@, i as int) =~= out@ + collapse_blank_from(
                v@,
                i + 1,
            ));
            i = i + 1;
        }
    }
    assert(out@ =~= collapse_blank(v@));
    out
}

// ---------------------------------------------------------------------------
// The normalization pipeline.
// ---------------------------------------------------------------------------

/// Speech normalization: strip URLs, collapse whitespace, normalize smart
/// quotes and apostrophes, replace dashes, collapse blank lines, trim.
pub open spec fn clean_spec(s: Seq<char>) -> Seq<char> {
    trim_spec(collapse_blank(replace_dashes(map_quotes(collapse_ws(strip_urls(s))))))
}

pub(crate) fn clean_vec(v: &Vec<char>) -> (r: Vec<char>)
    ensures
        r@ == clean_spec(v@),
{
    let s1 = strip_urls_exec(v);
    let s2 = collapse_ws_exec(&s1);
    let s3 = map_quotes_exec(&s2);
    let s4 = replace_dashes_exec(&s3);
    let s5 = collapse_blank_exec(&s4);
    let s6 = trim_chars(&s5);
    s6
}

/// Normalizes article text for speech synthesis.
pub fn clean_text_for_speech(text: &str) -> (r: String)
    ensures
        r@ == clean_spec(text@),
{
    let v = str_chars(text);
    let c = clean_vec(&v);
    chars_string(&c)
}

// ---------------------------------------------------------------------------
// Normal forms: texts on which every normalization stage is the identity.
// ---------------------------------------------------------------------------

/// No URL token starts anywhere in the text.
pub open spec fn no_urls(y: Seq<char>) -> bool {
    forall|i: int| !url_at(y, i)
}

/// Every whitespace character is a plain space.
pub open spec fn single_spaces(y: Seq<char>) -> bool {
    forall|i: int| 0 <= i < y.len() && is_space(#[trigger] y[i]) ==> y[i] == ' '
}

/// No two adjacent whitespace characters.
pub open spec fn no_space_runs(y: Seq<char>) -> bool {
    forall|i: int| 0 <= i < y.len() - 1 ==> !(is_space(#[trigger] y[i]) && is_space(y[i + 1]))
}

/// No smart quote or smart apostrophe remains.
pub open spec fn no_smart_quotes(y: Seq<char>) -> bool {
    forall|i: int| 0 <= i < y.len() ==> normalize_quote(#[trigger] y[i]) == y[i]
}

/// No en or em dash remains.
pub open spec fn no_dashes(y: Seq<char>) -> bool {
    forall|i: int| 0 <= i < y.len() ==> !is_dash(#[trigger] y[i])
}

/// No leading or trailing whitespace.
pub open spec fn edge_trimmed(y: Seq<char>) -> bool {
    y.len() > 0 ==> !is_space(y[0]) && !is_space(y[y.len() - 1])
}

/// Text on which normalization is the identity.
pub open spec fn speech_normal(y: Seq<char>) -> bool {
    &&& no_urls(y)
    &&& single_spaces(y)
    &&& no_space_runs(y)
    &&& no_smart_quotes(y)
    &&& no_dashes(y)
    &&& edge_trimmed(y)
}

proof fn lemma_strip_fixed(y: Seq<char>, i: int)
    requires
        no_urls(y),
        0 <= i <= y.len(),
    ensures
        strip_urls_from(y, i, false) == y.subrange(i, y.len() as int),
    decreases y.len() - i,
{
    if i < y.len() {
        lemma_strip_fixed(y, i + 1);
    }
    assert(strip_urls_from(y, i, false) =~= y.subrange(i, y.len() as int));
}

proof fn lemma_collapse_fixed(y: Seq<char>, i: int, b: bool)
    requires
        single_spaces(y),
        no_space_runs(y),
        0 <= i <= y.len(),
        b ==> (i == y.len() || !is_space(y[i])),
    ensures
        collapse_ws_from(y, i, b) == y.subrange(i, y.len() as int),
    decreases y.len() - i,
{
    if i < y.len() {
        if is_space(y[i]) {
            assert(y[i] == ' ');
            lemma_collapse_fixed(y, i + 1, true);
        } else {
            lemma_collapse_fixed(y, i + 1, false);
        }
    }
    assert(collapse_ws_from(y, i, b) =~= y.subrange(i, y.len() as int));
}

proof fn lemma_quotes_fixed(y: Seq<char>, i: int)
    requires
        no_smart_quotes(y),
        0 <= i <= y.len(),
    ensures
        map_quotes_from(y, i) == y.subrange(i, y.len() as int),
    decreases y.len() - i,
{
    if i < y.len() {
        lemma_quotes_fixed(y, i + 1);
    }
    assert(map_quotes_from(y, i) =~= y.subrange(i, y.len() as int));
}

proof fn lemma_dashes_fixed(y: Seq<char>, i: int)
    requires
        no_dashes(y),
        0 <= i <= y.len(),
    ensures
        replace_dashes_from(y, i) == y.subrange(i, y.len() as int),
    decreases y.len() - i,
{
    if i < y.len() {
        lemma_dashes_fixed(y, i + 1);
    }
    assert(replace_dashes_from(y, i) =~= y.subrange(i, y.len() as int));
}

proof fn lemma_blank_fixed(y: Seq<char>, i: int)
    requires
        single_spaces(y),
        0 <= i <= y.len(),
    ensures
        collapse_blank_from(y, i) == y.subrange(i, y.len() as int),
    decreases y.len() - i,
{
    if i < y.len() {
        assert(y[i] != '\n') by {
            if y[i] == '\n' {
                assert(is_space(y[i]));
            }
        }
        lemma_blank_fixed(y, i + 1);
    }
    assert(collapse_blank_from(y, i) =~= y.subrange(i, y.len() as int));
}

proof fn lemma_trim_fixed(y: Seq<char>)
    requires
        edge_trimmed(y),
    ensures
        trim_spec(y) == y,
{
    if y.len() > 0 {
        assert(first_non_space(y, 0) == 0);
        assert(last_non_space_end(y, y.len() as int) == y.len());
        assert(trim_spec(y) =~= y);
    } else {
        assert(trim_spec(y) =~= y);
    }
}

/// Normalization is the identity on text in normal form.
proof fn lemma_normal_fixed(y: Seq<char>)
    requires
        speech_normal(y),
    ensures
        clean_spec(y) == y,
{
    lemma_strip_fixed(y, 0);
    assert(strip_urls(y) =~= y);
    lemma_collapse_fixed(y, 0, false);
    assert(collapse_ws(y) =~= y);
    lemma_quotes_fixed(y, 0);
    assert(map_quotes(y) =~= y);
    lemma_dashes_fixed(y, 0);
    assert(replace_dashes(y) =~= y);
    lemma_blank_fixed(y, 0);
    assert(collapse_blank(y) =~= y);
    lemma_trim_fixed(y);
}

// ---------------------------------------------------------------------------
// The normalization stages establish the normal form (on dash-free input).
// ---------------------------------------------------------------------------

proof fn lemma_strip_no_dashes(s: Seq<char>, i: int, sk: bool)
    requires
        no_dashes(s),
    ensures
        no_dashes(strip_urls_from(s, i, sk)),
    decreases s.len() - i,
{
    if 0 <= i < s.len() {
        lemma_strip_no_dashes(s, i + 1, true);
        lemma_strip_no_dashes(s, i + 1, false);
    }
}

proof fn lemma_collapse_no_dashes(s: Seq<char>, i: int, b: bool)
    requires
        no_dashes(s),
    ensures
        no_dashes(collapse_ws_from(s, i, b)),
    decreases s.len() - i,
{
    if 0 <= i < s.len() {
        lemma_collapse_no_dashes(s, i + 1, true);
        lemma_collapse_no_dashes(s, i + 1, false);
    }
}

proof fn lemma_collapse_single(s: Seq<char>, i: int, b: bool)
    ensures
        single_spaces(collapse_ws_from(s, i, b)),
    decreases s.len() - i,
{
    if 0 <= i < s.len() {
        lemma_collapse_single(s, i + 1, true);
        lemma_collapse_single(s, i + 1, false);
    }
}

proof fn lemma_collapse_head(s: Seq<char>, i: int)
    ensures
        collapse_ws_from(s, i, true).len() > 0 ==> !is_space(collapse_ws_from(s, i, true)[0]),
    decreases s.len() - i,
{
    if 0 <= i < s.len() && is_space(s[i]) {
        lemma_collapse_head(s, i + 1);
    }
}

proof fn lemma_collapse_no_runs(s: Seq<char>, i: int, b: bool)
    ensures
        no_space_runs(collapse_ws_from(s, i, b)),
    decreases s.len() - i,
{
    if 0 <= i < s.len() {
        lemma_collapse_no_runs(s, i + 1, true);
        lemma_collapse_no_runs(s, i + 1, false);
        lemma_collapse_head(s, i + 1);
        let out = collapse_ws_from(s, i, b);
        if is_space(s[i]) && !b {
            let rest = collapse_ws_from(s, i + 1, true);
            assert forall|k: int|
                0 <= k < out.len() - 1 implies !(is_space(#[trigger] out[k]) && is_space(
                out[k + 1],
            )) by {
                if k == 0 {
                    assert(out[1] == rest[0]);
                } else {
                    assert(out[k] == rest[k - 1]);
                    assert(out[k + 1] == rest[k]);
                }
            }
        } else if !is_space(s[i]) {
            let rest = collapse_ws_from(s, i + 1, false);
            assert forall|k: int|
                0 <= k < out.len() - 1 implies !(is_space(#[trigger] out[k]) && is_space(
                out[k + 1],
            )) by {
                if k > 0 {
                    assert(out[k] == rest[k - 1]);
                    assert(out[k + 1] == rest[k]);
                }
            }
        }
    }
}

proof fn lemma_strip_skip_head(s: Seq<char>, i: int)
    ensures
        strip_urls_from(s, i, true).len() > 0 ==> is_space(strip_urls_from(s, i, true)[0]),
    decreases s.len() - i,
{
    if 0 <= i < s.len() && !is_space(s[i]) {
        lemma_strip_skip_head(s, i + 1);
    }
}

/// A non-space prefix of the stripped text is a verbatim prefix of the
/// source at the same position, and so cannot spell a URL that the source
/// did not.
proof fn lemma_strip_anchored(s: Seq<char>, i: int, m: int)
    requires
        0 <= i,
        0 < m,
        !url_at(s, i),
        strip_urls_from(s, i, false).len() >= m,
        forall|k: int| 0 <= k < m ==> !is_space(#[trigger] strip_urls_from(s, i, false)[k]),
    ensures
        i + m <= s.len(),
        strip_urls_from(s, i, false).subrange(0, m) == s.subrange(i, i + m),
    decreases m,
{
    let out = strip_urls_from(s, i, false);
    assert(i < s.len());
    let rest = strip_urls_from(s, i + 1, false);
    if m > 1 {
        assert(!is_space(out[1]));
        if url_at(s, i + 1) {
            lemma_strip_skip_head(s, i + 2);
            assert(rest == strip_urls_from(s, i + 2, true));
            assert(out[1] == rest[0]);
            assert(false);
        }
        assert forall|k: int| 0 <= k < m - 1 implies !is_space(#[trigger] rest[k]) by {
            assert(rest[k] == out[k + 1]);
        }
        lemma_strip_anchored(s, i + 1, m - 1);
    }
    assert(out == seq![s[i]] + rest);
    assert forall|k: int| 0 <= k < m implies out[k] == s[i + k] by {
        if k > 0 {
            assert(rest.subrange(0, m - 1)[k - 1] == s.subrange(i + 1, i + m)[k - 1]);
            assert(out[k] == rest[k - 1]);
        }
    }
    assert(out.subrange(0, m) =~= s.subrange(i, i + m));
}

proof fn lemma_strip_no_urls(s: Seq<char>, i: int, sk: bool)
    ensures
        no_urls(strip_urls_from(s, i, sk)),
    decreases s.len() - i,
{
    let out = strip_urls_from(s, i, sk);
    if i < 0 || i >= s.len() {
        assert forall|j: int| !url_at(out, j) by {}
    } else if sk && !is_space(s[i]) {
        lemma_strip_no_urls(s, i + 1, true);
    } else if url_at(s, i) {
        lemma_strip_no_urls(s, i + 1, true);
    } else {
        lemma_strip_no_urls(s, i + 1, false);
        let rest = strip_urls_from(s, i + 1, false);
        assert forall|j: int| !url_at(out, j) by {
            if url_at(out, j) {
                if j >= 1 {
                    assert(url_at(rest, j - 1)) by {
                        if http_at(out, j) {
                            assert(http_at(rest, j - 1));
                        } else {
                            assert(https_at(rest, j - 1));
                        }
                    }
                } else {
                    // j == 0: the head is s[i]; a URL pattern here is a
                    // non-space prefix of the source at i.
                    assert(out[0] == s[i]);
                    if sk {
                        // then s[i] is whitespace, never 'h'
                        assert(is_space(s[i]));
                        assert(false);
                    }
                    if http_at(out, 0) {
                        assert forall|k: int| 0 <= k < 7 implies !is_space(#[trigger] out[k]) by {}
                        lemma_strip_anchored(s, i, 7);
                        assert(http_at(s, i)) by {
                            assert forall|k: int| 0 <= k < 7 implies s[i + k] == out[k] by {
                                assert(s.subrange(i, i + 7)[k] == out.subrange(0, 7)[k]);
                            }
                        }
                        assert(false);
                    } else {
                        assert forall|k: int| 0 <= k < 8 implies !is_space(#[trigger] out[k]) by {}
                        lemma_strip_anchored(s, i, 8);
                        assert(https_at(s, i)) by {
                            assert forall|k: int| 0 <= k < 8 implies s[i + k] == out[k] by {
                                assert(s.subrange(i, i + 8)[k] == out.subrange(0, 8)[k]);
                            }
                        }
                        assert(false);
                    }
                }
            }
        }
    }
}

/// A non-space prefix of the collapsed text is a verbatim run of the
/// source starting at its first non-space character.
proof fn lemma_collapse_anchored(s: Seq<char>, i: int, b: bool, m: int)
    requires
        0 <= i,
        0 < m,
        collapse_ws_from(s, i, b).len() >= m,
        forall|k: int| 0 <= k < m ==> !is_space(#[trigger] collapse_ws_from(s, i, b)[k]),
    ensures
        first_non_space(s, i) + m <= s.len(),
        collapse_ws_from(s, i, b).subrange(0, m) == s.subrange(
            first_non_space(s, i),
            first_non_space(s, i) + m,
        ),
    decreases s.len() - i,
{
    let out = collapse_ws_from(s, i, b);
    assert(i < s.len());
    if is_space(s[i]) {
        if b {
            lemma_collapse_anchored(s, i + 1, true, m);
            assert(out.subrange(0, m) =~= s.subrange(
                first_non_space(s, i),
                first_non_space(s, i) + m,
            ));
        } else {
            assert(!is_space(out[0]));
            assert(false);
        }
    } else {
        assert(first_non_space(s, i) == i);
        let rest = collapse_ws_from(s, i + 1, false);
        if m > 1 {
            assert(!is_space(out[1]));
            assert(out[1] == rest[0]);
            if i + 1 == s.len() {
                assert(false);
            }
            if is_space(s[i + 1]) {
                assert(rest[0] == ' ');
                assert(false);
            }
            assert forall|k: int| 0 <= k < m - 1 implies !is_space(#[trigger] rest[k]) by {
                assert(rest[k] == out[k + 1]);
            }
            lemma_collapse_anchored(s, i + 1, false, m - 1);
            assert(first_non_space(s, i + 1) == i + 1);
        }
        assert(out == seq![s[i]] + rest);
        assert forall|k: int| 0 <= k < m implies out[k] == s[i + k] by {
            if k > 0 {
                assert(rest.subrange(0, m - 1)[k - 1] == s.subrange(i + 1, i + m)[k - 1]);
                assert(out[k] == rest[k - 1]);
            }
        }
        assert(out.subrange(0, m) =~= s.subrange(i, i + m));
    }
}

proof fn lemma_collapse_no_urls(s: Seq<char>, i: int, b: bool)
    requires
        no_urls(s),
        0 <= i,
    ensures
        no_urls(collapse_ws_from(s, i, b)),
    decreases s.len() - i,
{
    let out = collapse_ws_from(s, i, b);
    if i >= s.len() {
        assert forall|j: int| !url_at(out, j) by {}
    } else if is_space(s[i]) && b {
        lemma_collapse_no_urls(s, i + 1, true);
    } else {
        let rest = if is_space(s[i]) {
            collapse_ws_from(s, i + 1, true)
        } else {
            collapse_ws_from(s, i + 1, false)
        };
        if is_space(s[i]) {
            lemma_collapse_no_urls(s, i + 1, true);
        } else {
            lemma_collapse_no_urls(s, i + 1, false);
        }
        assert forall|j: int| !url_at(out, j) by {
            if url_at(out, j) {
                if j >= 1 {
                    assert(url_at(rest, j - 1)) by {
                        if http_at(out, j) {
                            assert(http_at(rest, j - 1));
                        } else {
                            assert(https_at(rest, j - 1));
                        }
                    }
                } else {
                    if is_space(s[i]) {
                        assert(out[0] == ' ');
                        assert(false);
                    }
                    if http_at(out, 0) {
                        assert forall|k: int| 0 <= k < 7 implies !is_space(#[trigger] out[k]) by {}
                        lemma_collapse_anchored(s, i, b, 7);
                        assert(http_at(s, first_non_space(s, i))) by {
                            assert forall|k: int|
                                0 <= k < 7 implies s[first_non_space(s, i) + k] == out[k] by {
                                assert(s.subrange(
                                    first_non_space(s, i),
                                    first_non_space(s, i) + 7,
                                )[k] == out.subrange(0, 7)[k]);
                            }
                        }
                        assert(url_at(s, first_non_space(s, i)));
                        assert(false);
                    } else {
                        assert forall|k: int| 0 <= k < 8 implies !is_space(#[trigger] out[k]) by {}
                        lemma_collapse_anchored(s, i, b, 8);
                        assert(https_at(s, first_non_space(s, i))) by {
                            assert forall|k: int|
                                0 <= k < 8 implies s[first_non_space(s, i) + k] == out[k] by {
                                assert(s.subrange(
                                    first_non_space(s, i),
                                    first_non_space(s, i) + 8,
                                )[k] == out.subrange(0, 8)[k]);
                            }
                        }
                        assert(url_at(s, first_non_space(s, i)));
                        assert(false);
                    }
                }
            }
        }
    }
}

proof fn lemma_quotes_index(s: Seq<char>, i: int)
    requires
        0 <= i <= s.len(),
    ensures
        map_quotes_from(s, i).len() == s.len() - i,
        forall|k: int|
            0 <= k < s.len() - i ==> #[trigger] map_quotes_from(s, i)[k] == normalize_quote(
                s[i + k],
            ),
    decreases s.len() - i,
{
    if i < s.len() {
        lemma_quotes_index(s, i + 1);
    }
}

/// Quote normalization preserves the other normal-form properties and
/// leaves no smart characters behind.
proof fn lemma_quotes_preserves(y: Seq<char>)
    requires
        no_urls(y),
        single_spaces(y),
        no_space_runs(y),
    ensures
        no_urls(map_quotes(y)),
        single_spaces(map_quotes(y)),
        no_space_runs(map_quotes(y)),
        no_smart_quotes(map_quotes(y)),
{
    lemma_quotes_index(y, 0);
    let out = map_quotes(y);
    assert forall|k: int|
        0 <= k < y.len() implies (is_space(#[trigger] out[k]) ==> out[k] == y[k]) && (!(out[k] == '"'
        || out[k] == '\'') ==> out[k] == y[k]) && normalize_quote(out[k]) == out[k] by {
        assert(out[k] == normalize_quote(y[k]));
    }
    assert forall|j: int| !url_at(out, j) by {
        if url_at(out, j) {
            if http_at(out, j) {
                assert(http_at(y, j));
            } else {
                assert(https_at(y, j));
            }
            assert(url_at(y, j));
            assert(false);
        }
    }
    assert forall|i: int|
        0 <= i < out.len() - 1 implies !(is_space(#[trigger] out[i]) && is_space(out[i + 1])) by {
        if is_space(out[i]) && is_space(out[i + 1]) {
            assert(out[i] == y[i] && out[i + 1] == y[i + 1]);
        }
    }
}

proof fn lemma_quotes_no_dashes(y: Seq<char>)
    requires
        no_dashes(y),
    ensures
        no_dashes(map_quotes(y)),
{
    lemma_quotes_index(y, 0);
    let out = map_quotes(y);
    assert forall|k: int| 0 <= k < out.len() implies !is_dash(#[trigger] out[k]) by {
        assert(out[k] == normalize_quote(y[k]));
    }
}

/// Every dash stands clear of whitespace: no whitespace or dash directly
/// after it, no whitespace directly before it.
pub open spec fn dashes_isolated(m: Seq<char>) -> bool {
    forall|i: int|
        0 <= i < m.len() && is_dash(#[trigger] m[i]) ==> ((i + 1 < m.len() ==> !is_space(m[i + 1])
            && !is_dash(m[i + 1])) && (i > 0 ==> !is_space(m[i - 1])))
}

proof fn lemma_dashes_out_chars(m: Seq<char>, i: int)
    requires
        single_spaces(m),
        no_smart_quotes(m),
    ensures
        no_dashes(replace_dashes_from(m, i)),
        single_spaces(replace_dashes_from(m, i)),
        no_smart_quotes(replace_dashes_from(m, i)),
    decreases m.len() - i,
{
    if 0 <= i < m.len() {
        lemma_dashes_out_chars(m, i + 1);
    }
}

proof fn lemma_dashes_head(m: Seq<char>, i: int)
    ensures
        replace_dashes_from(m, i).len() > 0 ==> 0 <= i < m.len() && replace_dashes_from(m, i)[0]
            == (if is_dash(m[i]) {
            ' '
        } else {
            m[i]
        }),
{
}

proof fn lemma_dashes_no_runs(m: Seq<char>, i: int)
    requires
        single_spaces(m),
        no_space_runs(m),
        dashes_isolated(m),
        0 <= i,
    ensures
        no_space_runs(replace_dashes_from(m, i)),
    decreases m.len() - i,
{
    if i < m.len() {
        lemma_dashes_no_runs(m, i + 1);
        lemma_dashes_head(m, i + 1);
        let out = replace_dashes_from(m, i);
        let rest = replace_dashes_from(m, i + 1);
        if is_dash(m[i]) {
            assert forall|k: int|
                0 <= k < out.len() - 1 implies !(is_space(#[trigger] out[k]) && is_space(
                out[k + 1],
            )) by {
                if k == 2 {
                    assert(out[3] == rest[0]);
                } else if k >= 3 {
                    assert(out[k] == rest[k - 3]);
                    assert(out[k + 1] == rest[k - 2]);
                }
            }
        } else {
            assert forall|k: int|
                0 <= k < out.len() - 1 implies !(is_space(#[trigger] out[k]) && is_space(
                out[k + 1],
            )) by {
                if k == 0 {
                    assert(out[1] == rest[0]);
                    if is_dash(m[i + 1]) {
                        // the inserted space meets m[i], which isolation
                        // keeps non-whitespace
                        assert(!is_space(m[i]));
                    }
                } else {
                    assert(out[k] == rest[k - 1]);
                    assert(out[k + 1] == rest[k]);
                }
            }
        }
    }
}

/// A non-space prefix of the dash-replaced text is a verbatim prefix of
/// its source: every inserted hyphen sits between inserted spaces.
proof fn lemma_dashes_anchored(m: Seq<char>, i: int, k: int)
    requires
        0 <= i,
        0 < k,
        replace_dashes_from(m, i).len() >= k,
        forall|j: int| 0 <= j < k ==> !is_space(#[trigger] replace_dashes_from(m, i)[j]),
    ensures
        i + k <= m.len(),
        replace_dashes_from(m, i).subrange(0, k) == m.subrange(i, i + k),
    decreases k,
{
    let out = replace_dashes_from(m, i);
    assert(i < m.len());
    if is_dash(m[i]) {
        assert(!is_space(out[0]));
        assert(false);
    }
    let rest = replace_dashes_from(m, i + 1);
    if k > 1 {
        assert(!is_space(out[1]));
        assert(out[1] == rest[0]);
        lemma_dashes_head(m, i + 1);
        if is_dash(m[i + 1]) {
            assert(false);
        }
        assert forall|j: int| 0 <= j < k - 1 implies !is_space(#[trigger] rest[j]) by {
            assert(rest[j] == out[j + 1]);
        }
        lemma_dashes_anchored(m, i + 1, k - 1);
    }
    assert(out == seq![m[i]] + rest);
    assert forall|j: int| 0 <= j < k implies out[j] == m[i + j] by {
        if j > 0 {
            assert(rest.subrange(0, k - 1)[j - 1] == m.subrange(i + 1, i + k)[j - 1]);
            assert(out[j] == rest[j - 1]);
        }
    }
    assert(out.subrange(0, k) =~= m.subrange(i, i + k));
}

proof fn lemma_dashes_no_urls(m: Seq<char>, i: int)
    requires
        no_urls(m),
        0 <= i,
    ensures
        no_urls(replace_dashes_from(m, i)),
    decreases m.len() - i,
{
    let out = replace_dashes_from(m, i);
    if i >= m.len() {
        assert forall|j: int| !url_at(out, j) by {}
    } else if is_dash(m[i]) {
        lemma_dashes_no_urls(m, i + 1);
        let rest = replace_dashes_from(m, i + 1);
        assert forall|j: int| !url_at(out, j) by {
            if url_at(out, j) {
                if j >= 3 {
                    assert(url_at(rest, j - 3)) by {
                        if http_at(out, j) {
                            assert(http_at(rest, j - 3));
                        } else {
                            assert(https_at(rest, j - 3));
                        }
                    }
                } else {
                    // the inserted " - " holds no 'h'
                    assert(out[j] == 'h');
                    assert(false);
                }
            }
        }
    } else {
        lemma_dashes_no_urls(m, i + 1);
        let rest = replace_dashes_from(m, i + 1);
        assert forall|j: int| !url_at(out, j) by {
            if url_at(out, j) {
                if j >= 1 {
                    assert(url_at(rest, j - 1)) by {
                        if http_at(out, j) {
                            assert(http_at(rest, j - 1));
                        } else {
                            assert(https_at(rest, j - 1));
                        }
                    }
                } else {
                    if http_at(out, 0) {
                        assert forall|k: int| 0 <= k < 7 implies !is_space(#[trigger] out[k]) by {}
                        lemma_dashes_anchored(m, i, 7);
                        assert(http_at(m, i)) by {
                            assert forall|k: int| 0 <= k < 7 implies m[i + k] == out[k] by {
                                assert(m.subrange(i, i + 7)[k] == out.subrange(0, 7)[k]);
                            }
                        }
                        assert(url_at(m, i));
                        assert(false);
                    } else {
                        assert forall|k: int| 0 <= k < 8 implies !is_space(#[trigger] out[k]) by {}
                        lemma_dashes_anchored(m, i, 8);
                        assert(https_at(m, i)) by {
                            assert forall|k: int| 0 <= k < 8 implies m[i + k] == out[k] by {
                                assert(m.subrange(i, i + 8)[k] == out.subrange(0, 8)[k]);
                            }
                        }
                        assert(url_at(m, i));
                        assert(false);
                    }
                }
            }
        }
    }
}

/// Every normal-form property survives taking a contiguous slice.
proof fn lemma_subrange_preserves(y: Seq<char>, a: int, b: int)
    requires
        0 <= a <= b <= y.len(),
        no_urls(y),
        single_spaces(y),
        no_space_runs(y),
        no_smart_quotes(y),
        no_dashes(y),
    ensures
        no_urls(y.subrange(a, b)),
        single_spaces(y.subrange(a, b)),
        no_space_runs(y.subrange(a, b)),
        no_smart_quotes(y.subrange(a, b)),
        no_dashes(y.subrange(a, b)),
{
    let out = y.subrange(a, b);
    assert forall|j: int| !url_at(out, j) by {
        if url_at(out, j) {
            if http_at(out, j) {
                assert(http_at(y, a + j));
            } else {
                assert(https_at(y, a + j));
            }
            assert(url_at(y, a + j));
            assert(false);
        }
    }
}

/// Narration normalization is idempotent whenever, in the URL-stripped,
/// whitespace-collapsed, quote-normalized text, every en or em dash stands
/// clear of whitespace. A dash beside whitespace makes the dash rewrite
/// leave a double space that only a second pass would collapse, so those
/// texts are left out.
pub proof fn lemma_clean_idempotent(s: Seq<char>)
    requires
        dashes_isolated(map_quotes(collapse_ws(strip_urls(s)))),
    ensures
        clean_spec(clean_spec(s)) == clean_spec(s),
{
    let y1 = strip_urls(s);
    let y2 = collapse_ws(y1);
    let y3 = map_quotes(y2);
    let y4 = replace_dashes(y3);
    lemma_strip_no_urls(s, 0, false);
    lemma_collapse_no_urls(y1, 0, false);
    lemma_collapse_single(y1, 0, false);
    lemma_collapse_no_runs(y1, 0, false);
    lemma_quotes_preserves(y2);
    lemma_dashes_out_chars(y3, 0);
    lemma_dashes_no_runs(y3, 0);
    lemma_dashes_no_urls(y3, 0);
    lemma_blank_fixed(y4, 0);
    assert(collapse_blank(y4) =~= y4);
    let a = first_non_space(y4, 0);
    lemma_first_non_space_bounds(y4, 0);
    if a == y4.len() {
        assert(clean_spec(s) == Seq::<char>::empty());
        assert forall|j: int| !url_at(Seq::<char>::empty(), j) by {}
        lemma_normal_fixed(Seq::<char>::empty());
    } else {
        let b = last_non_space_end(y4, y4.len() as int);
        lemma_last_non_space_end_bounds(y4, y4.len() as int);
        if b <= a {
            assert(is_space(y4[a]));
            assert(false);
        }
        lemma_subrange_preserves(y4, a, b);
        let t = y4.subrange(a, b);
        assert(!is_space(t[0]));
        assert(!is_space(t[t.len() - 1]));
        lemma_normal_fixed(t);
        assert(clean_spec(s) == t);
    }
}

/// On text with no en or em dash at all the isolation condition holds
/// vacuously, so normalization is idempotent.
pub proof fn lemma_clean_idempotent_dash_free(s: Seq<char>)
    requires
        no_dashes(s),
    ensures
        clean_spec(clean_spec(s)) == clean_spec(s),
{
    lemma_strip_no_dashes(s, 0, false);
    lemma_collapse_no_dashes(strip_urls(s), 0, false);
    lemma_quotes_no_dashes(collapse_ws(strip_urls(s)));
    lemma_clean_idempotent(s);
}

// ---------------------------------------------------------------------------
// Sentence-boundary truncation.
// ---------------------------------------------------------------------------

/// The largest `j <= i` where `w[j] == c` is followed by a space, or `-1`.
pub open spec fn rfind_pair(w: Seq<char>, c: char, i: int) -> int
    decreases i + 1,
{
    if i < 0 {
        -1
    } else if i + 1 < w.len() && w[i] == c && w[i + 1] == ' ' {
        i
    } else {
        rfind_pair(w, c, i - 1)
    }
}

/// The largest `j <= i` where `w[j] == c`, or `-1`.
pub open spec fn rfind_char(w: Seq<char>, c: char, i: int) -> int
    decreases i + 1,
{
    if i < 0 {
        -1
    } else if i < w.len() && w[i] == c {
        i
    } else {
        rfind_char(w, c, i - 1)
    }
}

/// Sentence-boundary truncation to at most `n` characters of content. Within
/// the first `n` characters, the cut is at the last `". "`, else the last
/// `"! "`, else the last `"? "` (keeping the punctuation mark); failing all
/// three, at the last space, else at `n`, with `"..."` appended.
pub open spec fn truncate_spec(s: Seq<char>, n: int) -> Seq<char> {
    if s.len() <= n {
        s
    } else {
        let w = s.subrange(0, n);
        let p = rfind_pair(w, '.', n - 2);
        let e = rfind_pair(w, '!', n - 2);
        let q = rfind_pair(w, '?', n - 2);
        let sp = rfind_char(w, ' ', n - 1);
        if p >= 0 {
            w.subrange(0, p) + seq!['.']
        } else if e >= 0 {
            w.subrange(0, e) + seq!['!']
        } else if q >= 0 {
            w.subrange(0, q) + seq!['?']
        } else if sp >= 0 {
            w.subrange(0, sp) + seq!['.', '.', '.']
        } else {
            w + seq!['.', '.', '.']
        }
    }
}

fn rfind_pair_exec(w: &Vec<char>, c: char) -> (r: Option<usize>)
    ensures
        match r {
            Some(j) => j == rfind_pair(w@, c, w@.len() - 2) && 0 <= j <= w@.len() - 2,
            None => rfind_pair(w@, c, w@.len() - 2) == -1,
        },
{
    if w.len() < 2 {
        return None;
    }
    let mut j: usize = w.len() - 2;
    loop
        invariant
            2 <= w@.len() <= usize::MAX,
            0 <= j <= w@.len() - 2,
            rfind_pair(w@, c, w@.len() - 2) == rfind_pair(w@, c, j as int),
        decreases j,
    {
        if w[j] == c && w[j + 1] == ' ' {
            return Some(j);
        }
        if j == 0 {
            assert(rfind_pair(w@, c, -1) == -1);
            return None;
        }
        j = j - 1;
    }
}

fn rfind_char_exec(w: &Vec<char>, c: char) -> (r: Option<usize>)
    ensures
        match r {
            Some(j) => j == rfind_char(w@, c, w@.len() - 1) && 0 <= j <= w@.len() - 1,
            None => rfind_char(w@, c, w@.len() - 1) == -1,
        },
{
    if w.len() == 0 {
        return None;
    }
    let mut j: usize = w.len() - 1;
    loop
        invariant
            w@.len() >= 1,
            0 <= j <= w@.len() - 1,
            rfind_char(w@, c, w@.len() - 1) == rfind_char(w@, c, j as int),
        decreases j,
    {
        if w[j] == c {
            return Some(j);
        }
        if j == 0 {
            assert(rfind_char(w@, c, -1) == -1);
            return None;
        }
        j = j - 1;
    }
}

/// The first `k` characters, copied.
fn prefix_of(v: &Vec<char>, k: usize) -> (r: Vec<char>)
    requires
        k <= v@.len(),
    ensures
        r@ == v@.subrange(0, k as int),
{
    let mut r: Vec<char> = Vec::new();
    let mut i: usize = 0;
    while i < k
        invariant
            0 <= i <= k <= v@.len(),
            r@ == v@.subrange(0, i as int),
        decreases k - i,
    {
        r.push(v[i]);
        i = i + 1;
        assert(r@ =~= v@.subrange(0, i as int));
    }
    r
}

pub(crate) fn truncate_vec(s: &Vec<char>, n: usize) -> (r: Vec<char>)
    ensures
        r@ == truncate_spec(s@, n as int),
{
    if s.len() <= n {
        let mut r: Vec<char> = Vec::new();
        extend_chars(&mut r, s);
        assert(r@ =~= s@);
        return r;
    }
    let w = prefix_of(s, n);
    if let Some(p) = rfind_pair_exec(&w, '.') {
        let mut r = prefix_of(&w, p);
        r.push('.');
        assert(r@ =~= truncate_spec(s@, n as int));
        return r;
    }
    if let Some(e) = rfind_pair_exec(&w, '!') {
        let mut r = prefix_of(&w, e);
        r.push('!');
        assert(r@ =~= truncate_spec(s@, n as int));
        return r;
    }
    if let Some(q) = rfind_pair_exec(&w, '?') {
        let mut r = prefix_of(&w, q);
        r.push('?');
        assert(r@ =~= truncate_spec(s@, n as int));
        return r;
    }
    if let Some(sp) = rfind_char_exec(&w, ' ') {
        let mut r = prefix_of(&w, sp);
        r.push('.');
        r.push('.');
        r.push('.');
        assert(r@ =~= truncate_spec(s@, n as int));
        return r;
    }
    let mut r = w;
    r.push('.');
    r.push('.');
    r.push('.');
    assert(r@ =~= truncate_spec(s@, n as int));
    r
}

proof fn lemma_rfind_pair_le(w: Seq<char>, c: char, i: int)
    ensures
        rfind_pair(w, c, i) <= i || rfind_pair(w, c, i) == -1,
    decreases i + 1,
{
    if i >= 0 {
        lemma_rfind_pair_le(w, c, i - 1);
    }
}

proof fn lemma_rfind_char_le(w: Seq<char>, c: char, i: int)
    ensures
        rfind_char(w, c, i) <= i || rfind_char(w, c, i) == -1,
    decreases i + 1,
{
    if i >= 0 {
        lemma_rfind_char_le(w, c, i - 1);
    }
}

/// Truncation respects the budget: when the text exceeds `n` characters,
/// the truncated text holds at most `n + 3` (a sentence cut stays under
/// `n`; the `"..."` fallback can add three to the cut).
pub proof fn lemma_truncate_budget(s: Seq<char>, n: int)
    requires
        0 <= n < s.len(),
    ensures
        truncate_spec(s, n).len() <= n + 3,
{
    let w = s.subrange(0, n);
    lemma_rfind_pair_le(w, '.', n - 2);
    lemma_rfind_pair_le(w, '!', n - 2);
    lemma_rfind_pair_le(w, '?', n - 2);
    lemma_rfind_char_le(w, ' ', n - 1);
}

/// The narration respects the budget: when the normalized body exceeds
/// `max`, the whole narration is bounded by the header, the budget plus
/// three, and the fixed trailer.
pub proof fn lemma_narration_budget(a: ArticleContent, max: int)
    requires
        0 <= max,
        clean_spec(a.content@).len() > max,
    ensures
        process_spec(a, max).len() <= header_spec(a).len() + max + 3 + narration_trailer().len(),
{
    lemma_truncate_budget(clean_spec(a.content@), max);
}

/// Truncates at a sentence boundary within the first `max_length`
/// characters; text within the budget is returned unchanged.
pub fn truncate_at_sentence(text: &str, max_length: usize) -> (r: String)
    ensures
        r@ == truncate_spec(text@, max_length as int),
{
    let v = str_chars(text);
    let t = truncate_vec(&v, max_length);
    chars_string(&t)
}

// ---------------------------------------------------------------------------
// Narration assembly.
// ---------------------------------------------------------------------------

/// The spoken header: the title, then the author and the publication date
/// when present.
pub open spec fn header_spec(a: ArticleContent) -> Seq<char> {
    "Article: "@ + a.title@ + "\n\n"@ + (match a.author {
        Some(au) => "By "@ + au@ + "\n\n"@,
        None => Seq::<char>::empty(),
    }) + (match a.published_date {
        Some(d) => "Published "@ + d@ + "\n\n"@,
        None => Seq::<char>::empty(),
    })
}

/// The fixed notice appended when the body had to be shortened.
pub open spec fn narration_trailer() -> Seq<char> {
    "\n\nThis article has been shortened for audio. The full version is available at the original link."@
}

/// The full narration text: header, then the normalized body, truncated at
/// a sentence boundary with the fixed trailer when it exceeds the budget.
pub open spec fn process_spec(a: ArticleContent, max: int) -> Seq<char> {
    header_spec(a) + (if clean_spec(a.content@).len() > max {
        truncate_spec(clean_spec(a.content@), max) + narration_trailer()
    } else {
        clean_spec(a.content@)
    })
}

/// Prepares an article for narration: header assembly, speech
/// normalization of the body, and budget enforcement.
pub fn process_content_for_audio(article: &ArticleContent, max_length: usize) -> (r: String)
    ensures
        r@ == process_spec(*article, max_length as int),
{
    let mut out: Vec<char> = Vec::new();
    let lit_article = str_chars("Article: ");
    extend_chars(&mut out, &lit_article);
    let title = str_chars(article.title.as_str());
    extend_chars(&mut out, &title);
    let blank = str_chars("\n\n");
    extend_chars(&mut out, &blank);
    match &article.author {
        Some(au) => {
            let lit_by = str_chars("By ");
            extend_chars(&mut out, &lit_by);
            let a = str_chars(au.as_str());
            extend_chars(&mut out, &a);
            extend_chars(&mut out, &blank);
        },
        None => {},
    }
    match &article.published_date {
        Some(d) => {
            let lit_pub = str_chars("Published ");
            extend_chars(&mut out, &lit_pub);
            let dd = str_chars(d.as_str());
            extend_chars(&mut out, &dd);
            extend_chars(&mut out, &blank);
        },
        None => {},
    }
    assert(out@ =~= header_spec(*article));
    let content = str_chars(article.content.as_str());
    let cleaned = clean_vec(&content);
    if cleaned.len() > max_length {
        let tr = truncate_vec(&cleaned, max_length);
        extend_chars(&mut out, &tr);
        let trail = str_chars(
            "\n\nThis article has been shortened for audio. The full version is available at the original link.",
        );
        extend_chars(&mut out, &trail);
    } else {
        extend_chars(&mut out, &cleaned);
    }
    assert(out@ =~= process_spec(*article, max_length as int));
    chars_string(&out)
}

} // verus!
