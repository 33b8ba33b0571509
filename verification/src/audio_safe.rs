//! Audio-safe formatting for spoken channel output.
//!
//! The formatter is deterministic and conservative: it removes common
//! Markdown that sounds bad in text-to-speech and expands high-value symbols
//! (for now mostly weather and measurement output) into natural Polish
//! speech.

use vstd::prelude::*;
use crate::outside::{regex_replace_all, regex_replace_all_result};
use crate::text::{
    chars_of, string_from_chars, trim, trim_ws, trim_start_ws, trim_end_ws, truncate_chars,
    truncated, ELLIPSIS,
};

verus! {

/// ANSI colour and style escape sequences.
pub const ANSI_ESCAPE_PATTERN: &'static str = "\x1b\\[[0-9;]*m";

/// Fenced code blocks, spanning lines, matched lazily.
pub const FENCED_CODE_PATTERN: &'static str = "(?s)```.*?```";

/// Celsius temperatures: `18°C`, `19 *C`, `20 C` (a number, optionally
/// negative or with a decimal part, followed by a Celsius marker).
pub const CELSIUS_PATTERN: &'static str = "(?i)\\b(-?\\d+(?:[\\.,]\\d+)?)\\s*(?:°\\s*c|\\*\\s*c|c)\\b";

/// Percentages: a number followed by `%`.
pub const PERCENT_PATTERN: &'static str = "\\b(\\d+(?:[\\.,]\\d+)?)\\s*%";

/// Markdown list bullets at the start of a line.
pub const MARKDOWN_BULLET_PATTERN: &'static str = "(?m)^\\s*[-*+]\\s+";

/// Markdown heading markers at the start of a line.
pub const MARKDOWN_HEADING_PATTERN: &'static str = "(?m)^\\s{0,3}#{1,6}\\s*";

/// Runs of whitespace.
pub const WHITESPACE_PATTERN: &'static str = "\\s+";

/// What a fenced code block is spoken as.
pub const CODE_FRAGMENT_SPEECH: &'static str = " fragment kodu ";

/// What a Celsius temperature is spoken as (`$1` is the number).
pub const CELSIUS_SPEECH: &'static str = "$1 stopni Celsjusza";

/// What a percentage is spoken as (`$1` is the number).
pub const PERCENT_SPEECH: &'static str = "$1 procent";

/// The empty replacement (the match is removed).
pub const NOTHING: &'static str = "";

/// A single space.
pub const SINGLE_SPACE: &'static str = " ";

/// One regex substitution step: every match of `pattern` in `s` replaced by
/// `replacement`; a pattern that does not compile leaves `s` as it is.
pub open spec fn substituted(pattern: Seq<char>, s: Seq<char>, replacement: Seq<char>) -> Seq<
    char,
> {
    match regex_replace_all_result(pattern, s, replacement) {
        Some(r) => r,
        None => s,
    }
}

/// Markdown punctuation that text-to-speech tends to read out literally.
pub open spec fn is_markdown_punct(c: char) -> bool {
    c == '`' || c == '*' || c == '_' || c == '#' || c == '>' || c == '[' || c == ']'
}

/// `s` with every Markdown punctuation character removed.
pub open spec fn without_markdown_punct(s: Seq<char>) -> Seq<char>
    decreases s.len(),
{
    if s.len() == 0 {
        s
    } else if is_markdown_punct(s.last()) {
        without_markdown_punct(s.drop_last())
    } else {
        without_markdown_punct(s.drop_last()).push(s.last())
    }
}

/// The text after the symbol and Markdown substitutions, before punctuation
/// removal.
pub open spec fn substituted_for_speech(text: Seq<char>) -> Seq<char> {
    let s1 = substituted(ANSI_ESCAPE_PATTERN@, text, NOTHING@);
    let s2 = substituted(FENCED_CODE_PATTERN@, s1, CODE_FRAGMENT_SPEECH@);
    let s3 = substituted(MARKDOWN_HEADING_PATTERN@, s2, NOTHING@);
    let s4 = substituted(MARKDOWN_BULLET_PATTERN@, s3, NOTHING@);
    let s5 = substituted(CELSIUS_PATTERN@, s4, CELSIUS_SPEECH@);
    substituted(PERCENT_PATTERN@, s5, PERCENT_SPEECH@)
}

/// The spoken form of `text` without a length limit: substitutions,
/// punctuation removal, trimming, and every whitespace run made one space.
pub open spec fn spoken_text(text: Seq<char>) -> Seq<char> {
    substituted(
        WHITESPACE_PATTERN@,
        trim_ws(without_markdown_punct(substituted_for_speech(text))),
        SINGLE_SPACE@,
    )
}

/// What `format_for_tts(text, max_chars)` returns.
pub open spec fn tts_text(text: Seq<char>, max_chars: Option<usize>) -> Seq<char> {
    match max_chars {
        Some(m) => truncated(spoken_text(text), m as nat),
        None => spoken_text(text),
    }
}

/// One regex substitution: `pattern`'s matches in `s` replaced by
/// `replacement`, or `s` unchanged where the pattern does not compile.
pub fn substitute(pattern: &str, s: &str, replacement: &str) -> (r: String)
    ensures
        r@ == substituted(pattern@, s@, replacement@),
        forall|i: int|
            0 <= i < r@.len() ==> s@.contains(#[trigger] r@[i]) || replacement@.contains(r@[i]),
        (pattern@ == seq!['\\', 's', '+'] && replacement@ == seq![' ']) ==> r@
            == crate::text::ws_runs_to_space(s@),
{
    match regex_replace_all(pattern, s, replacement) {
        Some(r) => r,
        None => {
            let r = s.to_owned();
            assert forall|i: int| 0 <= i < r@.len() implies s@.contains(#[trigger] r@[i]) by {
                assert(s@[i] == r@[i]);
            }
            r
        },
    }
}

proof fn lemma_without_markdown_punct_clean(s: Seq<char>)
    ensures
        forall|i: int|
            0 <= i < without_markdown_punct(s).len() ==> !is_markdown_punct(
                #[trigger] without_markdown_punct(s)[i],
            ),
    decreases s.len(),
{
    if s.len() > 0 {
        let p = without_markdown_punct(s.drop_last());
        lemma_without_markdown_punct_clean(s.drop_last());
        if !is_markdown_punct(s.last()) {
            assert forall|i: int|
                0 <= i < without_markdown_punct(s).len() implies !is_markdown_punct(
                #[trigger] without_markdown_punct(s)[i],
            ) by {
                if i < p.len() {
                    assert(without_markdown_punct(s)[i] == p[i]);
                }
            }
        }
    }
}

/// Punctuation removal deletes exactly the seven Markdown characters
/// `` ` * _ # > [ ] `` and keeps every other character, in order; so text
/// without them (plain Polish words, say) is kept whole.
pub proof fn lemma_punctuation_removal_keeps_the_rest(s: Seq<char>)
    ensures
        without_markdown_punct(s) == s.filter(|c: char| !(c == '`' || c == '*' || c == '_' || c == '#' || c == '>' || c == '[' || c == ']')),
        (forall|i: int| 0 <= i < s.len() ==> !({
            let c = #[trigger] s[i];
            c == '`' || c == '*' || c == '_' || c == '#' || c == '>' || c == '[' || c == ']'
        })) ==> without_markdown_punct(s) == s,
    decreases s.len(),
{
    reveal(Seq::filter);
    if s.len() > 0 {
        let t = s.drop_last();
        lemma_punctuation_removal_keeps_the_rest(t);
        if forall|i: int| 0 <= i < s.len() ==> !({
            let c = #[trigger] s[i];
            c == '`' || c == '*' || c == '_' || c == '#' || c == '>' || c == '[' || c == ']'
        }) {
            assert forall|i: int| 0 <= i < t.len() implies !({
                let c = #[trigger] t[i];
                c == '`' || c == '*' || c == '_' || c == '#' || c == '>' || c == '[' || c == ']'
            }) by {
                assert(t[i] == s[i]);
            }
            let last = s[s.len() - 1];
            assert(!({
                let c = s[s.len() - 1];
                c == '`' || c == '*' || c == '_' || c == '#' || c == '>' || c == '[' || c == ']'
            }));
            assert(s.last() == last);
            assert(t.push(s.last()) == s);
        }
    } else {
        assert(s.filter(|c: char| !(c == '`' || c == '*' || c == '_' || c == '#' || c == '>' || c == '[' || c == ']')) == s);
    }
}

/// `s` without the Markdown punctuation characters `` ` * _ # > [ ] ``.
pub fn strip_markdown_punctuation(s: &str) -> (r: String)
    ensures
        r@ == without_markdown_punct(s@),
        forall|i: int| 0 <= i < r@.len() ==> !is_markdown_punct(#[trigger] r@[i]),
        r@ == s@.filter(|c: char| !(c == '`' || c == '*' || c == '_' || c == '#' || c == '>' || c == '[' || c == ']')),
        (forall|i: int| 0 <= i < s@.len() ==> !({
            let c = #[trigger] s@[i];
            c == '`' || c == '*' || c == '_' || c == '#' || c == '>' || c == '[' || c == ']'
        })) ==> r@ == s@,
{
    proof {
        lemma_punctuation_removal_keeps_the_rest(s@);
    }
    let v = chars_of(s);
    let mut out: Vec<char> = Vec::new();
    let mut i: usize = 0;
    while i < v.len()
        invariant
            i <= v.len(),
            v@ == s@,
            out@ == without_markdown_punct(v@.take(i as int)),
        decreases v.len() - i,
    {
        let c = v[i];
        assert(v@.take(i + 1).drop_last() == v@.take(i as int));
        if !(c == '`' || c == '*' || c == '_' || c == '#' || c == '>' || c == '[' || c == ']') {
            out.push(c);
        }
        i = i + 1;
    }
    assert(v@.take(v.len() as int) == v@);
    proof {
        lemma_without_markdown_punct_clean(s@);
    }
    string_from_chars(&out)
}

proof fn lemma_trim_start_within(s: Seq<char>)
    ensures
        forall|i: int|
            0 <= i < trim_start_ws(s).len() ==> s.contains(#[trigger] trim_start_ws(s)[i]),
    decreases s.len(),
{
    if s.len() > 0 && crate::text::is_ws(s[0]) {
        let t = s.drop_first();
        lemma_trim_start_within(t);
        assert forall|i: int| 0 <= i < trim_start_ws(s).len() implies s.contains(
            #[trigger] trim_start_ws(s)[i],
        ) by {
            assert(t.contains(trim_start_ws(t)[i]));
            let j = choose|j: int| 0 <= j < t.len() && t[j] == trim_start_ws(t)[i];
            assert(s[j + 1] == t[j]);
        }
    } else {
        assert forall|i: int| 0 <= i < trim_start_ws(s).len() implies s.contains(
            #[trigger] trim_start_ws(s)[i],
        ) by {
            assert(s[i] == trim_start_ws(s)[i]);
        }
    }
}

proof fn lemma_trim_end_within(s: Seq<char>)
    ensures
        forall|i: int| 0 <= i < trim_end_ws(s).len() ==> s.contains(#[trigger] trim_end_ws(s)[i]),
    decreases s.len(),
{
    if s.len() > 0 && crate::text::is_ws(s.last()) {
        let t = s.drop_last();
        lemma_trim_end_within(t);
        assert forall|i: int| 0 <= i < trim_end_ws(s).len() implies s.contains(
            #[trigger] trim_end_ws(s)[i],
        ) by {
            assert(t.contains(trim_end_ws(t)[i]));
            let j = choose|j: int| 0 <= j < t.len() && t[j] == trim_end_ws(t)[i];
            assert(s[j] == t[j]);
        }
    } else {
        assert forall|i: int| 0 <= i < trim_end_ws(s).len() implies s.contains(
            #[trigger] trim_end_ws(s)[i],
        ) by {
            assert(s[i] == trim_end_ws(s)[i]);
        }
    }
}

/// Format text for spoken Polish text-to-speech output.
///
/// This does not try to be a general natural-language rewriter. It strips
/// ANSI escapes, replaces fenced code with "fragment kodu", drops Markdown
/// headings and bullets, speaks Celsius temperatures and percentages in
/// Polish, removes Markdown punctuation, trims, makes every whitespace run a
/// single space, and, given a limit, cuts the result to that many
/// characters with a trailing `…`.
pub fn format_for_tts(text: &str, max_chars: Option<usize>) -> (r: String)
    ensures
        r@ == tts_text(text@, max_chars),
        forall|i: int| 0 <= i < r@.len() ==> !is_markdown_punct(#[trigger] r@[i]),
        (max_chars matches Some(m) && m > 0) ==> r@.len() <= max_chars.unwrap(),
        trim_ws(r@) == r@,
        crate::text::is_collapsed(r@),
{
    let s1 = substitute(ANSI_ESCAPE_PATTERN, text, NOTHING);
    let s2 = substitute(FENCED_CODE_PATTERN, s1.as_str(), CODE_FRAGMENT_SPEECH);
    let s3 = substitute(MARKDOWN_HEADING_PATTERN, s2.as_str(), NOTHING);
    let s4 = substitute(MARKDOWN_BULLET_PATTERN, s3.as_str(), NOTHING);
    let s5 = substitute(CELSIUS_PATTERN, s4.as_str(), CELSIUS_SPEECH);
    let s6 = substitute(PERCENT_PATTERN, s5.as_str(), PERCENT_SPEECH);
    let s7 = strip_markdown_punctuation(s6.as_str());
    let t = trim(s7.as_str());
    let spoken = substitute(WHITESPACE_PATTERN, t.as_str(), SINGLE_SPACE);
    proof {
        reveal_strlit("\\s+");
        reveal_strlit(" ");
        assert(WHITESPACE_PATTERN@ == seq!['\\', 's', '+']);
        assert(SINGLE_SPACE@ == seq![' ']);
        crate::text::lemma_trim_ends(s7@);
        crate::text::lemma_ws_runs_collapsed(t@);
        crate::text::lemma_collapsed_is_trimmed(spoken@);
        lemma_trim_start_within(s7@);
        lemma_trim_end_within(trim_start_ws(s7@));
        assert forall|i: int| 0 <= i < spoken@.len() implies !is_markdown_punct(
            #[trigger] spoken@[i],
        ) by {
            if t@.contains(spoken@[i]) {
                let j = choose|j: int| 0 <= j < t@.len() && t@[j] == spoken@[i];
                assert(trim_start_ws(s7@).contains(t@[j]));
                let k = choose|k: int|
                    0 <= k < trim_start_ws(s7@).len() && trim_start_ws(s7@)[k] == t@[j];
                assert(s7@.contains(trim_start_ws(s7@)[k]));
            } else {
                assert(SINGLE_SPACE@.contains(spoken@[i]));
                assert(SINGLE_SPACE@ == seq![' ']);
            }
        }
    }
    match max_chars {
        Some(m) => {
            let r = truncate_chars(spoken.as_str(), m);
            proof {
                crate::text::lemma_truncated_keeps_collapsed(spoken@, m as nat);
                crate::text::lemma_collapsed_is_trimmed(r@);
            }
            assert forall|i: int| 0 <= i < r@.len() implies !is_markdown_punct(#[trigger] r@[i]) by {
                if spoken@.len() > m {
                    let keep: int = if m == 0 { 0 } else { m - 1 };
                    if i < keep {
                        assert(r@[i] == spoken@[i]);
                    } else {
                        assert(r@[i] == ELLIPSIS);
                    }
                }
            }
            r
        },
        None => spoken,
    }
}

/// Formatting with a limit is formatting without one, then truncating; the
/// result then has at most `m` characters for `m >= 1`, exactly `m` where
/// the unlimited text is longer.
pub proof fn lemma_limit_is_truncation(text: Seq<char>, m: usize)
    ensures
        tts_text(text, Some(m)) == truncated(tts_text(text, None), m as nat),
        m >= 1 ==> tts_text(text, Some(m)).len() == if spoken_text(text).len() <= m {
            spoken_text(text).len()
        } else {
            m as nat
        },
{
    if m >= 1 {
        crate::text::lemma_truncated_props(spoken_text(text), m as nat);
    }
}

} // verus!
