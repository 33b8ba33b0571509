use zeroclaw_channels::text::{trim, trim_start_matches, truncate_chars};
use zeroclaw_channels::audio_safe::{format_for_tts, strip_markdown_punctuation, substitute, WHITESPACE_PATTERN};

#[test]
fn expands_celsius_variants() {
    assert_eq!(
        format_for_tts("Jest 18°C, jutro 19 *C i potem 20 C.", None),
        "Jest 18 stopni Celsjusza, jutro 19 stopni Celsjusza i potem 20 stopni Celsjusza."
    );
}

#[test]
fn strips_markdown_and_code_fences() {
    let formatted = format_for_tts(
        "## Pogoda\n- **Wiatr**: `silny`\n```bash\necho test\n```",
        None,
    );
    assert_eq!(formatted, "Pogoda Wiatr: silny fragment kodu");
}

#[test]
fn expands_percent_and_truncates() {
    assert_eq!(format_for_tts("UV: 40%", None), "UV: 40 procent");
    assert_eq!(format_for_tts("abcdef", Some(4)), "abc…");
}

#[test]
fn strips_ansi_escape_sequences() {
    assert_eq!(format_for_tts("\x1b[1;31mAlarm\x1b[0m", None), "Alarm");
}

#[test]
fn negative_and_decimal_temperatures() {
    assert_eq!(
        format_for_tts("Noc: -3,5°c", None),
        "Noc: -3,5 stopni Celsjusza"
    );
}

#[test]
fn limit_of_zero_leaves_only_the_ellipsis() {
    assert_eq!(format_for_tts("abcdef", Some(0)), "…");
    assert_eq!(format_for_tts("abc", Some(3)), "abc");
    assert_eq!(format_for_tts("", Some(3)), "");
}

#[test]
fn limited_output_is_truncated_unlimited_output() {
    let text = "## Prognoza\n* Jutro 21°C\n* Wilgotność 55%\n\n> cytat [link]";
    let full = format_for_tts(text, None);
    for m in 0..40 {
        assert_eq!(format_for_tts(text, Some(m)), truncate_chars(&full, m));
        if m >= 1 {
            assert!(format_for_tts(text, Some(m)).chars().count() <= m);
        }
    }
}

#[test]
fn no_markdown_punctuation_survives() {
    let out = format_for_tts("*a* _b_ #c >d [e] `f` **g**", None);
    assert_eq!(out, "a b c d e f g");
    for ch in ['`', '*', '_', '#', '>', '[', ']'] {
        assert!(!out.contains(ch));
    }
}

#[test]
fn strip_markdown_punctuation_removes_each_mark() {
    assert_eq!(strip_markdown_punctuation("[x] *y* `z` #h >q _u_"), "x y z h q u");
    assert_eq!(strip_markdown_punctuation("plain"), "plain");
}

#[test]
fn whitespace_runs_become_one_space() {
    assert_eq!(substitute(WHITESPACE_PATTERN, "a \t\n b", " "), "a b");
    assert_eq!(substitute("(", "keep", " "), "keep");
}

#[test]
fn truncate_chars_counts_characters() {
    assert_eq!(truncate_chars("zażółć", 6), "zażółć");
    assert_eq!(truncate_chars("zażółć", 5), "zażó…");
    assert_eq!(truncate_chars("abc", 1), "…");
    assert_eq!(truncate_chars("", 0), "");
}

#[test]
fn trim_uses_unicode_whitespace() {
    assert_eq!(trim("\u{a0}\t text \u{3000}\n"), "text");
    assert_eq!(trim("   "), "");
}

#[test]
fn trim_start_matches_removes_repeated_prefixes() {
    assert_eq!(trim_start_matches("sha256=sha256=ab", "sha256="), "ab");
    assert_eq!(trim_start_matches("ab", "sha256="), "ab");
    assert_eq!(trim_start_matches("ab", ""), "ab");
}
