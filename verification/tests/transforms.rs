//! Differential checks of the text transforms against the regular
//! expressions that define them: space collapsing is `[ ]+` replaced by one
//! space, link stripping is `\[([^\[\]]+)\]\(([^)]+)\)` replaced by the
//! label, and comment stripping is `(?s)%%\s+.*?\s+%%` removed and the
//! remainder trimmed.

use md2ms::markdown::{strip_comments, trim_doublespace, trim_links};
use regex::Regex;

fn regex_doublespace(s: &str) -> String {
    Regex::new(r"[ ]+").unwrap().replace_all(s, " ").to_string()
}

fn regex_links(s: &str) -> String {
    let re = Regex::new(r"\[([^\[\]]+)\]\(([^)]+)\)").unwrap();
    re.replace_all(s, |caps: &regex::Captures| {
        caps.get(1).unwrap().as_str().to_string()
    })
    .to_string()
}

fn regex_comments(s: &str) -> String {
    let re = Regex::new(r"(?s)%%\s+.*?\s+%%").unwrap();
    Regex::replace_all(&re, s, "").trim().to_string()
}

const SAMPLES: &[&str] = &[
    "",
    " ",
    "   ",
    "plain text with  runs   of    spaces",
    "tabs\tand  spaces \t mixed",
    "a [link](https://example.com) here",
    "[lead](x) and [tail](y)",
    "[a](b)(c)[d]",
    "[]()",
    "[x]()",
    "[](y)",
    "[a[b](c)d](e)",
    "[a](b(c)d)",
    "[label with spaces](target with spaces)",
    "][ odd ][ brackets ]( loose )",
    "( [inside](parens) )",
    "%% short %%",
    "a %% one %% b %% two %% c",
    "%%tight%%",
    "%% unterminated",
    "unopened %%",
    "%%  \n multi\nline\n %% tail",
    "%% a %% %% b %%",
    "text %%\n\ncomment block\n\n%% more text",
    "mixed [l](t)  and %% c %% and   spaces",
    "new\nlines\nstay",
];

#[test]
fn test_trim_doublespace_matches_regex() {
    for s in SAMPLES {
        assert_eq!(trim_doublespace(s), regex_doublespace(s), "input: {:?}", s);
    }
}

#[test]
fn test_trim_links_matches_regex() {
    for s in SAMPLES {
        assert_eq!(trim_links(s), regex_links(s), "input: {:?}", s);
    }
}

#[test]
fn test_strip_comments_matches_regex() {
    for s in SAMPLES {
        assert_eq!(
            strip_comments(s.to_string()),
            regex_comments(s),
            "input: {:?}",
            s
        );
    }
}
