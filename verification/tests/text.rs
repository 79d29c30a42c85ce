use regex::Regex;
use rustably::text::{
    find, is_whitespace, normalize, split_lines, strip_comment, to_chars, to_string, trim, trim_end,
    trim_start,
};

fn chars(s: &str) -> Vec<char> {
    s.chars().collect()
}

fn normal(s: &str) -> String {
    to_string(normalize(&chars(s)))
}

#[test]
fn to_chars_keeps_every_character() {
    assert_eq!(to_chars(""), Vec::<char>::new());
    assert_eq!(to_chars("@R0"), vec!['@', 'R', '0']);
    assert_eq!(to_chars("a\u{e9}\u{4e2d}\u{1f600}"), vec!['a', '\u{e9}', '\u{4e2d}', '\u{1f600}']);
}

#[test]
fn to_string_keeps_every_character() {
    assert_eq!(to_string(&[]), "");
    assert_eq!(to_string(&['D', '=', 'M']), "D=M");
    assert_eq!(to_string(&chars("a\u{e9}\u{4e2d}\u{1f600}")), "a\u{e9}\u{4e2d}\u{1f600}");
    assert_ne!(to_string(&['D', '=', 'M']), "");
}

#[test]
fn whitespace_is_the_unicode_property() {
    for code in 0..=0x10ffffu32 {
        if let Some(c) = char::from_u32(code) {
            assert_eq!(is_whitespace(c), c.is_whitespace(), "U+{:04X}", code);
        }
    }
}

#[test]
fn trim_start_takes_leading_whitespace_only() {
    assert_eq!(to_string(trim_start(&chars("  \t D=M  "))), "D=M  ");
    assert_eq!(to_string(trim_start(&chars("D=M"))), "D=M");
    assert_eq!(to_string(trim_start(&chars(" \r\n"))), "");
    assert_eq!(to_string(trim_start(&chars(""))), "");
}

#[test]
fn trim_end_takes_trailing_whitespace_only() {
    assert_eq!(to_string(trim_end(&chars("  D=M \r"))), "  D=M");
    assert_eq!(to_string(trim_end(&chars("D=M"))), "D=M");
    assert_eq!(to_string(trim_end(&chars(" \t "))), "");
    assert_eq!(to_string(trim_end(&chars(""))), "");
}

#[test]
fn trim_keeps_inner_whitespace() {
    assert_eq!(to_string(trim(&chars("  D = M  "))), "D = M");
    assert_eq!(to_string(trim(&chars("\u{a0}\u{3000}x\u{2003}"))), "x");
}

#[test]
fn trim_agrees_with_std() {
    for s in ["", " ", "a", " a", "a ", "  a b  ", "\t\r\n", "\u{85}x\u{2028}", "x\u{200b}"] {
        assert_eq!(to_string(trim(&chars(s))), s.trim());
        assert_eq!(to_string(trim_start(&chars(s))), s.trim_start());
        assert_eq!(to_string(trim_end(&chars(s))), s.trim_end());
    }
}

#[test]
fn strip_comment_cuts_at_the_first_marker() {
    assert_eq!(to_string(strip_comment(&chars("D=M // one // two"))), "D=M ");
    assert_eq!(to_string(strip_comment(&chars("// all"))), "");
    assert_eq!(to_string(strip_comment(&chars("D=M"))), "D=M");
    assert_eq!(to_string(strip_comment(&chars("D=M//"))), "D=M");
    assert_eq!(to_string(strip_comment(&chars("a/b"))), "a/b");
    assert_eq!(to_string(strip_comment(&chars("a/"))), "a/");
    assert_eq!(to_string(strip_comment(&chars("a///b"))), "a");
    assert_eq!(to_string(strip_comment(&chars("/"))), "/");
    assert_eq!(to_string(strip_comment(&chars(""))), "");
}

#[test]
fn normalize_cuts_comment_then_whitespace() {
    assert_eq!(normal("   D=M   // load"), "D=M");
    assert_eq!(normal("\t@R0\r"), "@R0");
    assert_eq!(normal("(LOOP) // top"), "(LOOP)");
    assert_eq!(normal("   // only a comment"), "");
    assert_eq!(normal("   "), "");
    assert_eq!(normal(""), "");
    assert_eq!(normal("D = M"), "D = M");
}

#[test]
fn normalize_is_idempotent() {
    for s in ["  D=M // x", "@R0", "", " // c", "a / b", "  (L)  "] {
        let once = normal(s);
        assert_eq!(normal(&once), once);
    }
}

#[test]
fn normalize_agrees_with_the_comment_pattern() {
    let comment = Regex::new(r"//.+").unwrap();
    let lines = [
        "@R0",
        "   @R0",
        "D=M              // D = first number",
        "// Computes R2 = max(R0, R1)",
        "   // indented comment",
        "(OUTPUT_FIRST)",
        "(LOOP) // top of the loop",
        "   0;JMP            // infinite loop",
        "",
        "    ",
        "D=M // one // two",
        "@i//no space",
    ];
    for line in lines {
        let expected = comment.replace_all(line.trim(), "").trim().to_string();
        assert_eq!(normal(line), expected, "{:?}", line);
    }
}

#[test]
fn find_gives_the_first_position() {
    assert_eq!(find(&chars("D=M;JMP"), ';'), 3);
    assert_eq!(find(&chars("D=M;JMP"), '='), 1);
    assert_eq!(find(&chars("a;b;c"), ';'), 1);
    assert_eq!(find(&chars(";"), ';'), 0);
    assert_eq!(find(&chars("D=M"), ';'), 3);
    assert_eq!(find(&chars(""), ';'), 0);
}

#[test]
fn split_lines_splits_at_line_feeds() {
    let text = chars("@1\nD=A\n\n(L)");
    let lines: Vec<String> = split_lines(&text).into_iter().map(to_string).collect();
    assert_eq!(lines, vec!["@1", "D=A", "", "(L)"]);
}

#[test]
fn split_lines_gives_one_line_more_than_line_feeds() {
    let count = |s: &str| split_lines(&chars(s)).len();
    assert_eq!(count(""), 1);
    assert_eq!(count("a"), 1);
    assert_eq!(count("a\n"), 2);
    assert_eq!(count("\n"), 2);
    assert_eq!(count("\n\n"), 3);
    assert_eq!(count("a\nb"), 2);
}

#[test]
fn split_lines_keeps_carriage_returns() {
    let text = chars("a\r\nb");
    let lines: Vec<String> = split_lines(&text).into_iter().map(to_string).collect();
    assert_eq!(lines, vec!["a\r", "b"]);
}

#[test]
fn split_lines_joined_is_the_text() {
    for s in ["", "a", "a\nb", "\n", "a\n\nb\n", "@1\r\nD=A"] {
        let text = chars(s);
        let lines: Vec<String> = split_lines(&text).into_iter().map(to_string).collect();
        assert_eq!(lines.join("\n"), s);
    }
}
