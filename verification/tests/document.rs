use might::document::{comment_line, split_blocks, split_lines, strip_comments};
use might::parser::{filter_out_comments, Parser};
use might::text::{chars_of, lowered, raised, string_of, trimmed, white_space};

fn chars(s: &str) -> Vec<char> {
    s.chars().collect()
}

fn strings(v: Vec<Vec<char>>) -> Vec<String> {
    v.into_iter().map(|cs| cs.into_iter().collect()).collect()
}

#[test]
fn chars_and_strings_convert_both_ways() {
    assert_eq!(chars_of("héllo ✅"), chars("héllo ✅"));
    assert_eq!(string_of(&chars("héllo ✅")), "héllo ✅");
    assert_eq!(chars_of(""), Vec::<char>::new());
    assert_eq!(string_of(&[]), "");
}

#[test]
fn white_space_is_what_std_calls_white_space() {
    let mut n: u32 = 0;
    while n <= 0x10FFFF {
        if let Some(c) = char::from_u32(n) {
            assert_eq!(white_space(c), c.is_whitespace(), "U+{:04X}", n);
        }
        n += 1;
    }
}

#[test]
fn trimmed_agrees_with_std_trim() {
    let samples = [
        "",
        " ",
        "a",
        "  a  ",
        "\t a b \r\n",
        "\u{3000}x\u{85}",
        "\u{200B}x ",
        " \u{A0} inner  space \u{2028}",
        "\n\n",
    ];
    for s in samples {
        let cs = chars(s);
        let got: String = trimmed(&cs).iter().collect();
        assert_eq!(got, s.trim(), "{:?}", s);
    }
}

#[test]
fn case_mapping_is_that_of_std() {
    let samples = ["TestCase", "HEADERS", "straße", "poſt", "optıons", "K\u{212A}", "İx", "ΑΣ"];
    for s in samples {
        let low: String = lowered(&chars(s)).into_iter().collect();
        let up: String = raised(&chars(s)).into_iter().collect();
        assert_eq!(low, s.to_lowercase(), "{:?}", s);
        assert_eq!(up, s.to_uppercase(), "{:?}", s);
    }
    assert_eq!(lowered(&chars("ABC")), chars("abc"));
    assert_eq!(raised(&chars("abc")), chars("ABC"));
}

#[test]
fn split_lines_agrees_with_std_lines() {
    let samples = [
        "",
        "a",
        "a\n",
        "a\nb",
        "a\r\nb\r\n",
        "a\r\r\nb",
        "a\rb\n",
        "\n",
        "\n\n",
        "a\n\nb\n\n",
        "last\r",
        "\r\n",
    ];
    for s in samples {
        let got = strings(split_lines(&chars(s)));
        let want: Vec<String> = s.lines().map(|l| l.to_string()).collect();
        assert_eq!(got, want, "{:?}", s);
    }
}

#[test]
fn comment_lines_are_recognised() {
    assert!(comment_line(&chars("# a comment")));
    assert!(comment_line(&chars("   \t# indented")));
    assert!(comment_line(&chars("#")));
    assert!(comment_line(&chars("# with break\r\n")));
    assert!(!comment_line(&chars("url: http://x/#fragment")));
    assert!(!comment_line(&chars("")));
    assert!(!comment_line(&chars("   ")));
}

#[test]
fn filter_removes_comment_lines_only() {
    assert_eq!(filter_out_comments("a\n# c\nb"), "a\nb");
    assert_eq!(filter_out_comments("# c\na"), "a");
    assert_eq!(filter_out_comments("a\n  # c\n\nb\n"), "a\n\nb\n");
    assert_eq!(filter_out_comments("# only"), "");
    assert_eq!(filter_out_comments(""), "");
    assert_eq!(filter_out_comments("no comment here"), "no comment here");
    assert_eq!(filter_out_comments("url: http://x/#frag\n"), "url: http://x/#frag\n");
}

#[test]
fn filter_keeps_the_line_breaks_of_the_lines_that_stay() {
    assert_eq!(filter_out_comments("a\r\n# c\r\nb\r\n"), "a\r\nb\r\n");
    assert_eq!(filter_out_comments("a\n\n\n"), "a\n\n\n");
    assert_eq!(filter_out_comments("a\n# c"), "a\n");
    assert_eq!(string_of(&strip_comments(&chars("x\n#y\nz"))), "x\nz");
}

#[test]
fn filtering_twice_equals_filtering_once() {
    let samples = [
        "",
        "a\n\n",
        "a\r\r\nb",
        "# c\n# d\n",
        "a\n# c\nb\n---\n# x\nc",
        "  # c\r\nkeep\r\n",
        "#\n#\nx",
    ];
    for s in samples {
        let once = filter_out_comments(s);
        let twice = filter_out_comments(&once);
        assert_eq!(twice, once, "{:?}", s);
    }
}

#[test]
fn blocks_are_the_trimmed_pieces_that_are_not_empty() {
    assert_eq!(strings(split_blocks(&chars("a\n---\nb"))), vec!["a", "b"]);
    assert_eq!(strings(split_blocks(&chars("---\na\n---\n"))), vec!["a"]);
    assert_eq!(strings(split_blocks(&chars("---\n \n---\n---"))), Vec::<String>::new());
    assert_eq!(strings(split_blocks(&chars(""))), Vec::<String>::new());
    assert_eq!(strings(split_blocks(&chars("  one  "))), vec!["one"]);
    assert_eq!(strings(split_blocks(&chars("a----b"))), vec!["a", "-b"]);
    assert_eq!(strings(split_blocks(&chars("a--b"))), vec!["a--b"]);
    assert_eq!(strings(split_blocks(&chars("x------y"))), vec!["x", "y"]);
}

#[test]
fn blocks_agree_with_std_split() {
    let samples = ["a---b---c", "------", "a-----b", "--", "---", " --- x --- ", "a\n---\n\n---\nb\n"];
    for s in samples {
        let got = strings(split_blocks(&chars(s)));
        let want: Vec<String> =
            s.split("---").map(|p| p.trim()).filter(|p| !p.is_empty()).map(|p| p.to_string()).collect();
        assert_eq!(got, want, "{:?}", s);
    }
}

#[test]
fn one_test_case_per_block() {
    let doc = "# first\ntestcase: a\n---\n\n---\ntestcase: b\n# trailing\n---\n";
    let cases = Parser::parse(doc).unwrap();
    assert_eq!(cases.len(), 2);
    assert_eq!(cases.0[0].name, "a");
    assert_eq!(cases.0[1].name, "b");
    let filtered = filter_out_comments(doc);
    assert_eq!(Parser::parse(&filtered).unwrap().len(), 2);
    assert_eq!(Parser::parse("").unwrap().len(), 0);
    assert_eq!(Parser::parse("---\n---").unwrap().len(), 0);
}

#[test]
fn a_comment_can_hold_a_separator() {
    let doc = "# ---\ntestcase: a";
    let cases = Parser::parse(doc).unwrap();
    assert_eq!(cases.len(), 1);
    assert_eq!(strings(split_blocks(&chars(doc))).len(), 2);
}

#[test]
fn the_first_refused_block_gives_the_error() {
    let doc = "testcase: a\n---\nfoo: 1\n---\nbar: 2\n";
    match Parser::parse(doc) {
        Err(e) => assert_eq!(e, might::error::Error::InvalidSection("foo".to_string())),
        Ok(_) => panic!("the second block is not valid"),
    }
}

#[test]
fn a_document_with_crlf_line_breaks_is_read_alike() {
    let unix = "testcase: a\nheaders:\n  A: 1\nurl: u\n---\ntestcase: b\n";
    let dos = "testcase: a\r\nheaders:\r\n  A: 1\r\nurl: u\r\n---\r\ntestcase: b\r\n";
    let left = Parser::parse(unix).unwrap();
    let right = Parser::parse(dos).unwrap();
    assert_eq!(left.len(), 2);
    assert_eq!(right.len(), 2);
    for i in 0..2 {
        assert_eq!(left.0[i].name, right.0[i].name);
        assert_eq!(left.0[i].url, right.0[i].url);
        assert_eq!(left.0[i].headers.len(), right.0[i].headers.len());
    }
    assert_eq!(right.0[0].headers.get("A"), Some(&"1".to_string()));
}

#[test]
fn reading_a_filtered_document_gives_the_same_test_cases() {
    let doc = "# one\ntestcase: a\n  # two\nurl: http://x/#y\n---\n#three\nmethod: get\n";
    let direct = Parser::parse(doc).unwrap();
    let filtered = Parser::parse(&filter_out_comments(doc)).unwrap();
    assert_eq!(direct.len(), filtered.len());
    for i in 0..direct.len() {
        assert_eq!(direct.0[i].name, filtered.0[i].name);
        assert_eq!(direct.0[i].url, filtered.0[i].url);
        assert_eq!(direct.0[i].method, filtered.0[i].method);
    }
    assert_eq!(direct.0[0].url, "http://x/#y");
}

#[test]
fn copies_of_test_cases_hold_the_same() {
    let cases = Parser::parse("testcase: a\nheaders:\n  A: 1\nassertions:\n  headerExists: A\n").unwrap();
    let copy = cases.clone();
    assert_eq!(copy.len(), 1);
    assert_eq!(copy.0[0].name, "a");
    assert_eq!(copy.0[0].headers.get("A"), Some(&"1".to_string()));
    assert_eq!(copy.0[0].assertions, cases.0[0].assertions);
}
