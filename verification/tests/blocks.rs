use might::assertions::{Assertions, Expr};
use might::error::Error;
use might::fields::{Headers, Payload};
use might::method::{parse_method, Method};
use might::number::{parse_unsigned16, write_decimal};
use might::parser::Parser;
use might::testcase::{StatusCode, TestCase};

fn chars(s: &str) -> Vec<char> {
    s.chars().collect()
}

fn texts(v: &Vec<Expr>) -> Vec<String> {
    v.iter().map(|e| e.0.clone()).collect()
}

#[test]
fn method_names_are_read_in_any_case() {
    assert_eq!(Method::parse("GET"), Ok(Method::GET));
    assert_eq!(Method::parse("get"), Ok(Method::GET));
    assert_eq!(Method::parse("  Post "), Ok(Method::POST));
    assert_eq!(Method::parse("put"), Ok(Method::PUT));
    assert_eq!(Method::parse("Patch"), Ok(Method::PATCH));
    assert_eq!(Method::parse("delete"), Ok(Method::DELETE));
    assert_eq!(Method::parse("head"), Ok(Method::HEAD));
    assert_eq!(Method::parse("trace"), Ok(Method::TRACE));
    assert_eq!(Method::parse("options"), Ok(Method::OPTIONS));
    assert_eq!(Method::parse("connect"), Ok(Method::CONNECT));
    assert_eq!(parse_method("gEt"), Ok(Method::GET));
}

#[test]
fn method_names_follow_the_unicode_upper_case() {
    assert_eq!(Method::parse("poſt"), Ok(Method::POST));
    assert_eq!(Method::parse("optıons"), Ok(Method::OPTIONS));
}

#[test]
fn other_method_names_are_refused() {
    assert_eq!(Method::parse("fetch"), Err(Error::InvalidMethod("FETCH".to_string())));
    assert_eq!(Method::parse("UPDATE"), Err(Error::InvalidMethod("UPDATE".to_string())));
    assert_eq!(Method::parse(""), Err(Error::InvalidMethod("".to_string())));
    assert_eq!(Method::parse(" g e t "), Err(Error::InvalidMethod("G E T".to_string())));
    assert_eq!(parse_method("unset"), Err(Error::InvalidMethod("UNSET".to_string())));
}

#[test]
fn upper_case_names_are_matched_letter_for_letter() {
    assert_eq!(Method::named("GET"), Some(Method::GET));
    assert_eq!(Method::named("CONNECT"), Some(Method::CONNECT));
    assert_eq!(Method::named("get"), None);
    assert_eq!(Method::named("GET "), None);
    assert_eq!(Method::named(""), None);
}

#[test]
fn unsigned16_agrees_with_std_parse() {
    let samples = [
        "0", "7", "200", "65535", "65536", "99999", "+5", "++5", "+", "-0", "-1", "", " 1", "1 ",
        "1_0", "0x10", "12a", "000200", "00000000000000000000000000065535",
        "00000000000000000000000000065536", "4294967296", "١٢٣",
    ];
    for s in samples {
        assert_eq!(parse_unsigned16(&chars(s)), s.parse::<u16>().ok(), "{:?}", s);
    }
}

#[test]
fn status_codes_are_read_or_refused() {
    assert_eq!(StatusCode::try_from("200"), Ok(StatusCode(200)));
    assert_eq!(StatusCode::try_from("0"), Ok(StatusCode(0)));
    assert_eq!(StatusCode::try_from("65535"), Ok(StatusCode(65535)));
    assert_eq!(
        StatusCode::try_from("65536"),
        Err(Error::FailedToParseStatusCode("65536".to_string()))
    );
    assert_eq!(StatusCode::try_from("abc"), Err(Error::FailedToParseStatusCode("abc".to_string())));
    assert_eq!(StatusCode::try_from(""), Err(Error::FailedToParseStatusCode("".to_string())));
}

#[test]
fn decimal_agrees_with_std_formatting() {
    let mut n: u32 = 0;
    while n <= 0xFFFF {
        let got: String = write_decimal(n as u16).into_iter().collect();
        assert_eq!(got, format!("{}", n));
        n += 1;
    }
}

#[test]
fn headers_are_the_indented_lines_after_the_marker() {
    let block = "testcase: t\nheaders:\n  Content-Type: application/json\n\tX-Token :  abc \nurl: u";
    let h = Headers::parse(block).unwrap();
    assert_eq!(h.len(), 2);
    assert_eq!(h.get("Content-Type"), Some(&"application/json".to_string()));
    assert_eq!(h.get("X-Token"), Some(&"abc".to_string()));
    assert_eq!(h.get("url"), None);
    assert_eq!(h.get("content-type"), None);
}

#[test]
fn a_header_value_may_hold_colons() {
    let h = Headers::parse("headers:\n  Host: example.com:8080").unwrap();
    assert_eq!(h.get("Host"), Some(&"example.com:8080".to_string()));
}

#[test]
fn a_later_header_replaces_an_earlier_one() {
    let h = Headers::parse("headers:\n  A: 1\n  B: 2\n  A: 3").unwrap();
    assert_eq!(h.len(), 2);
    assert_eq!(h.get("A"), Some(&"3".to_string()));
    assert_eq!(h.get("B"), Some(&"2".to_string()));
    let mut names: Vec<String> = h.pairs().iter().map(|p| p.0.clone()).collect();
    names.sort();
    assert_eq!(names, vec!["A", "B"]);
}

#[test]
fn headers_marker_without_lines_gives_an_empty_mapping() {
    let h = Headers::parse("headers:\nurl: u").unwrap();
    assert_eq!(h.len(), 0);
    let h = Headers::parse("headers:").unwrap();
    assert_eq!(h.len(), 0);
    let h = Headers::parse("url: u").unwrap();
    assert_eq!(h.len(), 0);
    let case = TestCase::parse("headers:\nurl: https://example.com\ntestcase: after").unwrap();
    assert_eq!(case.headers.len(), 0);
    assert_eq!(case.url, "https://example.com");
    assert_eq!(case.name, "after");
}

#[test]
fn the_marker_is_matched_at_the_line_start_in_any_case() {
    let h = Headers::parse("HEADERS:\n  A: 1").unwrap();
    assert_eq!(h.get("A"), Some(&"1".to_string()));
    let h = Headers::parse("Headers of the request\n  A: 1").unwrap();
    assert_eq!(h.get("A"), Some(&"1".to_string()));
    let h = Headers::parse(" headers:\n  A: 1").unwrap();
    assert_eq!(h.len(), 0);
}

#[test]
fn one_space_is_no_indentation() {
    let h = Headers::parse("headers:\n  A: 1\n B: 2\n  C: 3").unwrap();
    assert_eq!(h.len(), 1);
    assert_eq!(h.get("A"), Some(&"1".to_string()));
}

#[test]
fn a_section_ends_at_the_first_line_that_is_not_indented() {
    let h = Headers::parse("headers:\n  A: 1\nheaders-more:\n  B: 2").unwrap();
    assert_eq!(h.len(), 1);
    assert_eq!(h.get("B"), None);
}

#[test]
fn a_header_line_without_colon_is_refused() {
    assert_eq!(Headers::parse("headers:\n  A: 1\n  oops").err(), Some(Error::HeaderExpectsKV));
    assert_eq!(
        TestCase::parse("testcase: t\nheaders:\n  oops").err(),
        Some(Error::HeaderExpectsKV)
    );
}

#[test]
fn a_payload_line_without_colon_is_refused() {
    assert_eq!(Payload::parse("payload:\n  oops\n  a: 1").err(), Some(Error::PayloadExpectsKV));
    assert_eq!(
        TestCase::parse("payload:\n\tno pair here").err(),
        Some(Error::PayloadExpectsKV)
    );
}

#[test]
fn payload_is_read_like_headers() {
    let p = Payload::parse("payload:\n  name: Ada\n  age: 36\nassertions:").unwrap();
    assert_eq!(p.len(), 2);
    assert_eq!(p.get("name"), Some(&"Ada".to_string()));
    assert_eq!(p.get("age"), Some(&"36".to_string()));
    assert_eq!(p.pairs().len(), 2);
    assert_eq!(Payload::new().len(), 0);
    assert_eq!(Headers::new().len(), 0);
}

#[test]
fn assertions_length_counts_the_lists_and_one() {
    let block = "assertions:\n  jsonPathExists: $.a\n  jsonPathExists: $.b\n  jsonPathValue: $.a == 1\n  headerValue: X == y";
    let a = Assertions::parse(block).unwrap();
    assert_eq!(a.len(), 5);
    assert_eq!(texts(a.json_path_exists()), vec!["$.a", "$.b"]);
    assert_eq!(texts(a.json_path_value()), vec!["$.a == 1"]);
    assert_eq!(a.header_exists(), "");
    assert_eq!(texts(a.header_value()), vec!["X == y"]);
    assert_eq!(Assertions::new().len(), 1);
    assert_eq!(Assertions::default(), Assertions::new());
}

#[test]
fn header_exists_keeps_the_last_value() {
    let a = Assertions::parse("assertions:\n  headerExists: A\n  HEADEREXISTS: B").unwrap();
    assert_eq!(a.header_exists(), "B");
    assert_eq!(a.len(), 1);
}

#[test]
fn an_unknown_assertion_key_is_refused() {
    assert_eq!(
        Assertions::parse("assertions:\n  jsonPathExists: $.a\n  Body Is: x\n  Other: y").err(),
        Some(Error::InvalidKeyInAssertions("body is".to_string()))
    );
}

#[test]
fn an_assertion_line_without_colon_is_passed_over() {
    let a = Assertions::parse("assertions:\n  just words\n  headerValue: v").unwrap();
    assert_eq!(texts(a.header_value()), vec!["v"]);
    assert_eq!(a.len(), 2);
}

#[test]
fn expressions_keep_their_text() {
    assert_eq!(Expr::new().0, "");
    assert_eq!(Expr::from("$.a.b").0, "$.a.b");
    assert_eq!(Expr::from("x").into_string(), "x");
}

#[test]
fn an_unknown_key_is_refused() {
    assert_eq!(TestCase::parse("foo: bar").err(), Some(Error::InvalidSection("foo".to_string())));
    assert_eq!(
        TestCase::parse("testcase: t\n  Foo Bar : x").err(),
        Some(Error::InvalidSection("foo bar".to_string()))
    );
    assert_eq!(TestCase::parse(": x").err(), Some(Error::InvalidSection("".to_string())));
}

#[test]
fn a_line_without_colon_is_passed_over() {
    let case = TestCase::parse("some words\n\ntestcase: t\n====").unwrap();
    assert_eq!(case.name, "t");
}

#[test]
fn an_empty_block_gives_the_empty_test_case() {
    let case = TestCase::parse("").unwrap();
    assert_eq!(case.name, "");
    assert_eq!(case.description, "");
    assert_eq!(case.author, None);
    assert_eq!(case.method, Method::UNSET);
    assert_eq!(case.url, "");
    assert_eq!(case.expected_status, StatusCode(0));
    assert_eq!(case.headers.len(), 0);
    assert_eq!(case.payload.len(), 0);
    assert_eq!(case.assertions, Assertions::new());
    let same = TestCase::new();
    assert_eq!(same.method, Method::UNSET);
    assert_eq!(same.expected_status, StatusCode(0));
}

#[test]
fn a_block_with_every_section_is_read_field_by_field() {
    let block = "TestCase:  login works \nDescription: posts the form\nAUTHOR: ada\nurl: https://example.com/login\nStatusCode: 201\nmethod: post\nheaders:\n  Content-Type: application/json\n  Accept: */*\npayload:\n  user: ada\nassertions:\n  jsonPathExists: $.token\n  headerValue: Set-Cookie == x";
    let case = TestCase::parse(block).unwrap();
    assert_eq!(case.name, "login works");
    assert_eq!(case.description, "posts the form");
    assert_eq!(case.author, Some("ada".to_string()));
    assert_eq!(case.url, "https://example.com/login");
    assert_eq!(case.expected_status, StatusCode(201));
    assert_eq!(case.method, Method::POST);
    assert_eq!(case.headers.len(), 2);
    assert_eq!(case.headers.get("Content-Type"), Some(&"application/json".to_string()));
    assert_eq!(case.headers.get("Accept"), Some(&"*/*".to_string()));
    assert_eq!(case.payload.len(), 1);
    assert_eq!(case.payload.get("user"), Some(&"ada".to_string()));
    assert_eq!(texts(case.assertions.json_path_exists()), vec!["$.token"]);
    assert_eq!(texts(case.assertions.header_value()), vec!["Set-Cookie == x"]);
    assert_eq!(case.assertions.len(), 3);
}

#[test]
fn a_later_line_replaces_an_earlier_one() {
    let case = TestCase::parse("testcase: a\nurl: u1\ntestcase: b\nurl: u2").unwrap();
    assert_eq!(case.name, "b");
    assert_eq!(case.url, "u2");
}

#[test]
fn a_url_keeps_what_follows_its_first_colon() {
    let case = TestCase::parse("url: http://localhost:8080/a?b=c:d").unwrap();
    assert_eq!(case.url, "http://localhost:8080/a?b=c:d");
}

#[test]
fn a_bad_status_code_is_refused() {
    assert_eq!(
        TestCase::parse("statuscode: two hundred").err(),
        Some(Error::FailedToParseStatusCode("two hundred".to_string()))
    );
    assert_eq!(
        TestCase::parse("statuscode: 70000").err(),
        Some(Error::FailedToParseStatusCode("70000".to_string()))
    );
    assert_eq!(
        TestCase::parse("statuscode:").err(),
        Some(Error::FailedToParseStatusCode("".to_string()))
    );
}

#[test]
fn a_bad_method_is_refused() {
    assert_eq!(
        TestCase::parse("method: fetch").err(),
        Some(Error::InvalidMethod("FETCH".to_string()))
    );
}

#[test]
fn lines_after_a_section_are_passed_over_by_its_entry_count() {
    // Two header lines but one key: one line is passed over, and the second
    // is then read as a section of its own.
    assert_eq!(
        TestCase::parse("headers:\n  A: 1\n  A: 2\nurl: u").err(),
        Some(Error::InvalidSection("a".to_string()))
    );
    // Assertions are taken to fill one line more than the lists hold.
    let case = TestCase::parse("assertions:\n  jsonPathExists: $.a\nfoo: gone\ntestcase: t").unwrap();
    assert_eq!(case.name, "t");
    assert_eq!(case.assertions.len(), 2);
    // With headerExists among the lines the count fits.
    let case = TestCase::parse(
        "assertions:\n  headerExists: A\n  jsonPathExists: $.a\ntestcase: t",
    )
    .unwrap();
    assert_eq!(case.name, "t");
    assert_eq!(case.assertions.header_exists(), "A");
}

#[test]
fn every_section_marker_reads_the_first_section_of_its_kind() {
    let case = TestCase::parse("headers:\n  A: 1\ntestcase: t\nheaders:\n  B: 2").unwrap();
    assert_eq!(case.headers.len(), 1);
    assert_eq!(case.headers.get("A"), Some(&"1".to_string()));
    assert_eq!(case.headers.get("B"), None);
}

#[test]
fn parse_then_read_fields_of_the_ping_document() {
    let doc = "testcase: ping\nurl: https://example.com\nstatuscode: 200\nmethod: GET\n";
    let cases = Parser::parse(doc).unwrap();
    assert_eq!(cases.len(), 1);
    let case = &cases.0[0];
    assert_eq!(case.name, "ping");
    assert_eq!(case.url, "https://example.com");
    assert_eq!(case.expected_status, StatusCode(200));
    assert_eq!(case.method, Method::GET);
}

#[test]
fn errors_are_reported_in_words() {
    assert_eq!(Error::InvalidMethod("FETCH".to_string()).to_string(), "Method: FETCH is invalid");
    assert_eq!(Error::InvalidSection("foo".to_string()).to_string(), "Found foo invalid section");
    assert_eq!(
        Error::FailedToParseStatusCode("abc".to_string()).to_string(),
        "Failed to parse status code: abc"
    );
    assert_eq!(Error::HeaderExpectsKV.to_string(), "Header section expects key-value pair");
    assert_eq!(Error::PayloadExpectsKV.to_string(), "Payload section expects key-value pair");
    assert_eq!(
        Error::InvalidKeyInAssertions("body".to_string()).to_string(),
        "Found invalid key body in assertions section"
    );
}
