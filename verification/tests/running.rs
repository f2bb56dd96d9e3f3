use might::method::Method;
use might::parser::Parser;
use might::result::{Remarks, TestCaseResult};
use might::runner::Collector;
use might::testcase::TestCase;

fn ping() -> TestCase {
    let doc = "testcase: ping\nurl: https://example.com\nstatuscode: 200\nmethod: GET\n";
    Parser::parse(doc).unwrap().0.remove(0)
}

#[test]
fn the_expected_status_is_a_success() {
    assert_eq!(ping().judge(Ok(200)), TestCaseResult::Success { name: "ping".to_string() });
}

#[test]
fn another_status_is_a_mismatch() {
    assert_eq!(
        ping().judge(Ok(404)),
        TestCaseResult::Fail {
            name: "ping".to_string(),
            remarks: Remarks::StatusMismatch { expected: 200, received: 404 },
        }
    );
}

#[test]
fn a_failed_call_is_a_failed_request() {
    assert_eq!(
        ping().judge(Err("timeout".to_string())),
        TestCaseResult::Fail {
            name: "ping".to_string(),
            remarks: Remarks::RequestFailed { cause: "timeout".to_string() },
        }
    );
}

#[test]
fn a_status_beyond_sixteen_bits_never_matches() {
    assert_eq!(
        ping().judge(Ok(200 + 65536)),
        TestCaseResult::Fail {
            name: "ping".to_string(),
            remarks: Remarks::StatusMismatch { expected: 200, received: 200 },
        }
    );
    assert_eq!(
        ping().judge(Ok(-1)),
        TestCaseResult::Fail {
            name: "ping".to_string(),
            remarks: Remarks::StatusMismatch { expected: 200, received: 65535 },
        }
    );
}

#[test]
fn results_are_reported_in_words() {
    assert_eq!(
        TestCaseResult::Success { name: "ping".to_string() }.to_string(),
        "✅ Successfully passed test: \"ping\""
    );
    assert_eq!(
        ping().judge(Ok(404)).to_string(),
        "❌ Failed test: \"ping\", remarks: expected status code: 200, got: 404"
    );
    assert_eq!(
        ping().judge(Err("timeout".to_string())).to_string(),
        "❌ Failed test: \"ping\", remarks: failed due to error: timeout"
    );
    assert_eq!(
        Remarks::StatusMismatch { expected: 0, received: 65535 }.to_string(),
        "expected status code: 0, got: 65535"
    );
    assert_eq!(
        Remarks::RequestFailed { cause: "refused".to_string() }.to_string(),
        "failed due to error: refused"
    );
}

#[test]
fn the_request_holds_method_url_and_headers_only() {
    let block = "method: put\nurl: http://x/y\nheaders:\n  A: 1\n  B: 2\npayload:\n  p: q";
    let case = TestCase::parse(block).unwrap();
    let request = case.request();
    assert_eq!(request.method, Method::PUT);
    assert_eq!(request.url, "http://x/y");
    let mut headers = request.headers.clone();
    headers.sort();
    assert_eq!(
        headers,
        vec![("A".to_string(), "1".to_string()), ("B".to_string(), "2".to_string())]
    );
    assert_eq!(case.payload.len(), 1);
}

fn named(name: &str) -> TestCaseResult {
    TestCaseResult::Success { name: name.to_string() }
}

#[test]
fn results_stand_in_the_order_of_the_test_cases() {
    let doc = "testcase: a\n---\ntestcase: b\n---\ntestcase: c\n---\ntestcase: d\n";
    let cases = Parser::parse(doc).unwrap();
    assert_eq!(cases.len(), 4);
    let mut collector = Collector::new(cases.len());
    assert_eq!(collector.len(), 4);
    for i in [2usize, 0, 3, 1] {
        assert!(!collector.is_complete());
        assert!(collector.record(i, cases.0[i].judge(Ok(0))));
    }
    assert!(collector.is_complete());
    let results = collector.finish().unwrap();
    assert_eq!(results, vec![named("a"), named("b"), named("c"), named("d")]);
}

#[test]
fn every_order_of_completion_gives_the_same_results() {
    let orders: [[usize; 3]; 6] =
        [[0, 1, 2], [0, 2, 1], [1, 0, 2], [1, 2, 0], [2, 0, 1], [2, 1, 0]];
    for order in orders {
        let mut collector = Collector::new(3);
        for i in order {
            assert!(collector.record(i, named(&format!("case {}", i))));
        }
        assert_eq!(
            collector.finish(),
            Some(vec![named("case 0"), named("case 1"), named("case 2")])
        );
    }
}

#[test]
fn an_open_slot_gives_no_results() {
    let mut collector = Collector::new(2);
    assert!(collector.record(1, named("b")));
    assert!(!collector.is_complete());
    assert_eq!(collector.finish(), None);
}

#[test]
fn an_index_without_a_slot_is_refused() {
    let mut collector = Collector::new(1);
    assert!(!collector.record(1, named("x")));
    assert!(collector.record(0, named("a")));
    assert!(collector.record(0, named("again")));
    assert_eq!(collector.finish(), Some(vec![named("again")]));
    assert_eq!(Collector::new(0).finish(), Some(vec![]));
}
