//! A test case and the scan that reads one from a block.

use crate::assertions::{assertions_of, Assertions, AssertionsView};
use crate::document::{lines, split_lines};
use crate::error::{Error, ErrorView};
use crate::fields::{has_colon, headers_of, key_of, payload_of, value_of, Headers, Payload};
use crate::method::{method_of, method_of_chars, Method};
use crate::number::{parse_unsigned16, unsigned16};
use crate::text::{chars_of, find, lowercase, lowered, reads_as, string_of, texts, trimmed};
use vstd::prelude::*;

verus! {

/// The status code that a test case expects.
#[derive(Debug, Clone, Copy, PartialEq, Eq, Structural)]
pub struct StatusCode(pub u16);

/// What the value of a `statuscode:` line gives: the number it writes, or
/// `FailedToParseStatusCode` with the value where it writes none of 16 bits.
pub open spec fn status_of(value: Seq<char>) -> Result<StatusCode, ErrorView> {
    match unsigned16(value) {
        Some(n) => Ok(StatusCode(n)),
        None => Err(ErrorView::FailedToParseStatusCode(value)),
    }
}

/// Reads the value of a `statuscode:` line.
fn status_of_chars(value: &[char]) -> (r: Result<StatusCode, Error>)
    ensures
        match r {
            Ok(code) => status_of(value@) == Ok::<_, ErrorView>(code),
            Err(e) => status_of(value@) == Err::<StatusCode, _>(e@),
        },
{
    match parse_unsigned16(value) {
        Some(n) => Ok(StatusCode(n)),
        None => Err(Error::FailedToParseStatusCode(string_of(value))),
    }
}

impl StatusCode {
    /// Reads the value of a `statuscode:` line. White space is not skipped.
    pub fn try_from(value: &str) -> (r: Result<StatusCode, Error>)
        ensures
            match r {
                Ok(code) => status_of(value@) == Ok::<_, ErrorView>(code),
                Err(e) => status_of(value@) == Err::<StatusCode, _>(e@),
            },
    {
        let cs = chars_of(value);
        status_of_chars(cs.as_slice())
    }
}

/// One HTTP test case: the request to send and what is expected back.
#[derive(Debug, Clone)]
pub struct TestCase {
    pub name: String,
    pub description: String,
    pub author: Option<String>,
    pub method: Method,
    pub url: String,
    pub expected_status: StatusCode,
    pub headers: Headers,
    pub payload: Payload,
    pub assertions: Assertions,
}

/// A [`TestCase`] with its texts as character sequences and its sections as
/// mappings.
pub struct TestCaseView {
    pub name: Seq<char>,
    pub description: Seq<char>,
    pub author: Option<Seq<char>>,
    pub method: Method,
    pub url: Seq<char>,
    pub expected_status: StatusCode,
    pub headers: Map<Seq<char>, Seq<char>>,
    pub payload: Map<Seq<char>, Seq<char>>,
    pub assertions: AssertionsView,
}

impl TestCaseView {
    /// The test case of an empty block: empty texts, no author, no method,
    /// status 0, empty sections.
    pub open spec fn empty() -> TestCaseView {
        TestCaseView {
            name: Seq::empty(),
            description: Seq::empty(),
            author: None,
            method: Method::UNSET,
            url: Seq::empty(),
            expected_status: StatusCode(0),
            headers: Map::empty(),
            payload: Map::empty(),
            assertions: AssertionsView::empty(),
        }
    }
}

impl View for TestCase {
    type V = TestCaseView;

    open spec fn view(&self) -> TestCaseView {
        TestCaseView {
            name: self.name@,
            description: self.description@,
            author: match self.author {
                Some(a) => Some(a@),
                None => None,
            },
            method: self.method,
            url: self.url@,
            expected_status: self.expected_status,
            headers: self.headers@,
            payload: self.payload@,
            assertions: self.assertions@,
        }
    }
}

/// Where the scan of a block stands: the test case read so far, and the
/// number of lines that it will pass over before it reads a line again.
pub struct Scan {
    pub case: TestCaseView,
    pub skip: nat,
}

/// What one line does to the scan of the block whose lines are `block_lines`.
///
/// While lines are to be passed over, the line only counts down. A line
/// without `:` changes nothing. Otherwise the line's key, in lowercase, picks
/// the section: a single-line section takes the line's value; `headers`,
/// `payload` and `assertions` are read from the whole block, and as many of
/// the following lines are passed over as the section reports entries. A key
/// that names no section is refused.
pub open spec fn scan_line(block_lines: Seq<Seq<char>>, st: Scan, line: Seq<char>) -> Result<
    Scan,
    ErrorView,
> {
    let key = lowercase(key_of(line));
    let value = value_of(line);
    if st.skip > 0 {
        Ok(Scan { case: st.case, skip: (st.skip - 1) as nat })
    } else if !has_colon(line) {
        Ok(st)
    } else if key == "testcase"@ {
        Ok(Scan { case: TestCaseView { name: value, ..st.case }, skip: 0 })
    } else if key == "description"@ {
        Ok(Scan { case: TestCaseView { description: value, ..st.case }, skip: 0 })
    } else if key == "author"@ {
        Ok(Scan { case: TestCaseView { author: Some(value), ..st.case }, skip: 0 })
    } else if key == "url"@ {
        Ok(Scan { case: TestCaseView { url: value, ..st.case }, skip: 0 })
    } else if key == "statuscode"@ {
        match status_of(value) {
            Ok(code) => Ok(
                Scan { case: TestCaseView { expected_status: code, ..st.case }, skip: 0 },
            ),
            Err(e) => Err(e),
        }
    } else if key == "method"@ {
        match method_of(value) {
            Ok(m) => Ok(Scan { case: TestCaseView { method: m, ..st.case }, skip: 0 }),
            Err(e) => Err(e),
        }
    } else if key == "headers"@ {
        match headers_of(block_lines) {
            Ok(h) => Ok(Scan { case: TestCaseView { headers: h, ..st.case }, skip: h.dom().len() }),
            Err(e) => Err(e),
        }
    } else if key == "payload"@ {
        match payload_of(block_lines) {
            Ok(p) => Ok(Scan { case: TestCaseView { payload: p, ..st.case }, skip: p.dom().len() }),
            Err(e) => Err(e),
        }
    } else if key == "assertions"@ {
        match assertions_of(block_lines) {
            Ok(a) => Ok(Scan { case: TestCaseView { assertions: a, ..st.case }, skip: a.len() }),
            Err(e) => Err(e),
        }
    } else {
        Err(ErrorView::InvalidSection(key))
    }
}

/// The scan of a block after its lines `ls`, read from the first on; the
/// first line that is refused decides.
pub open spec fn scan(block_lines: Seq<Seq<char>>, ls: Seq<Seq<char>>) -> Result<Scan, ErrorView>
    decreases ls.len(),
{
    if ls.len() == 0 {
        Ok(Scan { case: TestCaseView::empty(), skip: 0 })
    } else {
        match scan(block_lines, ls.drop_last()) {
            Ok(st) => scan_line(block_lines, st, ls.last()),
            Err(e) => Err(e),
        }
    }
}

/// The test case that a block states, or why it states none.
pub open spec fn test_case_of(block: Seq<char>) -> Result<TestCaseView, ErrorView> {
    match scan(lines(block), lines(block)) {
        Ok(st) => Ok(st.case),
        Err(e) => Err(e),
    }
}

/// Once a line is refused, the lines after it change nothing.
pub proof fn lemma_scan_refusal_stays(block_lines: Seq<Seq<char>>, ls: Seq<Seq<char>>, k: int)
    requires
        0 <= k <= ls.len(),
        scan(block_lines, ls.take(k)) is Err,
    ensures
        scan(block_lines, ls) == scan(block_lines, ls.take(k)),
    decreases ls.len() - k,
{
    if k < ls.len() {
        assert(ls.take(k + 1).drop_last() =~= ls.take(k));
        lemma_scan_refusal_stays(block_lines, ls, k + 1);
    } else {
        assert(ls.take(k) =~= ls);
    }
}

impl TestCase {
    /// The test case of an empty block.
    pub fn new() -> (out: Self)
        ensures
            out@ == TestCaseView::empty(),
    {
        TestCase {
            name: String::new(),
            description: String::new(),
            author: None,
            method: Method::UNSET,
            url: String::new(),
            expected_status: StatusCode(0),
            headers: Headers::new(),
            payload: Payload::new(),
            assertions: Assertions::new(),
        }
    }

    /// Reads one line of a block that is not passed over. Returns the number
    /// of lines to pass over after it.
    fn take_line(&mut self, block_lines: &Vec<Vec<char>>, line: &[char]) -> (r: Result<
        usize,
        Error,
    >)
        ensures
            match r {
                Ok(skip) => scan_line(
                    texts(block_lines@),
                    Scan { case: old(self)@, skip: 0 },
                    line@,
                ) == Ok::<_, ErrorView>(Scan { case: final(self)@, skip: skip as nat }),
                Err(e) => scan_line(
                    texts(block_lines@),
                    Scan { case: old(self)@, skip: 0 },
                    line@,
                ) == Err::<Scan, _>(e@),
            },
    {
        let found = find(line, ':');
        if found.is_none() {
            return Ok(0);
        }
        let c: usize = found.unwrap();
        let n: usize = line.len();
        let key = lowered(trimmed(&line[0..c]));
        let value = trimmed(&line[c + 1..n]);
        proof {
            assert(line@.subrange(0, c as int) =~= line@.take(c as int));
            assert(line@.subrange(c + 1, n as int) =~= line@.skip(c + 1));
        }
        if reads_as(key.as_slice(), "testcase") {
            self.name = string_of(value);
            Ok(0)
        } else if reads_as(key.as_slice(), "description") {
            self.description = string_of(value);
            Ok(0)
        } else if reads_as(key.as_slice(), "author") {
            self.author = Some(string_of(value));
            Ok(0)
        } else if reads_as(key.as_slice(), "url") {
            self.url = string_of(value);
            Ok(0)
        } else if reads_as(key.as_slice(), "statuscode") {
            match status_of_chars(value) {
                Ok(code) => {
                    self.expected_status = code;
                    Ok(0)
                },
                Err(e) => Err(e),
            }
        } else if reads_as(key.as_slice(), "method") {
            match method_of_chars(value) {
                Ok(m) => {
                    self.method = m;
                    Ok(0)
                },
                Err(e) => Err(e),
            }
        } else if reads_as(key.as_slice(), "headers") {
            match Headers::read(block_lines) {
                Ok(h) => {
                    let skip = h.len();
                    self.headers = h;
                    Ok(skip)
                },
                Err(e) => Err(e),
            }
        } else if reads_as(key.as_slice(), "payload") {
            match Payload::read(block_lines) {
                Ok(p) => {
                    let skip = p.len();
                    self.payload = p;
                    Ok(skip)
                },
                Err(e) => Err(e),
            }
        } else if reads_as(key.as_slice(), "assertions") {
            match Assertions::read(block_lines) {
                Ok(a) => {
                    let skip = a.len();
                    self.assertions = a;
                    Ok(skip)
                },
                Err(e) => Err(e),
            }
        } else {
            Err(Error::InvalidSection(string_of(key.as_slice())))
        }
    }

    /// Reads the test case that the lines of a block state.
    pub(crate) fn read(block_lines: &Vec<Vec<char>>) -> (r: Result<TestCase, Error>)
        ensures
            match r {
                Ok(t) => scan(texts(block_lines@), texts(block_lines@)) matches Ok(st) && st.case
                    == t@,
                Err(e) => scan(texts(block_lines@), texts(block_lines@)) == Err::<Scan, _>(e@),
            },
    {
        let ghost all = texts(block_lines@);
        let mut case = TestCase::new();
        let mut skip: usize = 0;
        let mut i: usize = 0;
        proof {
            assert(all.take(0) =~= Seq::<Seq<char>>::empty());
        }
        while i < block_lines.len()
            invariant
                i <= block_lines@.len(),
                all == texts(block_lines@),
                scan(all, all.take(i as int)) == Ok::<_, ErrorView>(
                    Scan { case: case@, skip: skip as nat },
                ),
            decreases block_lines.len() - i,
        {
            proof {
                assert(all.take(i + 1).drop_last() =~= all.take(i as int));
                assert(all.take(i + 1).last() == block_lines@[i as int]@);
            }
            if skip != 0 {
                skip -= 1;
            } else {
                match case.take_line(block_lines, block_lines[i].as_slice()) {
                    Ok(next) => {
                        skip = next;
                    },
                    Err(e) => {
                        proof {
                            lemma_scan_refusal_stays(all, all, i + 1);
                        }
                        return Err(e);
                    },
                }
            }
            i += 1;
        }
        proof {
            assert(all.take(i as int) =~= all);
        }
        Ok(case)
    }

    /// Reads the test case that the block `input` states.
    pub fn parse(input: &str) -> (r: Result<TestCase, Error>)
        ensures
            match r {
                Ok(t) => test_case_of(input@) == Ok::<_, ErrorView>(t@),
                Err(e) => test_case_of(input@) == Err::<TestCaseView, _>(e@),
            },
    {
        let cs = chars_of(input);
        let block_lines = split_lines(cs.as_slice());
        TestCase::read(&block_lines)
    }
}

} // verus!
