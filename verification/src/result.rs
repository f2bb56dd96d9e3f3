//! The outcome of running a test case.

use crate::number::{decimal, write_decimal};
use crate::testcase::{TestCase, TestCaseView};
use crate::text::string_of;
use vstd::prelude::*;
use vstd::string::*;

verus! {

/// Why a test case failed.
#[derive(Debug, Clone, PartialEq, Eq)]
pub enum Remarks {
    /// A response came with another status than the expected one.
    StatusMismatch { expected: u16, received: u16 },
    /// No response came; holds what the HTTP client said of it.
    RequestFailed { cause: String },
}

/// [`Remarks`] with its text as a character sequence.
pub enum RemarksView {
    StatusMismatch { expected: u16, received: u16 },
    RequestFailed { cause: Seq<char> },
}

impl View for Remarks {
    type V = RemarksView;

    open spec fn view(&self) -> RemarksView {
        match self {
            Remarks::StatusMismatch { expected, received } => RemarksView::StatusMismatch {
                expected: *expected,
                received: *received,
            },
            Remarks::RequestFailed { cause } => RemarksView::RequestFailed { cause: cause@ },
        }
    }
}

impl RemarksView {
    /// The remarks in words.
    pub open spec fn message(self) -> Seq<char> {
        match self {
            RemarksView::StatusMismatch { expected, received } => "expected status code: "@
                + decimal(expected as nat) + ", got: "@ + decimal(received as nat),
            RemarksView::RequestFailed { cause } => "failed due to error: "@ + cause,
        }
    }
}

impl Remarks {
    /// The remarks in words.
    pub fn to_string(&self) -> (out: String)
        ensures
            out@ == self@.message(),
    {
        match self {
            Remarks::StatusMismatch { expected, received } => {
                let mut out = String::from_str("expected status code: ");
                let e = string_of(write_decimal(*expected).as_slice());
                out.append(e.as_str());
                out.append(", got: ");
                let r = string_of(write_decimal(*received).as_slice());
                out.append(r.as_str());
                out
            },
            Remarks::RequestFailed { cause } => {
                let mut out = String::from_str("failed due to error: ");
                out.append(cause.as_str());
                out
            },
        }
    }
}

/// How a test case ended.
#[derive(Debug, Clone, PartialEq, Eq)]
pub enum TestCaseResult {
    /// The response had the expected status.
    Success { name: String },
    /// It had not, or there was none.
    Fail { name: String, remarks: Remarks },
}

/// A [`TestCaseResult`] with its texts as character sequences.
pub enum TestCaseResultView {
    Success { name: Seq<char> },
    Fail { name: Seq<char>, remarks: RemarksView },
}

impl View for TestCaseResult {
    type V = TestCaseResultView;

    open spec fn view(&self) -> TestCaseResultView {
        match self {
            TestCaseResult::Success { name } => TestCaseResultView::Success { name: name@ },
            TestCaseResult::Fail { name, remarks } => TestCaseResultView::Fail {
                name: name@,
                remarks: remarks@,
            },
        }
    }
}

impl TestCaseResultView {
    /// The line that reports the result.
    pub open spec fn message(self) -> Seq<char> {
        match self {
            TestCaseResultView::Success { name } => "✅ Successfully passed test: \""@ + name
                + "\""@,
            TestCaseResultView::Fail { name, remarks } => "❌ Failed test: \""@ + name
                + "\", remarks: "@ + remarks.message(),
        }
    }
}

impl TestCaseResult {
    /// The line that reports the result.
    pub fn to_string(&self) -> (out: String)
        ensures
            out@ == self@.message(),
    {
        match self {
            TestCaseResult::Success { name } => {
                let mut out = String::from_str("✅ Successfully passed test: \"");
                out.append(name.as_str());
                out.append("\"");
                out
            },
            TestCaseResult::Fail { name, remarks } => {
                let mut out = String::from_str("❌ Failed test: \"");
                out.append(name.as_str());
                out.append("\", remarks: ");
                let r = remarks.to_string();
                out.append(r.as_str());
                out
            },
        }
    }
}

/// What came back for a request, as a mathematical value: the status code of
/// the response, or what the HTTP client said of its failure.
pub open spec fn reply_view(reply: Result<i32, String>) -> Result<i32, Seq<char>> {
    match reply {
        Ok(status) => Ok(status),
        Err(cause) => Err(cause@),
    }
}

/// The low 16 bits of a status code, as a number.
pub open spec fn low16(status: i32) -> u16 {
    status as u16
}

/// How the test case `case` ends on `reply`. A response with the expected
/// status is a success; one with another status fails with both statuses; no
/// response fails with the cause.
pub open spec fn verdict(case: TestCaseView, reply: Result<i32, Seq<char>>) -> TestCaseResultView {
    match reply {
        Ok(status) => if status == case.expected_status.0 {
            TestCaseResultView::Success { name: case.name }
        } else {
            TestCaseResultView::Fail {
                name: case.name,
                remarks: RemarksView::StatusMismatch {
                    expected: case.expected_status.0,
                    received: low16(status),
                },
            }
        },
        Err(cause) => TestCaseResultView::Fail {
            name: case.name,
            remarks: RemarksView::RequestFailed { cause },
        },
    }
}

/// A status code within 16 bits is reported as it is.
pub proof fn law_status_within_16_bits(status: i32)
    ensures
        0 <= status <= 0xFFFF ==> low16(status) == status,
{
    assert(0 <= status <= 0xFFFF ==> status as u16 == status) by (bit_vector);
}

impl TestCase {
    /// Decides how the test case ends on `reply`: the status code of the
    /// response, or what the HTTP client said of its failure.
    pub fn judge(&self, reply: Result<i32, String>) -> (out: TestCaseResult)
        ensures
            out@ == verdict(self@, reply_view(reply)),
    {
        match reply {
            Ok(status) => {
                if status == self.expected_status.0 as i32 {
                    TestCaseResult::Success { name: self.name.clone() }
                } else {
                    TestCaseResult::Fail {
                        name: self.name.clone(),
                        remarks: Remarks::StatusMismatch {
                            expected: self.expected_status.0,
                            received: #[verifier::truncate]
                            (status as u16),
                        },
                    }
                }
            },
            Err(cause) => TestCaseResult::Fail {
                name: self.name.clone(),
                remarks: Remarks::RequestFailed { cause },
            },
        }
    }
}

} // verus!
