//! The assertions section of a test case.

use crate::document::{lines, split_lines};
use crate::error::{Error, ErrorView};
use crate::fields::{has_colon, key_of, value_of};
use crate::section::{continuation, continuation_bounds};
use crate::text::{chars_of, find, lowercase, lowered, reads_as, string_of, texts, trimmed};
use vstd::prelude::*;
use vstd::string::*;

verus! {

/// An expression of an assertion, kept as it was written.
#[derive(Debug, Clone, PartialEq, Eq)]
pub struct Expr(pub String);

impl View for Expr {
    type V = Seq<char>;

    open spec fn view(&self) -> Seq<char> {
        self.0@
    }
}

impl Expr {
    /// The empty expression.
    pub fn new() -> (out: Self)
        ensures
            out@ == Seq::<char>::empty(),
    {
        Expr(String::new())
    }

    /// The expression that `value` writes.
    pub fn from(value: &str) -> (out: Self)
        ensures
            out@ == value@,
    {
        Expr(String::from_str(value))
    }

    /// The text of the expression.
    pub fn into_string(self) -> (out: String)
        ensures
            out@ == self@,
    {
        self.0
    }
}

/// The texts of the expressions of `v`, in order.
pub open spec fn exprs(v: Seq<Expr>) -> Seq<Seq<char>> {
    Seq::new(v.len(), |i: int| v[i]@)
}

/// What a test case asserts of a response. The number of lines that the
/// assertions are taken to fill always fits a `usize`.
#[derive(Debug, PartialEq, Eq)]
pub struct Assertions {
    json_path_exists: Vec<Expr>,
    json_path_value: Vec<Expr>,
    header_exists: String,
    header_value: Vec<Expr>,
}

/// [`Assertions`] with its texts as character sequences.
pub struct AssertionsView {
    /// The JSON paths that must exist, in the order written.
    pub json_path_exists: Seq<Seq<char>>,
    /// The JSON paths with the values they must have, in the order written.
    pub json_path_value: Seq<Seq<char>>,
    /// The header that must exist: the last one written, or empty.
    pub header_exists: Seq<char>,
    /// The headers with the values they must have, in the order written.
    pub header_value: Seq<Seq<char>>,
}

impl AssertionsView {
    /// No assertions.
    pub open spec fn empty() -> AssertionsView {
        AssertionsView {
            json_path_exists: Seq::empty(),
            json_path_value: Seq::empty(),
            header_exists: Seq::empty(),
            header_value: Seq::empty(),
        }
    }

    /// The number of lines that the assertions are taken to fill: one for
    /// each entry of the three lists, and one for the single `headerExists`,
    /// set or not.
    pub open spec fn len(self) -> nat {
        self.json_path_exists.len() + self.json_path_value.len() + self.header_value.len() + 1
    }
}

impl View for Assertions {
    type V = AssertionsView;

    closed spec fn view(&self) -> AssertionsView {
        AssertionsView {
            json_path_exists: exprs(self.json_path_exists@),
            json_path_value: exprs(self.json_path_value@),
            header_exists: self.header_exists@,
            header_value: exprs(self.header_value@),
        }
    }
}

/// What one line of the section does to the assertions read so far: a line
/// without `:` changes nothing; a known key, letter case aside, adds its value
/// to its list or replaces the single `headerExists`; any other key is
/// refused.
pub open spec fn assertion_step(a: AssertionsView, line: Seq<char>) -> Result<
    AssertionsView,
    ErrorView,
> {
    let key = lowercase(key_of(line));
    let value = value_of(line);
    if !has_colon(line) {
        Ok(a)
    } else if key == "jsonpathexists"@ {
        Ok(
            AssertionsView {
                json_path_exists: a.json_path_exists.push(value),
                json_path_value: a.json_path_value,
                header_exists: a.header_exists,
                header_value: a.header_value,
            },
        )
    } else if key == "jsonpathvalue"@ {
        Ok(
            AssertionsView {
                json_path_exists: a.json_path_exists,
                json_path_value: a.json_path_value.push(value),
                header_exists: a.header_exists,
                header_value: a.header_value,
            },
        )
    } else if key == "headerexists"@ {
        Ok(
            AssertionsView {
                json_path_exists: a.json_path_exists,
                json_path_value: a.json_path_value,
                header_exists: value,
                header_value: a.header_value,
            },
        )
    } else if key == "headervalue"@ {
        Ok(
            AssertionsView {
                json_path_exists: a.json_path_exists,
                json_path_value: a.json_path_value,
                header_exists: a.header_exists,
                header_value: a.header_value.push(value),
            },
        )
    } else {
        Err(ErrorView::InvalidKeyInAssertions(key))
    }
}

/// The assertions that the lines `ls` state, read in order; the first line
/// that is refused decides.
pub open spec fn assertions_fold(ls: Seq<Seq<char>>) -> Result<AssertionsView, ErrorView>
    decreases ls.len(),
{
    if ls.len() == 0 {
        Ok(AssertionsView::empty())
    } else {
        match assertions_fold(ls.drop_last()) {
            Ok(a) => assertion_step(a, ls.last()),
            Err(e) => Err(e),
        }
    }
}

/// The assertions that a block states.
pub open spec fn assertions_of(block_lines: Seq<Seq<char>>) -> Result<AssertionsView, ErrorView> {
    assertions_fold(continuation(block_lines, "assertions"@))
}

/// Once a line is refused, the lines after it change nothing.
pub proof fn lemma_refusal_stays(ls: Seq<Seq<char>>, k: int)
    requires
        0 <= k <= ls.len(),
        assertions_fold(ls.take(k)) is Err,
    ensures
        assertions_fold(ls) == assertions_fold(ls.take(k)),
    decreases ls.len() - k,
{
    if k < ls.len() {
        assert(ls.take(k + 1).drop_last() =~= ls.take(k));
        lemma_refusal_stays(ls, k + 1);
    } else {
        assert(ls.take(k) =~= ls);
    }
}

/// The assertions of `ls` fill at most one line more than `ls` has.
pub proof fn lemma_assertions_len(ls: Seq<Seq<char>>)
    ensures
        assertions_fold(ls) matches Ok(a) ==> a.len() <= ls.len() + 1,
    decreases ls.len(),
{
    if ls.len() > 0 {
        lemma_assertions_len(ls.drop_last());
    }
}

/// A copy of `v`.
fn copy_exprs(v: &Vec<Expr>) -> (out: Vec<Expr>)
    ensures
        out@ == v@,
{
    let mut out: Vec<Expr> = Vec::new();
    let mut i: usize = 0;
    while i < v.len()
        invariant
            i <= v@.len(),
            out@ == v@.take(i as int),
        decreases v.len() - i,
    {
        out.push(Expr(v[i].0.clone()));
        proof {
            assert(v@.take(i + 1) =~= v@.take(i as int).push(v@[i as int]));
        }
        i += 1;
    }
    proof {
        assert(v@.take(v@.len() as int) =~= v@);
    }
    out
}

impl Clone for Assertions {
    fn clone(&self) -> (out: Self)
        ensures
            out@ == self@,
    {
        proof {
            use_type_invariant(self);
        }
        Assertions {
            json_path_exists: copy_exprs(&self.json_path_exists),
            json_path_value: copy_exprs(&self.json_path_value),
            header_exists: self.header_exists.clone(),
            header_value: copy_exprs(&self.header_value),
        }
    }
}

impl Assertions {
    #[verifier::type_invariant]
    spec fn length_fits(self) -> bool {
        self.json_path_exists@.len() + self.json_path_value@.len() + self.header_value@.len() + 1
            <= usize::MAX
    }

    /// The JSON paths that must exist, in the order written.
    pub fn json_path_exists(&self) -> (out: &Vec<Expr>)
        ensures
            exprs(out@) == self@.json_path_exists,
    {
        &self.json_path_exists
    }

    /// The JSON paths with the values they must have, in the order written.
    pub fn json_path_value(&self) -> (out: &Vec<Expr>)
        ensures
            exprs(out@) == self@.json_path_value,
    {
        &self.json_path_value
    }

    /// The header that must exist: the last one written, or empty.
    pub fn header_exists(&self) -> (out: &String)
        ensures
            out@ == self@.header_exists,
    {
        &self.header_exists
    }

    /// The headers with the values they must have, in the order written.
    pub fn header_value(&self) -> (out: &Vec<Expr>)
        ensures
            exprs(out@) == self@.header_value,
    {
        &self.header_value
    }

    /// No assertions.
    pub fn new() -> (out: Self)
        ensures
            out@ == AssertionsView::empty(),
    {
        let out = Assertions {
            json_path_exists: Vec::new(),
            json_path_value: Vec::new(),
            header_exists: String::new(),
            header_value: Vec::new(),
        };
        proof {
            assert(exprs(out.json_path_exists@) =~= Seq::<Seq<char>>::empty());
            assert(exprs(out.json_path_value@) =~= Seq::<Seq<char>>::empty());
            assert(exprs(out.header_value@) =~= Seq::<Seq<char>>::empty());
        }
        out
    }

    /// The number of lines that the assertions are taken to fill.
    pub fn len(&self) -> (n: usize)
        ensures
            n == self@.len(),
    {
        proof {
            use_type_invariant(self);
        }
        self.json_path_exists.len() + self.json_path_value.len() + self.header_value.len() + 1
    }

    /// Reads one line of the section into `self`.
    fn take_line(self, line: &[char]) -> (r: Result<Assertions, Error>)
        requires
            self@.len() < usize::MAX,
        ensures
            match r {
                Ok(a) => assertion_step(self@, line@) == Ok::<_, ErrorView>(a@),
                Err(e) => assertion_step(self@, line@) == Err::<AssertionsView, _>(e@),
            },
    {
        proof {
            use_type_invariant(&self);
        }
        let ghost before = self@;
        let Assertions {
            mut json_path_exists,
            mut json_path_value,
            mut header_exists,
            mut header_value,
        } = self;
        match find(line, ':') {
            None => Ok(
                Assertions { json_path_exists, json_path_value, header_exists, header_value },
            ),
            Some(c) => {
                let n: usize = line.len();
                let key = lowered(trimmed(&line[0..c]));
                let value = string_of(trimmed(&line[c + 1..n]));
                proof {
                    assert(line@.subrange(0, c as int) =~= line@.take(c as int));
                    assert(line@.subrange(c + 1, n as int) =~= line@.skip(c + 1));
                }
                if reads_as(key.as_slice(), "jsonpathexists") {
                    json_path_exists.push(Expr(value));
                    proof {
                        assert(exprs(json_path_exists@) =~= before.json_path_exists.push(value@));
                    }
                } else if reads_as(key.as_slice(), "jsonpathvalue") {
                    json_path_value.push(Expr(value));
                    proof {
                        assert(exprs(json_path_value@) =~= before.json_path_value.push(value@));
                    }
                } else if reads_as(key.as_slice(), "headerexists") {
                    header_exists = value;
                } else if reads_as(key.as_slice(), "headervalue") {
                    header_value.push(Expr(value));
                    proof {
                        assert(exprs(header_value@) =~= before.header_value.push(value@));
                    }
                } else {
                    return Err(Error::InvalidKeyInAssertions(string_of(key.as_slice())));
                }
                Ok(Assertions { json_path_exists, json_path_value, header_exists, header_value })
            },
        }
    }

    /// Reads the assertions that the lines of a block state.
    pub(crate) fn read(block_lines: &Vec<Vec<char>>) -> (r: Result<Assertions, Error>)
        ensures
            match r {
                Ok(a) => assertions_of(texts(block_lines@)) == Ok::<_, ErrorView>(a@),
                Err(e) => assertions_of(texts(block_lines@)) == Err::<AssertionsView, _>(e@),
            },
    {
        let total: usize = block_lines.len();
        let (start, end) = continuation_bounds(block_lines, "assertions");
        let ghost ls = continuation(texts(block_lines@), "assertions"@);
        let mut a = Assertions::new();
        let mut i: usize = start;
        proof {
            assert(ls.take(0) =~= Seq::<Seq<char>>::empty());
        }
        while i < end
            invariant
                start <= i <= end <= block_lines@.len(),
                start == end || end - start < total,
                ls == texts(block_lines@).subrange(start as int, end as int),
                ls == continuation(texts(block_lines@), "assertions"@),
                assertions_fold(ls.take(i - start)) == Ok::<_, ErrorView>(a@),
            decreases end - i,
        {
            let line = block_lines[i].as_slice();
            proof {
                assert(line@ == ls[i - start]);
                assert(ls.take(i + 1 - start).drop_last() =~= ls.take(i - start));
                lemma_assertions_len(ls.take(i - start));
            }
            match a.take_line(line) {
                Ok(next) => {
                    a = next;
                },
                Err(e) => {
                    proof {
                        lemma_refusal_stays(ls, i + 1 - start);
                    }
                    return Err(e);
                },
            }
            i += 1;
        }
        proof {
            assert(ls.take(end - start) =~= ls);
        }
        Ok(a)
    }

    /// Reads the assertions that the block `input` states.
    pub fn parse(input: &str) -> (r: Result<Assertions, Error>)
        ensures
            match r {
                Ok(a) => assertions_of(lines(input@)) == Ok::<_, ErrorView>(a@),
                Err(e) => assertions_of(lines(input@)) == Err::<AssertionsView, _>(e@),
            },
    {
        let cs = chars_of(input);
        let block_lines = split_lines(cs.as_slice());
        Assertions::read(&block_lines)
    }
}

impl Default for Assertions {
    fn default() -> (out: Self)
        ensures
            out@ == AssertionsView::empty(),
    {
        Assertions::new()
    }
}

} // verus!
