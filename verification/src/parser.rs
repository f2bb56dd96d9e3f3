//! Reading a whole document: comments out, blocks apart, one test case per
//! block.

use crate::document::{
    blocks, comment_free, law_comments_removed_once, law_no_comment_no_change, split_blocks,
    split_lines, strip_comments, without_comments,
};
use crate::error::{Error, ErrorView};
use crate::testcase::{test_case_of, TestCase, TestCaseView};
use crate::text::{chars_of, string_of, texts};
use vstd::prelude::*;

verus! {

/// The test cases of a document, in the order of their blocks.
#[derive(Debug, Clone)]
pub struct TestCases(pub Vec<TestCase>);

impl View for TestCases {
    type V = Seq<TestCaseView>;

    open spec fn view(&self) -> Seq<TestCaseView> {
        Seq::new(self.0@.len(), |i: int| self.0@[i]@)
    }
}

/// The test cases that the blocks `bs` state, block by block in order; the
/// first block that is refused decides, and then there are no test cases.
pub open spec fn cases_of(bs: Seq<Seq<char>>) -> Result<Seq<TestCaseView>, ErrorView>
    decreases bs.len(),
{
    if bs.len() == 0 {
        Ok(Seq::empty())
    } else {
        match cases_of(bs.drop_last()) {
            Ok(cases) => match test_case_of(bs.last()) {
                Ok(case) => Ok(cases.push(case)),
                Err(e) => Err(e),
            },
            Err(e) => Err(e),
        }
    }
}

/// The test cases that a document states: those of its blocks, once its
/// comment lines are gone.
pub open spec fn document_of(d: Seq<char>) -> Result<Seq<TestCaseView>, ErrorView> {
    cases_of(blocks(without_comments(d)))
}

/// Once a block is refused, the blocks after it change nothing.
pub proof fn lemma_block_refusal_stays(bs: Seq<Seq<char>>, k: int)
    requires
        0 <= k <= bs.len(),
        cases_of(bs.take(k)) is Err,
    ensures
        cases_of(bs) == cases_of(bs.take(k)),
    decreases bs.len() - k,
{
    if k < bs.len() {
        assert(bs.take(k + 1).drop_last() =~= bs.take(k));
        lemma_block_refusal_stays(bs, k + 1);
    } else {
        assert(bs.take(k) =~= bs);
    }
}

/// `input` without its comment lines.
pub fn filter_out_comments(input: &str) -> (out: String)
    ensures
        out@ == without_comments(input@),
{
    let cs = chars_of(input);
    let kept = strip_comments(cs.as_slice());
    string_of(kept.as_slice())
}

/// The reader of documents.
pub struct Parser;

impl Parser {
    /// Reads the test cases of the document `input`. The blocks are read in
    /// order, and the first one that is refused gives the error.
    pub fn parse(input: &str) -> (r: Result<TestCases, Error>)
        ensures
            match r {
                Ok(cases) => document_of(input@) == Ok::<_, ErrorView>(cases@),
                Err(e) => document_of(input@) == Err::<Seq<TestCaseView>, _>(e@),
            },
    {
        let cs = chars_of(input);
        let kept = strip_comments(cs.as_slice());
        let bs = split_blocks(kept.as_slice());
        let ghost all = texts(bs@);
        let mut cases: Vec<TestCase> = Vec::new();
        let mut i: usize = 0;
        proof {
            assert(all.take(0) =~= Seq::<Seq<char>>::empty());
            assert(TestCases(cases)@ =~= Seq::<TestCaseView>::empty());
        }
        while i < bs.len()
            invariant
                i <= bs@.len(),
                all == texts(bs@),
                all == blocks(without_comments(input@)),
                cases_of(all.take(i as int)) == Ok::<_, ErrorView>(TestCases(cases)@),
            decreases bs.len() - i,
        {
            let ghost before = TestCases(cases)@;
            let block_lines = split_lines(bs[i].as_slice());
            proof {
                assert(all.take(i + 1).drop_last() =~= all.take(i as int));
                assert(all.take(i + 1).last() == bs@[i as int]@);
            }
            match TestCase::read(&block_lines) {
                Ok(case) => {
                    let ghost view = case@;
                    cases.push(case);
                    proof {
                        assert(TestCases(cases)@ =~= before.push(view));
                    }
                },
                Err(e) => {
                    proof {
                        lemma_block_refusal_stays(all, i + 1);
                    }
                    return Err(e);
                },
            }
            i += 1;
        }
        proof {
            assert(all.take(i as int) =~= all);
        }
        Ok(TestCases(cases))
    }
}

/// A document that is read gives one test case for each of its blocks: for
/// each piece between separators that is not empty once its comments and the
/// white space around it are gone.
pub proof fn law_one_case_per_block(d: Seq<char>)
    ensures
        document_of(d) matches Ok(cases) ==> cases.len() == blocks(without_comments(d)).len(),
{
    lemma_case_count(blocks(without_comments(d)));
}

/// Blocks that are all read give as many test cases as there are blocks.
pub proof fn lemma_case_count(bs: Seq<Seq<char>>)
    ensures
        cases_of(bs) matches Ok(cases) ==> cases.len() == bs.len(),
    decreases bs.len(),
{
    if bs.len() > 0 {
        lemma_case_count(bs.drop_last());
    }
}

/// To remove the comments of a document before it is read changes nothing
/// of what is read.
pub proof fn law_reading_removes_comments(d: Seq<char>)
    ensures
        document_of(without_comments(d)) == document_of(d),
{
    law_comments_removed_once(d);
}

/// Where the removal of its comments leaves a document with as many blocks
/// as it had, the document without them, when it is read, gives as many test
/// cases as the document has blocks.
pub proof fn law_block_count(d: Seq<char>)
    requires
        blocks(without_comments(d)).len() == blocks(d).len(),
    ensures
        document_of(without_comments(d)) matches Ok(cases) ==> cases.len() == blocks(d).len(),
{
    law_reading_removes_comments(d);
    law_one_case_per_block(d);
}

/// A document without a comment line, when it is read, gives as many test
/// cases as it has blocks.
pub proof fn law_block_count_without_comments(d: Seq<char>)
    requires
        comment_free(d),
    ensures
        document_of(without_comments(d)) matches Ok(cases) ==> cases.len() == blocks(d).len(),
{
    law_no_comment_no_change(d);
    law_block_count(d);
}

} // verus!
