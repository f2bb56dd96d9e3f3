//! What holds of every block, whatever it holds: how unknown keys, empty
//! sections, single-line sections and well-laid-out sections are read.

use crate::assertions::assertions_of;
use crate::error::ErrorView;
use crate::fields::{
    has_colon, key_of, lemma_pairs_map, line_keys, pairs_map, section_map, value_of,
};
use crate::method::{method_of, Method};
use crate::section::{
    continuation, indented_run, is_indented, lemma_continuation_in_place, marker_index,
};
use crate::testcase::{
    lemma_scan_refusal_stays, scan, scan_line, status_of, test_case_of, Scan, StatusCode,
    TestCaseView,
};
use crate::text::lowercase;
use vstd::prelude::*;

verus! {

/// Whether a line names the section `word`: it holds a `:`, and its key in
/// lowercase is `word`.
pub open spec fn names_section(line: Seq<char>, word: Seq<char>) -> bool {
    has_colon(line) && lowercase(key_of(line)) == word
}

/// Whether a line names one of the nine sections.
pub open spec fn names_known_section(line: Seq<char>) -> bool {
    ||| names_section(line, "testcase"@)
    ||| names_section(line, "description"@)
    ||| names_section(line, "author"@)
    ||| names_section(line, "url"@)
    ||| names_section(line, "statuscode"@)
    ||| names_section(line, "method"@)
    ||| names_section(line, "headers"@)
    ||| names_section(line, "payload"@)
    ||| names_section(line, "assertions"@)
}

/// The names of the nine sections differ from one another.
pub proof fn lemma_section_names_differ()
    ensures
        "testcase"@.len() == 8,
        "description"@.len() == 11,
        "author"@.len() == 6,
        "url"@.len() == 3,
        "statuscode"@.len() == 10,
        "method"@.len() == 6,
        "headers"@.len() == 7,
        "payload"@.len() == 7,
        "assertions"@.len() == 10,
        "author"@ != "method"@,
        "headers"@ != "payload"@,
        "statuscode"@ != "assertions"@,
{
    reveal_strlit("testcase");
    reveal_strlit("description");
    reveal_strlit("author");
    reveal_strlit("url");
    reveal_strlit("statuscode");
    reveal_strlit("method");
    reveal_strlit("headers");
    reveal_strlit("payload");
    reveal_strlit("assertions");
    assert("author"@[0] != "method"@[0]);
    assert("headers"@[0] != "payload"@[0]);
    assert("statuscode"@[0] != "assertions"@[0]);
}

/// A line that is read and whose key names no section makes the block fail
/// with `InvalidSection` and that key, in lowercase and without the white
/// space around it.
pub proof fn law_unknown_key_is_refused(ls: Seq<Seq<char>>, i: int)
    requires
        0 <= i < ls.len(),
        scan(ls, ls.take(i)) matches Ok(st) && st.skip == 0,
        has_colon(ls[i]),
        !names_known_section(ls[i]),
    ensures
        scan(ls, ls) == Err::<Scan, _>(ErrorView::InvalidSection(lowercase(key_of(ls[i])))),
{
    assert(ls.take(i + 1).drop_last() =~= ls.take(i));
    assert(ls.take(i + 1).last() == ls[i]);
    lemma_scan_refusal_stays(ls, ls, i + 1);
}

/// A block whose first line holds a `:` after a key that names no section
/// fails with `InvalidSection` and that key.
pub proof fn law_unknown_first_key_is_refused(block: Seq<char>)
    requires
        crate::document::lines(block).len() > 0,
        has_colon(crate::document::lines(block)[0]),
        !names_known_section(crate::document::lines(block)[0]),
    ensures
        test_case_of(block) == Err::<TestCaseView, _>(
            ErrorView::InvalidSection(lowercase(key_of(crate::document::lines(block)[0]))),
        ),
{
    let ls = crate::document::lines(block);
    assert(ls.take(0) =~= Seq::<Seq<char>>::empty());
    law_unknown_key_is_refused(ls, 0);
}

/// A section whose marker line is followed by no indented line has no lines,
/// and read as key-value lines it gives the empty mapping.
pub proof fn law_marker_alone_gives_empty_section(ls: Seq<Seq<char>>, word: Seq<char>)
    requires
        0 <= marker_index(ls, word) < ls.len(),
        marker_index(ls, word) + 1 == ls.len() || !is_indented(ls[marker_index(ls, word) + 1]),
    ensures
        continuation(ls, word) == Seq::<Seq<char>>::empty(),
        section_map(ls, word) == Some(Map::<Seq<char>, Seq<char>>::empty()),
{
    let m = marker_index(ls, word);
    let rest = ls.skip(m + 1);
    if rest.len() > 0 {
        assert(rest[0] == ls[m + 1]);
    }
    assert(indented_run(rest) == 0);
    assert(rest.take(0) =~= Seq::<Seq<char>>::empty());
    assert(continuation(ls, word) =~= Seq::<Seq<char>>::empty());
}

/// A `headers:` line that is read, in a block whose first headers marker is
/// followed by no indented line, gives the test case the empty mapping and
/// lets no line be passed over.
pub proof fn law_empty_headers_pass_over_nothing(ls: Seq<Seq<char>>, st: Scan, line: Seq<char>)
    requires
        st.skip == 0,
        names_section(line, "headers"@),
        0 <= marker_index(ls, "headers"@) < ls.len(),
        marker_index(ls, "headers"@) + 1 == ls.len() || !is_indented(
            ls[marker_index(ls, "headers"@) + 1],
        ),
    ensures
        scan_line(ls, st, line) == Ok::<_, ErrorView>(
            Scan { case: TestCaseView { headers: Map::empty(), ..st.case }, skip: 0 },
        ),
{
    lemma_section_names_differ();
    law_marker_alone_gives_empty_section(ls, "headers"@);
}

/// Lines that are passed over leave the test case as it is: where `skip`
/// lines are to be passed over after the first `a` lines, the scan stands
/// after `a + skip` lines with the same test case and nothing to pass over.
pub proof fn lemma_passed_over(ls: Seq<Seq<char>>, a: int, case: TestCaseView, skip: nat)
    requires
        0 <= a,
        a + skip <= ls.len(),
        scan(ls, ls.take(a)) == Ok::<_, ErrorView>(Scan { case, skip }),
    ensures
        scan(ls, ls.take(a + skip)) == Ok::<_, ErrorView>(Scan { case, skip: 0 }),
    decreases skip,
{
    if skip > 0 {
        assert(ls.take(a + 1).drop_last() =~= ls.take(a));
        lemma_passed_over(ls, a + 1, case, (skip - 1) as nat);
    }
}

/// A section is read in place where it reports as many entries as it has
/// lines. Where the line at `i` is read and opens a section, so that the scan
/// stands at `next` after it, and `next.skip` lines follow, the scan stands
/// after them with the test case of `next` and nothing to pass over.
pub proof fn law_section_read_in_place(ls: Seq<Seq<char>>, i: int, next: Scan)
    requires
        0 <= i < ls.len(),
        scan(ls, ls.take(i + 1)) == Ok::<_, ErrorView>(next),
        i + 1 + next.skip <= ls.len(),
    ensures
        scan(ls, ls.take(i + 1 + next.skip)) == Ok::<_, ErrorView>(
            Scan { case: next.case, skip: 0 },
        ),
{
    lemma_passed_over(ls, i + 1, next.case, next.skip);
}

/// A headers section that is laid out well is read in place. Where the line
/// at `i` is read, names `headers` and is the first headers marker of the
/// block, and the indented lines after it each hold a `:` and name each header
/// once, the scan stands after those lines with their mapping as the headers,
/// every other field as it was, and nothing to pass over.
pub proof fn law_headers_read_in_place(ls: Seq<Seq<char>>, i: int, st: Scan)
    requires
        0 <= i < ls.len(),
        scan(ls, ls.take(i)) == Ok::<_, ErrorView>(st),
        st.skip == 0,
        names_section(ls[i], "headers"@),
        marker_index(ls, "headers"@) == i,
        forall|j: int|
            0 <= j < continuation(ls, "headers"@).len() ==> has_colon(
                #[trigger] continuation(ls, "headers"@)[j],
            ),
        line_keys(continuation(ls, "headers"@)).no_duplicates(),
    ensures
        i + 1 + continuation(ls, "headers"@).len() <= ls.len(),
        continuation(ls, "headers"@) == ls.subrange(
            i + 1,
            i + 1 + continuation(ls, "headers"@).len(),
        ),
        scan(ls, ls.take(i + 1 + continuation(ls, "headers"@).len())) == Ok::<_, ErrorView>(
            Scan {
                case: TestCaseView {
                    headers: pairs_map(continuation(ls, "headers"@)),
                    ..st.case
                },
                skip: 0,
            },
        ),
{
    let lines_of_section = continuation(ls, "headers"@);
    lemma_section_names_differ();
    lemma_continuation_in_place(ls, "headers"@);
    lemma_pairs_map(lines_of_section);
    assert(ls.take(i + 1).drop_last() =~= ls.take(i));
    assert(ls.take(i + 1).last() == ls[i]);
    let next = Scan {
        case: TestCaseView { headers: pairs_map(lines_of_section), ..st.case },
        skip: lines_of_section.len(),
    };
    assert(scan(ls, ls.take(i + 1)) == Ok::<_, ErrorView>(next));
    law_section_read_in_place(ls, i, next);
}

/// A payload section that is laid out well is read in place: as for headers,
/// with `payload` in place of `headers`.
pub proof fn law_payload_read_in_place(ls: Seq<Seq<char>>, i: int, st: Scan)
    requires
        0 <= i < ls.len(),
        scan(ls, ls.take(i)) == Ok::<_, ErrorView>(st),
        st.skip == 0,
        names_section(ls[i], "payload"@),
        marker_index(ls, "payload"@) == i,
        forall|j: int|
            0 <= j < continuation(ls, "payload"@).len() ==> has_colon(
                #[trigger] continuation(ls, "payload"@)[j],
            ),
        line_keys(continuation(ls, "payload"@)).no_duplicates(),
    ensures
        i + 1 + continuation(ls, "payload"@).len() <= ls.len(),
        continuation(ls, "payload"@) == ls.subrange(
            i + 1,
            i + 1 + continuation(ls, "payload"@).len(),
        ),
        scan(ls, ls.take(i + 1 + continuation(ls, "payload"@).len())) == Ok::<_, ErrorView>(
            Scan {
                case: TestCaseView {
                    payload: pairs_map(continuation(ls, "payload"@)),
                    ..st.case
                },
                skip: 0,
            },
        ),
{
    let lines_of_section = continuation(ls, "payload"@);
    lemma_section_names_differ();
    lemma_continuation_in_place(ls, "payload"@);
    lemma_pairs_map(lines_of_section);
    assert(ls.take(i + 1).drop_last() =~= ls.take(i));
    assert(ls.take(i + 1).last() == ls[i]);
    let next = Scan {
        case: TestCaseView { payload: pairs_map(lines_of_section), ..st.case },
        skip: lines_of_section.len(),
    };
    assert(scan(ls, ls.take(i + 1)) == Ok::<_, ErrorView>(next));
    law_section_read_in_place(ls, i, next);
}

/// An assertions section that is laid out well is read in place. Where the
/// line at `i` is read, names `assertions` and is the first assertions marker
/// of the block, and the section is accepted and reports as many entries as it
/// has lines, the scan stands after those lines with the section's assertions,
/// every other field as it was, and nothing to pass over.
pub proof fn law_assertions_read_in_place(ls: Seq<Seq<char>>, i: int, st: Scan)
    requires
        0 <= i < ls.len(),
        scan(ls, ls.take(i)) == Ok::<_, ErrorView>(st),
        st.skip == 0,
        names_section(ls[i], "assertions"@),
        marker_index(ls, "assertions"@) == i,
        assertions_of(ls) matches Ok(a) && a.len() == continuation(ls, "assertions"@).len(),
    ensures
        i + 1 + continuation(ls, "assertions"@).len() <= ls.len(),
        continuation(ls, "assertions"@) == ls.subrange(
            i + 1,
            i + 1 + continuation(ls, "assertions"@).len(),
        ),
        scan(ls, ls.take(i + 1 + continuation(ls, "assertions"@).len())) == Ok::<_, ErrorView>(
            Scan {
                case: TestCaseView { assertions: assertions_of(ls)->Ok_0, ..st.case },
                skip: 0,
            },
        ),
{
    let lines_of_section = continuation(ls, "assertions"@);
    lemma_section_names_differ();
    lemma_continuation_in_place(ls, "assertions"@);
    assert(ls.take(i + 1).drop_last() =~= ls.take(i));
    assert(ls.take(i + 1).last() == ls[i]);
    let next = Scan {
        case: TestCaseView { assertions: assertions_of(ls)->Ok_0, ..st.case },
        skip: lines_of_section.len(),
    };
    assert(scan(ls, ls.take(i + 1)) == Ok::<_, ErrorView>(next));
    law_section_read_in_place(ls, i, next);
}

/// Whether a line is one that a block of single-line sections may hold: a
/// line without `:`, or one that names `testcase`, `description`, `author` or
/// `url`, or `statuscode` with a 16-bit number, or `method` with a known
/// method.
pub open spec fn is_single_line(line: Seq<char>) -> bool {
    ||| !has_colon(line)
    ||| names_section(line, "testcase"@)
    ||| names_section(line, "description"@)
    ||| names_section(line, "author"@)
    ||| names_section(line, "url"@)
    ||| names_section(line, "statuscode"@) && status_of(value_of(line)) is Ok
    ||| names_section(line, "method"@) && method_of(value_of(line)) is Ok
}

/// The value of the last line of `ls` that names the section `word`.
pub open spec fn last_value(ls: Seq<Seq<char>>, word: Seq<char>) -> Option<Seq<char>>
    decreases ls.len(),
{
    if ls.len() == 0 {
        None
    } else if names_section(ls.last(), word) {
        Some(value_of(ls.last()))
    } else {
        last_value(ls.drop_last(), word)
    }
}

/// The text `v`, or the empty text where there is none.
pub open spec fn text_or_empty(v: Option<Seq<char>>) -> Seq<char> {
    match v {
        Some(text) => text,
        None => Seq::empty(),
    }
}

/// The test case whose fields are the values of the last lines of `ls` that
/// name them, white space around the values aside, and whose sections are
/// empty.
pub open spec fn single_line_case(ls: Seq<Seq<char>>) -> TestCaseView {
    TestCaseView {
        name: text_or_empty(last_value(ls, "testcase"@)),
        description: text_or_empty(last_value(ls, "description"@)),
        author: last_value(ls, "author"@),
        url: text_or_empty(last_value(ls, "url"@)),
        expected_status: match last_value(ls, "statuscode"@) {
            Some(v) => match status_of(v) {
                Ok(code) => code,
                Err(_) => StatusCode(0),
            },
            None => StatusCode(0),
        },
        method: match last_value(ls, "method"@) {
            Some(v) => match method_of(v) {
                Ok(m) => m,
                Err(_) => Method::UNSET,
            },
            None => Method::UNSET,
        },
        ..TestCaseView::empty()
    }
}

/// Lines that hold single-line sections only are read to the test case whose
/// fields are the values written: each field has the value of the last line
/// that names it, whatever the letter case of the key, without the white space
/// around the value; a field that no line names is as in the empty test case.
pub proof fn lemma_single_line_sections(block_lines: Seq<Seq<char>>, ls: Seq<Seq<char>>)
    requires
        forall|i: int| 0 <= i < ls.len() ==> is_single_line(#[trigger] ls[i]),
    ensures
        scan(block_lines, ls) == Ok::<_, ErrorView>(Scan { case: single_line_case(ls), skip: 0 }),
    decreases ls.len(),
{
    lemma_section_names_differ();
    if ls.len() > 0 {
        let head = ls.drop_last();
        let line = ls.last();
        assert forall|i: int| 0 <= i < head.len() implies is_single_line(#[trigger] head[i]) by {
            assert(head[i] == ls[i]);
        }
        lemma_single_line_sections(block_lines, head);
        assert(is_single_line(ls[ls.len() - 1]));
    }
}

/// A block of single-line sections is read to the test case whose fields are
/// the values written: each field has the value of the last line that names
/// it, whatever the letter case of the key, without the white space around the
/// value.
pub proof fn law_single_line_block(block: Seq<char>)
    requires
        forall|i: int|
            0 <= i < crate::document::lines(block).len() ==> is_single_line(
                #[trigger] crate::document::lines(block)[i],
            ),
    ensures
        test_case_of(block) == Ok::<_, ErrorView>(single_line_case(crate::document::lines(block))),
{
    lemma_single_line_sections(crate::document::lines(block), crate::document::lines(block));
}

} // verus!
