//! The lines that belong to a multi-line section of a block: those that
//! follow the section's marker line and are indented.

use crate::text::{begins_with, chars_of, lowercase, lowered, starts_with, texts};
use vstd::prelude::*;

verus! {

/// The index of the first item of `s` of which `p` holds, or the length of
/// `s` where it holds of none.
pub open spec fn first_where<A>(s: Seq<A>, p: spec_fn(A) -> bool) -> int
    decreases s.len(),
{
    if s.len() == 0 || p(s[0]) {
        0
    } else {
        1 + first_where(s.drop_first(), p)
    }
}

/// `first_where(s, p)` is the one `n` such that `p` holds of none of the
/// first `n` items and holds of the next one, if there is one.
pub proof fn lemma_first_where<A>(s: Seq<A>, p: spec_fn(A) -> bool, n: int)
    requires
        0 <= n <= s.len(),
        forall|i: int| 0 <= i < n ==> !p(#[trigger] s[i]),
        n == s.len() || p(s[n]),
    ensures
        first_where(s, p) == n,
    decreases n,
{
    if n > 0 {
        lemma_first_where(s.drop_first(), p, n - 1);
    }
}

/// `first_where(s, p)` lies within `s`, `p` holds of no item before it, and
/// holds of the item at it unless it holds of none.
pub proof fn lemma_first_where_bounds<A>(s: Seq<A>, p: spec_fn(A) -> bool)
    ensures
        0 <= first_where(s, p) <= s.len(),
        forall|i: int| 0 <= i < first_where(s, p) ==> !p(#[trigger] s[i]),
        first_where(s, p) < s.len() ==> p(s[first_where(s, p)]),
    decreases s.len(),
{
    if s.len() == 0 || p(s[0]) {
    } else {
        let rest = s.drop_first();
        lemma_first_where_bounds(rest, p);
        assert forall|i: int| 0 <= i < first_where(s, p) implies !p(#[trigger] s[i]) by {
            if i > 0 {
                assert(rest[i - 1] == s[i]);
            }
        }
    }
}

/// Whether a line continues a section: it begins with two spaces or with a
/// tab.
pub open spec fn is_indented(line: Seq<char>) -> bool {
    ||| line.len() >= 2 && line[0] == ' ' && line[1] == ' '
    ||| line.len() >= 1 && line[0] == '\t'
}

/// Whether a line opens the section named `word`: its lowercase form begins
/// with `word`.
pub open spec fn is_marker(line: Seq<char>, word: Seq<char>) -> bool {
    begins_with(lowercase(line), word)
}

/// The index of the first line that opens the section named `word`, or the
/// number of lines where none does.
pub open spec fn marker_index(lines: Seq<Seq<char>>, word: Seq<char>) -> int {
    first_where(lines, |line: Seq<char>| is_marker(line, word))
}

/// The number of indented lines with which `lines` begins.
pub open spec fn indented_run(lines: Seq<Seq<char>>) -> int {
    first_where(lines, |line: Seq<char>| !is_indented(line))
}

/// The lines of the section named `word`: the indented lines that follow the
/// first marker line directly, up to the first line that is not indented.
/// Where no line opens the section there are none.
pub open spec fn continuation(lines: Seq<Seq<char>>, word: Seq<char>) -> Seq<Seq<char>> {
    let m = marker_index(lines, word);
    if 0 <= m < lines.len() {
        let rest = lines.skip(m + 1);
        rest.take(indented_run(rest))
    } else {
        Seq::empty()
    }
}

/// The lines of a section stand right after its marker line.
pub proof fn lemma_continuation_in_place(ls: Seq<Seq<char>>, word: Seq<char>)
    requires
        0 <= marker_index(ls, word) < ls.len(),
    ensures
        marker_index(ls, word) + 1 + continuation(ls, word).len() <= ls.len(),
        continuation(ls, word) == ls.subrange(
            marker_index(ls, word) + 1,
            marker_index(ls, word) + 1 + continuation(ls, word).len(),
        ),
        forall|j: int|
            0 <= j < continuation(ls, word).len() ==> is_indented(
                #[trigger] continuation(ls, word)[j],
            ),
{
    let m = marker_index(ls, word);
    let rest = ls.skip(m + 1);
    lemma_first_where_bounds(rest, |line: Seq<char>| !is_indented(line));
    let n = indented_run(rest);
    assert(rest.take(n) =~= ls.subrange(m + 1, m + 1 + n));
}

/// Whether the line `line` is indented.
pub fn indented(line: &[char]) -> (b: bool)
    ensures
        b == is_indented(line@),
{
    (line.len() >= 2 && line[0] == ' ' && line[1] == ' ') || (line.len() >= 1 && line[0] == '\t')
}

/// Whether the line `line` opens the section named `word`.
pub fn opens_section(line: &[char], word: &[char]) -> (b: bool)
    ensures
        b == is_marker(line@, word@),
{
    let low = lowered(line);
    starts_with(low.as_slice(), word)
}

/// Where the lines of the section named `word` stand in `lines`: from the
/// first index to before the second.
pub fn continuation_bounds(lines: &Vec<Vec<char>>, word: &str) -> (r: (usize, usize))
    ensures
        r.0 <= r.1 <= lines@.len(),
        r.0 == r.1 || r.1 - r.0 < lines@.len(),
        texts(lines@).subrange(r.0 as int, r.1 as int) == continuation(texts(lines@), word@),
{
    let w = chars_of(word);
    let n: usize = lines.len();
    let ghost all = texts(lines@);
    let ghost opens = |line: Seq<char>| is_marker(line, word@);
    let ghost plain = |line: Seq<char>| !is_indented(line);
    let mut m: usize = 0;
    while m < n && !opens_section(lines[m].as_slice(), w.as_slice())
        invariant
            n == lines@.len(),
            w@ == word@,
            m <= n,
            all == texts(lines@),
            opens == |line: Seq<char>| is_marker(line, word@),
            forall|i: int| 0 <= i < m ==> !opens(#[trigger] all[i]),
        decreases n - m,
    {
        m += 1;
    }
    proof {
        lemma_first_where(all, opens, m as int);
    }
    if m == n {
        proof {
            assert(all.subrange(n as int, n as int) =~= Seq::<Seq<char>>::empty());
        }
        return (n, n);
    }
    let ghost rest = all.skip(m + 1);
    let mut e: usize = m + 1;
    while e < n && indented(lines[e].as_slice())
        invariant
            n == lines@.len(),
            m < e <= n,
            all == texts(lines@),
            rest == all.skip(m + 1),
            plain == |line: Seq<char>| !is_indented(line),
            forall|i: int| 0 <= i < e - (m + 1) ==> !plain(#[trigger] rest[i]),
        decreases n - e,
    {
        e += 1;
    }
    proof {
        lemma_first_where(rest, plain, e - (m + 1));
        assert(rest.take(e - (m + 1)) =~= all.subrange(m + 1, e as int));
    }
    (m + 1, e)
}

} // verus!
