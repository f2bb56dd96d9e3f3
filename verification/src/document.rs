//! The layout of a document: its lines, its comment lines and the blocks
//! between its separators.

use crate::text::{
    copy_of, find, first_index, lemma_first_index, lemma_first_index_bounds, texts, trim, trimmed,
};
use vstd::prelude::*;

verus! {

/// The length of the first line of `s` together with its line break: up to and
/// including the first `'\n'`, or all of `s` where it holds none.
pub open spec fn first_line_len(s: Seq<char>) -> int {
    let n = first_index(s, '\n');
    if n < s.len() {
        n + 1
    } else {
        s.len() as int
    }
}

/// `s` without a `'\r'` at its end.
pub open spec fn strip_cr(s: Seq<char>) -> Seq<char> {
    if s.len() > 0 && s.last() == '\r' {
        s.drop_last()
    } else {
        s
    }
}

/// The lines of `s`. A line ends at `"\n"` or `"\r\n"`, which are not part of
/// it; the last line may end with the text, and an empty text has no line.
pub open spec fn lines(s: Seq<char>) -> Seq<Seq<char>>
    decreases s.len(),
{
    let n = first_index(s, '\n');
    if s.len() == 0 {
        Seq::empty()
    } else if 0 <= n < s.len() {
        seq![strip_cr(s.take(n))] + lines(s.skip(n + 1))
    } else {
        seq![s]
    }
}

/// Whether a line is a comment: its first character after leading white space
/// is `'#'`.
pub open spec fn is_comment(line: Seq<char>) -> bool {
    trim(line).len() > 0 && trim(line)[0] == '#'
}

/// `d` without its comment lines. A comment line leaves with its line break;
/// every other line stays as it is, line break included.
pub open spec fn without_comments(d: Seq<char>) -> Seq<char>
    decreases d.len(),
{
    let k = first_line_len(d);
    if d.len() == 0 {
        d
    } else if 0 < k <= d.len() {
        if is_comment(d.take(k)) {
            without_comments(d.skip(k))
        } else {
            d.take(k) + without_comments(d.skip(k))
        }
    } else {
        d
    }
}

/// Whether no line of `d` is a comment.
pub open spec fn comment_free(d: Seq<char>) -> bool
    decreases d.len(),
{
    let k = first_line_len(d);
    if d.len() > 0 && 0 < k <= d.len() {
        !is_comment(d.take(k)) && comment_free(d.skip(k))
    } else {
        true
    }
}

/// Whether the line `line` is a comment.
pub fn comment_line(line: &[char]) -> (b: bool)
    ensures
        b == is_comment(line@),
{
    let t = trimmed(line);
    t.len() > 0 && t[0] == '#'
}

/// The end of the first line of `s[from..]` with its line break, as an index
/// into `s`.
fn line_break_after(s: &[char], from: usize) -> (to: usize)
    requires
        from < s@.len(),
    ensures
        from < to <= s@.len(),
        to - from == first_line_len(s@.skip(from as int)),
        first_index(s@.skip(from as int), '\n') < s@.len() - from ==> s@[to - 1] == '\n',
{
    let rest = &s[from..s.len()];
    assert(rest@ =~= s@.skip(from as int));
    match find(rest, '\n') {
        Some(i) => from + i + 1,
        None => s.len(),
    }
}

/// `d` without its comment lines.
pub fn strip_comments(d: &[char]) -> (out: Vec<char>)
    ensures
        out@ == without_comments(d@),
{
    let mut out: Vec<char> = Vec::new();
    let mut pos: usize = 0;
    proof {
        assert(d@.skip(0) =~= d@);
        assert(out@ + without_comments(d@) =~= without_comments(d@));
    }
    while pos < d.len()
        invariant
            pos <= d@.len(),
            out@ + without_comments(d@.skip(pos as int)) == without_comments(d@),
        decreases d.len() - pos,
    {
        let end = line_break_after(d, pos);
        let line = &d[pos..end];
        proof {
            let rest = d@.skip(pos as int);
            assert(line@ =~= rest.take(end - pos));
            assert(rest.skip(end - pos) =~= d@.skip(end as int));
        }
        if !comment_line(line) {
            let ghost before = out@;
            let mut i: usize = pos;
            while i < end
                invariant
                    pos <= i <= end <= d@.len(),
                    out@ == before + d@.subrange(pos as int, i as int),
                decreases end - i,
            {
                out.push(d[i]);
                proof {
                    assert(d@.subrange(pos as int, i + 1) =~= d@.subrange(pos as int, i as int).push(
                        d@[i as int],
                    ));
                }
                i += 1;
            }
            proof {
                assert(before + line@ + without_comments(d@.skip(end as int)) =~= before + (line@
                    + without_comments(d@.skip(end as int))));
            }
        }
        pos = end;
    }
    proof {
        assert(d@.skip(pos as int).len() == 0);
        assert(out@ + Seq::<char>::empty() =~= out@);
    }
    out
}

/// Removing the comments of a document that has none left changes nothing:
/// `without_comments` applied twice gives what it gives applied once.
pub proof fn law_comments_removed_once(d: Seq<char>)
    ensures
        without_comments(without_comments(d)) == without_comments(d),
    decreases d.len(),
{
    if d.len() > 0 {
        lemma_first_index_bounds(d, '\n');
        let n = first_index(d, '\n');
        let k = first_line_len(d);
        let head = d.take(k);
        let rest = d.skip(k);
        law_comments_removed_once(rest);
        if !is_comment(head) {
            let kept = head + without_comments(rest);
            if n < d.len() {
                assert forall|i: int| 0 <= i < n implies #[trigger] kept[i] != '\n' by {
                    assert(kept[i] == d[i]);
                }
                assert(kept[n] == d[n]);
                lemma_first_index(kept, '\n', n);
                assert(kept.take(k) =~= head);
                assert(kept.skip(k) =~= without_comments(rest));
            } else {
                assert(rest.len() == 0);
                assert(kept =~= d);
                assert(head =~= d);
            }
        }
    }
}

/// A document without a comment line is left as it is.
pub proof fn law_no_comment_no_change(d: Seq<char>)
    requires
        comment_free(d),
    ensures
        without_comments(d) == d,
    decreases d.len(),
{
    if d.len() > 0 {
        lemma_first_index_bounds(d, '\n');
        let k = first_line_len(d);
        law_no_comment_no_change(d.skip(k));
        assert(d.take(k) + d.skip(k) =~= d);
    }
}

/// The lines of `s`.
pub fn split_lines(s: &[char]) -> (out: Vec<Vec<char>>)
    ensures
        texts(out@) == lines(s@),
{
    let mut out: Vec<Vec<char>> = Vec::new();
    let mut pos: usize = 0;
    proof {
        assert(s@.skip(0) =~= s@);
        assert(texts(out@) + lines(s@) =~= lines(s@));
    }
    while pos < s.len()
        invariant
            pos <= s@.len(),
            texts(out@) + lines(s@.skip(pos as int)) == lines(s@),
        decreases s.len() - pos,
    {
        let rest = &s[pos..s.len()];
        let ghost before = out@;
        proof {
            assert(rest@ =~= s@.skip(pos as int));
        }
        match find(rest, '\n') {
            Some(i) => {
                let line = if i > 0 && rest[i - 1] == '\r' {
                    &rest[0..i - 1]
                } else {
                    &rest[0..i]
                };
                proof {
                    assert(rest@.take(i as int) =~= rest@.subrange(0, i as int));
                    assert(line@ =~= strip_cr(rest@.take(i as int)));
                    assert(rest@.skip(i + 1) =~= s@.skip(pos + i + 1));
                }
                out.push(copy_of(line));
                proof {
                    assert(texts(out@) =~= texts(before) + seq![line@]);
                    assert(texts(before) + seq![line@] + lines(s@.skip(pos + i + 1)) =~= texts(
                        before,
                    ) + (seq![line@] + lines(s@.skip(pos + i + 1))));
                }
                pos = pos + i + 1;
            },
            None => {
                out.push(copy_of(rest));
                proof {
                    assert(texts(out@) =~= texts(before) + seq![rest@]);
                    assert(s@.skip(s@.len() as int).len() == 0);
                    assert(texts(out@) + lines(s@.skip(s@.len() as int)) =~= texts(before)
                        + lines(rest@));
                }
                pos = s.len();
            },
        }
    }
    proof {
        assert(s@.skip(pos as int).len() == 0);
        assert(texts(out@) + Seq::<Seq<char>>::empty() =~= texts(out@));
    }
    out
}

/// Whether the separator `---` stands in `s` at index `i`.
pub open spec fn separator_at(s: Seq<char>, i: int) -> bool {
    0 <= i && i + 3 <= s.len() && s[i] == '-' && s[i + 1] == '-' && s[i + 2] == '-'
}

/// The index of the first separator in `s`, or the length of `s` where it
/// holds none.
pub open spec fn first_separator(s: Seq<char>) -> int
    decreases s.len(),
{
    if s.len() == 0 || separator_at(s, 0) {
        0
    } else {
        1 + first_separator(s.drop_first())
    }
}

/// `first_separator(s)` is the one `n` before which no separator stands and
/// at which one stands or `s` ends.
pub proof fn lemma_first_separator(s: Seq<char>, n: int)
    requires
        0 <= n <= s.len(),
        forall|i: int| 0 <= i < n ==> !separator_at(s, i),
        n == s.len() || separator_at(s, n),
    ensures
        first_separator(s) == n,
    decreases n,
{
    if n > 0 {
        let rest = s.drop_first();
        assert(!separator_at(s, 0));
        assert forall|i: int| 0 <= i < n - 1 implies !separator_at(rest, i) by {
            assert(!separator_at(s, i + 1));
        }
        lemma_first_separator(rest, n - 1);
    }
}

/// The block that a segment between two separators gives: the segment
/// without the white space around it, unless nothing is left of it.
pub open spec fn block_of(segment: Seq<char>) -> Seq<Seq<char>> {
    if trim(segment).len() > 0 {
        seq![trim(segment)]
    } else {
        Seq::empty()
    }
}

/// The blocks of a document, in the order in which they stand in it: the
/// document is cut at each `---`, taken from left to right, white space is
/// removed around each piece, and the pieces left empty are dropped.
pub open spec fn blocks(s: Seq<char>) -> Seq<Seq<char>>
    decreases s.len(),
{
    let n = first_separator(s);
    if 0 <= n && n + 3 <= s.len() {
        block_of(s.take(n)) + blocks(s.skip(n + 3))
    } else {
        block_of(s)
    }
}

/// The index of the first separator in `s`, if it holds one.
pub fn find_separator(s: &[char]) -> (r: Option<usize>)
    ensures
        match r {
            Some(i) => i + 3 <= s@.len() && i == first_separator(s@),
            None => first_separator(s@) == s@.len(),
        },
{
    let n: usize = s.len();
    let mut i: usize = 0;
    while i < n
        invariant
            n == s@.len(),
            i <= n,
            forall|j: int| 0 <= j < i ==> !separator_at(s@, j),
        decreases n - i,
    {
        if n - i >= 3 && s[i] == '-' && s[i + 1] == '-' && s[i + 2] == '-' {
            proof {
                lemma_first_separator(s@, i as int);
            }
            return Some(i);
        }
        i += 1;
    }
    proof {
        lemma_first_separator(s@, n as int);
    }
    None
}

/// Adds to `out` the block that `segment` gives, if it gives one.
fn push_block(out: &mut Vec<Vec<char>>, segment: &[char])
    ensures
        texts(final(out)@) == texts(old(out)@) + block_of(segment@),
{
    let t = trimmed(segment);
    if t.len() > 0 {
        out.push(copy_of(t));
        proof {
            assert(texts(out@) =~= texts(old(out)@) + seq![t@]);
        }
    } else {
        proof {
            assert(texts(out@) =~= texts(old(out)@) + Seq::<Seq<char>>::empty());
        }
    }
}

/// The blocks of the document `s`.
pub fn split_blocks(s: &[char]) -> (out: Vec<Vec<char>>)
    ensures
        texts(out@) == blocks(s@),
{
    let mut out: Vec<Vec<char>> = Vec::new();
    let mut pos: usize = 0;
    proof {
        assert(s@.skip(0) =~= s@);
        assert(texts(out@) + blocks(s@) =~= blocks(s@));
    }
    loop
        invariant
            pos <= s@.len(),
            texts(out@) + blocks(s@.skip(pos as int)) == blocks(s@),
        decreases s@.len() - pos,
    {
        let rest = &s[pos..s.len()];
        let ghost before = out@;
        proof {
            assert(rest@ =~= s@.skip(pos as int));
        }
        match find_separator(rest) {
            Some(i) => {
                let segment = &rest[0..i];
                proof {
                    assert(segment@ =~= rest@.take(i as int));
                    assert(rest@.skip(i + 3) =~= s@.skip(pos + i + 3));
                }
                push_block(&mut out, segment);
                proof {
                    assert(texts(before) + block_of(segment@) + blocks(s@.skip(pos + i + 3))
                        =~= texts(before) + (block_of(segment@) + blocks(s@.skip(pos + i + 3))));
                }
                pos = pos + i + 3;
            },
            None => {
                push_block(&mut out, rest);
                return out;
            },
        }
    }
}

} // verus!
