//! Key-value sections: the headers and the payload of a test case.

use crate::document::{lines, split_lines};
use crate::error::{Error, ErrorView};
use crate::section::{continuation, continuation_bounds};
use crate::text::{chars_of, find, first_index, string_of, texts, trim, trimmed};
use vstd::prelude::*;

verus! {

/// Whether a line holds a `:`.
pub open spec fn has_colon(line: Seq<char>) -> bool {
    first_index(line, ':') < line.len()
}

/// The key of a line: what stands before its first `:`, without the white
/// space around it.
pub open spec fn key_of(line: Seq<char>) -> Seq<char> {
    trim(line.take(first_index(line, ':')))
}

/// The value of a line: what stands after its first `:`, without the white
/// space around it.
pub open spec fn value_of(line: Seq<char>) -> Seq<char> {
    trim(line.skip(first_index(line, ':') + 1))
}

/// The mapping that key-value lines build, one line after the other: a key
/// that comes again takes the later value.
pub open spec fn pairs_map(ls: Seq<Seq<char>>) -> Map<Seq<char>, Seq<char>>
    decreases ls.len(),
{
    if ls.len() == 0 {
        Map::empty()
    } else {
        pairs_map(ls.drop_last()).insert(key_of(ls.last()), value_of(ls.last()))
    }
}

/// The keys of key-value lines, in order.
pub open spec fn line_keys(ls: Seq<Seq<char>>) -> Seq<Seq<char>> {
    Seq::new(ls.len(), |i: int| key_of(ls[i]))
}

/// Key-value lines build a mapping of their keys; where no key comes twice
/// it has as many entries as there are lines, and each line's key maps to its
/// value.
pub proof fn lemma_pairs_map(ls: Seq<Seq<char>>)
    ensures
        pairs_map(ls).dom() == line_keys(ls).to_set(),
        pairs_map(ls).dom().finite(),
        line_keys(ls).no_duplicates() ==> pairs_map(ls).dom().len() == ls.len(),
        line_keys(ls).no_duplicates() ==> forall|i: int|
            0 <= i < ls.len() ==> pairs_map(ls)[key_of(#[trigger] ls[i])] == value_of(ls[i]),
    decreases ls.len(),
{
    let keys = line_keys(ls);
    vstd::seq_lib::seq_to_set_is_finite(keys);
    if ls.len() == 0 {
        assert(pairs_map(ls).dom() =~= keys.to_set());
    } else {
        let head = ls.drop_last();
        lemma_pairs_map(head);
        assert(line_keys(head) =~= keys.drop_last());
        assert forall|k: Seq<char>| keys.to_set().contains(k) <==> pairs_map(ls).dom().contains(
            k,
        ) by {
            if keys.contains(k) {
                let j = choose|j: int| 0 <= j < keys.len() && keys[j] == k;
                if j < head.len() {
                    assert(line_keys(head)[j] == k);
                }
            }
            if line_keys(head).contains(k) {
                let j = choose|j: int| 0 <= j < line_keys(head).len() && line_keys(head)[j] == k;
                assert(keys[j] == k);
            }
            if k == key_of(ls.last()) {
                assert(keys[ls.len() - 1] == k);
            }
        }
        assert(pairs_map(ls).dom() =~= keys.to_set());
        if keys.no_duplicates() {
            keys.unique_seq_to_set();
            assert(line_keys(head).no_duplicates());
            assert forall|i: int| 0 <= i < ls.len() implies pairs_map(ls)[key_of(
                #[trigger] ls[i],
            )] == value_of(ls[i]) by {
                if i < head.len() {
                    assert(head[i] == ls[i]);
                    assert(keys[i] != keys[ls.len() - 1]);
                }
            }
        }
    }
}

/// What the section named `word` of a block gives: the mapping of its lines,
/// or nothing where one of them holds no `:`.
pub open spec fn section_map(block_lines: Seq<Seq<char>>, word: Seq<char>) -> Option<
    Map<Seq<char>, Seq<char>>,
> {
    let ls = continuation(block_lines, word);
    if forall|i: int| 0 <= i < ls.len() ==> has_colon(#[trigger] ls[i]) {
        Some(pairs_map(ls))
    } else {
        None
    }
}

/// The headers that a block states.
pub open spec fn headers_of(block_lines: Seq<Seq<char>>) -> Result<
    Map<Seq<char>, Seq<char>>,
    ErrorView,
> {
    match section_map(block_lines, "headers"@) {
        Some(m) => Ok(m),
        None => Err(ErrorView::HeaderExpectsKV),
    }
}

/// The payload that a block states.
pub open spec fn payload_of(block_lines: Seq<Seq<char>>) -> Result<
    Map<Seq<char>, Seq<char>>,
    ErrorView,
> {
    match section_map(block_lines, "payload"@) {
        Some(m) => Ok(m),
        None => Err(ErrorView::PayloadExpectsKV),
    }
}

/// The keys of `entries`, in order.
pub open spec fn keys_of(entries: Seq<(String, String)>) -> Seq<Seq<char>> {
    Seq::new(entries.len(), |i: int| entries[i].0@)
}

/// The mapping that `entries` stand for, where no key comes twice.
pub open spec fn map_of(entries: Seq<(String, String)>) -> Map<Seq<char>, Seq<char>> {
    Map::new(
        |k: Seq<char>| keys_of(entries).contains(k),
        |k: Seq<char>| entries[keys_of(entries).index_of(k)].1@,
    )
}

/// Entries without a repeated key stand for a mapping with as many keys, and
/// each entry's key maps to its value.
pub proof fn lemma_map_of(entries: Seq<(String, String)>)
    requires
        keys_of(entries).no_duplicates(),
    ensures
        map_of(entries).dom().finite(),
        map_of(entries).dom().len() == entries.len(),
        forall|i: int|
            0 <= i < entries.len() ==> map_of(entries).contains_key(#[trigger] entries[i].0@)
                && map_of(entries)[entries[i].0@] == entries[i].1@,
{
    let keys = keys_of(entries);
    assert(map_of(entries).dom() =~= keys.to_set());
    keys.unique_seq_to_set();
    vstd::seq_lib::seq_to_set_is_finite(keys);
    assert forall|i: int| 0 <= i < entries.len() implies map_of(entries).contains_key(
        #[trigger] entries[i].0@,
    ) && map_of(entries)[entries[i].0@] == entries[i].1@ by {
        assert(keys[i] == entries[i].0@);
        assert(keys.contains(entries[i].0@));
        let j = keys.index_of(entries[i].0@);
        assert(keys[j] == keys[i]);
    }
}

/// Sets `key` to `value` in `entries`: in place of the value it had, or as a
/// new entry.
fn put(entries: &mut Vec<(String, String)>, key: String, value: String)
    requires
        keys_of(old(entries)@).no_duplicates(),
    ensures
        keys_of(final(entries)@).no_duplicates(),
        map_of(final(entries)@) == map_of(old(entries)@).insert(key@, value@),
{
    let ghost before = entries@;
    let ghost k = key@;
    let ghost v = value@;
    let n: usize = entries.len();
    let mut i: usize = 0;
    while i < n
        invariant
            n == entries@.len(),
            entries@ == before,
            before == old(entries)@,
            keys_of(before).no_duplicates(),
            i <= n,
            k == key@,
            v == value@,
            forall|j: int| 0 <= j < i ==> keys_of(before)[j] != k,
        decreases n - i,
    {
        if entries[i].0 == key {
            entries.set(i, (key, value));
            proof {
                let after = entries@;
                assert(keys_of(after) =~= keys_of(before));
                lemma_map_of(before);
                lemma_map_of(after);
                assert forall|x: Seq<char>| #[trigger]
                    map_of(after).contains_key(x) implies map_of(after)[x] == map_of(
                    before,
                ).insert(k, v)[x] by {
                    let j = keys_of(after).index_of(x);
                    assert(keys_of(after)[j] == x);
                    assert(after[j].0@ == x);
                    if j != i as int {
                        assert(keys_of(before)[j] == x);
                        assert(keys_of(before)[i as int] == k);
                    }
                }
                assert(map_of(after) =~= map_of(before).insert(k, v));
            }
            return ;
        }
        i += 1;
    }
    entries.push((key, value));
    proof {
        let after = entries@;
        assert(keys_of(after) =~= keys_of(before).push(k));
        assert(!keys_of(before).contains(k));
        assert(keys_of(after).no_duplicates());
        lemma_map_of(before);
        lemma_map_of(after);
        assert forall|x: Seq<char>| #[trigger]
            map_of(after).contains_key(x) implies map_of(after)[x] == map_of(before).insert(
            k,
            v,
        )[x] by {
            let j = keys_of(after).index_of(x);
            assert(keys_of(after)[j] == x);
            assert(after[j].0@ == x);
            if j < n {
                assert(before[j].0@ == x);
                assert(keys_of(before)[j] == x);
            }
        }
        assert forall|x: Seq<char>| map_of(before).insert(k, v).contains_key(x) implies map_of(
            after,
        ).contains_key(x) by {
            if x != k {
                let j = keys_of(before).index_of(x);
                assert(keys_of(after)[j] == x);
            } else {
                assert(keys_of(after)[n as int] == k);
            }
        }
        assert(map_of(after) =~= map_of(before).insert(k, v));
    }
}

/// Reads the section named `word` of a block.
fn read_section(block_lines: &Vec<Vec<char>>, word: &str) -> (r: Option<Vec<(String, String)>>)
    ensures
        match r {
            Some(entries) => keys_of(entries@).no_duplicates() && section_map(
                texts(block_lines@),
                word@,
            ) == Some(map_of(entries@)),
            None => section_map(texts(block_lines@), word@) is None,
        },
{
    let (start, end) = continuation_bounds(block_lines, word);
    let ghost ls = continuation(texts(block_lines@), word@);
    let mut entries: Vec<(String, String)> = Vec::new();
    let mut i: usize = start;
    proof {
        assert(map_of(entries@) =~= pairs_map(ls.take(0)));
    }
    while i < end
        invariant
            start <= i <= end <= block_lines@.len(),
            ls == texts(block_lines@).subrange(start as int, end as int),
            ls == continuation(texts(block_lines@), word@),
            keys_of(entries@).no_duplicates(),
            map_of(entries@) == pairs_map(ls.take(i - start)),
            forall|j: int| 0 <= j < i - start ==> has_colon(#[trigger] ls[j]),
        decreases end - i,
    {
        let line = block_lines[i].as_slice();
        assert(line@ == ls[i - start]);
        match find(line, ':') {
            None => {
                return None;
            },
            Some(c) => {
                let n: usize = line.len();
                let key = string_of(trimmed(&line[0..c]));
                let value = string_of(trimmed(&line[c + 1..n]));
                proof {
                    assert(line@.subrange(0, c as int) =~= line@.take(c as int));
                    assert(line@.subrange(c + 1, line@.len() as int) =~= line@.skip(c + 1));
                    assert(ls.take(i + 1 - start).drop_last() =~= ls.take(i - start));
                }
                put(&mut entries, key, value);
            },
        }
        i += 1;
    }
    proof {
        assert(ls.take(end - start) =~= ls);
    }
    Some(entries)
}

/// The entry of `entries` with the key `key`, if there is one.
fn lookup<'a>(entries: &'a Vec<(String, String)>, key: &str) -> (r: Option<&'a String>)
    requires
        keys_of(entries@).no_duplicates(),
    ensures
        match r {
            Some(v) => map_of(entries@).contains_key(key@) && map_of(entries@)[key@] == v@,
            None => !map_of(entries@).contains_key(key@),
        },
{
    let wanted = chars_of(key);
    let mut i: usize = 0;
    proof {
        lemma_map_of(entries@);
    }
    while i < entries.len()
        invariant
            i <= entries@.len(),
            wanted@ == key@,
            forall|j: int| 0 <= j < i ==> keys_of(entries@)[j] != key@,
            forall|j: int|
                0 <= j < entries@.len() ==> map_of(entries@).contains_key(
                    #[trigger] entries@[j].0@,
                ) && map_of(entries@)[entries@[j].0@] == entries@[j].1@,
        decreases entries.len() - i,
    {
        let k = chars_of(entries[i].0.as_str());
        if crate::text::same_text(k.as_slice(), wanted.as_slice()) {
            return Some(&entries[i].1);
        }
        i += 1;
    }
    None
}

/// A copy of `entries`.
pub(crate) fn copy_entries(entries: &Vec<(String, String)>) -> (out: Vec<(String, String)>)
    ensures
        out@ == entries@,
{
    let mut out: Vec<(String, String)> = Vec::new();
    let mut i: usize = 0;
    while i < entries.len()
        invariant
            i <= entries@.len(),
            out@ == entries@.take(i as int),
        decreases entries.len() - i,
    {
        out.push((entries[i].0.clone(), entries[i].1.clone()));
        proof {
            assert(entries@.take(i + 1) =~= entries@.take(i as int).push(entries@[i as int]));
        }
        i += 1;
    }
    proof {
        assert(entries@.take(entries@.len() as int) =~= entries@);
    }
    out
}

/// The headers of a test case: a mapping from header names to values.
#[derive(Debug)]
pub struct Headers {
    entries: Vec<(String, String)>,
}

impl View for Headers {
    type V = Map<Seq<char>, Seq<char>>;

    closed spec fn view(&self) -> Map<Seq<char>, Seq<char>> {
        map_of(self.entries@)
    }
}

impl Clone for Headers {
    fn clone(&self) -> (out: Self)
        ensures
            out@ == self@,
    {
        proof {
            use_type_invariant(self);
        }
        Headers { entries: copy_entries(&self.entries) }
    }
}

impl Headers {
    #[verifier::type_invariant]
    spec fn keys_are_distinct(self) -> bool {
        keys_of(self.entries@).no_duplicates()
    }

    /// No headers.
    pub fn new() -> (out: Self)
        ensures
            out@ == Map::<Seq<char>, Seq<char>>::empty(),
    {
        let out = Headers { entries: Vec::new() };
        proof {
            assert(map_of(out.entries@) =~= Map::<Seq<char>, Seq<char>>::empty());
        }
        out
    }

    /// The number of headers.
    pub fn len(&self) -> (n: usize)
        ensures
            self@.dom().finite(),
            n == self@.dom().len(),
    {
        proof {
            use_type_invariant(self);
            lemma_map_of(self.entries@);
        }
        self.entries.len()
    }

    /// The value of the header `name`, if it is set.
    pub fn get(&self, name: &str) -> (r: Option<&String>)
        ensures
            match r {
                Some(v) => self@.contains_key(name@) && self@[name@] == v@,
                None => !self@.contains_key(name@),
            },
    {
        proof {
            use_type_invariant(self);
        }
        lookup(&self.entries, name)
    }

    /// The headers as pairs of name and value, each name once.
    pub fn pairs(&self) -> (out: &Vec<(String, String)>)
        ensures
            keys_of(out@).no_duplicates(),
            map_of(out@) == self@,
    {
        proof {
            use_type_invariant(self);
        }
        &self.entries
    }

    /// Reads the headers that the block `input` states.
    pub fn parse(input: &str) -> (r: Result<Headers, Error>)
        ensures
            match r {
                Ok(h) => headers_of(lines(input@)) == Ok::<_, ErrorView>(h@),
                Err(e) => headers_of(lines(input@)) == Err::<Map<Seq<char>, Seq<char>>, _>(e@),
            },
    {
        let cs = chars_of(input);
        let block_lines = split_lines(cs.as_slice());
        Headers::read(&block_lines)
    }

    /// Reads the headers that the lines of a block state.
    pub(crate) fn read(block_lines: &Vec<Vec<char>>) -> (r: Result<Headers, Error>)
        ensures
            match r {
                Ok(h) => headers_of(texts(block_lines@)) == Ok::<_, ErrorView>(h@),
                Err(e) => headers_of(texts(block_lines@)) == Err::<Map<Seq<char>, Seq<char>>, _>(
                    e@,
                ),
            },
    {
        match read_section(block_lines, "headers") {
            Some(entries) => Ok(Headers { entries }),
            None => Err(Error::HeaderExpectsKV),
        }
    }
}

/// The payload of a test case: a mapping from field names to values.
#[derive(Debug)]
pub struct Payload {
    entries: Vec<(String, String)>,
}

impl View for Payload {
    type V = Map<Seq<char>, Seq<char>>;

    closed spec fn view(&self) -> Map<Seq<char>, Seq<char>> {
        map_of(self.entries@)
    }
}

impl Clone for Payload {
    fn clone(&self) -> (out: Self)
        ensures
            out@ == self@,
    {
        proof {
            use_type_invariant(self);
        }
        Payload { entries: copy_entries(&self.entries) }
    }
}

impl Payload {
    #[verifier::type_invariant]
    spec fn keys_are_distinct(self) -> bool {
        keys_of(self.entries@).no_duplicates()
    }

    /// No payload.
    pub fn new() -> (out: Self)
        ensures
            out@ == Map::<Seq<char>, Seq<char>>::empty(),
    {
        let out = Payload { entries: Vec::new() };
        proof {
            assert(map_of(out.entries@) =~= Map::<Seq<char>, Seq<char>>::empty());
        }
        out
    }

    /// The number of fields.
    pub fn len(&self) -> (n: usize)
        ensures
            self@.dom().finite(),
            n == self@.dom().len(),
    {
        proof {
            use_type_invariant(self);
            lemma_map_of(self.entries@);
        }
        self.entries.len()
    }

    /// The value of the field `name`, if it is set.
    pub fn get(&self, name: &str) -> (r: Option<&String>)
        ensures
            match r {
                Some(v) => self@.contains_key(name@) && self@[name@] == v@,
                None => !self@.contains_key(name@),
            },
    {
        proof {
            use_type_invariant(self);
        }
        lookup(&self.entries, name)
    }

    /// The payload as pairs of name and value, each name once.
    pub fn pairs(&self) -> (out: &Vec<(String, String)>)
        ensures
            keys_of(out@).no_duplicates(),
            map_of(out@) == self@,
    {
        proof {
            use_type_invariant(self);
        }
        &self.entries
    }

    /// Reads the payload that the block `input` states.
    pub fn parse(input: &str) -> (r: Result<Payload, Error>)
        ensures
            match r {
                Ok(p) => payload_of(lines(input@)) == Ok::<_, ErrorView>(p@),
                Err(e) => payload_of(lines(input@)) == Err::<Map<Seq<char>, Seq<char>>, _>(e@),
            },
    {
        let cs = chars_of(input);
        let block_lines = split_lines(cs.as_slice());
        Payload::read(&block_lines)
    }

    /// Reads the payload that the lines of a block state.
    pub(crate) fn read(block_lines: &Vec<Vec<char>>) -> (r: Result<Payload, Error>)
        ensures
            match r {
                Ok(p) => payload_of(texts(block_lines@)) == Ok::<_, ErrorView>(p@),
                Err(e) => payload_of(texts(block_lines@)) == Err::<Map<Seq<char>, Seq<char>>, _>(
                    e@,
                ),
            },
    {
        match read_section(block_lines, "payload") {
            Some(entries) => Ok(Payload { entries }),
            None => Err(Error::PayloadExpectsKV),
        }
    }
}

} // verus!
