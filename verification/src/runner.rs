//! Running test cases: what to send for each, and how the results of calls
//! that end in any order come to stand in the order of the test cases.

use crate::fields::{copy_entries, keys_of, map_of};
use crate::method::Method;
use crate::parser::TestCases;
use crate::result::{verdict, TestCaseResult, TestCaseResultView};
use crate::testcase::{TestCase, TestCaseView};
use vstd::prelude::*;

verus! {

/// The request that a test case sends.
#[derive(Debug, Clone)]
pub struct Request {
    pub method: Method,
    pub url: String,
    /// The headers, each name once.
    pub headers: Vec<(String, String)>,
}

impl TestCase {
    /// The request of the test case: its method, its URL and its headers.
    /// The payload is no part of it.
    pub fn request(&self) -> (out: Request)
        ensures
            out.method == self.method,
            out.url@ == self.url@,
            keys_of(out.headers@).no_duplicates(),
            map_of(out.headers@) == self.headers@,
    {
        Request {
            method: self.method,
            url: self.url.clone(),
            headers: copy_entries(self.headers.pairs()),
        }
    }
}

impl TestCases {
    /// The number of test cases.
    pub fn len(&self) -> (n: usize)
        ensures
            n == self@.len(),
    {
        self.0.len()
    }
}

/// The slots after `result` was recorded for `index`: it stands in the slot
/// of its index in place of what stood there, and an index without a slot
/// changes nothing.
pub open spec fn with_result(
    slots: Seq<Option<TestCaseResultView>>,
    index: int,
    result: TestCaseResultView,
) -> Seq<Option<TestCaseResultView>> {
    if 0 <= index < slots.len() {
        slots.update(index, Some(result))
    } else {
        slots
    }
}

/// The slots after the results `events` were recorded in `slots`, one after
/// the other.
pub open spec fn recorded(
    slots: Seq<Option<TestCaseResultView>>,
    events: Seq<(int, TestCaseResultView)>,
) -> Seq<Option<TestCaseResultView>>
    decreases events.len(),
{
    if events.len() == 0 {
        slots
    } else {
        with_result(recorded(slots, events.drop_last()), events.last().0, events.last().1)
    }
}

/// `n` empty slots.
pub open spec fn empty_slots(n: nat) -> Seq<Option<TestCaseResultView>> {
    Seq::new(n, |i: int| None)
}

/// Results recorded in any order stand in the order of their indices: where
/// each index was recorded at most once, the slot of every recorded index
/// holds the result that was recorded for it, and every other slot is as it
/// was.
pub proof fn law_results_keep_their_place(
    slots: Seq<Option<TestCaseResultView>>,
    events: Seq<(int, TestCaseResultView)>,
)
    requires
        forall|j: int, k: int| 0 <= j < k < events.len() ==> events[j].0 != events[k].0,
    ensures
        recorded(slots, events).len() == slots.len(),
        forall|k: int|
            0 <= k < events.len() && 0 <= (#[trigger] events[k]).0 < slots.len() ==> recorded(
                slots,
                events,
            )[events[k].0] == Some(events[k].1),
        forall|i: int|
            0 <= i < slots.len() && (forall|k: int|
                0 <= k < events.len() ==> (#[trigger] events[k]).0 != i) ==> recorded(
                slots,
                events,
            )[i] == slots[i],
    decreases events.len(),
{
    if events.len() > 0 {
        let earlier = events.drop_last();
        law_results_keep_their_place(slots, earlier);
        let before = recorded(slots, earlier);
        assert forall|k: int|
            0 <= k < events.len() && 0 <= (#[trigger] events[k]).0 < slots.len() implies recorded(
            slots,
            events,
        )[events[k].0] == Some(events[k].1) by {
            if k < events.len() - 1 {
                assert(earlier[k] == events[k]);
                assert(events[k].0 != events[events.len() - 1].0);
            }
        }
        assert forall|i: int|
            0 <= i < slots.len() && (forall|k: int|
                0 <= k < events.len() ==> (#[trigger] events[k]).0 != i) implies recorded(
            slots,
            events,
        )[i] == slots[i] by {
            assert forall|k: int| 0 <= k < earlier.len() implies (#[trigger] earlier[k]).0 != i by {
                assert(earlier[k] == events[k]);
            }
            assert(events[events.len() - 1].0 != i);
        }
    }
}

/// Whether `order` names each of the indices `0` to `n - 1` once.
pub open spec fn is_rearrangement(order: Seq<int>, n: nat) -> bool {
    &&& order.len() == n
    &&& order.no_duplicates()
    &&& forall|k: int| 0 <= k < order.len() ==> 0 <= #[trigger] order[k] < n
}

/// An order that names each of `n` indices once names every one of them.
pub proof fn lemma_rearrangement_names_all(order: Seq<int>, n: nat, i: int)
    requires
        is_rearrangement(order, n),
        0 <= i < n,
    ensures
        order.contains(i),
{
    let named = order.to_set();
    let all = vstd::set_lib::set_int_range(0, n as int);
    vstd::set_lib::lemma_int_range(0, n as int);
    vstd::seq_lib::seq_to_set_is_finite(order);
    order.unique_seq_to_set();
    assert(named.subset_of(all)) by {
        assert forall|x: int| named.contains(x) implies all.contains(x) by {
            let k = choose|k: int| 0 <= k < order.len() && order[k] == x;
            assert(0 <= order[k] < n);
        }
    }
    vstd::set_lib::lemma_subset_equality(named, all);
    assert(all.contains(i));
    assert(named.contains(i));
}

/// The results of the test cases `cases` on the replies `replies`, recorded
/// as the calls end in the order `order`.
pub open spec fn completions(
    cases: Seq<TestCaseView>,
    replies: Seq<Result<i32, Seq<char>>>,
    order: Seq<int>,
) -> Seq<(int, TestCaseResultView)> {
    Seq::new(order.len(), |k: int| (order[k], verdict(cases[order[k]], replies[order[k]])))
}

/// The order in which the calls end does not show in the results. Whatever
/// the order, once every call has ended the slot of each test case holds the
/// result of that test case on its own reply.
pub proof fn law_results_follow_the_test_cases(
    cases: Seq<TestCaseView>,
    replies: Seq<Result<i32, Seq<char>>>,
    order: Seq<int>,
)
    requires
        replies.len() == cases.len(),
        is_rearrangement(order, cases.len()),
    ensures
        recorded(empty_slots(cases.len()), completions(cases, replies, order)).len()
            == cases.len(),
        forall|i: int|
            0 <= i < cases.len() ==> (#[trigger] recorded(
                empty_slots(cases.len()),
                completions(cases, replies, order),
            )[i]) == Some(verdict(cases[i], replies[i])),
{
    let events = completions(cases, replies, order);
    let slots = empty_slots(cases.len());
    law_results_keep_their_place(slots, events);
    assert forall|i: int| 0 <= i < cases.len() implies (#[trigger] recorded(slots, events)[i])
        == Some(verdict(cases[i], replies[i])) by {
        lemma_rearrangement_names_all(order, cases.len(), i);
        let k = choose|k: int| 0 <= k < order.len() && order[k] == i;
        assert(events[k].0 == i);
    }
}

/// One slot for each test case, to hold its result once its call has ended.
#[derive(Debug)]
pub struct Collector {
    slots: Vec<Option<TestCaseResult>>,
}

impl View for Collector {
    type V = Seq<Option<TestCaseResultView>>;

    closed spec fn view(&self) -> Seq<Option<TestCaseResultView>> {
        Seq::new(
            self.slots@.len(),
            |i: int|
                match self.slots@[i] {
                    Some(r) => Some(r@),
                    None => None,
                },
        )
    }
}

impl Collector {
    /// `n` empty slots.
    pub fn new(n: usize) -> (out: Self)
        ensures
            out@ == empty_slots(n as nat),
    {
        let mut slots: Vec<Option<TestCaseResult>> = Vec::new();
        let mut i: usize = 0;
        while i < n
            invariant
                i <= n,
                slots@.len() == i,
                forall|j: int| 0 <= j < i ==> slots@[j] is None,
            decreases n - i,
        {
            slots.push(None);
            i += 1;
        }
        let out = Collector { slots };
        proof {
            assert(out@ =~= empty_slots(n as nat));
        }
        out
    }

    /// The number of slots.
    pub fn len(&self) -> (n: usize)
        ensures
            n == self@.len(),
    {
        self.slots.len()
    }

    /// Records `result` as the result of the test case at `index`, in place
    /// of what its slot held. Returns whether there is such a slot; where
    /// there is none, nothing changes.
    pub fn record(&mut self, index: usize, result: TestCaseResult) -> (accepted: bool)
        ensures
            accepted == (index < old(self)@.len()),
            final(self)@ == with_result(old(self)@, index as int, result@),
    {
        let ghost before = self@;
        if index < self.slots.len() {
            self.slots.set(index, Some(result));
            proof {
                assert(self@ =~= before.update(index as int, Some(result@)));
            }
            true
        } else {
            false
        }
    }

    /// Whether every slot holds a result.
    pub fn is_complete(&self) -> (b: bool)
        ensures
            b == (forall|i: int| 0 <= i < self@.len() ==> (#[trigger] self@[i]) is Some),
    {
        let mut i: usize = 0;
        while i < self.slots.len()
            invariant
                i <= self.slots@.len(),
                forall|j: int| 0 <= j < i ==> (#[trigger] self@[j]) is Some,
            decreases self.slots.len() - i,
        {
            if self.slots[i].is_none() {
                proof {
                    assert(self@[i as int] is None);
                }
                return false;
            }
            i += 1;
        }
        true
    }

    /// The results in the order of the slots, where every slot holds one.
    pub fn finish(self) -> (r: Option<Vec<TestCaseResult>>)
        ensures
            match r {
                Some(results) => results@.len() == self@.len() && forall|i: int|
                    0 <= i < self@.len() ==> self@[i] == Some((#[trigger] results@[i])@),
                None => exists|i: int| 0 <= i < self@.len() && (#[trigger] self@[i]) is None,
            },
    {
        let ghost all = self@;
        let ghost n = self.slots@.len();
        let mut slots = self.slots;
        let mut reversed: Vec<TestCaseResult> = Vec::new();
        while slots.len() > 0
            invariant
                all == self@,
                n == all.len(),
                slots@.len() + reversed@.len() == n,
                forall|j: int|
                    0 <= j < slots@.len() ==> all[j] == match #[trigger] slots@[j] {
                        Some(r) => Some(r@),
                        None => None,
                    },
                forall|j: int|
                    0 <= j < reversed@.len() ==> all[n - 1 - j] == Some(
                        (#[trigger] reversed@[j])@,
                    ),
            decreases slots@.len(),
        {
            let ghost k = slots@.len() - 1;
            let ghost earlier = reversed@;
            match slots.pop().unwrap() {
                Some(result) => {
                    reversed.push(result);
                    proof {
                        assert forall|j: int| 0 <= j < reversed@.len() implies all[n - 1 - j]
                            == Some((#[trigger] reversed@[j])@) by {
                            if j < earlier.len() {
                                assert(reversed@[j] == earlier[j]);
                            }
                        }
                    }
                },
                None => {
                    proof {
                        assert(all[k] is None);
                    }
                    return None;
                },
            }
        }
        let mut results: Vec<TestCaseResult> = Vec::new();
        while reversed.len() > 0
            invariant
                n == all.len(),
                results@.len() + reversed@.len() == n,
                forall|j: int|
                    0 <= j < reversed@.len() ==> all[n - 1 - j] == Some(
                        (#[trigger] reversed@[j])@,
                    ),
                forall|i: int|
                    0 <= i < results@.len() ==> all[i] == Some((#[trigger] results@[i])@),
            decreases reversed@.len(),
        {
            let ghost earlier = results@;
            let ghost top = reversed@.len() - 1;
            assert(all[n - 1 - top] == Some(reversed@[top]@));
            let result = reversed.pop().unwrap();
            results.push(result);
            proof {
                assert forall|i: int| 0 <= i < results@.len() implies all[i] == Some(
                    (#[trigger] results@[i])@,
                ) by {
                    if i < earlier.len() {
                        assert(results@[i] == earlier[i]);
                    }
                }
            }
        }
        Some(results)
    }
}

} // verus!
