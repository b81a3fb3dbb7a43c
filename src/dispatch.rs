//! Gathers the results of concurrent synthesis calls.
//!
//! The caller starts one call per chunk and reports each result as it completes, in any order.
//! The dispatcher answers at once: keep waiting, cancel everything with the first error, or
//! finish with the audio of all chunks joined in chunk order.

use vstd::prelude::*;
use crate::synth::TtsError;

verus! {

/// The audio of every filled slot, in slot order; an empty slot adds nothing.
pub open spec fn joined(slots: Seq<Option<Seq<u8>>>) -> Seq<u8>
    decreases slots.len(),
{
    if slots.len() == 0 {
        Seq::empty()
    } else {
        joined(slots.drop_last()) + match slots.last() {
            Some(b) => b,
            None => Seq::empty(),
        }
    }
}

/// The byte strings of `bs` one after another.
pub open spec fn concat_all(bs: Seq<Seq<u8>>) -> Seq<u8>
    decreases bs.len(),
{
    if bs.len() == 0 {
        Seq::empty()
    } else {
        concat_all(bs.drop_last()) + bs.last()
    }
}

/// Every slot holds audio.
pub open spec fn all_filled(slots: Seq<Option<Seq<u8>>>) -> bool {
    forall|i: int| 0 <= i < slots.len() ==> (#[trigger] slots[i]) is Some
}

/// What the caller is to do after reporting a result.
#[derive(Debug)]
pub enum DispatchStep {
    /// Keep waiting for the calls still in flight.
    Pending,
    /// Every call succeeded: this is the audio of all chunks, in chunk order.
    Done(Vec<u8>),
    /// A call failed: abandon the calls still in flight and report this error.
    Cancel(TtsError),
    /// The report was not taken: the dispatch is over, the index is unknown, or its result was
    /// already in.
    Ignored,
}

/// The results gathered so far for one synthesis.
pub struct Dispatcher {
    slots: Vec<Option<Vec<u8>>>,
    finished: bool,
}

impl Dispatcher {
    /// The audio of each chunk that has come in, by chunk index.
    pub closed spec fn slots(&self) -> Seq<Option<Seq<u8>>> {
        self.slots@.map_values(|o: Option<Vec<u8>>| match o {
            Some(v) => Some(v@),
            None => None,
        })
    }

    /// Whether the dispatch has finished, by success or by cancellation.
    pub closed spec fn is_finished(&self) -> bool {
        self.finished
    }

    /// A dispatcher waiting for `n` chunks.
    pub fn new(n: usize) -> (r: Dispatcher)
        ensures
            r.slots().len() == n,
            forall|i: int| 0 <= i < n ==> (#[trigger] r.slots()[i]) is None,
            !r.is_finished(),
    {
        let mut slots: Vec<Option<Vec<u8>>> = Vec::new();
        let mut i: usize = 0;
        while i < n
            invariant
                i <= n,
                slots@.len() == i,
                forall|j: int| 0 <= j < i ==> (#[trigger] slots@[j]) is None,
            decreases n - i,
        {
            slots.push(None);
            i = i + 1;
        }
        Dispatcher { slots, finished: false }
    }

    /// Whether the dispatch has finished.
    pub fn finished(&self) -> (r: bool)
        ensures
            r == self.is_finished(),
    {
        self.finished
    }

    /// Reports the result of the call for chunk `index`.
    ///
    /// The first failure cancels the dispatch at once, whatever is still in flight. A success
    /// fills the chunk's slot; when it was the last one missing, the dispatch finishes with the
    /// audio of all chunks in chunk order, whatever order they came in.
    pub fn on_result(&mut self, index: usize, result: Result<Vec<u8>, TtsError>) -> (step:
        DispatchStep)
        ensures
            ({
                let pre = old(self).slots();
                let valid = !old(self).is_finished() && index < pre.len() && pre[index as int] is None;
                &&& !valid ==> (step matches DispatchStep::Ignored && final(self).slots() == pre
                    && final(self).is_finished() == old(self).is_finished())
                &&& valid ==> match result {
                    Err(e) => {
                        &&& step == DispatchStep::Cancel(e)
                        &&& final(self).is_finished()
                        &&& final(self).slots() == pre
                    },
                    Ok(b) => {
                        let post = pre.update(index as int, Some(b@));
                        &&& final(self).slots() == post
                        &&& all_filled(post) ==> (step matches DispatchStep::Done(audio)
                            && audio@ == joined(post) && final(self).is_finished())
                        &&& !all_filled(post) ==> (step matches DispatchStep::Pending
                            && !final(self).is_finished())
                    },
                }
            }),
    {
        if self.finished || index >= self.slots.len() {
            return DispatchStep::Ignored;
        }
        if self.slots[index].is_some() {
            return DispatchStep::Ignored;
        }
        match result {
            Err(e) => {
                self.finished = true;
                DispatchStep::Cancel(e)
            },
            Ok(b) => {
                let ghost pre = self.slots();
                let ghost bv = b@;
                self.slots.set(index, Some(b));
                proof {
                    assert(self.slots() =~= pre.update(index as int, Some(bv)));
                }
                match self.joined_if_complete() {
                    Some(audio) => {
                        self.finished = true;
                        DispatchStep::Done(audio)
                    },
                    None => DispatchStep::Pending,
                }
            },
        }
    }

    /// Finishes the dispatch when no chunk is missing, as for a text without chunks.
    pub fn poll(&mut self) -> (step: DispatchStep)
        ensures
            final(self).slots() == old(self).slots(),
            old(self).is_finished() ==> (step matches DispatchStep::Ignored
                && final(self).is_finished()),
            !old(self).is_finished() && all_filled(old(self).slots()) ==> (step matches DispatchStep::Done(audio)
                && audio@ == joined(old(self).slots()) && final(self).is_finished()),
            !old(self).is_finished() && !all_filled(old(self).slots()) ==> (step matches DispatchStep::Pending
                && !final(self).is_finished()),
    {
        if self.finished {
            return DispatchStep::Ignored;
        }
        match self.joined_if_complete() {
            Some(audio) => {
                self.finished = true;
                DispatchStep::Done(audio)
            },
            None => DispatchStep::Pending,
        }
    }

    /// The audio of all slots in order, when every slot is filled.
    fn joined_if_complete(&self) -> (r: Option<Vec<u8>>)
        ensures
            r is Some <==> all_filled(self.slots()),
            r matches Some(a) ==> a@ == joined(self.slots()),
    {
        let ghost post = self.slots();
        let mut audio: Vec<u8> = Vec::new();
        let mut i: usize = 0;
        proof {
            assert(post.take(0) =~= Seq::<Option<Seq<u8>>>::empty());
        }
        while i < self.slots.len()
            invariant
                i <= self.slots@.len(),
                post == self.slots(),
                post.len() == self.slots@.len(),
                forall|j: int| 0 <= j < i ==> (#[trigger] post[j]) is Some,
                audio@ == joined(post.take(i as int)),
            decreases self.slots@.len() - i,
        {
            proof {
                assert(post.take(i + 1).drop_last() =~= post.take(i as int));
            }
            match &self.slots[i] {
                Some(v) => {
                    let mut k: usize = 0;
                    let ghost before = audio@;
                    while k < v.len()
                        invariant
                            k <= v@.len(),
                            audio@ == before + v@.take(k as int),
                        decreases v@.len() - k,
                    {
                        audio.push(v[k]);
                        proof {
                            assert(v@.take(k + 1) =~= v@.take(k as int).push(v@[k as int]));
                        }
                        k = k + 1;
                    }
                    proof {
                        assert(v@.take(k as int) =~= v@);
                        assert(post[i as int] == Some(v@));
                        assert(post.take(i + 1).last() == Some(v@));
                    }
                },
                None => {
                    proof {
                        assert(post[i as int] is None);
                    }
                    return None;
                },
            }
            i = i + 1;
        }
        proof {
            assert(post.take(i as int) =~= post);
        }
        Some(audio)
    }
}

/// The slots after delivering `bs[order[0]]`, `bs[order[1]]`, ... to the slots `order[0]`,
/// `order[1]`, ... in turn.
pub open spec fn deliver_in_order(
    slots: Seq<Option<Seq<u8>>>,
    order: Seq<int>,
    bs: Seq<Seq<u8>>,
) -> Seq<Option<Seq<u8>>>
    decreases order.len(),
{
    if order.len() == 0 {
        slots
    } else {
        let i = order.last();
        deliver_in_order(slots, order.drop_last(), bs).update(i, Some(bs[i]))
    }
}

/// `order` lists each of `0..n` exactly once.
pub open spec fn is_permutation_of_indices(order: Seq<int>, n: nat) -> bool {
    &&& order.len() == n
    &&& forall|k: int| 0 <= k < order.len() ==> 0 <= #[trigger] order[k] < n
    &&& forall|k: int, l: int| 0 <= k < l < order.len() ==> order[k] != order[l]
}

spec fn delivered_before(order: Seq<int>, m: int, i: int) -> bool {
    exists|k: int| 0 <= k < m && order[k] == i
}

proof fn lemma_deliver_prefix(n: nat, order: Seq<int>, bs: Seq<Seq<u8>>, m: int)
    requires
        is_permutation_of_indices(order, n),
        bs.len() == n,
        0 <= m <= order.len(),
    ensures
        ({
            let s = deliver_in_order(Seq::new(n, |i: int| None::<Seq<u8>>), order.take(m), bs);
            &&& s.len() == n
            &&& forall|i: int|
                0 <= i < n ==> #[trigger] s[i] == if delivered_before(order, m, i) {
                    Some(bs[i])
                } else {
                    None
                }
        }),
    decreases m,
{
    let empty = Seq::new(n, |i: int| None::<Seq<u8>>);
    if m == 0 {
        assert(order.take(0) =~= Seq::<int>::empty());
    } else {
        lemma_deliver_prefix(n, order, bs, m - 1);
        assert(order.take(m).drop_last() =~= order.take(m - 1));
        assert(order.take(m).last() == order[m - 1]);
        let s = deliver_in_order(empty, order.take(m), bs);
        let p = deliver_in_order(empty, order.take(m - 1), bs);
        assert forall|i: int| 0 <= i < n implies #[trigger] s[i] == if delivered_before(order, m, i) {
            Some(bs[i])
        } else {
            None
        } by {
            if i == order[m - 1] {
                assert(delivered_before(order, m, i));
            } else {
                if delivered_before(order, m, i) {
                    let k = choose|k: int| 0 <= k < m && order[k] == i;
                    assert(0 <= k < m - 1);
                    assert(delivered_before(order, m - 1, i));
                } else {
                    if delivered_before(order, m - 1, i) {
                        let k = choose|k: int| 0 <= k < m - 1 && order[k] == i;
                        assert(delivered_before(order, m, i));
                    }
                }
            }
        }
    }
}

proof fn lemma_joined_all(bs: Seq<Seq<u8>>)
    ensures
        joined(bs.map_values(|b: Seq<u8>| Some(b))) == concat_all(bs),
    decreases bs.len(),
{
    if bs.len() > 0 {
        assert(bs.map_values(|b: Seq<u8>| Some(b)).drop_last() =~= bs.drop_last().map_values(
            |b: Seq<u8>| Some(b),
        ));
        lemma_joined_all(bs.drop_last());
    }
}

/// Whatever order the chunks' audio comes in, once every chunk has delivered, each slot holds
/// its own chunk's audio and the joined audio is the chunks' audio in chunk order.
pub proof fn lemma_completion_order_irrelevant(n: nat, order: Seq<int>, bs: Seq<Seq<u8>>)
    requires
        is_permutation_of_indices(order, n),
        bs.len() == n,
    ensures
        deliver_in_order(Seq::new(n, |i: int| None::<Seq<u8>>), order, bs) == bs.map_values(
            |b: Seq<u8>| Some(b),
        ),
        joined(deliver_in_order(Seq::new(n, |i: int| None::<Seq<u8>>), order, bs)) == concat_all(
            bs,
        ),
{
    lemma_deliver_prefix(n, order, bs, n as int);
    assert(order.take(n as int) =~= order);
    let s = deliver_in_order(Seq::new(n, |i: int| None::<Seq<u8>>), order, bs);
    assert forall|i: int| 0 <= i < n implies #[trigger] delivered_before(order, n as int, i) by {
        lemma_permutation_covers(order, n, i);
    }
    assert(s =~= bs.map_values(|b: Seq<u8>| Some(b)));
    lemma_joined_all(bs);
}

proof fn lemma_permutation_covers(order: Seq<int>, n: nat, i: int)
    requires
        is_permutation_of_indices(order, n),
        0 <= i < n,
    ensures
        delivered_before(order, n as int, i),
{
    if !delivered_before(order, n as int, i) {
        // `order` would then map n positions into the n - 1 values other than i
        let vals = order.to_set();
        assert(vals.subset_of(Set::new(|v: int| 0 <= v < n && v != i)));
        order.unique_seq_to_set();
        vstd::set_lib::lemma_int_range(0, n as int);
        assert(Set::new(|v: int| 0 <= v < n && v != i) =~= vstd::set_lib::set_int_range(0, n as int).remove(i));
        vstd::set_lib::lemma_len_subset(vals, vstd::set_lib::set_int_range(0, n as int).remove(i));
    }
}

/// Chained over a whole dispatch: starting from the slots of `Dispatcher::new(n)` and moving,
/// at each report, to the slots that `on_result` gives for a success (`update(i, Some(b))`),
/// each report lands in an empty slot, the last one fills every slot, and so `on_result` then
/// answers `Done` with the chunks' audio in chunk order, whatever order the reports came in.
pub proof fn lemma_dispatch_run_joins_in_order(
    n: nat,
    order: Seq<int>,
    bs: Seq<Seq<u8>>,
    states: Seq<Seq<Option<Seq<u8>>>>,
)
    requires
        is_permutation_of_indices(order, n),
        bs.len() == n,
        states.len() == n + 1,
        states[0] == Seq::new(n, |i: int| None::<Seq<u8>>),
        forall|k: int|
            0 <= k < n ==> #[trigger] states[k + 1] == states[k].update(order[k], Some(bs[order[k]])),
    ensures
        forall|k: int| 0 <= k < n ==> (#[trigger] states[k])[order[k]] is None,
        all_filled(states[n as int]),
        joined(states[n as int]) == concat_all(bs),
{
    let empty = Seq::new(n, |i: int| None::<Seq<u8>>);
    assert forall|k: int| 0 <= k <= n implies #[trigger] states[k] == deliver_in_order(
        empty,
        order.take(k),
        bs,
    ) by {
        lemma_states_are_deliveries(n, order, bs, states, k);
    }
    assert forall|k: int| 0 <= k < n implies (#[trigger] states[k])[order[k]] is None by {
        lemma_deliver_prefix(n, order, bs, k);
        if delivered_before(order, k, order[k]) {
            let j = choose|j: int| 0 <= j < k && order[j] == order[k];
        }
    }
    assert(order.take(n as int) =~= order);
    lemma_completion_order_irrelevant(n, order, bs);
}

proof fn lemma_states_are_deliveries(
    n: nat,
    order: Seq<int>,
    bs: Seq<Seq<u8>>,
    states: Seq<Seq<Option<Seq<u8>>>>,
    k: int,
)
    requires
        is_permutation_of_indices(order, n),
        bs.len() == n,
        states.len() == n + 1,
        states[0] == Seq::new(n, |i: int| None::<Seq<u8>>),
        forall|k: int|
            0 <= k < n ==> #[trigger] states[k + 1] == states[k].update(order[k], Some(bs[order[k]])),
        0 <= k <= n,
    ensures
        states[k] == deliver_in_order(Seq::new(n, |i: int| None::<Seq<u8>>), order.take(k), bs),
    decreases k,
{
    if k == 0 {
        assert(order.take(0) =~= Seq::<int>::empty());
    } else {
        lemma_states_are_deliveries(n, order, bs, states, k - 1);
        assert(order.take(k).drop_last() =~= order.take(k - 1));
        assert(states[(k - 1) + 1] == states[k - 1].update(order[k - 1], Some(bs[order[k - 1]])));
    }
}

} // verus!
