//! A counting adapter for pull-based sequence producers.
//!
//! [`Enumerate`] owns a child producer and pairs each element the child
//! yields with a zero-based, strictly increasing index. The adapter itself
//! never polls anything: the code that drives the child (an executor loop,
//! a stream combinator shim) reports each poll outcome as an [`Advance`]
//! event, and [`Enumerate::advance`] decides what the adapter reports and
//! how its counter moves. Suspension, exhaustion and consumer-side answers
//! are forwarded unchanged; the adapter only annotates elements.

use vstd::prelude::*;

verus! {

/// Outcome of one advance (poll) of a pull-based sequence producer.
#[derive(Debug, PartialEq, Eq)]
pub enum Advance<T> {
    /// No element is available yet; the producer has arranged to be woken.
    Pending,
    /// The next element of the sequence.
    Item(T),
    /// The sequence is exhausted: no more elements, ever.
    Done,
}

/// The event the adapter reports for one child event, when its counter
/// stands at `count`: an element is paired with `count`, suspension and
/// exhaustion pass through untouched.
pub open spec fn indexed_item<T>(count: usize, ev: Advance<T>) -> Advance<(usize, T)> {
    match ev {
        Advance::Pending => Advance::Pending,
        Advance::Item(t) => Advance::Item((count, t)),
        Advance::Done => Advance::Done,
    }
}

/// The counter after one child event, starting from `count`: it grows by
/// one exactly when an element was yielded.
pub open spec fn count_after<T>(count: int, ev: Advance<T>) -> int {
    match ev {
        Advance::Item(_) => count + 1,
        _ => count,
    }
}

/// Wraps a sequence producer and pairs each yielded element with its
/// zero-based position.
#[derive(Debug)]
pub struct Enumerate<St> {
    stream: St,
    count: usize,
}

impl<St> Enumerate<St> {
    /// The child producer the adapter currently owns.
    pub closed spec fn source(&self) -> St {
        self.stream
    }

    /// The number of elements the adapter has yielded so far.
    pub closed spec fn spec_count(&self) -> usize {
        self.count
    }

    /// Takes ownership of `stream`; the counter starts at zero.
    pub fn new(stream: St) -> (r: Enumerate<St>)
        ensures
            r.source() == stream,
            r.spec_count() == 0,
    {
        Enumerate { stream, count: 0 }
    }

    /// The number of elements yielded so far.
    pub fn count(&self) -> (r: usize)
        ensures
            r == self.spec_count(),
    {
        self.count
    }

    /// A read-only view of the owned child producer.
    pub fn get_ref(&self) -> (r: &St)
        ensures
            *r == self.source(),
    {
        &self.stream
    }

    /// A mutable view of the owned child producer. A caller that drives
    /// the child's own progress through this view desynchronizes the
    /// reported indices from the element count; that is a documented
    /// caller obligation, not an enforced invariant.
    pub fn get_mut(&mut self) -> (r: &mut St)
        ensures
            *r == old(self).source(),
            final(self).source() == *final(r),
            final(self).spec_count() == old(self).spec_count(),
    {
        &mut self.stream
    }

    /// The one state transition of the adapter. The caller polled the
    /// child and reports the outcome as `child`; the adapter suspends
    /// when the child suspended, is done when the child was done, and
    /// pairs a yielded element with the counter value before the call,
    /// incrementing the counter by exactly one.
    ///
    /// The counter has no reset, so an element arriving with the counter
    /// already at the numeric limit is left out of the contract; drivers
    /// check [`Enumerate::count`] first (unreachable in practice at this
    /// width).
    pub fn advance<T>(&mut self, child: Advance<T>) -> (r: Advance<(usize, T)>)
        requires
            child is Item ==> old(self).spec_count() < usize::MAX,
        ensures
            final(self).source() == old(self).source(),
            final(self).spec_count() == count_after(old(self).spec_count() as int, child),
            r == indexed_item(old(self).spec_count(), child),
    {
        match child {
            Advance::Pending => Advance::Pending,
            Advance::Done => Advance::Done,
            Advance::Item(t) => {
                let index = self.count;
                self.count = self.count + 1;
                Advance::Item((index, t))
            },
        }
    }

    /// Forwards the child's answer to the permanent-termination query
    /// unchanged: the adapter adds no override of its own.
    pub fn is_terminated(&self, child_terminated: bool) -> (r: bool)
        ensures
            r == child_terminated,
    {
        child_terminated
    }

    /// Consumer-side pass-through: when the child is also a push
    /// consumer, the adapter hands the child's answer to any consumer
    /// operation (readiness, acceptance, flush, close) back verbatim —
    /// errors included — and touches neither the counter nor the child.
    pub fn forward_consumer<R>(&mut self, outcome: R) -> (r: R)
        ensures
            r == outcome,
            *final(self) == *old(self),
    {
        outcome
    }

    /// Consumes the adapter, handing back the owned child producer and
    /// discarding the counter.
    pub fn into_inner(self) -> (r: St)
        ensures
            r == self.source(),
    {
        self.stream
    }
}

/// The elements among a sequence of producer events, in order: what the
/// producer yielded over a whole run, suspensions and exhaustion answers
/// left out.
pub open spec fn yields_of<T>(evs: Seq<Advance<T>>) -> Seq<T>
    decreases evs.len(),
{
    if evs.len() == 0 {
        Seq::empty()
    } else {
        match evs.last() {
            Advance::Item(t) => yields_of(evs.drop_last()).push(t),
            _ => yields_of(evs.drop_last()),
        }
    }
}

/// The adapter's counter after a run over the child events `evs`,
/// starting from `start`: [`count_after`] folded over the run.
pub open spec fn count_from<T>(start: int, evs: Seq<Advance<T>>) -> int
    decreases evs.len(),
{
    if evs.len() == 0 {
        start
    } else {
        count_after(count_from(start, evs.drop_last()), evs.last())
    }
}

/// The events the adapter reports over a run: for each child event, the
/// report of [`indexed_item`] at the counter the run has reached there.
pub open spec fn outputs_from<T>(start: int, evs: Seq<Advance<T>>) -> Seq<Advance<(usize, T)>>
    decreases evs.len(),
{
    if evs.len() == 0 {
        Seq::empty()
    } else {
        outputs_from(start, evs.drop_last()).push(
            indexed_item(count_from(start, evs.drop_last()) as usize, evs.last()),
        )
    }
}

/// One more child event extends a run by exactly what one call of
/// [`Enumerate::advance`] reports and does to the counter: the run model
/// is the fold of the transition the executable contract states.
pub proof fn lemma_run_step<T>(start: int, evs: Seq<Advance<T>>, ev: Advance<T>)
    ensures
        count_from(start, evs.push(ev)) == count_after(count_from(start, evs), ev),
        outputs_from(start, evs.push(ev)) == outputs_from(start, evs).push(
            indexed_item(count_from(start, evs) as usize, ev),
        ),
{
    assert(evs.push(ev).drop_last() =~= evs);
}

/// The counter counts yields: after any run it stands exactly at its
/// starting value plus the number of elements the child yielded, never
/// reset, never decremented.
pub proof fn lemma_count_counts_yields<T>(start: int, evs: Seq<Advance<T>>)
    ensures
        count_from(start, evs) == start + yields_of(evs).len(),
    decreases evs.len(),
{
    if evs.len() > 0 {
        lemma_count_counts_yields(start, evs.drop_last());
    }
}

/// Over a run from counter value `start`, the adapter yields exactly the
/// elements the child yielded, unchanged and in order, the k-th paired
/// with index `start + k`.
pub proof fn lemma_yields_indexed<T>(start: int, evs: Seq<Advance<T>>)
    requires
        0 <= start,
        start + yields_of(evs).len() <= usize::MAX,
    ensures
        outputs_from(start, evs).len() == evs.len(),
        yields_of(outputs_from(start, evs)).len() == yields_of(evs).len(),
        forall|k: int|
            0 <= k < yields_of(evs).len() ==> yields_of(outputs_from(start, evs))[k] == ((
            (start + k) as usize,
            yields_of(evs)[k],
            )),
    decreases evs.len(),
{
    if evs.len() > 0 {
        let pre = evs.drop_last();
        lemma_yields_indexed(start, pre);
        lemma_count_counts_yields(start, pre);
        let out_pre = outputs_from(start, pre);
        let out_last = indexed_item(count_from(start, pre) as usize, evs.last());
        assert(out_pre.push(out_last).drop_last() =~= out_pre);
    }
}

/// For every run over which the child yields n elements before
/// exhausting, the adapter yields exactly those n elements, unchanged
/// and in that exact order, paired with indices 0, 1, ..., n-1.
pub proof fn lemma_enumerates_in_order<T>(evs: Seq<Advance<T>>)
    requires
        yields_of(evs).len() <= usize::MAX,
    ensures
        outputs_from(0, evs).len() == evs.len(),
        yields_of(outputs_from(0, evs)).len() == yields_of(evs).len(),
        forall|k: int|
            0 <= k < yields_of(evs).len() ==> yields_of(outputs_from(0, evs))[k] == ((
            k as usize,
            yields_of(evs)[k],
            )),
{
    lemma_yields_indexed(0, evs);
}

/// Suspension and exhaustion pass through one-for-one: the adapter
/// reports "not yet ready" exactly where the child did, and "no more
/// elements" exactly where the child did, with no adapter-side override.
pub proof fn lemma_forwarding_pointwise<T>(start: int, evs: Seq<Advance<T>>)
    ensures
        outputs_from(start, evs).len() == evs.len(),
        forall|i: int|
            0 <= i < evs.len() ==> ((outputs_from(start, evs)[i] is Pending) <==> (
            evs[i] is Pending)),
        forall|i: int|
            0 <= i < evs.len() ==> ((outputs_from(start, evs)[i] is Done) <==> (evs[i] is Done)),
    decreases evs.len(),
{
    if evs.len() > 0 {
        let pre = evs.drop_last();
        lemma_forwarding_pointwise(start, pre);
        let out = outputs_from(start, evs);
        let last = indexed_item(count_from(start, pre) as usize, evs.last());
        assert forall|i: int|
            0 <= i < evs.len() implies ((out[i] is Pending) <==> (evs[i] is Pending)) && ((
        out[i] is Done) <==> (evs[i] is Done)) by {
            if i < evs.len() - 1 {
                assert(out[i] == outputs_from(start, pre)[i]);
                assert(evs[i] == pre[i]);
            } else {
                assert(out[i] == last);
                assert(evs[i] == evs.last());
            }
        }
    }
}

/// Idempotent exhaustion: from the first point after which the child
/// answers every poll with "no more elements", the adapter answers "no
/// more elements" too, at every one of those polls. (A child that does
/// not guarantee such idempotence has its re-entry behavior passed
/// through unchanged instead: see [`lemma_forwarding_pointwise`].)
pub proof fn lemma_idempotent_exhaustion<T>(start: int, evs: Seq<Advance<T>>, i: int)
    requires
        0 <= i <= evs.len(),
        forall|j: int| i <= j < evs.len() ==> evs[j] is Done,
    ensures
        forall|j: int| i <= j < evs.len() ==> outputs_from(start, evs)[j] is Done,
{
    lemma_forwarding_pointwise(start, evs);
    assert forall|j: int| i <= j < evs.len() implies outputs_from(start, evs)[j] is Done by {
        assert(evs[j] is Done);
    }
}

} // verus!

