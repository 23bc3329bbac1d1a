//! Event-driven timer: a deterministic, time-ordered action queue.
//!
//! Pending messages carry an absolute due time on a virtual clock together
//! with an order stamp that breaks ties among messages due at the same
//! instant, so that equal-time messages always run in scheduling order.

use vstd::prelude::*;

verus! {

/// A pending message: due at `when` on the virtual clock, with `order`
/// breaking ties among messages that share the same `when`.
#[derive(Clone, Copy, PartialEq, Eq, Structural, Debug)]
pub struct Msg<T> {
    pub when: u32,
    pub order: u32,
    pub payload: T,
}

/// What a poll of the queue asks the driver loop to do next.
#[derive(Clone, Copy, PartialEq, Eq, Structural, Debug)]
pub enum Event<T> {
    Execute { msg: T },
    Wait { ms: u32 },
    Halt,
}

/// Strict scheduling order: earlier due time first, then lower order stamp.
pub open spec fn msg_lt<T>(a: Msg<T>, b: Msg<T>) -> bool {
    a.when < b.when || (a.when == b.when && a.order < b.order)
}

/// Reflexive scheduling order.
pub open spec fn msg_le<T>(a: Msg<T>, b: Msg<T>) -> bool {
    a.when < b.when || (a.when == b.when && a.order <= b.order)
}

/// Index of the first message that is minimal in scheduling order.
pub open spec fn head_idx<T>(q: Seq<Msg<T>>) -> int
    decreases q.len(),
{
    if q.len() <= 1 {
        0
    } else {
        let r = head_idx(q.drop_last());
        if msg_lt(q.last(), q[r]) {
            q.len() - 1
        } else {
            r
        }
    }
}

/// The order stamp a fresh message due at `when` receives: one past the
/// largest stamp among resident messages due at the same instant, or zero
/// when that instant has no resident messages.
pub open spec fn next_order<T>(q: Seq<Msg<T>>, when: u32) -> int
    decreases q.len(),
{
    if q.len() == 0 {
        0
    } else {
        let r = next_order(q.drop_last(), when);
        if q.last().when == when && q.last().order + 1 > r {
            q.last().order + 1
        } else {
            r
        }
    }
}

pub proof fn lemma_head_idx<T>(q: Seq<Msg<T>>)
    requires
        q.len() > 0,
    ensures
        0 <= head_idx(q) < q.len(),
        forall|j: int| 0 <= j < q.len() ==> msg_le(q[head_idx(q)], #[trigger] q[j]),
    decreases q.len(),
{
    if q.len() > 1 {
        lemma_head_idx(q.drop_last());
        assert(forall|j: int|
            0 <= j < q.len() - 1 ==> q.drop_last()[j] == #[trigger] q[j]);
    }
}

pub proof fn lemma_next_order<T>(q: Seq<Msg<T>>, when: u32)
    ensures
        next_order(q, when) >= 0,
        forall|i: int|
            0 <= i < q.len() && (#[trigger] q[i]).when == when ==> q[i].order + 1 <= next_order(
                q,
                when,
            ),
    decreases q.len(),
{
    if q.len() > 0 {
        lemma_next_order(q.drop_last(), when);
        assert(forall|i: int|
            0 <= i < q.len() - 1 ==> q.drop_last()[i] == #[trigger] q[i]);
    }
}

/// All resident order stamps lie below `b`; schedulers use this headroom
/// to show that fresh stamps still fit their integer type.
pub open spec fn orders_below<T>(q: Seq<Msg<T>>, b: int) -> bool {
    forall|k: int| 0 <= k < q.len() ==> (#[trigger] q[k]).order < b
}

pub proof fn lemma_next_order_below<T>(q: Seq<Msg<T>>, when: u32, b: int)
    requires
        orders_below(q, b),
        b >= 0,
    ensures
        next_order(q, when) <= b,
    decreases q.len(),
{
    if q.len() > 0 {
        assert(forall|k: int|
            0 <= k < q.len() - 1 ==> q.drop_last()[k] == #[trigger] q[k]);
        lemma_next_order_below(q.drop_last(), when, b);
        assert(q[q.len() - 1] == q.last());
    }
}

/// Order headroom carries over to any selection of resident messages.
pub proof fn lemma_orders_below_subset<T>(q1: Seq<Msg<T>>, q2: Seq<Msg<T>>, b: int)
    requires
        orders_below(q1, b),
        forall|k: int| 0 <= k < q2.len() ==> q1.contains(#[trigger] q2[k]),
    ensures
        orders_below(q2, b),
{
    assert forall|k: int| 0 <= k < q2.len() implies (#[trigger] q2[k]).order < b by {
        let j: int = choose|j: int| 0 <= j < q1.len() && q1[j] == q2[k];
        assert(q1[j].order < b);
    }
}

/// In a queue whose equal-time messages carry strictly growing order
/// stamps, no two resident messages share both their due time and their
/// order stamp, so the scheduling order is total on residents.
pub proof fn lemma_stamps_unique<T>(q: Seq<Msg<T>>)
    requires
        forall|i: int, j: int|
            0 <= i < j < q.len() && (#[trigger] q[i]).when == (#[trigger] q[j]).when ==> q[
                i
            ].order < q[j].order,
    ensures
        forall|i: int, j: int|
            0 <= i < q.len() && 0 <= j < q.len() && i != j ==> !((#[trigger] q[i]).when == (
            #[trigger] q[j]).when && q[i].order == q[j].order),
{
}

/// Ordering law: for any sequence of schedule calls, repeated polling
/// hands the due messages out in nondecreasing due time and, among equal
/// due times, in call order. At the model level: the message a schedule
/// inserts into queue `q` runs strictly after every resident message due
/// at or before it, because its due time is no earlier and its fresh
/// order stamp exceeds every stamp in its due-time bucket; a poll always
/// takes the minimal remaining message (see `poll` and `advance_time_by`).
pub proof fn lemma_scheduling_order<T>(q: Seq<Msg<T>>, now: u32, delay: u32, payload: T)
    requires
        now + delay <= u32::MAX,
        next_order(q, (now + delay) as u32) <= u32::MAX,
    ensures
        ({
            let m = Msg::<T> {
                when: (now + delay) as u32,
                order: next_order(q, (now + delay) as u32) as u32,
                payload,
            };
            forall|k: int|
                0 <= k < q.len() && (#[trigger] q[k]).when <= m.when ==> msg_lt(q[k], m)
        }),
{
    lemma_next_order(q, (now + delay) as u32);
}

/// Removal criterion that matches payloads equal to one given value.
pub struct PayloadEquals {
    pub value: u32,
}

impl Predicate<u32> for PayloadEquals {
    open spec fn spec_matches(&self, t: u32) -> bool {
        t == self.value
    }

    fn matches(&self, t: &u32) -> (r: bool) {
        *t == self.value
    }
}

/// The event-driven timer: a virtual clock plus the resident messages.
pub struct EDT<T> {
    pub now: u32,
    pub queue: Vec<Msg<T>>,
}

/// A removal criterion on payloads, with its meaning available to contracts.
pub trait Predicate<T> {
    spec fn spec_matches(&self, t: T) -> bool;

    fn matches(&self, t: &T) -> (r: bool)
        ensures
            r == self.spec_matches(*t),
    ;
}

impl<T: Copy> EDT<T> {
    /// Well-formed: every resident message is still in the future of the
    /// clock, and messages due at the same instant carry strictly growing
    /// order stamps along the queue.
    pub open spec fn wf(&self) -> bool {
        &&& forall|i: int|
            0 <= i < self.queue@.len() ==> (#[trigger] self.queue@[i]).when >= self.now
        &&& forall|i: int, j: int|
            0 <= i < j < self.queue@.len() && (#[trigger] self.queue@[i]).when == (
            #[trigger] self.queue@[j]).when ==> self.queue@[i].order < self.queue@[j].order
    }

    pub fn create() -> (edt: EDT<T>)
        ensures
            edt.now == 0,
            edt.queue@.len() == 0,
            edt.wf(),
    {
        EDT { now: 0, queue: Vec::new() }
    }

    pub fn now(&self) -> (t: u32)
        ensures
            t == self.now,
    {
        self.now
    }

    pub fn queue_len(&self) -> (n: usize)
        ensures
            n == self.queue@.len(),
    {
        self.queue.len()
    }

    /// Inserts a message due `delay` from now, stamped one past the largest
    /// order among messages already due at the same instant.
    pub fn schedule(&mut self, delay: u32, payload: T)
        requires
            old(self).wf(),
            old(self).now + delay <= u32::MAX,
            next_order(old(self).queue@, (old(self).now + delay) as u32) <= u32::MAX,
        ensures
            final(self).wf(),
            final(self).now == old(self).now,
            final(self).queue@ == old(self).queue@.push(
                (Msg {
                    when: (old(self).now + delay) as u32,
                    order: next_order(old(self).queue@, (old(self).now + delay) as u32) as u32,
                    payload,
                }),
            ),
    {
        let when: u32 = self.now + delay;
        proof {
            lemma_next_order(self.queue@, when);
        }
        let ghost q = self.queue@;
        let mut ord: u32 = 0;
        let mut i: usize = 0;
        while i < self.queue.len()
            invariant
                self.queue@ == q,
                i <= q.len(),
                ord as int == next_order(q.take(i as int), when),
                next_order(q, when) <= u32::MAX,
                forall|k: int|
                    0 <= k < q.len() && (#[trigger] q[k]).when == when ==> q[k].order + 1
                        <= next_order(q, when),
            decreases q.len() - i,
        {
            let m = self.queue[i];
            proof {
                assert(q.take(i + 1).drop_last() =~= q.take(i as int));
                assert(q.take(i + 1).last() == q[i as int]);
            }
            if m.when == when {
                let o = m.order;
                if o >= ord {
                    ord = o + 1;
                }
            }
            i += 1;
        }
        proof {
            assert(q.take(q.len() as int) =~= q);
        }
        self.queue.push(Msg { when, order: ord, payload });
    }

    /// Position of the minimal resident message in scheduling order.
    fn head_position(&self) -> (r: Option<usize>)
        ensures
            match r {
                Some(i) => self.queue@.len() > 0 && i as int == head_idx(self.queue@),
                None => self.queue@.len() == 0,
            },
    {
        if self.queue.len() == 0 {
            return None;
        }
        let ghost q = self.queue@;
        let mut best: usize = 0;
        let mut i: usize = 1;
        while i < self.queue.len()
            invariant
                self.queue@ == q,
                1 <= i <= q.len(),
                best < i,
                best as int == head_idx(q.take(i as int)),
            decreases q.len() - i,
        {
            proof {
                assert(q.take(i + 1).drop_last() =~= q.take(i as int));
                assert(q.take(i + 1).last() == q[i as int]);
            }
            let m = self.queue[i];
            let b = self.queue[best];
            if m.when < b.when || (m.when == b.when && m.order < b.order) {
                best = i;
            }
            i += 1;
        }
        proof {
            assert(q.take(q.len() as int) =~= q);
        }
        Some(best)
    }

    /// Looks at the minimal resident message. When it lies in the future,
    /// advances the clock to it and reports how long that advance was,
    /// leaving the message resident; when it is due, removes it and hands
    /// its payload out; on an empty queue, halts.
    pub fn poll(&mut self) -> (e: Event<T>)
        requires
            old(self).wf(),
        ensures
            final(self).wf(),
            forall|k: int|
                0 <= k < final(self).queue@.len() ==> old(self).queue@.contains(
                    #[trigger] final(self).queue@[k],
                ),
            old(self).queue@.len() == 0 ==> e == Event::<T>::Halt && final(self).now == old(
                self,
            ).now && final(self).queue@ == old(self).queue@,
            old(self).queue@.len() > 0 ==> {
                let h = old(self).queue@[head_idx(old(self).queue@)];
                &&& h.when > old(self).now ==> e == (Event::<T>::Wait {
                    ms: (h.when - old(self).now) as u32,
                }) && final(self).now == h.when && final(self).queue@ == old(self).queue@
                &&& h.when <= old(self).now ==> e == (Event::<T>::Execute { msg: h.payload })
                    && final(self).now == old(self).now && final(self).queue@ == old(
                    self,
                ).queue@.remove(head_idx(old(self).queue@))
            },
    {
        match self.head_position() {
            None => Event::Halt,
            Some(pos) => {
                proof {
                    lemma_head_idx(self.queue@);
                }
                let h = self.queue[pos];
                if h.when > self.now {
                    let ms = h.when - self.now;
                    self.now = h.when;
                    assert(forall|j: int|
                        0 <= j < self.queue@.len() ==> (#[trigger] self.queue@[j]).when
                            >= self.now);
                    Event::Wait { ms }
                } else {
                    let ghost q = self.queue@;
                    let m = self.queue.remove(pos);
                    proof {
                        let nq = self.queue@;
                        assert(nq =~= q.subrange(0, pos as int) + q.subrange(
                            pos + 1,
                            q.len() as int,
                        ));
                        assert forall|i: int, j: int|
                            0 <= i < j < nq.len() && (#[trigger] nq[i]).when == (
                            #[trigger] nq[j]).when implies nq[i].order < nq[j].order by {
                            let oi: int = if i < pos { i } else { i + 1 };
                            let oj: int = if j < pos { j } else { j + 1 };
                            assert(nq[i] == q[oi]);
                            assert(nq[j] == q[oj]);
                        }
                        assert forall|k: int| 0 <= k < nq.len() implies q.contains(
                            #[trigger] nq[k],
                        ) by {
                            let ok: int = if k < pos { k } else { k + 1 };
                            assert(nq[k] == q[ok]);
                        }
                    }
                    Event::Execute { msg: m.payload }
                }
            },
        }
    }

    /// Advances the clock by `time`, removing and returning every message
    /// that falls due on the way, in scheduling order: nondecreasing due
    /// time and, within one due time, the order the messages were scheduled.
    /// Messages due later stay resident, and the clock lands on `time` from
    /// now unless the queue ran empty first.
    pub fn advance_time_by(&mut self, time: u32) -> (handled: Vec<Msg<T>>)
        requires
            old(self).wf(),
            old(self).now + time <= u32::MAX,
        ensures
            final(self).wf(),
            old(self).now <= final(self).now <= old(self).now + time,
            final(self).queue@.len() > 0 ==> final(self).now == old(self).now + time,
            forall|i: int, j: int|
                0 <= i < j < handled@.len() ==> msg_lt(#[trigger] handled@[i], #[trigger] handled@[j]),
            forall|i: int|
                0 <= i < handled@.len() ==> old(self).now <= (#[trigger] handled@[i]).when <= old(
                    self,
                ).now + time,
            forall|j: int|
                0 <= j < final(self).queue@.len() ==> (#[trigger] final(self).queue@[j]).when
                    > old(self).now + time,
            old(self).queue@.to_multiset() == final(self).queue@.to_multiset().add(
                handled@.to_multiset(),
            ),
    {
        broadcast use vstd::seq_lib::group_to_multiset_ensures;

        let ghost now0 = self.now;
        let ghost q0 = self.queue@;
        let target: u32 = self.now + time;
        let mut handled: Vec<Msg<T>> = Vec::new();
        loop
            invariant
                self.wf(),
                now0 <= self.now <= target,
                target == now0 + time,
                forall|i: int, j: int|
                    0 <= i < j < handled@.len() ==> msg_lt(
                        #[trigger] handled@[i],
                        #[trigger] handled@[j],
                    ),
                forall|i: int|
                    0 <= i < handled@.len() ==> now0 <= (#[trigger] handled@[i]).when <= target,
                forall|i: int, j: int|
                    0 <= i < handled@.len() && 0 <= j < self.queue@.len() ==> msg_lt(
                        #[trigger] handled@[i],
                        #[trigger] self.queue@[j],
                    ),
                q0.to_multiset() == self.queue@.to_multiset().add(handled@.to_multiset()),
            ensures
                self.wf(),
                now0 <= self.now <= target,
                self.queue@.len() > 0 ==> self.now == target,
                forall|i: int, j: int|
                    0 <= i < j < handled@.len() ==> msg_lt(
                        #[trigger] handled@[i],
                        #[trigger] handled@[j],
                    ),
                forall|i: int|
                    0 <= i < handled@.len() ==> now0 <= (#[trigger] handled@[i]).when <= target,
                forall|j: int|
                    0 <= j < self.queue@.len() ==> (#[trigger] self.queue@[j]).when > target,
                q0.to_multiset() == self.queue@.to_multiset().add(handled@.to_multiset()),
            decreases self.queue.len(),
        {
            match self.head_position() {
                None => {
                    break ;
                },
                Some(pos) => {
                    proof {
                        lemma_head_idx(self.queue@);
                    }
                    let h = self.queue[pos];
                    if h.when > target {
                        self.now = target;
                        proof {
                            assert forall|j: int| 0 <= j < self.queue@.len() implies (
                            #[trigger] self.queue@[j]).when > target by {
                                assert(msg_le(h, self.queue@[j]));
                            }
                        }
                        break ;
                    } else {
                        self.now = h.when;
                        let ghost q = self.queue@;
                        let m = self.queue.remove(pos);
                        proof {
                            let nq = self.queue@;
                            assert(nq =~= q.subrange(0, pos as int) + q.subrange(
                                pos + 1,
                                q.len() as int,
                            ));
                            assert forall|i: int, j: int|
                                0 <= i < j < nq.len() && (#[trigger] nq[i]).when == (
                                #[trigger] nq[j]).when implies nq[i].order < nq[j].order by {
                                let oi: int = if i < pos { i } else { i + 1 };
                                let oj: int = if j < pos { j } else { j + 1 };
                                assert(nq[i] == q[oi]);
                                assert(nq[j] == q[oj]);
                            }
                            assert forall|j: int| 0 <= j < nq.len() implies msg_lt(
                                h,
                                #[trigger] nq[j],
                            ) by {
                                let oj: int = if j < pos { j } else { j + 1 };
                                assert(nq[j] == q[oj]);
                                assert(msg_le(h, q[oj]));
                                if h.when == q[oj].when {
                                    if oj < pos {
                                        assert(q[oj].order != h.order);
                                    } else {
                                        assert(q[oj].order != h.order);
                                    }
                                }
                            }
                            assert(q0.to_multiset() == nq.to_multiset().add(
                                handled@.push(h).to_multiset(),
                            )) by {
                                broadcast use vstd::multiset::group_multiset_axioms;

                                vstd::seq_lib::to_multiset_remove(q, pos as int);
                                vstd::seq_lib::to_multiset_build(handled@, h);
                                assert(nq == q.remove(pos as int));
                                assert(q.to_multiset().contains(h)) by {
                                    vstd::seq_lib::to_multiset_contains(q, h);
                                    assert(q[pos as int] == h);
                                }
                                assert(nq.to_multiset().add(handled@.push(h).to_multiset())
                                    =~= q.to_multiset().add(handled@.to_multiset()));
                            }
                        }
                        handled.push(m);
                    }
                },
            }
        }
        handled
    }

    /// The messages that survive a removal with `p`.
    pub open spec fn retained<P: Predicate<T>>(q: Seq<Msg<T>>, p: P) -> Seq<Msg<T>> {
        q.filter(|m: Msg<T>| !p.spec_matches(m.payload))
    }

    /// The messages a removal with `p` deletes.
    pub open spec fn dropped<P: Predicate<T>>(q: Seq<Msg<T>>, p: P) -> Seq<Msg<T>> {
        q.filter(|m: Msg<T>| p.spec_matches(m.payload))
    }

    /// Deletes exactly the resident messages whose payload matches, keeping
    /// the rest in place: afterwards the queue is the former queue with the
    /// matches filtered out, so its length dropped by the number of matches.
    pub fn remove<P: Predicate<T>>(&mut self, predicate: &P)
        requires
            old(self).wf(),
        ensures
            final(self).wf(),
            final(self).now == old(self).now,
            final(self).queue@ == Self::retained(old(self).queue@, *predicate),
            final(self).queue@.len() + Self::dropped(old(self).queue@, *predicate).len() == old(
                self,
            ).queue@.len(),
            forall|k: int|
                0 <= k < final(self).queue@.len() ==> old(self).queue@.contains(
                    #[trigger] final(self).queue@[k],
                ),
    {
        let ghost q = self.queue@;
        let ghost keep = |m: Msg<T>| !predicate.spec_matches(m.payload);
        let ghost now0 = self.now;
        let mut kept: Vec<Msg<T>> = Vec::new();
        // `src` names, for each kept message, the index it came from, so the
        // order clauses of well-formedness carry over from the old queue.
        let ghost mut src: Seq<int> = Seq::empty();
        let mut i: usize = 0;
        proof {
            assert(q.take(0).filter(keep) =~= Seq::<Msg<T>>::empty()) by {
                reveal(Seq::filter);
            }
        }
        while i < self.queue.len()
            invariant
                self.queue@ == q,
                self.now == now0,
                i <= q.len(),
                kept@ == q.take(i as int).filter(keep),
                keep == (|m: Msg<T>| !predicate.spec_matches(m.payload)),
                src.len() == kept@.len(),
                forall|k: int| 0 <= k < src.len() ==> 0 <= #[trigger] src[k] < i,
                forall|k: int, l: int|
                    0 <= k < l < src.len() ==> #[trigger] src[k] < #[trigger] src[l],
                forall|k: int| 0 <= k < src.len() ==> q[#[trigger] src[k]] == kept@[k],
            decreases q.len() - i,
        {
            let m = self.queue[i];
            proof {
                assert(q.take(i + 1).drop_last() =~= q.take(i as int));
                assert(q.take(i + 1).last() == q[i as int]);
                reveal(Seq::filter);
            }
            if !predicate.matches(&m.payload) {
                kept.push(m);
                proof {
                    src = src.push(i as int);
                }
            }
            i += 1;
        }
        proof {
            assert(q.take(q.len() as int) =~= q);
        }
        self.queue = kept;
        proof {
            assert forall|k: int, l: int|
                0 <= k < l < self.queue@.len() && (#[trigger] self.queue@[k]).when == (
                #[trigger] self.queue@[l]).when implies self.queue@[k].order
                < self.queue@[l].order by {
                assert(q[src[k]] == self.queue@[k]);
                assert(q[src[l]] == self.queue@[l]);
            }
            assert forall|k: int| 0 <= k < self.queue@.len() implies (
            #[trigger] self.queue@[k]).when >= self.now by {
                assert(q[src[k]] == self.queue@[k]);
            }
            assert forall|k: int| 0 <= k < self.queue@.len() implies q.contains(
                #[trigger] self.queue@[k],
            ) by {
                assert(q[src[k]] == self.queue@[k]);
            }
            lemma_filter_partition(q, keep);
            assert(Self::dropped(q, *predicate) == q.filter(|m: Msg<T>| !keep(m))) by {
                lemma_filter_equivalent(
                    q,
                    |m: Msg<T>| predicate.spec_matches(m.payload),
                    |m: Msg<T>| !keep(m),
                );
            }
        }
    }
}

/// A sequence splits into the part a criterion keeps and the part it drops.
pub proof fn lemma_filter_partition<T>(q: Seq<Msg<T>>, keep: spec_fn(Msg<T>) -> bool)
    ensures
        q.filter(keep).len() + q.filter(|m: Msg<T>| !keep(m)).len() == q.len(),
    decreases q.len(),
{
    reveal(Seq::filter);
    if q.len() > 0 {
        lemma_filter_partition(q.drop_last(), keep);
    }
}

/// Criteria that agree pointwise filter to the same sequence.
pub proof fn lemma_filter_equivalent<T>(q: Seq<Msg<T>>, p1: spec_fn(Msg<T>) -> bool, p2: spec_fn(
    Msg<T>,
) -> bool)
    requires
        forall|m: Msg<T>| #[trigger] p1(m) == #[trigger] p2(m),
    ensures
        q.filter(p1) == q.filter(p2),
    decreases q.len(),
{
    reveal(Seq::filter);
    if q.len() > 0 {
        lemma_filter_equivalent(q.drop_last(), p1, p2);
    }
}

} // verus!
