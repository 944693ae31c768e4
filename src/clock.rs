//! A virtual clock: the current instant and an ordered registry of wakeups.
//!
//! Instants and durations are counted in ticks (`u64`); time moves only when
//! `advance` is called, and advancing hands back every due waiter in time
//! order, ties in registration order.
use vstd::prelude::*;

verus! {

/// One registered wakeup: the waiter to notify once `when` has passed.
pub struct Activation<W> {
    pub when: u64,
    pub waiter: W,
}

/// The number of leading entries of `s` that are due at instant `t`.
pub open spec fn count_due<W>(s: Seq<Activation<W>>, t: u64) -> nat
    decreases s.len(),
{
    if s.len() == 0 {
        0
    } else if s[0].when <= t {
        1 + count_due(s.drop_first(), t)
    } else {
        0
    }
}

/// Entries are in ascending order of their instants.
pub open spec fn is_sorted<W>(s: Seq<Activation<W>>) -> bool {
    forall|i: int, j: int| 0 <= i <= j < s.len() ==> s[i].when <= s[j].when
}

/// The registry after `a` is registered: it goes after every entry that is
/// due no later than it, and before the rest.
pub open spec fn registered<W>(s: Seq<Activation<W>>, a: Activation<W>) -> Seq<Activation<W>> {
    s.insert(count_due(s, a.when) as int, a)
}

/// The instants of a registry, in its order.
pub open spec fn instants<W>(s: Seq<Activation<W>>) -> Seq<u64> {
    s.map_values(|a: Activation<W>| a.when)
}

/// The waiters of a registry, in its order.
pub open spec fn waiters<W>(s: Seq<Activation<W>>) -> Seq<W> {
    s.map_values(|a: Activation<W>| a.waiter)
}

proof fn lemma_count_due_bound<W>(s: Seq<Activation<W>>, t: u64)
    ensures
        count_due(s, t) <= s.len(),
        forall|i: int| 0 <= i < count_due(s, t) ==> s[i].when <= t,
        count_due(s, t) < s.len() ==> s[count_due(s, t) as int].when > t,
    decreases s.len(),
{
    if s.len() > 0 && s[0].when <= t {
        lemma_count_due_bound(s.drop_first(), t);
        assert forall|i: int| 0 <= i < count_due(s, t) implies s[i].when <= t by {
            if i > 0 {
                assert(s[i] == s.drop_first()[i - 1]);
            }
        }
    }
}

/// In a sorted registry an index `k` that splits the entries due at `t`
/// from the rest is the number of entries due at `t`.
proof fn lemma_count_due_split<W>(s: Seq<Activation<W>>, t: u64, k: int)
    requires
        0 <= k <= s.len(),
        forall|i: int| 0 <= i < k ==> s[i].when <= t,
        forall|i: int| k <= i < s.len() ==> s[i].when > t,
    ensures
        count_due(s, t) == k,
    decreases s.len(),
{
    if s.len() > 0 && k > 0 {
        let r = s.drop_first();
        assert forall|i: int| 0 <= i < k - 1 implies r[i].when <= t by {
            assert(r[i] == s[i + 1]);
        }
        assert forall|i: int| k - 1 <= i < r.len() implies r[i].when > t by {
            assert(r[i] == s[i + 1]);
        }
        lemma_count_due_split(r, t, k - 1);
    }
}

proof fn lemma_registered_sorted<W>(s: Seq<Activation<W>>, a: Activation<W>)
    requires
        is_sorted(s),
    ensures
        is_sorted(registered(s, a)),
        registered(s, a).len() == s.len() + 1,
{
    lemma_count_due_bound(s, a.when);
    let k = count_due(s, a.when) as int;
    let r = registered(s, a);
    assert forall|i: int, j: int| 0 <= i <= j < r.len() implies r[i].when <= r[j].when by {
        if i < k && j > k {
            assert(r[j] == s[j - 1]);
        }
        if i > k {
            assert(r[i] == s[i - 1]);
            assert(r[j] == s[j - 1]);
        }
    }
}

/// Wakeups registered at `t + 3`, `t + 1` and `t + 2`, in that order, all
/// fire once time has passed `t + 3`, and they fire in the order of their
/// instants: `t + 1`, then `t + 2`, then `t + 3`.
pub proof fn wakeups_fire_in_time_order<W>(t: u64, now: u64, w3: W, w1: W, w2: W)
    requires
        t + 3 <= now,
    ensures
        ({
            let r = registered(
                registered(
                    registered(Seq::empty(), Activation { when: (t + 3) as u64, waiter: w3 }),
                    Activation { when: (t + 1) as u64, waiter: w1 },
                ),
                Activation { when: (t + 2) as u64, waiter: w2 },
            );
            &&& count_due(r, now) == 3
            &&& instants(r) == seq![(t + 1) as u64, (t + 2) as u64, (t + 3) as u64]
            &&& waiters(r) == seq![w1, w2, w3]
        }),
{
    let a3 = Activation { when: (t + 3) as u64, waiter: w3 };
    let a1 = Activation { when: (t + 1) as u64, waiter: w1 };
    let a2 = Activation { when: (t + 2) as u64, waiter: w2 };
    let r1 = registered(Seq::empty(), a3);
    assert(count_due(Seq::<Activation<W>>::empty(), a3.when) == 0);
    assert(r1 =~= seq![a3]);
    assert(count_due(r1, a1.when) == 0);
    let r2 = registered(r1, a1);
    assert(r2 =~= seq![a1, a3]);
    assert(r2.drop_first() =~= seq![a3]);
    assert(count_due(seq![a3], a2.when) == 0);
    assert(count_due(r2, a2.when) == 1);
    let r3 = registered(r2, a2);
    assert(r3 =~= seq![a1, a2, a3]);
    assert(r3.drop_first() =~= seq![a2, a3]);
    assert(r3.drop_first().drop_first() =~= seq![a3]);
    assert(seq![a3].drop_first() =~= Seq::<Activation<W>>::empty());
    assert(count_due(Seq::<Activation<W>>::empty(), now) == 0);
    assert(count_due(seq![a3], now) == 1);
    assert(count_due(seq![a2, a3], now) == 2);
    assert(count_due(r3, now) == 3);
    assert(instants(r3) =~= seq![a1.when, a2.when, a3.when]);
    assert(waiters(r3) =~= seq![w1, w2, w3]);
}

/// A deterministic clock: its time moves only when it is advanced.
pub struct MockClock<W> {
    current: u64,
    activations: std::collections::VecDeque<Activation<W>>,
}

impl<W> MockClock<W> {
    /// The current instant.
    pub closed spec fn now_spec(&self) -> u64 {
        self.current
    }

    /// The pending wakeups, in the order in which they will fire.
    pub closed spec fn pending(&self) -> Seq<Activation<W>> {
        self.activations@
    }

    /// The registry is kept in ascending order of instants.
    pub closed spec fn wf(&self) -> bool {
        is_sorted(self.activations@)
    }

    /// A clock that stands at `start_time` with no pending wakeup.
    pub fn new(start_time: u64) -> (r: MockClock<W>)
        ensures
            r.wf(),
            r.now_spec() == start_time,
            r.pending() == Seq::<Activation<W>>::empty(),
    {
        MockClock { current: start_time, activations: std::collections::VecDeque::new() }
    }

    /// The current instant; it never moves on its own.
    pub fn now(&self) -> (r: u64)
        ensures
            r == self.now_spec(),
    {
        self.current
    }

    /// Registers a one-shot wakeup of `waiter` at instant `when`.
    pub fn add_activation(&mut self, waiter: W, when: u64)
        requires
            old(self).wf(),
        ensures
            final(self).wf(),
            final(self).now_spec() == old(self).now_spec(),
            final(self).pending() == registered(old(self).pending(), Activation { when, waiter }),
    {
        insert_activation(&mut self.activations, when, waiter);
        proof {
            lemma_registered_sorted(old(self).activations@, Activation { when, waiter });
        }
    }

    /// Moves time forward by `duration` and hands back, in firing order, the
    /// waiters of every wakeup that is now due; the others stay registered.
    pub fn advance(&mut self, duration: u64) -> (fired: Vec<W>)
        requires
            old(self).wf(),
            old(self).now_spec() + duration <= u64::MAX,
        ensures
            final(self).wf(),
            final(self).now_spec() == old(self).now_spec() + duration,
            ({
                let k = count_due(old(self).pending(), final(self).now_spec()) as int;
                &&& fired@ == waiters(old(self).pending().take(k))
                &&& final(self).pending() == old(self).pending().skip(k)
            }),
    {
        self.current = self.current + duration;
        let ghost s0 = self.activations@;
        let now = self.current;
        let mut fired: Vec<W> = Vec::new();
        let ghost mut n: int = 0;
        proof {
            lemma_count_due_bound(s0, self.current);
        }
        loop
            invariant
                is_sorted(s0),
                s0 == old(self).activations@,
                self.current == now,
                now == old(self).current + duration,
                0 <= n <= s0.len(),
                self.activations@ == s0.skip(n),
                fired@ == waiters(s0.take(n)),
                forall|i: int| 0 <= i < n ==> s0[i].when <= self.current,
            ensures
                count_due(s0, now) == n,
                n <= s0.len(),
                self.activations@ == s0.skip(n),
                fired@ == waiters(s0.take(n)),
            decreases s0.len() - n,
        {
            let due = self.activations.len() > 0 && self.activations[0].when <= self.current;
            if !due {
                proof {
                    assert forall|i: int| n <= i < s0.len() implies s0[i].when > self.current by {
                        assert(s0[n].when <= s0[i].when);
                    }
                    lemma_count_due_split(s0, self.current, n);
                }
                break;
            }
            let a = self.activations.pop_front().unwrap();
            proof {
                assert(self.activations@.len() + 1 == s0.skip(n).len());
                assert(a == s0[n]);
                assert(s0.take(n + 1) == s0.take(n).push(a));
                assert(s0.skip(n + 1) == s0.skip(n).drop_first());
            }
            fired.push(a.waiter);
            proof {
                n = n + 1;
            }
        }
        proof {
            assert(is_sorted(self.activations@)) by {
                assert forall|i: int, j: int|
                    0 <= i <= j < self.activations@.len() implies self.activations@[i].when
                    <= self.activations@[j].when by {
                    assert(self.activations@[i] == s0[i + n]);
                    assert(self.activations@[j] == s0[j + n]);
                }
            }
        }
        fired
    }
}

/// Inserts a wakeup after every entry due no later than it: appended at once
/// when it is due no earlier than the last entry, else placed by binary search.
fn insert_activation<W>(list: &mut std::collections::VecDeque<Activation<W>>, when: u64, waiter: W)
    requires
        is_sorted(old(list)@),
    ensures
        final(list)@ == registered(old(list)@, Activation { when, waiter }),
{
    let ghost s = list@;
    let len = list.len();
    let append_at_end = len == 0 || list[len - 1].when <= when;
    if append_at_end {
        proof {
            assert forall|i: int| 0 <= i < s.len() implies s[i].when <= when by {
                assert(s[i].when <= s[s.len() - 1].when);
            }
            lemma_count_due_split(s, when, s.len() as int);
        }
        list.push_back(Activation { when, waiter });
        return;
    }
    let mut lo: usize = 0;
    let mut hi: usize = len;
    while lo < hi
        invariant
            is_sorted(s),
            list@ == s,
            len == s.len(),
            0 <= lo <= hi <= len,
            forall|i: int| 0 <= i < lo ==> s[i].when <= when,
            forall|i: int| hi <= i < len ==> s[i].when > when,
        decreases hi - lo,
    {
        let mid = lo + (hi - lo) / 2;
        if list[mid].when <= when {
            proof {
                assert forall|i: int| 0 <= i <= mid implies s[i].when <= when by {
                    assert(s[i].when <= s[mid as int].when);
                }
            }
            lo = mid + 1;
        } else {
            proof {
                assert forall|i: int| mid <= i < len implies s[i].when > when by {
                    assert(s[mid as int].when <= s[i].when);
                }
            }
            hi = mid;
        }
    }
    proof {
        lemma_count_due_split(s, when, lo as int);
    }
    list.insert(lo, Activation { when, waiter });
}

} // verus!
