//! Agents: one shared state driven through its outputs, timers and inputs
//! by a single poll cycle, and the builder that wires them.
use vstd::prelude::*;
use crate::input::{events_of, Input, InputEvent, Source};
use crate::output::{flush_step, flush_went_through, Output, OutputPoll, OutputState, Outgoing, Sink};
use crate::timer::{fires_at, next_after_poll, Timer, TimerPoll, TimerRun};

verus! {

/// The callbacks of an agent, implemented by its state type.
pub trait Behavior<T> {
    /// A message arrived on input number `input`.
    fn on_item(&mut self, input: usize, value: T, out: &mut Outgoing<T>);

    /// Input number `input` reached its end; called once.
    fn on_end(&mut self, input: usize, out: &mut Outgoing<T>);

    /// Timer number `timer` fired; `Stop` turns it off for good.
    fn on_timer(&mut self, timer: usize, out: &mut Outgoing<T>) -> TimerRun;
}

/// What one poll cycle of an agent reported.
pub enum AgentPoll {
    /// An output could not drain: nothing else was advanced.
    Blocked,
    /// Not finished: poll again once woken. The instants are the wakeups
    /// the timers ask to have registered.
    Pending(Vec<u64>),
    /// Every timer and every input is closed: the agent is done.
    Finished,
}

/// Every output keeps its queue in order, every timer has a period.
pub open spec fn parts_wf<T, K: Sink<T>>(outputs: Seq<OutputState<T, K>>, timers: Seq<Timer>) -> bool {
    &&& forall|i: int| 0 <= i < outputs.len() ==> (#[trigger] outputs[i]).wf()
    &&& forall|i: int| 0 <= i < timers.len() ==> (#[trigger] timers[i]).wf()
}

/// The wakeups a poll at `now` asks for, in timer order: the new next
/// activation of each timer, live afterwards, that armed or fired, where
/// `before` and `after` are the timers before and after the poll.
pub open spec fn wakeups_of(before: Seq<Timer>, after: Seq<Timer>, now: u64) -> Seq<u64>
    decreases before.len(),
{
    if before.len() == 0 || after.len() != before.len() {
        Seq::empty()
    } else {
        wakeups_of(before.drop_last(), after.drop_last(), now) + if after.last().is_on() && (
        before.last().next_spec() is None || fires_at(before.last(), now)) {
            seq![after.last().next_spec()->Some_0]
        } else {
            Seq::empty()
        }
    }
}

proof fn lemma_sends_for_concat<T>(a: Seq<(usize, T)>, b: Seq<(usize, T)>, j: int)
    ensures
        sends_for(a + b, j) == sends_for(a, j) + sends_for(b, j),
    decreases b.len(),
{
    if b.len() == 0 {
        assert(a + b =~= a);
        assert(sends_for(a, j) + sends_for(b, j) =~= sends_for(a, j));
    } else {
        lemma_sends_for_concat(a, b.drop_last(), j);
        assert((a + b).drop_last() =~= a + b.drop_last());
        assert((a + b).last() == b.last());
        if b.last().0 == j {
            assert(sends_for(a, j) + sends_for(b.drop_last(), j).push(b.last().1) =~= (sends_for(a, j)
                + sends_for(b.drop_last(), j)).push(b.last().1));
        }
    }
}

/// Sends `value` on output number `index` of `outputs`, which then flushes
/// once; a value for an output that does not exist is dropped.
fn send_to<T, K: Sink<T>>(outputs: &mut Vec<OutputState<T, K>>, index: usize, value: T) -> (r: Option<OutputPoll>)
    requires
        forall|i: int| 0 <= i < old(outputs)@.len() ==> (#[trigger] old(outputs)@[i]).wf(),
    ensures
        forall|i: int| 0 <= i < final(outputs)@.len() ==> (#[trigger] final(outputs)@[i]).wf(),
        final(outputs)@.len() == old(outputs)@.len(),
        index >= old(outputs)@.len() ==> r is None && final(outputs)@ == old(outputs)@,
        index < old(outputs)@.len() ==> {
            let (o, f) = (old(outputs)@[index as int], final(outputs)@[index as int]);
            &&& r is Some
            &&& f.sent_spec() == o.sent_spec().push(value)
            &&& f.is_open() == o.is_open()
            &&& OutputState::flushed(o.queued().push(value), o.in_progress(), o.is_open(),
                o.handed_spec(), f, r->Some_0)
            &&& forall|j: int| 0 <= j < old(outputs)@.len() && j != index ==> final(outputs)@[j] == old(outputs)@[j]
        },
{
    if index < outputs.len() {
        let r = outputs[index].send(value);
        proof {
            assert forall|j: int| 0 <= j < outputs@.len() implies (#[trigger] outputs@[j]).wf() by {
                if j != index {
                    assert(outputs@[j] == old(outputs)@[j]);
                }
            }
        }
        Some(r)
    } else {
        None
    }
}

/// One callback run on an agent's state.
pub enum Call<T> {
    /// `on_timer` of the timer with this number.
    Timer(usize),
    /// `on_item` of the input with this number, with the message.
    Item(usize, T),
    /// `on_end` of the input with this number.
    End(usize),
}

/// The timer callbacks that a poll at `now` runs, in timer order: one for
/// each timer that is due.
pub open spec fn timer_calls<T>(ts: Seq<Timer>, now: u64) -> Seq<Call<T>>
    decreases ts.len(),
{
    if ts.len() == 0 {
        Seq::empty()
    } else {
        timer_calls(ts.drop_last(), now) + if fires_at(ts.last(), now) {
            seq![Call::Timer((ts.len() - 1) as usize)]
        } else {
            Seq::empty()
        }
    }
}

/// The callback owed for event `e` of input number `i`.
pub open spec fn tag<T>(i: int, e: InputEvent<T>) -> Call<T> {
    match e {
        InputEvent::Item(v) => Call::Item(i as usize, v),
        InputEvent::End => Call::End(i as usize),
    }
}

/// The input callbacks owed for `d`, where `d[i]` is what input number `i`
/// delivered: input by input, each in its own order.
pub open spec fn input_calls<T>(d: Seq<Seq<InputEvent<T>>>) -> Seq<Call<T>>
    decreases d.len(),
{
    if d.len() == 0 {
        Seq::empty()
    } else {
        input_calls(d.drop_last()) + d.last().map_values(|e: InputEvent<T>| tag((d.len() - 1) as int, e))
    }
}

/// `c` is a callback of an input numbered below `bound` that was open.
pub open spec fn input_call<T, Src>(c: Call<T>, inputs: Seq<Input<Src>>, bound: int) -> bool {
    match c {
        Call::Timer(_) => false,
        Call::Item(i, _) => i < bound && i < inputs.len() && inputs[i as int].is_open(),
        Call::End(i) => i < bound && i < inputs.len() && inputs[i as int].is_open(),
    }
}

/// The number of the input a callback belongs to.
pub open spec fn call_input<T>(c: Call<T>) -> int {
    match c {
        Call::Timer(_) => -1,
        Call::Item(i, _) => i as int,
        Call::End(i) => i as int,
    }
}

proof fn lemma_take_push<A>(s: Seq<A>, x: A, n: int)
    requires
        0 <= n <= s.len(),
    ensures
        s.push(x).take(n) == s.take(n),
{
    assert(s.push(x).take(n) =~= s.take(n));
}

/// The values of `sends` addressed to output number `j`, in order.
pub open spec fn sends_for<T>(sends: Seq<(usize, T)>, j: int) -> Seq<T>
    decreases sends.len(),
{
    if sends.len() == 0 {
        Seq::empty()
    } else {
        let prev = sends_for(sends.drop_last(), j);
        if sends.last().0 == j {
            prev.push(sends.last().1)
        } else {
            prev
        }
    }
}

/// Registration of inputs, outputs and timers before an agent exists.
pub struct Builder<T, Src, K> {
    inputs: Vec<Input<Src>>,
    outputs: Vec<OutputState<T, K>>,
    timers: Vec<Timer>,
}

impl<T, Src, K: Sink<T>> Builder<T, Src, K> {
    pub closed spec fn inputs_spec(&self) -> Seq<Input<Src>> {
        self.inputs@
    }

    pub closed spec fn outputs_spec(&self) -> Seq<OutputState<T, K>> {
        self.outputs@
    }

    pub closed spec fn timers_spec(&self) -> Seq<Timer> {
        self.timers@
    }

    /// Every registered output and timer is well formed.
    pub closed spec fn wf(&self) -> bool {
        parts_wf(self.outputs@, self.timers@)
    }

    /// A builder with nothing registered.
    pub fn new() -> (r: Self)
        ensures
            r.wf(),
            r.inputs_spec().len() == 0,
            r.outputs_spec().len() == 0,
            r.timers_spec().len() == 0,
    {
        Builder { inputs: Vec::new(), outputs: Vec::new(), timers: Vec::new() }
    }

    /// Registers an input reading from `source`.
    pub fn new_input(&mut self, source: Src)
        requires
            old(self).wf(),
        ensures
            final(self).wf(),
            final(self).inputs_spec().len() == old(self).inputs_spec().len() + 1,
            final(self).inputs_spec().last().is_open(),
            final(self).inputs_spec().last().source_spec() == Some(source),
            final(self).inputs_spec().drop_last() == old(self).inputs_spec(),
            final(self).outputs_spec() == old(self).outputs_spec(),
            final(self).timers_spec() == old(self).timers_spec(),
    {
        self.inputs.push(Input::new(source));
        proof {
            assert(self.inputs@.drop_last() =~= old(self).inputs@);
        }
    }

    /// Registers an output flushing into `sink` and returns its handle.
    pub fn new_output(&mut self, sink: K) -> (r: Output)
        requires
            old(self).wf(),
        ensures
            final(self).wf(),
            r.index_spec() == old(self).outputs_spec().len(),
            final(self).outputs_spec().len() == old(self).outputs_spec().len() + 1,
            final(self).outputs_spec().drop_last() == old(self).outputs_spec(),
            final(self).outputs_spec().last().is_open(),
            final(self).outputs_spec().last().queued().len() == 0,
            final(self).outputs_spec().last().sink_spec() == Some(sink),
            !final(self).outputs_spec().last().in_progress(),
            final(self).outputs_spec().last().sent_spec().len() == 0,
            final(self).outputs_spec().last().handed_spec().len() == 0,
            final(self).inputs_spec() == old(self).inputs_spec(),
            final(self).timers_spec() == old(self).timers_spec(),
    {
        let index = self.outputs.len();
        self.outputs.push(OutputState::new(sink));
        proof {
            assert(self.outputs@.drop_last() =~= old(self).outputs@);
        }
        Output::at(index)
    }

    /// Sends `value` on `output` from outside any callback; it is queued
    /// behind the values sent before it and the output flushes once.
    pub fn send(&mut self, output: &Output, value: T) -> (r: Option<OutputPoll>)
        requires
            old(self).wf(),
        ensures
            final(self).wf(),
            final(self).inputs_spec() == old(self).inputs_spec(),
            final(self).timers_spec() == old(self).timers_spec(),
            final(self).outputs_spec().len() == old(self).outputs_spec().len(),
            ({
                let (i, os, fs) = (output.index_spec() as int, old(self).outputs_spec(), final(self).outputs_spec());
                &&& i >= os.len() ==> r is None && fs == os
                &&& i < os.len() ==> {
                    &&& r is Some
                    &&& fs[i].sent_spec() == os[i].sent_spec().push(value)
                    &&& OutputState::flushed(os[i].queued().push(value), os[i].in_progress(),
                        os[i].is_open(), os[i].handed_spec(), fs[i], r->Some_0)
                    &&& forall|j: int| 0 <= j < os.len() && j != i ==> fs[j] == os[j]
                }
            }),
    {
        send_to(&mut self.outputs, output.index(), value)
    }

    /// Registers a live, unarmed timer firing every `period` ticks.
    pub fn new_timer(&mut self, period: u64)
        requires
            old(self).wf(),
            period > 0,
        ensures
            final(self).wf(),
            final(self).timers_spec().len() == old(self).timers_spec().len() + 1,
            final(self).timers_spec().drop_last() == old(self).timers_spec(),
            final(self).timers_spec().last().period_spec() == period,
            final(self).timers_spec().last().next_spec() is None,
            final(self).timers_spec().last().is_on(),
            final(self).inputs_spec() == old(self).inputs_spec(),
            final(self).outputs_spec() == old(self).outputs_spec(),
    {
        self.timers.push(Timer::new(period));
        proof {
            assert(self.timers@.drop_last() =~= old(self).timers@);
        }
    }

    /// Ends registration and makes the agent that owns `state`.
    pub fn finish<S>(self, state: S) -> (r: Agent<S, T, Src, K>)
        requires
            self.wf(),
        ensures
            r.wf(),
            r.state_spec() == state,
            r.inputs_spec() == self.inputs_spec(),
            r.outputs_spec() == self.outputs_spec(),
            r.timers_spec() == self.timers_spec(),
            r.calls() == Seq::<Call<T>>::empty(),
    {
        Agent {
            inputs: self.inputs,
            outputs: self.outputs,
            timers: self.timers,
            state,
            calls: Ghost(Seq::empty()),
            flushed: Ghost(Seq::empty()),
            cycle_sends: Ghost(Seq::empty()),
            runs: Ghost(Seq::empty()),
            delivered: Ghost(Seq::empty()),
        }
    }
}

/// An agent: one state value with its inputs, outputs and timers.
pub struct Agent<S, T, Src, K> {
    inputs: Vec<Input<Src>>,
    outputs: Vec<OutputState<T, K>>,
    timers: Vec<Timer>,
    state: S,
    /// Every callback run on the state so far, in order.
    calls: Ghost<Seq<Call<T>>>,
    /// The outputs as the last cycle's flush phase left them.
    flushed: Ghost<Seq<OutputState<T, K>>>,
    /// The values callbacks sent during the last cycle, in order.
    cycle_sends: Ghost<Seq<(usize, T)>>,
    /// For each timer, what its callback returned in the last cycle, if it
    /// ran.
    runs: Ghost<Seq<Option<TimerRun>>>,
    /// For each input, the callbacks it owed in the last cycle.
    delivered: Ghost<Seq<Seq<InputEvent<T>>>>,
}

impl<S, T, Src, K: Sink<T>> Agent<S, T, Src, K> {
    pub closed spec fn state_spec(&self) -> S {
        self.state
    }

    pub closed spec fn inputs_spec(&self) -> Seq<Input<Src>> {
        self.inputs@
    }

    pub closed spec fn outputs_spec(&self) -> Seq<OutputState<T, K>> {
        self.outputs@
    }

    pub closed spec fn timers_spec(&self) -> Seq<Timer> {
        self.timers@
    }

    /// Every callback run on the state so far, in order.
    pub closed spec fn calls(&self) -> Seq<Call<T>> {
        self.calls@
    }

    /// The outputs as the last cycle's flush phase left them.
    pub closed spec fn after_flush(&self) -> Seq<OutputState<T, K>> {
        self.flushed@
    }

    /// The values callbacks sent during the last cycle, tagged with their
    /// output, in order.
    pub closed spec fn cycle_sends(&self) -> Seq<(usize, T)> {
        self.cycle_sends@
    }

    /// For each timer, what its callback returned in the last cycle, if it
    /// ran.
    pub closed spec fn timer_runs(&self) -> Seq<Option<TimerRun>> {
        self.runs@
    }

    /// For each input, the callbacks it owed in the last cycle.
    pub closed spec fn delivered(&self) -> Seq<Seq<InputEvent<T>>> {
        self.delivered@
    }

    /// Every output and timer of the agent is well formed.
    pub closed spec fn wf(&self) -> bool {
        parts_wf(self.outputs@, self.timers@)
    }

    /// Every live timer can be polled at `now` without its schedule
    /// overflowing.
    pub open spec fn fits(&self, now: u64) -> bool {
        forall|i: int|
            0 <= i < self.timers_spec().len() && (#[trigger] self.timers_spec()[i]).is_on() ==> now
                + self.timers_spec()[i].period_spec() <= u64::MAX
    }

    /// Sends `value` on `output` from outside any callback; it is queued
    /// behind the values sent before it and the output flushes once.
    pub fn send(&mut self, output: &Output, value: T) -> (r: Option<OutputPoll>)
        requires
            old(self).wf(),
        ensures
            final(self).wf(),
            final(self).state_spec() == old(self).state_spec(),
            final(self).inputs_spec() == old(self).inputs_spec(),
            final(self).timers_spec() == old(self).timers_spec(),
            final(self).outputs_spec().len() == old(self).outputs_spec().len(),
            ({
                let (i, os, fs) = (output.index_spec() as int, old(self).outputs_spec(), final(self).outputs_spec());
                &&& i >= os.len() ==> r is None && fs == os
                &&& i < os.len() ==> {
                    &&& r is Some
                    &&& fs[i].sent_spec() == os[i].sent_spec().push(value)
                    &&& OutputState::flushed(os[i].queued().push(value), os[i].in_progress(),
                        os[i].is_open(), os[i].handed_spec(), fs[i], r->Some_0)
                    &&& forall|j: int| 0 <= j < os.len() && j != i ==> fs[j] == os[j]
                }
            }),
    {
        send_to(&mut self.outputs, output.index(), value)
    }

    /// Whether `fits(now)` holds, so that a cycle at `now` may run.
    pub fn fits_at(&self, now: u64) -> (r: bool)
        ensures
            r == self.fits(now),
    {
        let n = self.timers.len();
        for i in 0..n
            invariant
                n == self.timers@.len(),
                forall|j: int|
                    0 <= j < i && (#[trigger] self.timers@[j]).is_on() ==> now + self.timers@[j].period_spec()
                        <= u64::MAX,
        {
            if self.timers[i].is_live() && self.timers[i].period() > u64::MAX - now {
                assert(self.timers_spec()[i as int].is_on());
                return false;
            }
        }
        true
    }

    /// The shared state.
    pub fn state(&self) -> (r: &S)
        ensures
            *r == self.state_spec(),
    {
        &self.state
    }

    /// Queues each value sent by a callback on its output, in order; a value
    /// for an output this agent does not have is dropped.
    fn dispatch(&mut self, out: Outgoing<T>)
        requires
            old(self).wf(),
        ensures
            final(self).wf(),
            final(self).state_spec() == old(self).state_spec(),
            final(self).inputs_spec() == old(self).inputs_spec(),
            final(self).timers_spec() == old(self).timers_spec(),
            final(self).calls() == old(self).calls(),
            final(self).after_flush() == old(self).after_flush(),
            final(self).timer_runs() == old(self).timer_runs(),
            final(self).delivered() == old(self).delivered(),
            final(self).cycle_sends() == old(self).cycle_sends() + out.sends@,
            old(self).sends_tracked() ==> final(self).sends_tracked(),
            final(self).outputs_spec().len() == old(self).outputs_spec().len(),
            forall|j: int|
                0 <= j < old(self).outputs_spec().len() ==> (#[trigger] final(self).outputs_spec()[j]).sent_spec()
                    == old(self).outputs_spec()[j].sent_spec() + sends_for(out.sends@, j),
    {
        let ghost all = out.sends@;
        let mut sends = out.sends;
        while sends.len() > 0
            invariant
                self.wf(),
                self.state == old(self).state,
                self.calls == old(self).calls,
                self.flushed == old(self).flushed,
                self.runs == old(self).runs,
                self.delivered == old(self).delivered,
                self.cycle_sends == old(self).cycle_sends,
                self.inputs@ == old(self).inputs@,
                self.timers@ == old(self).timers@,
                self.outputs@.len() == old(self).outputs@.len(),
                sends.len() <= all.len(),
                sends@ == all.skip(all.len() - sends.len()),
                forall|j: int|
                    0 <= j < self.outputs@.len() ==> (#[trigger] self.outputs@[j]).sent_spec()
                        == old(self).outputs@[j].sent_spec() + sends_for(all.take(all.len() - sends.len()), j),
            decreases sends.len(),
        {
            let ghost k = all.len() - sends.len();
            let ghost before = self.outputs@;
            let (i, v) = sends.remove(0);
            proof {
                assert(all[k] == (i, v));
                assert(all.take(k + 1).drop_last() =~= all.take(k));
                assert(sends@ =~= all.skip(all.len() - sends.len()));
            }
            send_to(&mut self.outputs, i, v);
            proof {
                assert forall|j: int| 0 <= j < self.outputs@.len() implies (#[trigger] self.outputs@[j]).sent_spec()
                    == old(self).outputs@[j].sent_spec() + sends_for(all.take(k + 1), j) by {
                    assert(before[j].sent_spec() == old(self).outputs@[j].sent_spec() + sends_for(all.take(k), j));
                    if j == i {
                        assert(old(self).outputs@[j].sent_spec() + sends_for(all.take(k), j).push(v)
                            =~= (old(self).outputs@[j].sent_spec() + sends_for(all.take(k), j)).push(v));
                    }
                }
            }
        }
        proof {
            assert(all.take(all.len() as int) =~= all);
            let cs0 = self.cycle_sends@;
            self.cycle_sends@ = self.cycle_sends@ + all;
            if old(self).sends_tracked() {
                assert forall|j: int| 0 <= j < self.outputs@.len() implies (#[trigger] self.outputs@[j]).sent_spec()
                    == self.flushed@[j].sent_spec() + sends_for(self.cycle_sends@, j) by {
                    lemma_sends_for_concat(cs0, all, j);
                    assert(old(self).outputs@[j].sent_spec() == self.flushed@[j].sent_spec() + sends_for(cs0, j));
                    assert(self.flushed@[j].sent_spec() + sends_for(cs0, j) + sends_for(all, j)
                        =~= self.flushed@[j].sent_spec() + (sends_for(cs0, j) + sends_for(all, j)));
                }
            }
        }
    }

    /// Every value sent on an output during the last cycle is accounted
    /// for: what each output was sent is what it held after the flush
    /// phase, followed by the values addressed to it this cycle, in order.
    pub closed spec fn sends_tracked(&self) -> bool {
        &&& self.flushed@.len() == self.outputs@.len()
        &&& forall|j: int|
            0 <= j < self.outputs@.len() ==> (#[trigger] self.outputs@[j]).sent_spec()
                == self.flushed@[j].sent_spec() + sends_for(self.cycle_sends@, j)
    }

    /// One poll cycle at instant `now`. Every output is flushed first, in
    /// order; if one blocks, the cycle stops there, before any timer or
    /// input. Then every timer is polled (a due one runs its callback once,
    /// and stays live unless the callback asks it to stop), then every
    /// input (each hands over all its ready messages). Values the callbacks
    /// send are queued on their outputs. The agent is finished once every
    /// timer and every input is closed. The callbacks run are recorded in
    /// `calls`: the due timers' first, in timer order, then those of open
    /// inputs, in input order.
    #[verifier::spinoff_prover]
    #[verifier::rlimit(80)]
    pub fn poll(&mut self, now: u64) -> (r: AgentPoll)
        where
            S: Behavior<T>,
            Src: Source<T>,
        requires
            old(self).wf(),
            old(self).fits(now),
        ensures
            final(self).wf(),
            final(self).inputs_spec().len() == old(self).inputs_spec().len(),
            final(self).outputs_spec().len() == old(self).outputs_spec().len(),
            final(self).timers_spec().len() == old(self).timers_spec().len(),
            forall|i: int|
                0 <= i < final(self).timers_spec().len() ==> (#[trigger] final(self).timers_spec()[i]).period_spec()
                    == old(self).timers_spec()[i].period_spec(),
            r is Blocked ==> {
                &&& final(self).calls() == old(self).calls()
                &&& final(self).state_spec() == old(self).state_spec()
                &&& final(self).timers_spec() == old(self).timers_spec()
                &&& final(self).inputs_spec() == old(self).inputs_spec()
                &&& exists|k: int| 0 <= k < old(self).outputs_spec().len() && {
                    &&& flush_step(#[trigger] old(self).outputs_spec()[k], final(self).outputs_spec()[k], OutputPoll::NotReady)
                    &&& forall|j: int| 0 <= j < k ==> flush_went_through(#[trigger] old(self).outputs_spec()[j], final(self).outputs_spec()[j])
                    &&& forall|j: int| k < j < old(self).outputs_spec().len() ==> #[trigger] final(self).outputs_spec()[j] == old(self).outputs_spec()[j]
                }
            },
            !(r is Blocked) ==> {
                &&& final(self).sends_tracked()
                &&& final(self).after_flush().len() == old(self).outputs_spec().len()
                &&& forall|j: int| 0 <= j < old(self).outputs_spec().len() ==> flush_went_through(
                    #[trigger] old(self).outputs_spec()[j], final(self).after_flush()[j])
            },
            forall|i: int|
                0 <= i < old(self).inputs_spec().len() && !(#[trigger] old(self).inputs_spec()[i]).is_open()
                    ==> !final(self).inputs_spec()[i].is_open(),
            !(r is Blocked) ==> ({
                let base: int = (old(self).calls().len() + timer_calls::<T>(old(self).timers_spec(), now).len()) as int;
                let c = final(self).calls();
                &&& c.len() >= base
                &&& c.take(base) == old(self).calls() + timer_calls::<T>(old(self).timers_spec(), now)
                &&& forall|k: int| base <= k < c.len() ==> input_call(#[trigger] c[k], old(self).inputs_spec(), old(self).inputs_spec().len() as int)
                &&& forall|k1: int, k2: int| base <= k1 <= k2 < c.len() ==> call_input(#[trigger] c[k1]) <= call_input(#[trigger] c[k2])
            }),
            !(r is Blocked) ==> final(self).calls() == old(self).calls() + timer_calls::<T>(
                old(self).timers_spec(),
                now,
            ) + input_calls(final(self).delivered()),
            !(r is Blocked) ==> final(self).delivered().len() == old(self).inputs_spec().len(),
            !(r is Blocked) ==> forall|i: int| 0 <= i < old(self).inputs_spec().len() ==> {
                let (d, f) = (#[trigger] final(self).delivered()[i], final(self).inputs_spec()[i]);
                &&& old(self).inputs_spec()[i].is_open() ==> exists|items: Seq<T>, ended: bool|
                    d == #[trigger] events_of(items, ended) && f.is_open() == !ended
                &&& !old(self).inputs_spec()[i].is_open() ==> d.len() == 0
            },
            !(r is Blocked) ==> final(self).timer_runs().len() == old(self).timers_spec().len(),
            !(r is Blocked) ==> forall|i: int| 0 <= i < old(self).timers_spec().len() ==> {
                let (t, f) = (#[trigger] old(self).timers_spec()[i], final(self).timers_spec()[i]);
                let run = final(self).timer_runs()[i];
                &&& f.next_spec() == next_after_poll(t, now)
                &&& (run is Some <==> fires_at(t, now))
                &&& f.is_on() == (t.is_on() && run != Some(TimerRun::Stop))
            },
            r matches AgentPoll::Pending(w) ==> w@ == wakeups_of(old(self).timers_spec(), final(self).timers_spec(), now),
            r matches AgentPoll::Pending(w) ==> forall|k: int| 0 <= k < w@.len() ==> now < #[trigger] w@[k],
            !(r is Blocked) ==> (r is Finished <==> {
                &&& forall|i: int| 0 <= i < final(self).timers_spec().len() ==> !(#[trigger] final(self).timers_spec()[i]).is_on()
                &&& forall|i: int| 0 <= i < final(self).inputs_spec().len() ==> !(#[trigger] final(self).inputs_spec()[i]).is_open()
            }),
    {
        let no = self.outputs.len();
        for i in 0..no
            invariant
                self.wf(),
                no == self.outputs@.len(),
                self.outputs@.len() == old(self).outputs@.len(),
                forall|j: int| i <= j < no ==> self.outputs@[j] == old(self).outputs@[j],
                forall|j: int| 0 <= j < i ==> flush_went_through(#[trigger] old(self).outputs@[j], self.outputs@[j]),
                self.state == old(self).state,
                self.calls == old(self).calls,
                self.timers@ == old(self).timers@,
                self.inputs@ == old(self).inputs@,
        {
            let ghost before = self.outputs@;
            let p = self.outputs[i].poll();
            proof {
                assert forall|j: int| 0 <= j < self.outputs@.len() implies (#[trigger] self.outputs@[j]).wf() by {
                    if j != i {
                        assert(self.outputs@[j] == before[j]);
                    }
                }
                assert forall|j: int| 0 <= j < no && j != i implies self.outputs@[j] == before[j] by {}
                assert(before[i as int] == old(self).outputs@[i as int]);
            }
            if let OutputPoll::NotReady = p {
                proof {
                    let k = i as int;
                    assert(flush_step(old(self).outputs_spec()[k], self.outputs_spec()[k], OutputPoll::NotReady));
                    assert forall|j: int| 0 <= j < k implies flush_went_through(#[trigger] old(self).outputs_spec()[j], self.outputs_spec()[j]) by {
                        assert(self.outputs@[j] == before[j]);
                    }
                }
                return AgentPoll::Blocked;
            }
            proof {
                assert forall|j: int| 0 <= j < i + 1 implies flush_went_through(#[trigger] old(self).outputs@[j], self.outputs@[j]) by {
                    if j < i {
                        assert(self.outputs@[j] == before[j]);
                    }
                }
            }
        }
        let mut finished = true;
        let mut wakeups: Vec<u64> = Vec::new();
        let nt = self.timers.len();
        proof {
            self.flushed@ = self.outputs@;
            self.cycle_sends@ = Seq::empty();
            self.runs@ = Seq::new(nt as nat, |j: int| None);
            assert forall|j: int| 0 <= j < self.outputs@.len() implies (#[trigger] self.outputs@[j]).sent_spec()
                == self.flushed@[j].sent_spec() + sends_for(self.cycle_sends@, j) by {
                assert(self.flushed@[j].sent_spec() + sends_for(self.cycle_sends@, j) =~= self.flushed@[j].sent_spec());
            }
            assert(old(self).timers@.take(0) =~= Seq::<Timer>::empty());
            assert(self.timers@.take(0) =~= Seq::<Timer>::empty());
            assert(wakeups@ =~= wakeups_of(old(self).timers@.take(0), self.timers@.take(0), now));
            assert(self.calls@ =~= old(self).calls@ + timer_calls::<T>(old(self).timers@.take(0), now));
        }
        let ghost flushed_outputs = self.flushed@;
        for i in 0..nt
            invariant
                self.wf(),
                self.sends_tracked(),
                self.flushed@ == flushed_outputs,
                flushed_outputs.len() == old(self).outputs@.len(),
                forall|j: int| 0 <= j < old(self).outputs@.len() ==> flush_went_through(#[trigger] old(self).outputs@[j], flushed_outputs[j]),
                nt == self.timers@.len(),
                self.timers@.len() == old(self).timers@.len(),
                forall|j: int|
                    0 <= j < nt ==> (#[trigger] self.timers@[j]).period_spec() == old(self).timers@[j].period_spec(),
                old(self).fits(now),
                self.inputs@ == old(self).inputs@,
                self.outputs@.len() == old(self).outputs@.len(),
                forall|k: int| 0 <= k < wakeups@.len() ==> now < #[trigger] wakeups@[k],
                wakeups@ == wakeups_of(old(self).timers@.take(i as int), self.timers@.take(i as int), now),
                self.calls@ == old(self).calls@ + timer_calls::<T>(old(self).timers@.take(i as int), now),
                self.runs@.len() == nt,
                forall|j: int| i <= j < nt ==> self.timers@[j] == old(self).timers@[j] && self.runs@[j] is None,
                forall|j: int| 0 <= j < i ==> {
                    let (t, f) = (#[trigger] old(self).timers@[j], self.timers@[j]);
                    &&& f.next_spec() == next_after_poll(t, now)
                    &&& (self.runs@[j] is Some <==> fires_at(t, now))
                    &&& f.is_on() == (t.is_on() && self.runs@[j] != Some(TimerRun::Stop))
                },
                finished ==> forall|j: int| 0 <= j < i ==> !(#[trigger] self.timers@[j]).is_on(),
                !finished ==> exists|j: int| 0 <= j < i && (#[trigger] self.timers@[j]).is_on(),
        {
            let ghost before = self.timers@;
            let ghost rstart = self.runs@;
            assert(self.timers@[i as int].is_on() ==> now + self.timers@[i as int].period_spec() <= u64::MAX) by {
                assert(old(self).timers_spec()[i as int] == old(self).timers@[i as int]);
            }
            let p = self.timers[i].poll(now);
            proof {
                assert forall|j: int| 0 <= j < nt && j != i implies self.timers@[j] == before[j] by {}
            }
            match p {
                TimerPoll::Closed => {},
                TimerPoll::Waiting => {
                    finished = false;
                },
                TimerPoll::Armed(at) => {
                    wakeups.push(at);
                    finished = false;
                },
                TimerPoll::Fired(at) => {
                    proof {
                        self.calls@ = self.calls@.push(Call::Timer(i));
                    }
                    let mut out = Outgoing::new();
                    let run = self.state.on_timer(i, &mut out);
                    proof {
                        let rb = self.runs@;
                        self.runs@ = self.runs@.update(i as int, Some(run));
                        assert forall|j: int| 0 <= j < nt && j != i implies self.runs@[j] == rb[j] by {}
                    }
                    self.dispatch(out);
                    match run {
                        TimerRun::Continue => {
                            wakeups.push(at);
                            finished = false;
                        },
                        TimerRun::Stop => {
                            let ghost mid = self.timers@;
                            self.timers[i].stop();
                            proof {
                                assert forall|j: int| 0 <= j < nt && j != i implies self.timers@[j] == mid[j] by {}
                            }
                        },
                    }
                },
            }
            proof {
                assert forall|j: int| 0 <= j < nt && j != i implies self.timers@[j] == before[j] by {}
                assert forall|j: int| 0 <= j < nt && j != i implies self.runs@[j] == rstart[j] by {}
                assert forall|j: int| i + 1 <= j < nt implies self.timers@[j] == old(self).timers@[j] && self.runs@[j] is None by {
                    assert(self.runs@[j] == rstart[j]);
                    assert(self.timers@[j] == before[j]);
                }
                let ot = old(self).timers@.take(i + 1);
                assert(ot.drop_last() =~= old(self).timers@.take(i as int));
                assert(ot.last() == before[i as int]);
                assert(self.calls@ =~= old(self).calls@ + timer_calls::<T>(ot, now));
                let nt1 = self.timers@.take(i + 1);
                assert(nt1.drop_last() =~= before.take(i as int));
                assert(nt1.last() == self.timers@[i as int]);
                assert(wakeups@ =~= wakeups_of(ot, nt1, now));
                if !finished {
                    if self.timers@[i as int].is_on() {
                        assert(exists|j: int| 0 <= j < i + 1 && (#[trigger] self.timers@[j]).is_on());
                    } else {
                        let j = choose|j: int| 0 <= j < i && (#[trigger] before[j]).is_on();
                        assert(self.timers@[j].is_on());
                    }
                }
            }
        }
        let ni = self.inputs.len();
        let ghost timers_after = self.timers@;
        let ghost runs_after = self.runs@;
        proof {
            assert(self.timers@.take(nt as int) =~= timers_after);
            assert(old(self).timers@.take(nt as int) =~= old(self).timers@);
        }
        let ghost base: int = (old(self).calls@.len() + timer_calls::<T>(old(self).timers@, now).len()) as int;
        proof {
            assert(self.calls@.take(base) =~= self.calls@);
            assert(self.calls@ =~= old(self).calls@ + timer_calls::<T>(old(self).timers@, now) + input_calls(
                Seq::<Seq<InputEvent<T>>>::empty(),
            ));
        }
        let ghost mut dl: Seq<Seq<InputEvent<T>>> = Seq::empty();
        for i in 0..ni
            invariant
                dl.len() == i,
                self.calls@ == old(self).calls@ + timer_calls::<T>(old(self).timers@, now) + input_calls(dl),
                forall|j: int| 0 <= j < i ==> {
                    let (d, f) = (#[trigger] dl[j], self.inputs@[j]);
                    &&& old(self).inputs@[j].is_open() ==> exists|items: Seq<T>, ended: bool|
                        d == #[trigger] events_of(items, ended) && f.is_open() == !ended
                    &&& !old(self).inputs@[j].is_open() ==> d.len() == 0
                },
                forall|j: int| i <= j < ni ==> self.inputs@[j] == old(self).inputs@[j],
                base == old(self).calls@.len() + timer_calls::<T>(old(self).timers@, now).len(),
                self.calls@.len() >= base,
                self.calls@.take(base) == old(self).calls@ + timer_calls::<T>(old(self).timers@, now),
                forall|k: int| base <= k < self.calls@.len() ==> input_call(#[trigger] self.calls@[k], old(self).inputs@, i as int),
                forall|k1: int, k2: int| base <= k1 <= k2 < self.calls@.len() ==> call_input(#[trigger] self.calls@[k1]) <= call_input(#[trigger] self.calls@[k2]),
                forall|k: int| base <= k < self.calls@.len() ==> call_input(#[trigger] self.calls@[k]) < i,
                self.timers@ == timers_after,
                timers_after.len() == nt,
                self.runs@ == runs_after,
                runs_after.len() == nt,
                wakeups@ == wakeups_of(old(self).timers@, timers_after, now),
                forall|j: int| 0 <= j < nt ==> {
                    let (t, f) = (#[trigger] old(self).timers@[j], timers_after[j]);
                    &&& f.next_spec() == next_after_poll(t, now)
                    &&& (runs_after[j] is Some <==> fires_at(t, now))
                    &&& f.is_on() == (t.is_on() && runs_after[j] != Some(TimerRun::Stop))
                },
                self.sends_tracked(),
                self.flushed@ == flushed_outputs,
                flushed_outputs.len() == old(self).outputs@.len(),
                forall|j: int| 0 <= j < old(self).outputs@.len() ==> flush_went_through(#[trigger] old(self).outputs@[j], flushed_outputs[j]),
                self.wf(),
                ni == self.inputs@.len(),
                self.inputs@.len() == old(self).inputs@.len(),
                forall|j: int|
                    0 <= j < self.timers@.len() && !(#[trigger] old(self).timers@[j]).is_on() ==> !self.timers@[j].is_on(),
                forall|j: int|
                    0 <= j < ni && !(#[trigger] old(self).inputs@[j]).is_open() ==> !self.inputs@[j].is_open(),
                self.timers@.len() == old(self).timers@.len(),
                forall|j: int|
                    0 <= j < self.timers@.len() ==> (#[trigger] self.timers@[j]).period_spec() == old(self).timers@[j].period_spec(),
                self.outputs@.len() == old(self).outputs@.len(),
                forall|k: int| 0 <= k < wakeups@.len() ==> now < #[trigger] wakeups@[k],
                finished ==> forall|j: int| 0 <= j < self.timers@.len() ==> !(#[trigger] self.timers@[j]).is_on(),
                finished ==> forall|j: int| 0 <= j < i ==> !(#[trigger] self.inputs@[j]).is_open(),
                !finished ==> (exists|j: int| 0 <= j < self.timers@.len() && (#[trigger] self.timers@[j]).is_on())
                    || (exists|j: int| 0 <= j < i && (#[trigger] self.inputs@[j]).is_open()),
        {
            let ghost before = self.inputs@;
            let mut out = Outgoing::new();
            let mut events = self.inputs[i].take_events();
            proof {
                assert forall|j: int| 0 <= j < ni && j != i implies self.inputs@[j] == before[j] by {}
            }
            let ghost inputs_mid = self.inputs@;
            let ghost outputs_mid = self.outputs@;
            let ghost cycle_mid = self.cycle_sends;
            let ghost evs = events@;
            let ghost c_start = self.calls@;
            while events.len() > 0
                invariant
                    events@.len() <= evs.len(),
                    events@ == evs.skip(evs.len() - events@.len()),
                    self.calls@ == c_start + evs.take(evs.len() - events@.len()).map_values(
                        |e: InputEvent<T>| tag(i as int, e),
                    ),
                    i < ni,
                    ni == old(self).inputs@.len(),
                    self.inputs@ == inputs_mid,
                    self.timers@ == timers_after,
                    self.outputs@ == outputs_mid,
                    self.runs@ == runs_after,
                    self.flushed@ == flushed_outputs,
                    self.cycle_sends == cycle_mid,
                    self.sends_tracked(),
                    self.wf(),
                    events@.len() > 0 ==> old(self).inputs@[i as int].is_open(),
                    base == old(self).calls@.len() + timer_calls::<T>(old(self).timers@, now).len(),
                    self.calls@.len() >= base,
                    self.calls@.take(base) == old(self).calls@ + timer_calls::<T>(old(self).timers@, now),
                    forall|k: int| base <= k < self.calls@.len() ==> input_call(#[trigger] self.calls@[k], old(self).inputs@, i + 1),
                    forall|k1: int, k2: int| base <= k1 <= k2 < self.calls@.len() ==> call_input(#[trigger] self.calls@[k1]) <= call_input(#[trigger] self.calls@[k2]),
                    forall|k: int| base <= k < self.calls@.len() ==> call_input(#[trigger] self.calls@[k]) <= i,
                decreases events.len(),
            {
                let ghost c0 = self.calls@;
                let ghost k = evs.len() - events@.len();
                proof {
                    assert(evs.take(k + 1) =~= evs.take(k).push(evs[k]));
                    assert(evs.take(k + 1).map_values(|e: InputEvent<T>| tag(i as int, e)) =~= evs.take(k).map_values(
                        |e: InputEvent<T>| tag(i as int, e),
                    ).push(tag(i as int, evs[k])));
                }
                match events.remove(0) {
                    InputEvent::Item(v) => {
                        proof {
                            lemma_take_push(c0, Call::Item(i, v), base);
                            self.calls@ = self.calls@.push(Call::Item(i, v));
                            assert(input_call(Call::<T>::Item(i, v), old(self).inputs@, i + 1));
                        }
                        self.state.on_item(i, v, &mut out);
                        proof {
                            assert(evs[k] == InputEvent::Item(v));
                        }
                    },
                    InputEvent::End => {
                        proof {
                            lemma_take_push(c0, Call::End(i), base);
                            self.calls@ = self.calls@.push(Call::End(i));
                            assert(input_call(Call::<T>::End(i), old(self).inputs@, i + 1));
                        }
                        self.state.on_end(i, &mut out);
                        proof {
                            assert(evs[k] == InputEvent::<T>::End);
                        }
                    },
                }
                proof {
                    assert(events@ =~= evs.skip(evs.len() - events@.len()));
                }
            }
            self.dispatch(out);
            if self.inputs[i].is_attached() {
                finished = false;
            }
            proof {
                assert(evs.take(evs.len() as int) =~= evs);
                let dprev = dl;
                dl = dl.push(evs);
                assert(dl.drop_last() =~= dprev);
                assert(self.calls@ =~= old(self).calls@ + timer_calls::<T>(old(self).timers@, now) + input_calls(dl));
                assert forall|j: int| 0 <= j < ni && j != i implies self.inputs@[j] == before[j] by {}
                assert(before[i as int] == old(self).inputs@[i as int]);
                assert(dl[i as int] == evs);
                if !finished && !(exists|j: int| 0 <= j < self.timers@.len() && (#[trigger] self.timers@[j]).is_on()) {
                    if self.inputs@[i as int].is_open() {
                        assert(exists|j: int| 0 <= j < i + 1 && (#[trigger] self.inputs@[j]).is_open());
                    } else {
                        let j = choose|j: int| 0 <= j < i && (#[trigger] before[j]).is_open();
                        assert(self.inputs@[j].is_open());
                    }
                }
            }
        }
        proof {
            self.delivered@ = dl;
            assert(self.timers_spec() == timers_after);
            assert(self.outputs@.len() == old(self).outputs@.len());
            if !finished {
                if exists|j: int| 0 <= j < self.timers@.len() && (#[trigger] self.timers@[j]).is_on() {
                    let j = choose|j: int| 0 <= j < self.timers@.len() && (#[trigger] self.timers@[j]).is_on();
                    assert(self.timers_spec()[j].is_on());
                } else {
                    let j = choose|j: int| 0 <= j < ni && (#[trigger] self.inputs@[j]).is_open();
                    assert(self.inputs_spec()[j].is_open());
                }
            }
        }
        if finished {
            AgentPoll::Finished
        } else {
            AgentPoll::Pending(wakeups)
        }
    }
}

} // verus!
