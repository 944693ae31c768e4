//! Buffered, backpressure-aware outbound streams.
//!
//! Values are queued synchronously and flushed to a sink one at a time, in
//! the order they were sent; a sink that cannot take more stalls the flush
//! without disturbing the queue.
use vstd::prelude::*;

verus! {

/// The answer of a sink to an attempt to start sending a value.
pub enum StartSend<T> {
    /// The value was taken; the send is now in progress.
    Accepted,
    /// The sink cannot take a value right now and hands it back.
    Rejected(T),
    /// The sink failed; the value is gone.
    Failed,
}

/// The answer of a sink asked to complete the send in progress.
pub enum Completion {
    Done,
    Pending,
    Failed,
}

/// An outbound message sink.
pub trait Sink<T> {
    /// Tries to start sending `value`; a rejection hands the same value back.
    fn start_send(&mut self, value: T) -> (r: StartSend<T>)
        ensures
            r matches StartSend::Rejected(w) ==> w == value,
    ;

    /// Tries to complete the send in progress.
    fn poll_complete(&mut self) -> Completion;
}

/// A sink that collects every value it is given; it never stalls.
impl<T> Sink<T> for Vec<T> {
    fn start_send(&mut self, value: T) -> (r: StartSend<T>)
        ensures
            r is Accepted,
            final(self)@ == old(self)@.push(value),
    {
        self.push(value);
        StartSend::Accepted
    }

    fn poll_complete(&mut self) -> (r: Completion)
        ensures
            r is Done,
            final(self)@ == old(self)@,
    {
        Completion::Done
    }
}

/// What one flush of an output reported.
pub enum OutputPoll {
    /// Progress was made, or there was nothing to send.
    Ready,
    /// Blocked: the send in progress cannot complete yet, or the sink
    /// handed the front value back.
    NotReady,
    /// The output has no sink: permanently closed.
    Closed,
}

/// One outbound stream: its sink, whether a send is in progress, and the
/// values not yet handed to the sink.
pub struct OutputState<T, K> {
    sink: Option<K>,
    send_in_progress: bool,
    buffer: std::collections::VecDeque<T>,
    /// Every value handed to the sink and not handed back, in order.
    handed: Ghost<Seq<T>>,
    /// Every value ever sent into this output, in order.
    sent: Ghost<Seq<T>>,
    /// The front value while it is taken off the queue and offered to the
    /// sink.
    offered: Ghost<Option<T>>,
}

impl<T, K: Sink<T>> OutputState<T, K> {
    /// The values waiting to be handed to the sink, front first.
    pub closed spec fn queued(&self) -> Seq<T> {
        self.buffer@
    }

    pub closed spec fn in_progress(&self) -> bool {
        self.send_in_progress
    }

    pub closed spec fn is_open(&self) -> bool {
        self.sink is Some
    }

    /// The sink, unless the output has none.
    pub closed spec fn sink_spec(&self) -> Option<K> {
        self.sink
    }

    /// The values handed to the sink so far, in the order handed.
    pub closed spec fn handed_spec(&self) -> Seq<T> {
        self.handed@
    }

    /// The values sent into this output so far, in the order sent.
    pub closed spec fn sent_spec(&self) -> Seq<T> {
        self.sent@
    }

    /// Nothing is lost or reordered: what was handed to the sink followed by
    /// what is queued is exactly what was sent.
    pub closed spec fn wf(&self) -> bool {
        self.offered@ is None && self.handed@ + self.buffer@ == self.sent@
    }

    /// The value being offered to the sink, between taking it off the
    /// queue and settling the sink's answer.
    pub closed spec fn offered_spec(&self) -> Option<T> {
        self.offered@
    }

    /// The front value `v` has been taken off the queue and offered to the
    /// sink, whose answer is still to be settled.
    pub closed spec fn offering(&self, v: T) -> bool {
        &&& self.offered@ == Some(v)
        &&& !self.send_in_progress
        &&& self.handed@.push(v) + self.buffer@ == self.sent@
    }

    /// An empty output flushing into `sink`.
    pub fn new(sink: K) -> (r: Self)
        ensures
            r.wf(),
            r.is_open(),
            !r.in_progress(),
            r.queued() == Seq::<T>::empty(),
            r.sent_spec() == Seq::<T>::empty(),
            r.handed_spec() == Seq::<T>::empty(),
            r.sink_spec() == Some(sink),
    {
        let r = OutputState {
            sink: Some(sink),
            send_in_progress: false,
            buffer: std::collections::VecDeque::new(),
            handed: Ghost(Seq::empty()),
            sent: Ghost(Seq::empty()),
            offered: Ghost(None),
        };
        proof {
            assert(r.handed@ + r.buffer@ =~= r.sent@);
        }
        r
    }

    /// The sink, unless the output has none.
    pub fn sink(&self) -> (r: Option<&K>)
        ensures
            r is Some <==> self.is_open(),
            r matches Some(k) ==> self.sink_spec() == Some(*k),
    {
        self.sink.as_ref()
    }

    /// Queues `value` at the back, then flushes once.
    pub fn send(&mut self, value: T) -> (r: OutputPoll)
        requires
            old(self).wf(),
        ensures
            final(self).wf(),
            final(self).sent_spec() == old(self).sent_spec().push(value),
            final(self).is_open() == old(self).is_open(),
            Self::flushed(old(self).queued().push(value), old(self).in_progress(),
                old(self).is_open(), old(self).handed_spec(), *final(self), r),
    {
        self.buffer.push_back(value);
        proof {
            self.sent@ = self.sent@.push(value);
            assert(self.handed@ + self.buffer@ =~= self.sent@);
        }
        self.poll()
    }

    /// The outcomes a flush may have from the given queue, in-progress flag
    /// and openness, one for each answer of the sink: closed without a sink;
    /// blocked, with everything kept, while the send in progress cannot
    /// complete or when the sink hands the front value back; otherwise the
    /// send in progress, if any, is over (done or failed), and the front
    /// value, if any, was accepted (now in progress) or lost to a failure.
    pub open spec fn flushed(
        queue: Seq<T>,
        in_progress: bool,
        open: bool,
        handed: Seq<T>,
        after: Self,
        r: OutputPoll,
    ) -> bool {
        if !open {
            r is Closed && after.queued() == queue && after.in_progress() == in_progress
                && after.handed_spec() == handed
        } else if r is NotReady {
            &&& after.queued() == queue
            &&& after.handed_spec() == handed
            &&& ((in_progress && after.in_progress()) || (queue.len() > 0 && !after.in_progress()))
        } else {
            &&& r is Ready
            &&& if queue.len() == 0 {
                !after.in_progress() && after.queued() == queue && after.handed_spec() == handed
            } else {
                &&& after.queued() == queue.drop_first()
                &&& after.handed_spec() == handed.push(queue[0])
            }
        }
    }

    /// Settles the sink's answer `c` about the send in progress: pending
    /// blocks the output; done or failed ends the send.
    pub fn on_completion(&mut self, c: Completion) -> (r: OutputPoll)
        requires
            old(self).wf(),
            old(self).in_progress(),
        ensures
            final(self).wf(),
            final(self).sent_spec() == old(self).sent_spec(),
            final(self).handed_spec() == old(self).handed_spec(),
            final(self).queued() == old(self).queued(),
            final(self).is_open() == old(self).is_open(),
            c is Pending ==> r is NotReady && final(self).in_progress(),
            !(c is Pending) ==> r is Ready && !final(self).in_progress(),
    {
        match c {
            Completion::Pending => OutputPoll::NotReady,
            Completion::Done => {
                self.send_in_progress = false;
                OutputPoll::Ready
            },
            Completion::Failed => {
                self.send_in_progress = false;
                OutputPoll::Ready
            },
        }
    }

    /// Takes the front value off the queue to offer it to the sink; the
    /// sink's answer is then settled by `on_start`.
    pub fn take_front(&mut self) -> (v: T)
        requires
            old(self).wf(),
            !old(self).in_progress(),
            old(self).queued().len() > 0,
        ensures
            v == old(self).queued()[0],
            final(self).offering(v),
            final(self).queued() == old(self).queued().drop_first(),
            final(self).handed_spec() == old(self).handed_spec(),
            final(self).sent_spec() == old(self).sent_spec(),
            final(self).is_open() == old(self).is_open(),
    {
        let ghost q = self.buffer@;
        let v = self.buffer.pop_front().unwrap();
        proof {
            self.offered@ = Some(v);
            assert(self.handed@.push(v) + self.buffer@ =~= self.handed@ + q);
        }
        v
    }

    /// Settles the sink's answer `a` to the offer of the front value `v`
    /// (the value being offered):
    /// accepted, the send is in progress; handed back, the value returns to
    /// the front and the output is blocked; failed, the value is lost.
    pub fn on_start(&mut self, a: StartSend<T>) -> (r: OutputPoll)
        requires
            old(self).offered_spec() is Some,
            old(self).offering(old(self).offered_spec()->Some_0),
            a matches StartSend::Rejected(w) ==> w == old(self).offered_spec()->Some_0,
        ensures
            final(self).wf(),
            final(self).sent_spec() == old(self).sent_spec(),
            final(self).is_open() == old(self).is_open(),
            ({
                let v = old(self).offered_spec()->Some_0;
                &&& a is Accepted ==> r is Ready && final(self).in_progress() && final(self).queued()
                    == old(self).queued() && final(self).handed_spec() == old(self).handed_spec().push(v)
                &&& a is Rejected ==> r is NotReady && !final(self).in_progress() && final(self).queued()
                    == seq![v] + old(self).queued() && final(self).handed_spec() == old(self).handed_spec()
                &&& a is Failed ==> r is Ready && !final(self).in_progress() && final(self).queued()
                    == old(self).queued() && final(self).handed_spec() == old(self).handed_spec().push(v)
            }),
    {
        let ghost v = self.offered@->Some_0;
        let ghost q = self.buffer@;
        let r = match a {
            StartSend::Accepted => {
                self.send_in_progress = true;
                proof {
                    self.handed@ = self.handed@.push(v);
                }
                OutputPoll::Ready
            },
            StartSend::Rejected(w) => {
                self.buffer.push_front(w);
                proof {
                    assert(self.buffer@ =~= seq![v] + q);
                    assert(self.handed@ + self.buffer@ =~= self.handed@.push(v) + q);
                }
                OutputPoll::NotReady
            },
            StartSend::Failed => {
                proof {
                    self.handed@ = self.handed@.push(v);
                }
                OutputPoll::Ready
            },
        };
        proof {
            self.offered@ = None;
        }
        r
    }

    /// Runs the flush: completes the send in progress if it can (a failure
    /// ends it too), then, with no send in progress, starts sending the
    /// front value.
    pub fn poll(&mut self) -> (r: OutputPoll)
        requires
            old(self).wf(),
        ensures
            final(self).wf(),
            final(self).sent_spec() == old(self).sent_spec(),
            final(self).is_open() == old(self).is_open(),
            Self::flushed(old(self).queued(), old(self).in_progress(), old(self).is_open(),
                old(self).handed_spec(), *final(self), r),
    {
        let ghost q0 = self.buffer@;
        let mut sink = match self.sink.take() {
            Some(s) => s,
            None => return OutputPoll::Closed,
        };
        if self.send_in_progress {
            let c = sink.poll_complete();
            if let OutputPoll::NotReady = self.on_completion(c) {
                self.sink = Some(sink);
                return OutputPoll::NotReady;
            }
        }
        if self.buffer.len() == 0 {
            self.sink = Some(sink);
            return OutputPoll::Ready;
        }
        let v = self.take_front();
        let a = sink.start_send(v);
        let r = self.on_start(a);
        proof {
            assert(q0 =~= seq![q0[0]] + q0.drop_first());
        }
        self.sink = Some(sink);
        r
    }
}

/// One flush took `before` to `after` and reported `r` (see `flushed`).
pub open spec fn flush_step<T, K: Sink<T>>(before: OutputState<T, K>, after: OutputState<T, K>, r: OutputPoll) -> bool {
    &&& OutputState::flushed(before.queued(), before.in_progress(), before.is_open(),
        before.handed_spec(), after, r)
    &&& after.sent_spec() == before.sent_spec()
    &&& after.is_open() == before.is_open()
}

/// One flush took `before` to `after` without blocking.
pub open spec fn flush_went_through<T, K: Sink<T>>(before: OutputState<T, K>, after: OutputState<T, K>) -> bool {
    flush_step(before, after, OutputPoll::Ready) || flush_step(before, after, OutputPoll::Closed)
}

/// A flush reports exactly one outcome: a step that blocked is not one
/// that went through.
pub proof fn flush_outcomes_exclusive<T, K: Sink<T>>(before: OutputState<T, K>, after: OutputState<T, K>)
    ensures
        !(flush_step(before, after, OutputPoll::NotReady) && flush_went_through(before, after)),
{
    if flush_step(before, after, OutputPoll::NotReady) && before.queued().len() > 0 {
        assert(before.queued().drop_first().len() != before.queued().len());
    }
}

/// Values reach the sink in the order they were sent: at every moment what
/// was handed over is a prefix of what was sent, and once the queue is
/// drained it is all of it.
pub proof fn handed_in_send_order<T, K: Sink<T>>(o: OutputState<T, K>)
    requires
        o.wf(),
    ensures
        o.handed_spec().len() <= o.sent_spec().len(),
        o.handed_spec() == o.sent_spec().take(o.handed_spec().len() as int),
        o.queued() == o.sent_spec().skip(o.handed_spec().len() as int),
        o.queued().len() == 0 ==> o.handed_spec() == o.sent_spec(),
{
    let h = o.handed_spec();
    let q = o.queued();
    let s = o.sent_spec();
    assert(h + q == s);
    assert(h =~= s.take(h.len() as int));
    assert(q =~= s.skip(h.len() as int));
    if q.len() == 0 {
        assert(h =~= s);
    }
}

/// A handle on one output of an agent, by its position.
pub struct Output {
    index: usize,
}

impl Output {
    pub closed spec fn index_spec(&self) -> usize {
        self.index
    }

    pub(crate) fn at(index: usize) -> (r: Output)
        ensures
            r.index_spec() == index,
    {
        Output { index }
    }

    /// The position of this output in its agent.
    pub fn index(&self) -> (r: usize)
        ensures
            r == self.index_spec(),
    {
        self.index
    }

    /// Sends `value` on this output: it is queued there once the callback
    /// returns (for an input, once all the callbacks of that input's poll
    /// have run), after the values sent before it.
    pub fn send<T>(&self, out: &mut Outgoing<T>, value: T)
        ensures
            final(out).sends@ == old(out).sends@.push((self.index_spec(), value)),
    {
        out.sends.push((self.index, value));
    }
}

/// Values that callbacks send, each tagged with its output, in the order
/// sent.
pub struct Outgoing<T> {
    pub sends: Vec<(usize, T)>,
}

impl<T> Outgoing<T> {
    pub fn new() -> (r: Outgoing<T>)
        ensures
            r.sends@ == Seq::<(usize, T)>::empty(),
    {
        Outgoing { sends: Vec::new() }
    }
}

} // verus!
