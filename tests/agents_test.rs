use std::cell::RefCell;
use std::collections::VecDeque;
use std::rc::Rc;

use agents::clock::MockClock;
use agents::input::{Input, InputEvent};
use agents::output::OutputPoll;
use agents::output::OutputState;
use agents::timer::{Timer, TimerPoll};
use agents::{
    AgentPoll, Behavior, Builder, Completion, Outgoing, Output, Ready, Sink, Source, StartSend,
    TimerRun,
};

/// A sink that records what it takes; it can be told to reject new sends or
/// to hold the send in progress.
#[derive(Clone)]
struct Probe {
    got: Rc<RefCell<Vec<i32>>>,
    accepting: Rc<RefCell<bool>>,
    completing: Rc<RefCell<bool>>,
}

impl Probe {
    fn new() -> Probe {
        Probe {
            got: Rc::new(RefCell::new(Vec::new())),
            accepting: Rc::new(RefCell::new(true)),
            completing: Rc::new(RefCell::new(true)),
        }
    }

    fn received(&self) -> Vec<i32> {
        self.got.borrow().clone()
    }
}

impl Sink<i32> for Probe {
    fn start_send(&mut self, value: i32) -> StartSend<i32> {
        if *self.accepting.borrow() {
            self.got.borrow_mut().push(value);
            StartSend::Accepted
        } else {
            StartSend::Rejected(value)
        }
    }

    fn poll_complete(&mut self) -> Completion {
        if *self.completing.borrow() {
            Completion::Done
        } else {
            Completion::Pending
        }
    }
}

/// A source fed by the test; it ends once told to and drained.
#[derive(Clone)]
struct Feed {
    items: Rc<RefCell<VecDeque<i32>>>,
    ended: Rc<RefCell<bool>>,
}

impl Feed {
    fn new() -> Feed {
        Feed {
            items: Rc::new(RefCell::new(VecDeque::new())),
            ended: Rc::new(RefCell::new(false)),
        }
    }

    fn push(&self, v: i32) {
        self.items.borrow_mut().push_back(v);
    }

    fn end(&self) {
        *self.ended.borrow_mut() = true;
    }
}

impl Source<i32> for Feed {
    fn take_ready(&mut self) -> Ready<i32> {
        let items: Vec<i32> = self.items.borrow_mut().drain(..).collect();
        Ready { items, ended: *self.ended.borrow() }
    }
}

struct Passthrough {
    output: Output,
}

impl Behavior<i32> for Passthrough {
    fn on_item(&mut self, _input: usize, value: i32, out: &mut Outgoing<i32>) {
        self.output.send(out, value);
    }

    fn on_end(&mut self, _input: usize, _out: &mut Outgoing<i32>) {}

    fn on_timer(&mut self, _timer: usize, _out: &mut Outgoing<i32>) -> TimerRun {
        TimerRun::Continue
    }
}

#[test]
fn passthrough() {
    let feed = Feed::new();
    let probe = Probe::new();
    let mut builder: Builder<i32, Feed, Probe> = Builder::new();
    let out = builder.new_output(probe.clone());
    builder.new_input(feed.clone());
    let mut agent = builder.finish(Passthrough { output: out });

    feed.push(42);
    for _ in 0..3 {
        assert!(matches!(agent.poll(0), AgentPoll::Pending(_)));
    }
    assert_eq!(probe.received(), vec![42]);
}

struct Periodic {
    output: Output,
    count: i32,
}

impl Behavior<i32> for Periodic {
    fn on_item(&mut self, _input: usize, _value: i32, _out: &mut Outgoing<i32>) {}

    fn on_end(&mut self, _input: usize, _out: &mut Outgoing<i32>) {}

    fn on_timer(&mut self, _timer: usize, out: &mut Outgoing<i32>) -> TimerRun {
        self.output.send(out, self.count);
        self.count = self.count + 1;
        TimerRun::Continue
    }
}

fn register(clock: &mut MockClock<usize>, poll: AgentPoll) {
    if let AgentPoll::Pending(wakeups) = poll {
        for at in wakeups {
            clock.add_activation(0, at);
        }
    }
}

#[test]
fn periodic() {
    let mut clock: MockClock<usize> = MockClock::new(1000);
    let probe = Probe::new();
    let mut builder: Builder<i32, Feed, Probe> = Builder::new();
    let out = builder.new_output(probe.clone());
    builder.new_timer(1);
    let mut agent = builder.finish(Periodic { output: out, count: 0 });

    // The first poll arms the timer.
    let p = agent.poll(clock.now());
    register(&mut clock, p);

    for i in 0..10 {
        let fired = clock.advance(1);
        assert_eq!(fired.len(), 1);
        let p = agent.poll(clock.now());
        register(&mut clock, p);
        assert_eq!(probe.received().last().copied(), Some(i));
    }
    assert_eq!(probe.received(), (0..10).collect::<Vec<i32>>());
}

#[test]
fn fifo_flush_after_rejections() {
    let probe = Probe::new();
    *probe.accepting.borrow_mut() = false;
    let mut output: OutputState<i32, Probe> = OutputState::new(probe.clone());
    output.send(1);
    output.send(2);
    output.send(3);
    assert!(probe.received().is_empty());

    *probe.accepting.borrow_mut() = true;
    for _ in 0..5 {
        output.poll();
    }
    assert_eq!(probe.received(), vec![1, 2, 3]);
}

#[test]
fn flush_stalls_while_send_in_progress() {
    let probe = Probe::new();
    *probe.completing.borrow_mut() = false;
    let mut output: OutputState<i32, Probe> = OutputState::new(probe.clone());
    output.send(7);
    output.send(8);
    assert_eq!(probe.received(), vec![7]);
    assert!(matches!(output.poll(), agents::output::OutputPoll::NotReady));
    assert_eq!(probe.received(), vec![7]);

    *probe.completing.borrow_mut() = true;
    assert!(matches!(output.poll(), agents::output::OutputPoll::Ready));
    assert_eq!(probe.received(), vec![7, 8]);
}

struct Counter {
    output: Output,
    ticks: u32,
    items: Vec<i32>,
    ends: u32,
    stop_after: u32,
}

impl Counter {
    fn new(output: Output) -> Counter {
        Counter { output, ticks: 0, items: Vec::new(), ends: 0, stop_after: u32::MAX }
    }
}

impl Behavior<i32> for Counter {
    fn on_item(&mut self, _input: usize, value: i32, _out: &mut Outgoing<i32>) {
        self.items.push(value);
    }

    fn on_end(&mut self, _input: usize, _out: &mut Outgoing<i32>) {
        self.ends = self.ends + 1;
    }

    fn on_timer(&mut self, _timer: usize, out: &mut Outgoing<i32>) -> TimerRun {
        self.ticks = self.ticks + 1;
        self.output.send(out, self.ticks as i32);
        if self.ticks >= self.stop_after {
            TimerRun::Stop
        } else {
            TimerRun::Continue
        }
    }
}

#[test]
fn backpressure_halts_the_cycle() {
    let probe = Probe::new();
    let feed = Feed::new();
    let mut builder: Builder<i32, Feed, Probe> = Builder::new();
    let out = builder.new_output(probe.clone());
    builder.new_timer(1);
    builder.new_input(feed.clone());
    let mut agent = builder.finish(Counter::new(out));

    assert!(matches!(agent.poll(0), AgentPoll::Pending(_)));
    assert!(matches!(agent.poll(1), AgentPoll::Pending(_)));
    assert_eq!(agent.state().ticks, 1);

    // The sink now holds the send in progress: nothing else may run.
    *probe.completing.borrow_mut() = false;
    feed.push(5);
    assert!(matches!(agent.poll(5), AgentPoll::Blocked));
    assert!(matches!(agent.poll(6), AgentPoll::Blocked));
    assert_eq!(agent.state().ticks, 1);
    assert!(agent.state().items.is_empty());

    *probe.completing.borrow_mut() = true;
    assert!(matches!(agent.poll(7), AgentPoll::Pending(_)));
    assert_eq!(agent.state().ticks, 2);
    assert_eq!(agent.state().items, vec![5]);
}

#[test]
fn timer_coalesces_missed_periods() {
    let mut timer = Timer::new(1);
    assert!(matches!(timer.poll(100), TimerPoll::Armed(101)));
    assert!(matches!(timer.poll(100), TimerPoll::Waiting));
    assert!(matches!(timer.poll(105), TimerPoll::Fired(106)));
    assert!(matches!(timer.poll(105), TimerPoll::Waiting));
    assert!(matches!(timer.poll(106), TimerPoll::Fired(107)));
}

#[test]
fn timer_fires_once_after_a_long_gap() {
    let mut clock: MockClock<usize> = MockClock::new(0);
    let probe = Probe::new();
    let mut builder: Builder<i32, Feed, Probe> = Builder::new();
    let out = builder.new_output(probe.clone());
    builder.new_timer(1);
    let mut agent = builder.finish(Counter::new(out));
    let p = agent.poll(clock.now());
    register(&mut clock, p);

    clock.advance(5);
    match agent.poll(clock.now()) {
        AgentPoll::Pending(wakeups) => assert_eq!(wakeups, vec![6]),
        _ => panic!("the timer keeps the agent alive"),
    }
    assert_eq!(agent.state().ticks, 1);
    assert_eq!(probe.received(), vec![1]);
}

#[test]
fn input_drains_every_ready_item() {
    let probe = Probe::new();
    let feed = Feed::new();
    let mut builder: Builder<i32, Feed, Probe> = Builder::new();
    let out = builder.new_output(probe);
    builder.new_input(feed.clone());
    let mut agent = builder.finish(Counter::new(out));

    feed.push(1);
    feed.push(2);
    feed.push(3);
    assert!(matches!(agent.poll(0), AgentPoll::Pending(_)));
    assert_eq!(agent.state().items, vec![1, 2, 3]);
}

#[test]
fn end_of_stream_is_terminal() {
    let probe = Probe::new();
    let feed = Feed::new();
    let mut builder: Builder<i32, Feed, Probe> = Builder::new();
    let out = builder.new_output(probe);
    builder.new_input(feed.clone());
    let mut agent = builder.finish(Counter::new(out));

    feed.push(9);
    feed.end();
    assert!(matches!(agent.poll(0), AgentPoll::Finished));
    assert_eq!(agent.state().ends, 1);
    assert_eq!(agent.state().items, vec![9]);

    feed.push(10);
    for _ in 0..3 {
        assert!(matches!(agent.poll(0), AgentPoll::Finished));
    }
    assert_eq!(agent.state().ends, 1);
    assert_eq!(agent.state().items, vec![9]);
}

#[test]
fn stopped_timer_lets_the_agent_finish() {
    let probe = Probe::new();
    let mut builder: Builder<i32, Feed, Probe> = Builder::new();
    let out = builder.new_output(probe.clone());
    builder.new_timer(2);
    let mut counter = Counter::new(out);
    counter.stop_after = 2;
    let mut agent = builder.finish(counter);

    assert!(matches!(agent.poll(0), AgentPoll::Pending(_)));
    assert!(matches!(agent.poll(2), AgentPoll::Pending(_)));
    assert!(matches!(agent.poll(4), AgentPoll::Finished));
    assert!(matches!(agent.poll(9), AgentPoll::Finished));
    assert_eq!(probe.received(), vec![1, 2]);
}

struct Idle;

impl Behavior<i32> for Idle {
    fn on_item(&mut self, _input: usize, _value: i32, _out: &mut Outgoing<i32>) {}

    fn on_end(&mut self, _input: usize, _out: &mut Outgoing<i32>) {}

    fn on_timer(&mut self, _timer: usize, _out: &mut Outgoing<i32>) -> TimerRun {
        TimerRun::Continue
    }
}

#[test]
fn empty_agent_is_finished() {
    let builder: Builder<i32, Feed, Probe> = Builder::new();
    let mut agent = builder.finish(Idle);
    assert!(matches!(agent.poll(0), AgentPoll::Finished));
}

#[test]
fn wakeups_fire_in_time_order() {
    let mut clock: MockClock<u32> = MockClock::new(50);
    clock.add_activation(3, 53);
    clock.add_activation(1, 51);
    clock.add_activation(2, 52);
    assert_eq!(clock.advance(1), vec![1]);
    assert_eq!(clock.advance(3), vec![2, 3]);
    assert!(clock.advance(100).is_empty());
    assert_eq!(clock.now(), 154);
}

#[test]
fn equal_wakeups_keep_registration_order() {
    let mut clock: MockClock<u32> = MockClock::new(0);
    clock.add_activation(1, 5);
    clock.add_activation(2, 9);
    clock.add_activation(3, 5);
    clock.add_activation(4, 1);
    clock.add_activation(5, 5);
    assert_eq!(clock.advance(5), vec![4, 1, 3, 5]);
    assert_eq!(clock.advance(4), vec![2]);
}

#[test]
fn clock_stands_still_until_advanced() {
    let mut clock: MockClock<u32> = MockClock::new(7);
    clock.add_activation(1, 8);
    assert_eq!(clock.now(), 7);
    assert!(clock.advance(0).is_empty());
    assert_eq!(clock.now(), 7);
}

#[test]
fn sends_before_the_first_poll_are_buffered() {
    let probe = Probe::new();
    *probe.accepting.borrow_mut() = false;
    let mut builder: Builder<i32, Feed, Probe> = Builder::new();
    let out = builder.new_output(probe.clone());
    builder.send(&out, 4);
    builder.send(&out, 5);
    let mut agent = builder.finish(Idle);
    agent.send(&out, 6);
    assert!(probe.received().is_empty());

    *probe.accepting.borrow_mut() = true;
    for _ in 0..3 {
        assert!(matches!(agent.poll(0), AgentPoll::Finished));
    }
    assert_eq!(probe.received(), vec![4, 5, 6]);
}

#[test]
fn send_to_a_missing_output_is_dropped() {
    let probe = Probe::new();
    let mut builder: Builder<i32, Feed, Probe> = Builder::new();
    let out = builder.new_output(probe.clone());
    let other: Builder<i32, Feed, Probe> = Builder::new();
    let mut agent = other.finish(Idle);
    assert!(agent.send(&out, 1).is_none());
    assert!(builder.send(&out, 2).is_some());
    assert_eq!(probe.received(), vec![2]);
}

#[test]
fn collecting_sink_receives_in_order() {
    let mut output: OutputState<i32, Vec<i32>> = OutputState::new(Vec::new());
    output.send(3);
    output.send(1);
    output.send(2);
    for _ in 0..3 {
        assert!(matches!(output.poll(), agents::output::OutputPoll::Ready));
    }
    assert_eq!(output.sink().cloned(), Some(vec![3, 1, 2]));
}

#[test]
fn rejecting_sink_halts_the_cycle() {
    let probe = Probe::new();
    *probe.accepting.borrow_mut() = false;
    let feed = Feed::new();
    let mut builder: Builder<i32, Feed, Probe> = Builder::new();
    let out = builder.new_output(probe.clone());
    builder.new_timer(1);
    builder.new_input(feed.clone());
    assert!(matches!(builder.send(&out, 1), Some(agents::output::OutputPoll::NotReady)));
    let mut agent = builder.finish(Counter::new(out));

    feed.push(8);
    assert!(matches!(agent.poll(0), AgentPoll::Blocked));
    assert!(matches!(agent.poll(3), AgentPoll::Blocked));
    assert_eq!(agent.state().ticks, 0);
    assert!(agent.state().items.is_empty());
    assert!(probe.received().is_empty());

    *probe.accepting.borrow_mut() = true;
    assert!(matches!(agent.poll(4), AgentPoll::Pending(_)));
    assert_eq!(probe.received(), vec![1]);
    assert_eq!(agent.state().items, vec![8]);
}

#[test]
fn rejected_value_keeps_its_place() {
    let probe = Probe::new();
    let mut output: OutputState<i32, Probe> = OutputState::new(probe.clone());
    *probe.accepting.borrow_mut() = false;
    output.send(1);
    assert!(matches!(output.poll(), agents::output::OutputPoll::NotReady));
    output.send(2);
    *probe.accepting.borrow_mut() = true;
    assert!(matches!(output.poll(), agents::output::OutputPoll::Ready));
    assert!(matches!(output.poll(), agents::output::OutputPoll::Ready));
    assert_eq!(probe.received(), vec![1, 2]);
}

#[test]
fn deliver_owes_items_then_end_and_closes() {
    let mut input: Input<Feed> = Input::new(Feed::new());
    let ev = input.deliver(Ready { items: vec![1, 2, 3], ended: false });
    assert_eq!(ev.len(), 3);
    assert!(matches!(ev[0], InputEvent::Item(1)));
    assert!(matches!(ev[2], InputEvent::Item(3)));
    assert!(input.is_attached());

    let ev = input.deliver(Ready { items: vec![4], ended: true });
    assert_eq!(ev.len(), 2);
    assert!(matches!(ev[0], InputEvent::Item(4)));
    assert!(matches!(ev[1], InputEvent::End));
    assert!(!input.is_attached());

    let ev = input.deliver(Ready { items: vec![5], ended: true });
    assert!(ev.is_empty());
}

#[test]
fn completion_answers_decide_the_flush() {
    let probe = Probe::new();
    let mut output: OutputState<i32, Probe> = OutputState::new(probe.clone());
    output.send(1);
    assert!(matches!(output.on_completion(Completion::Pending), OutputPoll::NotReady));
    assert!(matches!(output.on_completion(Completion::Failed), OutputPoll::Ready));
    // With the send over, the next poll offers nothing: the queue is empty.
    assert!(matches!(output.poll(), OutputPoll::Ready));
    assert_eq!(probe.received(), vec![1]);
}
