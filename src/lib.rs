//! A small cooperative runtime for agents: single-owner units of state that
//! react to inbound messages, emit buffered outbound messages and run
//! periodic timers, all driven by one poll cycle.
//!
//! An agent's state implements [`Behavior`], whose callbacks run with
//! exclusive access to it and send through [`Output`] handles. Message
//! sources and sinks are reached through the [`Source`] and [`Sink`]
//! traits. Time is counted in ticks: a cycle is polled at an instant, and
//! hands back the instants at which its timers want to be woken, which a
//! [`MockClock`] can hold and fire in order.
//!
//! Design choices: a timer callback that returns [`TimerRun::Stop`] turns
//! its timer off, so that an agent whose inputs have all ended and whose
//! timers have all stopped finishes on its own; an input whose source ends
//! reports closure in the same cycle.

pub mod agent;
pub mod clock;
pub mod input;
pub mod output;
pub mod timer;

pub use agent::{Agent, AgentPoll, Behavior, Builder};
pub use clock::MockClock;
pub use input::{Ready, Source};
pub use output::{Completion, Outgoing, Output, Sink, StartSend};
pub use timer::TimerRun;
