//! Inbound streams: each poll hands every ready message to the agent's
//! state, and end-of-stream closes the input for good.
use vstd::prelude::*;

verus! {

/// What an inbound source had ready when asked.
pub struct Ready<T> {
    /// The messages that were ready, oldest first.
    pub items: Vec<T>,
    /// Whether the source reported end-of-stream after them.
    pub ended: bool,
}

/// An inbound message source. Transient unavailability, and failures of
/// the source, show as no items and no end.
pub trait Source<T> {
    /// Takes every message that is ready now, without waiting.
    fn take_ready(&mut self) -> Ready<T>;
}

/// One callback that an input owes the agent's state.
pub enum InputEvent<T> {
    /// `on_item` with this message.
    Item(T),
    /// `on_end`.
    End,
}

/// The callbacks owed for what a source had ready: one item callback per
/// message, in order, then the end callback if the source ended.
pub open spec fn events_of<T>(items: Seq<T>, ended: bool) -> Seq<InputEvent<T>> {
    items.map_values(|v: T| InputEvent::Item(v)) + if ended {
        seq![InputEvent::End]
    } else {
        Seq::empty()
    }
}

/// One inbound stream; the source is dropped once it has ended.
pub struct Input<Src> {
    source: Option<Src>,
}

impl<Src> Input<Src> {
    pub closed spec fn is_open(&self) -> bool {
        self.source is Some
    }

    /// The source, while the input is attached.
    pub closed spec fn source_spec(&self) -> Option<Src> {
        self.source
    }

    /// An open input reading from `source`.
    pub fn new(source: Src) -> (r: Input<Src>)
        ensures
            r.is_open(),
            r.source_spec() == Some(source),
    {
        Input { source: Some(source) }
    }

    /// Turns what the source had ready into the callbacks owed, and closes
    /// the input if the source ended. A closed input owes nothing.
    pub fn deliver<T>(&mut self, ready: Ready<T>) -> (ev: Vec<InputEvent<T>>)
        ensures
            !old(self).is_open() ==> ev@.len() == 0 && !final(self).is_open(),
            old(self).is_open() ==> ev@ == events_of(ready.items@, ready.ended)
                && final(self).is_open() == !ready.ended,
    {
        let mut ev: Vec<InputEvent<T>> = Vec::new();
        if self.source.is_none() {
            return ev;
        }
        let ghost all = ready.items@;
        let mut items = ready.items;
        while items.len() > 0
            invariant
                ev@ + items@.map_values(|v: T| InputEvent::Item(v)) == all.map_values(
                    |v: T| InputEvent::Item(v),
                ),
            decreases items.len(),
        {
            let ghost before = items@;
            let v = items.remove(0);
            proof {
                assert(before.map_values(|v: T| InputEvent::Item(v)) =~= seq![InputEvent::Item(v)]
                    + items@.map_values(|v: T| InputEvent::Item(v)));
            }
            ev.push(InputEvent::Item(v));
            proof {
                assert(ev@ + items@.map_values(|v: T| InputEvent::Item(v)) =~= all.map_values(
                    |v: T| InputEvent::Item(v),
                ));
            }
        }
        assert(ev@ =~= all.map_values(|v: T| InputEvent::Item(v)));
        if ready.ended {
            ev.push(InputEvent::End);
            self.source = None;
        }
        assert(ev@ =~= events_of(all, ready.ended));
        ev
    }

    /// Takes every message the source has ready and turns it into the
    /// callbacks owed (see `deliver`); an ended source closes the input.
    pub fn take_events<T>(&mut self) -> (ev: Vec<InputEvent<T>>)
        where
            Src: Source<T>,
        ensures
            !old(self).is_open() ==> ev@.len() == 0 && !final(self).is_open(),
            old(self).is_open() ==> exists|items: Seq<T>, ended: bool|
                ev@ == #[trigger] events_of(items, ended) && final(self).is_open() == !ended,
    {
        let mut source = match self.source.take() {
            Some(s) => s,
            None => return Vec::new(),
        };
        let ready = source.take_ready();
        let ghost (items, ended) = (ready.items@, ready.ended);
        self.source = Some(source);
        let ev = self.deliver(ready);
        assert(ev@ == events_of(items, ended));
        ev
    }

    /// Whether the input is still attached to its source.
    pub fn is_attached(&self) -> (r: bool)
        ensures
            r == self.is_open(),
    {
        self.source.is_some()
    }
}

} // verus!
