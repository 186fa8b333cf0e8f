//! The forwarder: the state machine that takes messages off the queue, hands
//! each line to the broker client and keeps the client polled.
//!
//! Like the tailer it performs nothing itself. It names the next action, is
//! told the outcome as an event, and names the action after that.

use vstd::prelude::*;

use crate::errors::ErrorKind;
use crate::queue::{MessageView, QueueMessage};

verus! {

/// Seconds to wait for a message before the broker client is polled anyway.
pub const RECEIVE_WAIT_SECS: u64 = 1;

/// Seconds that a poll of the broker client may block.
pub const POLL_WAIT_SECS: u64 = 0;

/// Where the forwarder stands.
#[derive(Clone, Copy, Debug, PartialEq, Eq, Structural)]
pub enum SinkState {
    /// Waiting for a message from the queue.
    Receiving,
    /// Handing a line to the broker client.
    Sending,
    /// Letting the broker client service its deliveries.
    Polling,
    /// Finished.
    Stopped,
}

/// What the forwarder asks of its driver.
#[derive(Clone, Debug, PartialEq, Eq)]
pub enum SinkAction {
    /// Wait up to `RECEIVE_WAIT_SECS` for a message from the queue.
    Receive,
    /// Send the line to the topic, unkeyed.
    Send(String),
    /// Poll the broker client for `POLL_WAIT_SECS`.
    Poll,
    /// Nothing more to do.
    Stop,
}

/// An action as contracts see it.
pub enum ActionView {
    Receive,
    Send(Seq<char>),
    Poll,
    Stop,
}

impl View for SinkAction {
    type V = ActionView;

    open spec fn view(&self) -> ActionView {
        match self {
            SinkAction::Receive => ActionView::Receive,
            SinkAction::Send(line) => ActionView::Send(line@),
            SinkAction::Poll => ActionView::Poll,
            SinkAction::Stop => ActionView::Stop,
        }
    }
}

/// What the driver reports back.
#[derive(Clone, Debug, PartialEq, Eq)]
pub enum SinkEvent {
    /// A message came off the queue.
    Received(QueueMessage),
    /// The wait ended without a message.
    TimedOut,
    /// The queue was closed and is empty.
    Disconnected,
    /// The broker client took the line.
    Sent,
    /// The broker client refused the line.
    SendFailed,
    /// The broker client was polled.
    Polled,
}

/// An event as contracts see it.
pub enum SinkEventView {
    Received(MessageView),
    TimedOut,
    Disconnected,
    Sent,
    SendFailed,
    Polled,
}

impl View for SinkEvent {
    type V = SinkEventView;

    open spec fn view(&self) -> SinkEventView {
        match self {
            SinkEvent::Received(message) => SinkEventView::Received(message@),
            SinkEvent::TimedOut => SinkEventView::TimedOut,
            SinkEvent::Disconnected => SinkEventView::Disconnected,
            SinkEvent::Sent => SinkEventView::Sent,
            SinkEvent::SendFailed => SinkEventView::SendFailed,
            SinkEvent::Polled => SinkEventView::Polled,
        }
    }
}

/// The views of a sequence of events.
pub open spec fn sink_event_views(events: Seq<SinkEvent>) -> Seq<SinkEventView> {
    Seq::new(events.len(), |i: int| events[i]@)
}

/// The views of a sequence of actions.
pub open spec fn action_views(actions: Seq<SinkAction>) -> Seq<ActionView> {
    Seq::new(actions.len(), |i: int| actions[i]@)
}

/// The forwarder as contracts see it.
pub struct Forwarder {
    pub state: SinkState,
    /// Why the forwarder stopped, when it did not stop on the marker.
    pub failure: Option<ErrorKind>,
    /// The topic that every line goes to.
    pub topic: Seq<char>,
    /// The line that is being sent.
    pub outgoing: Seq<char>,
}

impl Forwarder {
    /// A fresh forwarder to `topic`.
    pub open spec fn init(topic: Seq<char>) -> Forwarder {
        Forwarder { state: SinkState::Receiving, failure: None, topic, outgoing: Seq::empty() }
    }

    /// Only a stopped forwarder has failed.
    pub open spec fn wf(self) -> bool {
        self.failure.is_some() ==> self.state == SinkState::Stopped
    }

    /// The forwarder at rest, for good.
    pub open spec fn stopped(self, failure: Option<ErrorKind>) -> Forwarder {
        Forwarder { state: SinkState::Stopped, failure, ..self }
    }

    /// The forwarder in another state.
    pub open spec fn moved(self, state: SinkState) -> Forwarder {
        Forwarder { state, ..self }
    }

    /// The forwarder after `event`. An event that does not answer the
    /// awaited action changes nothing.
    pub open spec fn next(self, event: SinkEventView) -> Forwarder {
        match (self.state, event) {
            (SinkState::Receiving, SinkEventView::Received(MessageView::Data(line))) => Forwarder {
                state: SinkState::Sending,
                outgoing: line,
                ..self
            },
            (SinkState::Receiving, SinkEventView::Received(MessageView::Shutdown)) => self.stopped(
                None,
            ),
            (SinkState::Receiving, SinkEventView::TimedOut) => self.moved(SinkState::Polling),
            (SinkState::Receiving, SinkEventView::Disconnected) => self.stopped(
                Some(ErrorKind::ProducerGone),
            ),
            (SinkState::Sending, SinkEventView::Sent) => self.moved(SinkState::Polling),
            (SinkState::Sending, SinkEventView::SendFailed) => self.stopped(
                Some(ErrorKind::KafkaError),
            ),
            (SinkState::Polling, SinkEventView::Polled) => self.moved(SinkState::Receiving),
            _ => self,
        }
    }

    /// The action that the forwarder awaits the outcome of.
    pub open spec fn action(self) -> ActionView {
        match self.state {
            SinkState::Receiving => ActionView::Receive,
            SinkState::Sending => ActionView::Send(self.outgoing),
            SinkState::Polling => ActionView::Poll,
            SinkState::Stopped => ActionView::Stop,
        }
    }

    /// The forwarder after all of `events`, in order.
    pub open spec fn after(self, events: Seq<SinkEventView>) -> Forwarder
        decreases events.len(),
    {
        if events.len() == 0 {
            self
        } else {
            self.after(events.drop_last()).next(events.last())
        }
    }

    /// The actions that the forwarder asks for in answer to `events`, one
    /// for each event.
    pub open spec fn script(self, events: Seq<SinkEventView>) -> Seq<ActionView> {
        Seq::new(events.len(), |i: int| self.after(events.take(i + 1)).action())
    }

    /// The lines that the forwarder takes off the queue to send in the
    /// course of `events`, in order.
    pub open spec fn accepted(self, events: Seq<SinkEventView>) -> Seq<Seq<char>>
        decreases events.len(),
    {
        if events.len() == 0 {
            Seq::empty()
        } else {
            let before = self.after(events.drop_last());
            let earlier = self.accepted(events.drop_last());
            match (before.state, events.last()) {
                (
                    SinkState::Receiving,
                    SinkEventView::Received(MessageView::Data(line)),
                ) => earlier.push(line),
                _ => earlier,
            }
        }
    }

    /// The lines that the forwarder asks to be sent in answer to `events`,
    /// in order: one for each event that leads it to send.
    pub open spec fn sends(self, events: Seq<SinkEventView>) -> Seq<Seq<char>>
        decreases events.len(),
    {
        if events.len() == 0 {
            Seq::empty()
        } else {
            let before = self.after(events.drop_last());
            let earlier = self.sends(events.drop_last());
            match before.next(events.last()).action() {
                ActionView::Send(line) => if before.state != SinkState::Sending {
                    earlier.push(line)
                } else {
                    earlier
                },
                _ => earlier,
            }
        }
    }
}

/// A stopped forwarder stays as it is.
pub proof fn lemma_sink_stopped_is_final(sink: Forwarder, event: SinkEventView)
    requires
        sink.state == SinkState::Stopped,
    ensures
        sink.next(event) == sink,
        sink.next(event).action() == ActionView::Stop,
{
}

/// A waiting forwarder that receives the termination marker stops cleanly
/// and never treats the marker as data; one that finds the queue closed
/// instead reports that the producer has gone.
pub proof fn lemma_marker_ends_forwarding(sink: Forwarder)
    requires
        sink.wf(),
        sink.state == SinkState::Receiving,
    ensures
        ({
            let done = sink.next(SinkEventView::Received(MessageView::Shutdown));
            &&& done.state == SinkState::Stopped
            &&& done.failure == None::<ErrorKind>
            &&& done.action() == ActionView::Stop
        }),
        ({
            let lost = sink.next(SinkEventView::Disconnected);
            &&& lost.state == SinkState::Stopped
            &&& lost.failure == Some(ErrorKind::ProducerGone)
        }),
{
}

/// No event makes a forwarder send the termination marker or anything else
/// that it did not receive as data: whenever an event leads it to send, the
/// event is a data message and the line sent is the line received.
pub proof fn lemma_sends_what_it_received(sink: Forwarder, event: SinkEventView)
    requires
        sink.state != SinkState::Sending,
    ensures
        sink.next(event).action() matches ActionView::Send(line) ==> event
            == SinkEventView::Received(MessageView::Data(line)),
{
}

/// First in, first out: in the course of any events the lines that the
/// forwarder asks to be sent are the lines that it took off the queue, each
/// once and in the order of their arrival.
pub proof fn lemma_forwards_in_order(sink: Forwarder, events: Seq<SinkEventView>)
    ensures
        sink.sends(events) == sink.accepted(events),
    decreases events.len(),
{
    if events.len() > 0 {
        lemma_forwards_in_order(sink, events.drop_last());
    }
}

/// The forwarder to one topic.
pub struct KafkaSink {
    topic: String,
    state: SinkState,
    failure: Option<ErrorKind>,
    outgoing: String,
}

impl View for KafkaSink {
    type V = Forwarder;

    closed spec fn view(&self) -> Forwarder {
        Forwarder {
            state: self.state,
            failure: self.failure,
            topic: self.topic@,
            outgoing: self.outgoing@,
        }
    }
}

impl KafkaSink {
    /// The forwarder is one that its constructor and its events can produce.
    pub open spec fn wf(&self) -> bool {
        self@.wf()
    }

    /// A forwarder to `topic`, waiting for its first message.
    pub fn new(topic: String) -> (sink: KafkaSink)
        ensures
            sink.wf(),
            sink@ == Forwarder::init(topic@),
    {
        KafkaSink { topic, state: SinkState::Receiving, failure: None, outgoing: String::new() }
    }

    /// The topic that every line goes to.
    pub fn topic(&self) -> (topic: &str)
        ensures
            topic@ == self@.topic,
    {
        self.topic.as_str()
    }

    /// Where the forwarder stands.
    pub fn state(&self) -> (state: SinkState)
        ensures
            state == self@.state,
    {
        self.state
    }

    /// Why the forwarder stopped, unless it runs or stopped on the marker.
    pub fn failure(&self) -> (failure: Option<ErrorKind>)
        ensures
            failure == self@.failure,
    {
        self.failure
    }

    /// Whether the forwarder has stopped.
    pub fn is_stopped(&self) -> (stopped: bool)
        ensures
            stopped == (self@.state == SinkState::Stopped),
    {
        match self.state {
            SinkState::Stopped => true,
            _ => false,
        }
    }

    /// The action whose outcome the forwarder awaits.
    pub fn next_action(&self) -> (action: SinkAction)
        ensures
            action@ == self@.action(),
    {
        match self.state {
            SinkState::Receiving => SinkAction::Receive,
            SinkState::Sending => SinkAction::Send(self.outgoing.clone()),
            SinkState::Polling => SinkAction::Poll,
            SinkState::Stopped => SinkAction::Stop,
        }
    }

    /// Takes in the outcome of the awaited action and returns the action to
    /// perform next.
    pub fn handle(&mut self, event: &SinkEvent) -> (action: SinkAction)
        requires
            old(self).wf(),
        ensures
            final(self).wf(),
            final(self)@ == old(self)@.next(event@),
            action@ == final(self)@.action(),
    {
        match self.state {
            SinkState::Receiving => match event {
                SinkEvent::Received(QueueMessage::Data(line)) => {
                    self.outgoing = line.clone();
                    self.state = SinkState::Sending;
                },
                SinkEvent::Received(QueueMessage::Shutdown) => {
                    self.state = SinkState::Stopped;
                    self.failure = None;
                },
                SinkEvent::TimedOut => {
                    self.state = SinkState::Polling;
                },
                SinkEvent::Disconnected => {
                    self.state = SinkState::Stopped;
                    self.failure = Some(ErrorKind::ProducerGone);
                },
                _ => {},
            },
            SinkState::Sending => match event {
                SinkEvent::Sent => {
                    self.state = SinkState::Polling;
                },
                SinkEvent::SendFailed => {
                    self.state = SinkState::Stopped;
                    self.failure = Some(ErrorKind::KafkaError);
                },
                _ => {},
            },
            SinkState::Polling => match event {
                SinkEvent::Polled => {
                    self.state = SinkState::Receiving;
                },
                _ => {},
            },
            SinkState::Stopped => {},
        }
        self.next_action()
    }

    /// Takes in a whole script of events, in order, and returns the action
    /// that answered each.
    pub fn run(&mut self, events: &Vec<SinkEvent>) -> (actions: Vec<SinkAction>)
        requires
            old(self).wf(),
        ensures
            final(self).wf(),
            final(self)@ == old(self)@.after(sink_event_views(events@)),
            action_views(actions@) == old(self)@.script(sink_event_views(events@)),
    {
        let ghost start = self@;
        let ghost all = sink_event_views(events@);
        let mut actions: Vec<SinkAction> = Vec::new();
        let mut i: usize = 0;
        proof {
            assert(all.take(0) =~= Seq::<SinkEventView>::empty());
        }
        while i < events.len()
            invariant
                i <= events@.len(),
                all == sink_event_views(events@),
                self.wf(),
                self@ == start.after(all.take(i as int)),
                actions@.len() == i,
                forall|j: int|
                    0 <= j < i ==> (#[trigger] actions@[j])@ == start.after(
                        all.take(j + 1),
                    ).action(),
            decreases events@.len() - i,
        {
            let action = self.handle(&events[i]);
            proof {
                assert(all.take(i + 1).drop_last() =~= all.take(i as int));
                assert(all.take(i + 1).last() == events@[i as int]@);
            }
            actions.push(action);
            i += 1;
        }
        proof {
            assert(all.take(i as int) =~= all);
            assert(action_views(actions@) =~= start.script(all));
        }
        actions
    }
}

} // verus!
