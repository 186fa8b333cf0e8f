//! The tailer: the state machine that turns an append-only log file into
//! queue messages, reclaims the space of what was read, and remembers its
//! position across restarts.
//!
//! The machine performs no I/O. It names the action it waits for, is told
//! the outcome as an event, and answers with the messages to put on the
//! queue.

use vstd::prelude::*;

use crate::errors::ErrorKind;
use vstd::utf8::valid_utf8;

use crate::lines::{
    complete_lines, lemma_no_newline_all_pending, lemma_split_chunked, lemma_tail_has_no_newline,
    lemma_tail_within_chunk, no_newline, pending_tail, LineBuffer,
};
use crate::offset::{decode_offset, le_bytes, lemma_offset_round_trip, stored_offset};
use crate::queue::{
    all_decodable, data_messages, decodable_prefix, decode_lines, lemma_decodable_prefix_bounds,
    message_views, MessageView, QueueMessage,
};
use crate::truncate::{
    bytes_to_remove, lemma_removable_bounds, removable_bytes, shift_cursor, shifted_cursor,
};

verus! {

/// Where the tailer stands.
#[derive(Clone, Copy, Debug, PartialEq, Eq, Structural)]
pub enum TailerState {
    /// Recovering the saved cursor.
    Restoring,
    /// Between passes: looking at the shutdown signal, then waiting for the
    /// file to change.
    Watching,
    /// Reading what was appended.
    Draining,
    /// Reclaiming space and saving the cursor.
    Truncating,
    /// Reading and saving one last time before the termination marker.
    Finalizing,
    /// Finished; nothing happens any more.
    Stopped,
}

/// What the tailer asks of its driver.
#[derive(Clone, Copy, Debug, PartialEq, Eq, Structural)]
pub enum TailerAction {
    /// Read the sidecar file, if there is one, and measure the log file.
    LoadState,
    /// Look whether the shutdown signal was raised.
    CheckSignal,
    /// Block until the file changes or a signal cuts the wait short.
    Wait,
    /// Read from the given offset up to the next newline or further.
    Read(u64),
    /// Measure the log file.
    Measure,
    /// Remove the given number of bytes from the front of the log file.
    Collapse(u64),
    /// Overwrite the sidecar file with the given cursor.
    Save(u64),
    /// Nothing more to do.
    Stop,
}

/// What the driver reports back.
#[derive(Clone, Debug, PartialEq, Eq)]
pub enum TailerEvent {
    /// The sidecar's content, if the file exists, and the log file's length.
    Restored { saved: Option<Vec<u8>>, length: u64 },
    /// Whether the shutdown signal was raised.
    Signal(bool),
    /// The file changed.
    Notified,
    /// A signal cut the wait short.
    Interrupted,
    /// The bytes that a read gave; none at the end of the file.
    Read(Vec<u8>),
    /// The log file's length.
    Size(u64),
    /// The front of the file was removed.
    Collapsed,
    /// The system refused the removal as an invalid argument.
    CollapseRefused,
    /// The sidecar was written.
    Saved,
    /// The pending action failed in any other way.
    IoFailed,
    /// The queue no longer takes messages.
    QueueClosed,
}

/// An event as contracts see it.
pub enum EventView {
    Restored { saved: Option<Seq<u8>>, length: u64 },
    Signal(bool),
    Notified,
    Interrupted,
    Read(Seq<u8>),
    Size(u64),
    Collapsed,
    CollapseRefused,
    Saved,
    IoFailed,
    QueueClosed,
}

impl View for TailerEvent {
    type V = EventView;

    open spec fn view(&self) -> EventView {
        match self {
            TailerEvent::Restored { saved, length } => EventView::Restored {
                saved: match saved {
                    Some(bytes) => Some(bytes@),
                    None => None,
                },
                length: *length,
            },
            TailerEvent::Signal(raised) => EventView::Signal(*raised),
            TailerEvent::Notified => EventView::Notified,
            TailerEvent::Interrupted => EventView::Interrupted,
            TailerEvent::Read(chunk) => EventView::Read(chunk@),
            TailerEvent::Size(size) => EventView::Size(*size),
            TailerEvent::Collapsed => EventView::Collapsed,
            TailerEvent::CollapseRefused => EventView::CollapseRefused,
            TailerEvent::Saved => EventView::Saved,
            TailerEvent::IoFailed => EventView::IoFailed,
            TailerEvent::QueueClosed => EventView::QueueClosed,
        }
    }
}

/// The views of a sequence of events.
pub open spec fn event_views(events: Seq<TailerEvent>) -> Seq<EventView> {
    Seq::new(events.len(), |i: int| events[i]@)
}

/// The tailer as contracts see it.
pub struct Tailer {
    pub state: TailerState,
    /// The action whose outcome is awaited.
    pub action: TailerAction,
    /// Why the tailer stopped, when it did not stop cleanly.
    pub failure: Option<ErrorKind>,
    /// Offset in the log file just after the last complete line that was
    /// read: the value that is saved, and where a restart reads first.
    pub cursor: u64,
    /// Offset in the log file at which the next read takes place. What lies
    /// between the cursor and here is pending.
    pub position: u64,
    /// Bytes read after the last newline. They lie past the cursor.
    pub pending: Seq<u8>,
    /// Whether the current pass over the file completed a line.
    pub produced: bool,
    pub lower_size: u64,
    pub upper_size: u64,
    pub blksize: u64,
}

impl Tailer {
    /// The block size is positive, nothing pending holds a newline, the
    /// cursor lies before the place of the next read by no more than the
    /// pending bytes, and the awaited action is one that the state can await.
    /// Before the cursor is restored nothing is pending.
    pub open spec fn wf(self) -> bool {
        &&& self.blksize > 0
        &&& no_newline(self.pending)
        &&& self.cursor <= self.position
        &&& self.position - self.cursor <= self.pending.len()
        &&& self.failure.is_some() ==> self.state == TailerState::Stopped
        &&& match self.state {
            TailerState::Restoring => self.action == TailerAction::LoadState
                && self.pending.len() == 0,
            TailerState::Watching => self.action == TailerAction::CheckSignal || self.action
                == TailerAction::Wait,
            TailerState::Draining => self.action == TailerAction::Read(self.position),
            TailerState::Truncating => match self.action {
                TailerAction::Measure => true,
                TailerAction::Collapse(bytes) => bytes > 0,
                TailerAction::Save(pos) => pos == self.cursor,
                _ => false,
            },
            TailerState::Finalizing => self.action == TailerAction::Read(self.position)
                || self.action == TailerAction::Save(self.cursor),
            TailerState::Stopped => self.action == TailerAction::Stop,
        }
    }

    /// A fresh tailer for a file with the given limits.
    pub open spec fn init(lower_size: u64, upper_size: u64, blksize: u64) -> Tailer {
        Tailer {
            state: TailerState::Restoring,
            action: TailerAction::LoadState,
            failure: None,
            cursor: 0,
            position: 0,
            pending: Seq::empty(),
            produced: false,
            lower_size,
            upper_size,
            blksize,
        }
    }

    /// The tailer at rest, for good.
    pub open spec fn stopped(self, failure: Option<ErrorKind>) -> Tailer {
        Tailer { state: TailerState::Stopped, action: TailerAction::Stop, failure, ..self }
    }

    /// The tailer between passes, about to look at the shutdown signal.
    pub open spec fn watching(self) -> Tailer {
        Tailer { state: TailerState::Watching, action: TailerAction::CheckSignal, ..self }
    }

    /// The tailer about to read on from where it has read to, in the given
    /// state.
    pub open spec fn reading(self, state: TailerState) -> Tailer {
        Tailer { state, action: TailerAction::Read(self.position), ..self }
    }

    /// The tailer about to save its cursor. The pending bytes lie past the
    /// cursor and are not counted in what is saved.
    pub open spec fn saving(self) -> Tailer {
        Tailer { action: TailerAction::Save(self.cursor), ..self }
    }

    /// Whether the tailer awaits the outcome of a read.
    pub open spec fn awaits_read(self) -> bool {
        self.state == TailerState::Draining || (self.state == TailerState::Finalizing
            && self.action == TailerAction::Read(self.position))
    }

    /// The cursor that a sidecar restores in a file of the given length: the
    /// saved one, or the end of the file where the saved one lies beyond it.
    pub open spec fn restored_cursor(saved: u64, length: u64) -> u64 {
        if saved <= length {
            saved
        } else {
            length
        }
    }

    /// The tailer after its start-up was told what the sidecar holds: it
    /// will read first at the restored cursor.
    pub open spec fn restored(self, saved: Option<Seq<u8>>, length: u64) -> Tailer {
        match saved {
            None => Tailer { cursor: 0, position: 0, ..self }.watching(),
            Some(bytes) => match stored_offset(bytes) {
                Some(pos) => Tailer {
                    cursor: Self::restored_cursor(pos, length),
                    position: Self::restored_cursor(pos, length),
                    ..self
                }.watching(),
                None => self.stopped(Some(ErrorKind::IOError)),
            },
        }
    }

    /// The tailer after a read gave `chunk`. The chunk joins what was
    /// pending and the place of the next read moves past it. Where the chunk
    /// completed a line, the cursor moves to just after the last complete
    /// line, before the bytes that stay pending; else it stays. Reading goes
    /// on while chunks arrive that end in a newline; it ends at the first
    /// empty chunk or unfinished line. A line that is not valid UTF-8 is
    /// fatal, and so is a read that would leave the range of offsets.
    pub open spec fn drained(self, chunk: Seq<u8>) -> Tailer {
        let seen = self.pending + chunk;
        let lines = complete_lines(seen);
        if self.position + chunk.len() > u64::MAX {
            self.stopped(Some(ErrorKind::IOError))
        } else {
            let position = (self.position + chunk.len()) as u64;
            let moved = Tailer {
                cursor: if lines.len() > 0 {
                    (position - pending_tail(seen).len()) as u64
                } else {
                    self.cursor
                },
                position,
                pending: pending_tail(seen),
                produced: self.produced || lines.len() > 0,
                ..self
            };
            if !all_decodable(lines) {
                moved.stopped(Some(ErrorKind::Utf8Error))
            } else if chunk.len() > 0 && moved.pending.len() == 0 {
                moved.reading(self.state)
            } else if self.state == TailerState::Finalizing {
                moved.saving()
            } else if moved.produced {
                Tailer { state: TailerState::Truncating, action: TailerAction::Measure, ..moved }
            } else {
                moved.watching()
            }
        }
    }

    /// The messages that a read of `chunk` puts on the queue: one for each
    /// line it completed, up to the first that is not valid UTF-8.
    pub open spec fn drained_messages(self, chunk: Seq<u8>) -> Seq<MessageView> {
        let lines = complete_lines(self.pending + chunk);
        if self.position + chunk.len() > u64::MAX {
            Seq::empty()
        } else {
            data_messages(lines.take(decodable_prefix(lines) as int))
        }
    }

    /// The tailer after the file was measured at `size` bytes: about to
    /// remove the whole blocks above the lower limit, when the file has
    /// outgrown the upper limit, and else about to save its cursor.
    pub open spec fn measured(self, size: u64) -> Tailer {
        let bytes = removable_bytes(
            size as int,
            self.lower_size as int,
            self.upper_size as int,
            self.blksize as int,
        );
        if bytes > 0 {
            Tailer { action: TailerAction::Collapse(bytes as u64), ..self }
        } else {
            self.saving()
        }
    }

    /// The tailer after `bytes` were removed from the front of the file:
    /// the cursor and the place of the next read have moved back by as much.
    pub open spec fn collapsed(self, bytes: u64) -> Tailer {
        Tailer {
            cursor: shifted_cursor(self.cursor as int, bytes as int) as u64,
            position: shifted_cursor(self.position as int, bytes as int) as u64,
            ..self
        }.saving()
    }

    /// The tailer that starts afresh on the sidecar that this one saved
    /// last, at a file of the given length.
    pub open spec fn restarted(self, length: u64) -> Tailer {
        Tailer::init(self.lower_size, self.upper_size, self.blksize).next(
            EventView::Restored { saved: Some(le_bytes(self.cursor as nat, 8)), length },
        )
    }

    /// The tailer after `event`.
    pub open spec fn next(self, event: EventView) -> Tailer {
        if self.state == TailerState::Stopped {
            if event == EventView::QueueClosed && self.failure.is_none() {
                self.stopped(Some(ErrorKind::ChanError))
            } else {
                self
            }
        } else {
            match event {
                EventView::QueueClosed => self.stopped(Some(ErrorKind::ChanError)),
                EventView::IoFailed => self.stopped(Some(ErrorKind::IOError)),
                EventView::Restored { saved, length } => if self.state == TailerState::Restoring {
                    self.restored(saved, length)
                } else {
                    self
                },
                EventView::Signal(raised) => if self.state == TailerState::Watching && self.action
                    == TailerAction::CheckSignal {
                    if raised {
                        Tailer { produced: false, ..self }.reading(TailerState::Finalizing)
                    } else {
                        Tailer { action: TailerAction::Wait, ..self }
                    }
                } else {
                    self
                },
                EventView::Notified => if self.state == TailerState::Watching && self.action
                    == TailerAction::Wait {
                    Tailer { produced: false, ..self }.reading(TailerState::Draining)
                } else {
                    self
                },
                EventView::Interrupted => if self.state == TailerState::Watching && self.action
                    == TailerAction::Wait {
                    self.watching()
                } else {
                    self
                },
                EventView::Read(chunk) => if self.awaits_read() {
                    self.drained(chunk)
                } else {
                    self
                },
                EventView::Size(size) => if self.state == TailerState::Truncating && self.action
                    == TailerAction::Measure {
                    self.measured(size)
                } else {
                    self
                },
                EventView::Collapsed => match (self.state, self.action) {
                    (TailerState::Truncating, TailerAction::Collapse(bytes)) => self.collapsed(
                        bytes,
                    ),
                    _ => self,
                },
                EventView::CollapseRefused => match (self.state, self.action) {
                    (TailerState::Truncating, TailerAction::Collapse(_)) => self.saving(),
                    _ => self,
                },
                EventView::Saved => match (self.state, self.action) {
                    (TailerState::Truncating, TailerAction::Save(_)) => self.watching(),
                    (TailerState::Finalizing, TailerAction::Save(_)) => self.stopped(None),
                    _ => self,
                },
            }
        }
    }

    /// The messages that `event` puts on the queue.
    pub open spec fn emitted(self, event: EventView) -> Seq<MessageView> {
        match event {
            EventView::Read(chunk) => if self.awaits_read() {
                self.drained_messages(chunk)
            } else {
                Seq::empty()
            },
            EventView::Saved => match (self.state, self.action) {
                (TailerState::Finalizing, TailerAction::Save(_)) => seq![MessageView::Shutdown],
                _ => Seq::empty(),
            },
            _ => Seq::empty(),
        }
    }

    /// The tailer after all of `events`, in order.
    pub open spec fn after(self, events: Seq<EventView>) -> Tailer
        decreases events.len(),
    {
        if events.len() == 0 {
            self
        } else {
            self.after(events.drop_last()).next(events.last())
        }
    }

    /// The messages that `events` put on the queue, in order.
    pub open spec fn transcript(self, events: Seq<EventView>) -> Seq<MessageView>
        decreases events.len(),
    {
        if events.len() == 0 {
            Seq::empty()
        } else {
            self.transcript(events.drop_last()) + self.after(events.drop_last()).emitted(
                events.last(),
            )
        }
    }
}

/// Every event leaves a well-formed tailer well-formed.
pub proof fn lemma_next_wf(tailer: Tailer, event: EventView)
    requires
        tailer.wf(),
    ensures
        tailer.next(event).wf(),
{
    match event {
        EventView::Read(chunk) => {
            lemma_tail_has_no_newline(tailer.pending + chunk);
            lemma_tail_within_chunk(tailer.pending, chunk);
        },
        EventView::Size(size) => {
            lemma_removable_bounds(
                size as int,
                tailer.lower_size as int,
                tailer.upper_size as int,
                tailer.blksize as int,
            );
        },
        _ => {},
    }
}

/// A script of events leaves a well-formed tailer well-formed, with the
/// limits it was made with.
pub proof fn lemma_after_wf(tailer: Tailer, events: Seq<EventView>)
    requires
        tailer.wf(),
    ensures
        tailer.after(events).wf(),
        tailer.after(events).lower_size == tailer.lower_size,
        tailer.after(events).upper_size == tailer.upper_size,
        tailer.after(events).blksize == tailer.blksize,
    decreases events.len(),
{
    if events.len() > 0 {
        lemma_after_wf(tailer, events.drop_last());
        lemma_next_wf(tailer.after(events.drop_last()), events.last());
    }
}

/// No message of `messages` is the termination marker.
pub open spec fn no_shutdown(messages: Seq<MessageView>) -> bool {
    forall|i: int| 0 <= i < messages.len() ==> messages[i] != MessageView::Shutdown
}

impl Tailer {
    /// The bytes that `event` adds to what the tailer has read.
    pub open spec fn taken(self, event: EventView) -> Seq<u8> {
        match event {
            EventView::Read(chunk) => if self.awaits_read() && self.position + chunk.len()
                <= u64::MAX {
                chunk
            } else {
                Seq::empty()
            },
            _ => Seq::empty(),
        }
    }

    /// All the bytes that the tailer reads in the course of `events`.
    pub open spec fn consumed(self, events: Seq<EventView>) -> Seq<u8>
        decreases events.len(),
    {
        if events.len() == 0 {
            Seq::empty()
        } else {
            self.consumed(events.drop_last()) + self.after(events.drop_last()).taken(
                events.last(),
            )
        }
    }
}

/// A stopped tailer stays stopped and is silent.
pub proof fn lemma_stopped_is_final(tailer: Tailer, event: EventView)
    requires
        tailer.state == TailerState::Stopped,
    ensures
        tailer.next(event).state == TailerState::Stopped,
        tailer.emitted(event) == Seq::<MessageView>::empty(),
        tailer.taken(event) == Seq::<u8>::empty(),
{
}

/// The termination marker is put on the queue only by the event that stops
/// the tailer cleanly; every other event yields data messages alone.
pub proof fn lemma_marker_stops(tailer: Tailer, event: EventView)
    ensures
        no_shutdown(tailer.emitted(event)) || (tailer.emitted(event) == seq![MessageView::Shutdown]
            && tailer.next(event).state == TailerState::Stopped && tailer.next(event).failure
            == None::<ErrorKind>),
{
}

/// The termination marker is the last message that a tailer ever puts on the
/// queue: whatever the events, the marker stands nowhere but at the end of
/// what was emitted, and once it is there the tailer has stopped.
pub proof fn lemma_shutdown_is_last(tailer: Tailer, events: Seq<EventView>)
    ensures
        forall|i: int|
            0 <= i < tailer.transcript(events).len() && tailer.transcript(events)[i]
                == MessageView::Shutdown ==> i == tailer.transcript(events).len() - 1,
        !no_shutdown(tailer.transcript(events)) ==> tailer.after(events).state
            == TailerState::Stopped,
    decreases events.len(),
{
    if events.len() > 0 {
        let earlier = events.drop_last();
        let before = tailer.after(earlier);
        lemma_shutdown_is_last(tailer, earlier);
        lemma_marker_stops(before, events.last());
        if before.state == TailerState::Stopped {
            lemma_stopped_is_final(before, events.last());
            assert(tailer.transcript(events) =~= tailer.transcript(earlier));
        } else {
            assert(no_shutdown(tailer.transcript(earlier)));
        }
    }
}

/// Where all lines are valid UTF-8, as many messages are decoded as there
/// are lines.
proof fn lemma_all_decoded(lines: Seq<Seq<u8>>)
    requires
        all_decodable(lines),
    ensures
        lines.take(decodable_prefix(lines) as int) == lines,
{
    lemma_decodable_prefix_bounds(lines);
    assert(lines.take(lines.len() as int) =~= lines);
}

/// Completeness and order. Let the bytes that a running tailer reads in the
/// course of any events, after what it held pending, be text in UTF-8. Then
/// what it puts on the queue is one data message for each complete line of
/// those bytes, in their order, followed by nothing but the termination
/// marker, if by anything; and what it holds pending afterwards is their
/// unfinished tail. How the bytes were cut into reads makes no difference.
pub proof fn lemma_every_line_once(tailer: Tailer, events: Seq<EventView>)
    requires
        tailer.wf(),
        tailer.state != TailerState::Stopped,
        all_decodable(complete_lines(tailer.pending + tailer.consumed(events))),
    ensures
        tailer.after(events).pending == pending_tail(tailer.pending + tailer.consumed(events)),
        tailer.transcript(events) == data_messages(
            complete_lines(tailer.pending + tailer.consumed(events)),
        ) || tailer.transcript(events) == data_messages(
            complete_lines(tailer.pending + tailer.consumed(events)),
        ).push(MessageView::Shutdown),
    decreases events.len(),
{
    let stream = tailer.pending + tailer.consumed(events);
    if events.len() == 0 {
        assert(stream =~= tailer.pending);
        lemma_no_newline_all_pending(tailer.pending);
        assert(tailer.transcript(events) =~= data_messages(complete_lines(stream)));
    } else {
        let earlier = events.drop_last();
        let event = events.last();
        let before = tailer.after(earlier);
        let seen = tailer.pending + tailer.consumed(earlier);
        let chunk = before.taken(event);
        assert(stream =~= seen + chunk);
        lemma_split_chunked(seen, chunk);
        let old_lines = complete_lines(seen);
        let new_lines = complete_lines(pending_tail(seen) + chunk);
        assert(complete_lines(stream) == old_lines + new_lines);
        assert forall|i: int| 0 <= i < old_lines.len() implies valid_utf8(
            #[trigger] old_lines[i],
        ) by {
            assert(old_lines[i] == complete_lines(stream)[i]);
        }
        assert forall|i: int| 0 <= i < new_lines.len() implies valid_utf8(
            #[trigger] new_lines[i],
        ) by {
            assert(new_lines[i] == complete_lines(stream)[old_lines.len() + i]);
        }
        lemma_every_line_once(tailer, earlier);
        lemma_shutdown_is_last(tailer, earlier);
        lemma_marker_stops(before, event);
        assert(data_messages(old_lines + new_lines) =~= data_messages(old_lines) + data_messages(
            new_lines,
        ));
        if before.state == TailerState::Stopped {
            lemma_stopped_is_final(before, event);
            assert(seen + chunk =~= seen);
            assert(tailer.transcript(events) =~= tailer.transcript(earlier));
        } else {
            assert(no_shutdown(tailer.transcript(earlier)));
            if tailer.transcript(earlier) != data_messages(old_lines) {
                let marked = data_messages(old_lines).push(MessageView::Shutdown);
                assert(marked[marked.len() - 1] == MessageView::Shutdown);
                assert(false);
            }
            if chunk.len() > 0 {
                lemma_all_decoded(new_lines);
                assert(before.emitted(event) == data_messages(new_lines));
            } else {
                assert(pending_tail(seen) + chunk =~= pending_tail(seen));
                lemma_tail_has_no_newline(seen);
                lemma_no_newline_all_pending(pending_tail(seen));
                assert(data_messages(new_lines) =~= Seq::<MessageView>::empty());
                match event {
                    EventView::Read(given) => {
                        if before.awaits_read() && before.position + given.len() <= u64::MAX {
                            assert(given =~= Seq::<u8>::empty());
                            assert(before.pending + given =~= before.pending);
                            assert(before.emitted(event) =~= Seq::<MessageView>::empty());
                        }
                    },
                    _ => {},
                }
                assert(tailer.transcript(events) =~= data_messages(old_lines + new_lines)
                    || tailer.transcript(events) =~= data_messages(old_lines + new_lines).push(
                    MessageView::Shutdown,
                ));
            }
        }
    }
}

/// A tailer that has stopped cleanly has put the termination marker on the
/// queue.
pub proof fn lemma_clean_stop_has_marker(tailer: Tailer, events: Seq<EventView>)
    requires
        tailer.state != TailerState::Stopped,
        tailer.after(events).state == TailerState::Stopped,
        tailer.after(events).failure == None::<ErrorKind>,
    ensures
        tailer.transcript(events).len() > 0,
        tailer.transcript(events).last() == MessageView::Shutdown,
    decreases events.len(),
{
    if events.len() > 0 {
        let earlier = events.drop_last();
        let before = tailer.after(earlier);
        if before.state == TailerState::Stopped {
            lemma_stopped_is_final(before, events.last());
            lemma_clean_stop_has_marker(tailer, earlier);
            assert(tailer.transcript(events) =~= tailer.transcript(earlier));
        } else {
            assert(before.emitted(events.last()) == seq![MessageView::Shutdown]);
        }
    }
}

/// What is saved never counts the pending bytes. While no removal reaches
/// beyond the cursor, the cursor stays exactly the pending bytes behind the
/// place of the next read, through every event; and the cursor is the value
/// that a tailer asks to be saved.
pub proof fn lemma_cursor_excludes_pending(tailer: Tailer, event: EventView)
    requires
        tailer.wf(),
        tailer.cursor + tailer.pending.len() == tailer.position,
        tailer.action matches TailerAction::Collapse(bytes) ==> bytes <= tailer.cursor,
    ensures
        tailer.next(event).cursor + tailer.next(event).pending.len() == tailer.next(
            event,
        ).position,
        tailer.next(event).action matches TailerAction::Save(pos) ==> pos == tailer.next(
            event,
        ).cursor,
{
    lemma_next_wf(tailer, event);
    match event {
        EventView::Read(chunk) => {
            lemma_tail_within_chunk(tailer.pending, chunk);
        },
        _ => {},
    }
}

/// Restart resumption. A tailer that starts on a sidecar holding a cursor
/// inside the file watches from exactly that cursor with nothing pending:
/// its first read is at the saved offset, and restoring puts nothing on the
/// queue.
pub proof fn lemma_restart_resumes(
    lower_size: u64,
    upper_size: u64,
    blksize: u64,
    saved: u64,
    length: u64,
)
    requires
        saved <= length,
    ensures
        ({
            let fresh = Tailer::init(lower_size, upper_size, blksize);
            let event = EventView::Restored { saved: Some(le_bytes(saved as nat, 8)), length };
            &&& fresh.next(event).state == TailerState::Watching
            &&& fresh.next(event).cursor == saved
            &&& fresh.next(event).position == saved
            &&& fresh.next(event).pending == Seq::<u8>::empty()
            &&& fresh.emitted(event) == Seq::<MessageView>::empty()
            &&& fresh.next(event).next(EventView::Signal(false)).next(EventView::Notified).action
                == TailerAction::Read(saved)
            &&& fresh.next(event).next(EventView::Signal(true)).action == TailerAction::Read(saved)
        }),
{
    lemma_offset_round_trip(saved);
}

/// Nothing is lost or doubled across a clean restart. Let a tailer stop
/// cleanly, and let a second one start on the cursor it saved, in a file
/// that from there on holds what the first had pending and then `more`.
/// Whatever the events and however the reads fall, the first puts on the
/// queue the complete lines of what it read and then the marker; the second
/// the complete lines of what the first held back together with `more`; and
/// the two together each complete line of the whole stream once, in order.
pub proof fn lemma_restart_loses_nothing(
    first: Tailer,
    events: Seq<EventView>,
    length: u64,
    more: Seq<u8>,
    later: Seq<EventView>,
)
    requires
        first.wf(),
        first.state != TailerState::Stopped,
        first.after(events).state == TailerState::Stopped,
        first.after(events).failure == None::<ErrorKind>,
        first.after(events).cursor <= length,
        first.after(events).restarted(length).consumed(later) == first.after(events).pending
            + more,
        all_decodable(complete_lines(first.pending + first.consumed(events) + more)),
    ensures
        ({
            let stopped = first.after(events);
            let second = stopped.restarted(length);
            let read = first.pending + first.consumed(events);
            &&& second.wf()
            &&& second.state == TailerState::Watching
            &&& second.cursor == stopped.cursor
            &&& second.position == stopped.cursor
            &&& second.pending == Seq::<u8>::empty()
            &&& first.transcript(events) == data_messages(complete_lines(read)).push(
                MessageView::Shutdown,
            )
            &&& second.transcript(later) == data_messages(complete_lines(stopped.pending + more))
                || second.transcript(later) == data_messages(
                complete_lines(stopped.pending + more),
            ).push(MessageView::Shutdown)
            &&& data_messages(complete_lines(read)) + data_messages(
                complete_lines(stopped.pending + more),
            ) == data_messages(complete_lines(read + more))
        }),
{
    let stopped = first.after(events);
    let second = stopped.restarted(length);
    let read = first.pending + first.consumed(events);
    let old_lines = complete_lines(read);
    let new_lines = complete_lines(pending_tail(read) + more);
    lemma_offset_round_trip(stopped.cursor);
    lemma_after_wf(first, events);
    lemma_next_wf(
        Tailer::init(stopped.lower_size, stopped.upper_size, stopped.blksize),
        EventView::Restored { saved: Some(le_bytes(stopped.cursor as nat, 8)), length },
    );
    lemma_split_chunked(read, more);
    assert(complete_lines(read + more) == old_lines + new_lines);
    assert forall|i: int| 0 <= i < old_lines.len() implies valid_utf8(#[trigger] old_lines[i]) by {
        assert(old_lines[i] == complete_lines(read + more)[i]);
    }
    assert forall|i: int| 0 <= i < new_lines.len() implies valid_utf8(#[trigger] new_lines[i]) by {
        assert(new_lines[i] == complete_lines(read + more)[old_lines.len() + i]);
    }
    lemma_every_line_once(first, events);
    lemma_clean_stop_has_marker(first, events);
    if first.transcript(events) == data_messages(old_lines) {
        assert(data_messages(old_lines).last() != MessageView::Shutdown);
    }
    assert(second.pending + second.consumed(later) =~= stopped.pending + more);
    lemma_every_line_once(second, later);
    assert(data_messages(old_lines + new_lines) =~= data_messages(old_lines) + data_messages(
        new_lines,
    ));
}

/// A saved cursor that lies beyond the end of the file, as one saved before
/// a truncation does, is brought back to the end of the file; a tailer that
/// finds no sidecar starts at the beginning.
pub proof fn lemma_restart_recoheres(
    lower_size: u64,
    upper_size: u64,
    blksize: u64,
    saved: u64,
    length: u64,
)
    requires
        saved > length,
    ensures
        ({
            let fresh = Tailer::init(lower_size, upper_size, blksize);
            let late = fresh.next(
                EventView::Restored { saved: Some(le_bytes(saved as nat, 8)), length },
            );
            let bare = fresh.next(EventView::Restored { saved: None, length });
            &&& late.cursor == length
            &&& late.position == length
            &&& bare.cursor == 0
            &&& bare.position == 0
        }),
{
    lemma_offset_round_trip(saved);
}

/// Truncation in the life of a tailer. When a file measured at `size` bytes
/// has outgrown the upper limit by a block or more, the tailer asks for the
/// whole blocks above the lower limit to be removed. When that is done, its
/// cursor and the place of its next read have moved back by as much, both
/// lie within the shorter file, and the cursor is what it asks to be saved.
pub proof fn lemma_truncation_step(tailer: Tailer, size: u64)
    requires
        tailer.wf(),
        tailer.state == TailerState::Truncating,
        tailer.action == TailerAction::Measure,
        tailer.position <= size,
    ensures
        ({
            let bytes = removable_bytes(
                size as int,
                tailer.lower_size as int,
                tailer.upper_size as int,
                tailer.blksize as int,
            );
            let asked = tailer.next(EventView::Size(size));
            let done = asked.next(EventView::Collapsed);
            &&& 0 <= bytes <= size
            &&& bytes == 0 ==> asked.action == TailerAction::Save(tailer.cursor)
            &&& bytes > 0 ==> {
                &&& asked.action == TailerAction::Collapse(bytes as u64)
                &&& done.action == TailerAction::Save(done.cursor)
                &&& done.cursor == shifted_cursor(tailer.cursor as int, bytes)
                &&& done.position == shifted_cursor(tailer.position as int, bytes)
                &&& tailer.cursor >= bytes ==> done.cursor == tailer.cursor - bytes
                &&& done.cursor <= done.position <= size - bytes
                &&& asked.next(EventView::CollapseRefused).action == TailerAction::Save(
                    tailer.cursor,
                )
            }
        }),
{
    lemma_removable_bounds(
        size as int,
        tailer.lower_size as int,
        tailer.upper_size as int,
        tailer.blksize as int,
    );
}

/// The tailer of one log file.
pub struct FileQueue {
    state: TailerState,
    action: TailerAction,
    failure: Option<ErrorKind>,
    cursor: u64,
    position: u64,
    buffer: LineBuffer,
    produced: bool,
    lower_size: u64,
    upper_size: u64,
    blksize: u64,
}

impl View for FileQueue {
    type V = Tailer;

    closed spec fn view(&self) -> Tailer {
        Tailer {
            state: self.state,
            action: self.action,
            failure: self.failure,
            cursor: self.cursor,
            position: self.position,
            pending: self.buffer@,
            produced: self.produced,
            lower_size: self.lower_size,
            upper_size: self.upper_size,
            blksize: self.blksize,
        }
    }
}

impl FileQueue {
    /// The tailer is one that its constructor and its events can produce.
    pub open spec fn wf(&self) -> bool {
        self@.wf()
    }

    /// A tailer for a log file that is kept between `lower_size` and
    /// `upper_size` bytes on a filesystem with blocks of `blksize` bytes.
    /// It starts by asking for the saved cursor.
    pub fn new(lower_size: u64, upper_size: u64, blksize: u64) -> (queue: FileQueue)
        requires
            blksize > 0,
        ensures
            queue.wf(),
            queue@ == Tailer::init(lower_size, upper_size, blksize),
    {
        FileQueue {
            state: TailerState::Restoring,
            action: TailerAction::LoadState,
            failure: None,
            cursor: 0,
            position: 0,
            buffer: LineBuffer::new(),
            produced: false,
            lower_size,
            upper_size,
            blksize,
        }
    }

    /// Where the tailer stands.
    pub fn state(&self) -> (state: TailerState)
        ensures
            state == self@.state,
    {
        self.state
    }

    /// The action whose outcome the tailer awaits.
    pub fn next_action(&self) -> (action: TailerAction)
        ensures
            action == self@.action,
    {
        self.action
    }

    /// Why the tailer stopped, unless it runs or stopped cleanly.
    pub fn failure(&self) -> (failure: Option<ErrorKind>)
        ensures
            failure == self@.failure,
    {
        self.failure
    }

    /// Offset in the log file just after the last complete line that was
    /// read: the value that is saved.
    pub fn cursor(&self) -> (cursor: u64)
        ensures
            cursor == self@.cursor,
    {
        self.cursor
    }

    /// Offset in the log file at which the next read takes place.
    pub fn position(&self) -> (position: u64)
        ensures
            position == self@.position,
    {
        self.position
    }

    /// Number of bytes read after the last newline.
    pub fn pending_len(&self) -> (n: usize)
        ensures
            n == self@.pending.len(),
    {
        self.buffer.len()
    }

    /// Whether the tailer has stopped.
    pub fn is_stopped(&self) -> (stopped: bool)
        ensures
            stopped == (self@.state == TailerState::Stopped),
    {
        match self.state {
            TailerState::Stopped => true,
            _ => false,
        }
    }

    fn stop(&mut self, failure: Option<ErrorKind>)
        ensures
            final(self)@ == old(self)@.stopped(failure),
    {
        self.state = TailerState::Stopped;
        self.action = TailerAction::Stop;
        self.failure = failure;
    }

    fn watch(&mut self)
        ensures
            final(self)@ == old(self)@.watching(),
    {
        self.state = TailerState::Watching;
        self.action = TailerAction::CheckSignal;
    }

    fn restore(&mut self, saved: &Option<Vec<u8>>, length: u64)
        ensures
            final(self)@ == old(self)@.restored(
                match saved {
                    Some(bytes) => Some(bytes@),
                    None => None,
                },
                length,
            ),
    {
        match saved {
            None => {
                self.cursor = 0;
                self.position = 0;
                self.watch();
            },
            Some(bytes) => match decode_offset(bytes.as_slice()) {
                Ok(pos) => {
                    self.cursor = if pos <= length {
                        pos
                    } else {
                        length
                    };
                    self.position = self.cursor;
                    self.watch();
                },
                Err(_) => {
                    self.stop(Some(ErrorKind::IOError));
                },
            },
        }
    }

    fn drain(&mut self, chunk: &Vec<u8>) -> (out: Vec<QueueMessage>)
        requires
            old(self).wf(),
            old(self)@.awaits_read(),
        ensures
            final(self)@ == old(self)@.drained(chunk@),
            message_views(out@) == old(self)@.drained_messages(chunk@),
    {
        if chunk.len() as u64 > u64::MAX - self.position {
            self.stop(Some(ErrorKind::IOError));
            let out: Vec<QueueMessage> = Vec::new();
            assert(message_views(out@) =~= Seq::<MessageView>::empty());
            return out;
        }
        proof {
            lemma_tail_within_chunk(self.buffer@, chunk@);
        }
        let lines = self.buffer.feed(chunk.as_slice());
        self.position = self.position + chunk.len() as u64;
        if lines.len() > 0 {
            self.produced = true;
            self.cursor = self.position - self.buffer.len() as u64;
        }
        let (out, decoded) = decode_lines(&lines);
        if !decoded {
            self.stop(Some(ErrorKind::Utf8Error));
        } else if chunk.len() > 0 && self.buffer.is_empty() {
            self.action = TailerAction::Read(self.position);
        } else {
            match self.state {
                TailerState::Finalizing => {
                    self.action = TailerAction::Save(self.cursor);
                },
                _ => {
                    if self.produced {
                        self.state = TailerState::Truncating;
                        self.action = TailerAction::Measure;
                    } else {
                        self.watch();
                    }
                },
            }
        }
        out
    }

    fn measure(&mut self, size: u64)
        requires
            old(self).wf(),
        ensures
            final(self)@ == old(self)@.measured(size),
    {
        let bytes = bytes_to_remove(size, self.lower_size, self.upper_size, self.blksize);
        if bytes > 0 {
            self.action = TailerAction::Collapse(bytes);
        } else {
            self.action = TailerAction::Save(self.cursor);
        }
    }

    /// Takes in the outcome of the awaited action and returns the messages
    /// to put on the queue, in order. An event that does not answer the
    /// awaited action changes nothing.
    pub fn handle(&mut self, event: &TailerEvent) -> (out: Vec<QueueMessage>)
        requires
            old(self).wf(),
        ensures
            final(self).wf(),
            final(self)@ == old(self)@.next(event@),
            message_views(out@) == old(self)@.emitted(event@),
    {
        proof {
            lemma_next_wf(self@, event@);
        }
        let mut out: Vec<QueueMessage> = Vec::new();
        assert(message_views(out@) =~= Seq::<MessageView>::empty());
        if self.is_stopped() {
            match event {
                TailerEvent::QueueClosed => {
                    if self.failure.is_none() {
                        self.stop(Some(ErrorKind::ChanError));
                    }
                },
                _ => {},
            }
            return out;
        }
        match event {
            TailerEvent::QueueClosed => {
                self.stop(Some(ErrorKind::ChanError));
            },
            TailerEvent::IoFailed => {
                self.stop(Some(ErrorKind::IOError));
            },
            TailerEvent::Restored { saved, length } => {
                match self.state {
                    TailerState::Restoring => {
                        self.restore(saved, *length);
                    },
                    _ => {},
                }
            },
            TailerEvent::Signal(raised) => {
                match (self.state, self.action) {
                    (TailerState::Watching, TailerAction::CheckSignal) => {
                        if *raised {
                            self.produced = false;
                            self.state = TailerState::Finalizing;
                            self.action = TailerAction::Read(self.position);
                        } else {
                            self.action = TailerAction::Wait;
                        }
                    },
                    _ => {},
                }
            },
            TailerEvent::Notified => {
                match (self.state, self.action) {
                    (TailerState::Watching, TailerAction::Wait) => {
                        self.produced = false;
                        self.state = TailerState::Draining;
                        self.action = TailerAction::Read(self.position);
                    },
                    _ => {},
                }
            },
            TailerEvent::Interrupted => {
                match (self.state, self.action) {
                    (TailerState::Watching, TailerAction::Wait) => {
                        self.watch();
                    },
                    _ => {},
                }
            },
            TailerEvent::Read(chunk) => {
                let reading = match (self.state, self.action) {
                    (TailerState::Draining, _) => true,
                    (TailerState::Finalizing, TailerAction::Read(_)) => true,
                    _ => false,
                };
                if reading {
                    out = self.drain(chunk);
                }
            },
            TailerEvent::Size(size) => {
                match (self.state, self.action) {
                    (TailerState::Truncating, TailerAction::Measure) => {
                        self.measure(*size);
                    },
                    _ => {},
                }
            },
            TailerEvent::Collapsed => {
                match (self.state, self.action) {
                    (TailerState::Truncating, TailerAction::Collapse(bytes)) => {
                        self.cursor = shift_cursor(self.cursor, bytes);
                        self.position = shift_cursor(self.position, bytes);
                        self.action = TailerAction::Save(self.cursor);
                    },
                    _ => {},
                }
            },
            TailerEvent::CollapseRefused => {
                match (self.state, self.action) {
                    (TailerState::Truncating, TailerAction::Collapse(_)) => {
                        self.action = TailerAction::Save(self.cursor);
                    },
                    _ => {},
                }
            },
            TailerEvent::Saved => {
                match (self.state, self.action) {
                    (TailerState::Truncating, TailerAction::Save(_)) => {
                        self.watch();
                    },
                    (TailerState::Finalizing, TailerAction::Save(_)) => {
                        self.stop(None);
                        out.push(QueueMessage::Shutdown);
                        assert(message_views(out@) =~= seq![MessageView::Shutdown]);
                    },
                    _ => {},
                }
            },
        }
        out
    }

    /// Takes in a whole script of events, in order, and returns everything
    /// they put on the queue.
    pub fn run(&mut self, events: &Vec<TailerEvent>) -> (out: Vec<QueueMessage>)
        requires
            old(self).wf(),
        ensures
            final(self).wf(),
            final(self)@ == old(self)@.after(event_views(events@)),
            message_views(out@) == old(self)@.transcript(event_views(events@)),
    {
        let ghost start = self@;
        let ghost script = event_views(events@);
        let mut out: Vec<QueueMessage> = Vec::new();
        let mut i: usize = 0;
        proof {
            assert(script.take(0) =~= Seq::<EventView>::empty());
            assert(message_views(out@) =~= Seq::<MessageView>::empty());
        }
        while i < events.len()
            invariant
                i <= events@.len(),
                script == event_views(events@),
                self.wf(),
                self@ == start.after(script.take(i as int)),
                message_views(out@) == start.transcript(script.take(i as int)),
            decreases events@.len() - i,
        {
            let ghost before = out@;
            let mut more = self.handle(&events[i]);
            proof {
                assert(script.take(i + 1).drop_last() =~= script.take(i as int));
                assert(script.take(i + 1).last() == events@[i as int]@);
            }
            let ghost added = more@;
            out.append(&mut more);
            proof {
                assert(message_views(out@) =~= message_views(before) + message_views(added));
            }
            i += 1;
        }
        proof {
            assert(script.take(i as int) =~= script);
        }
        out
    }
}

} // verus!
