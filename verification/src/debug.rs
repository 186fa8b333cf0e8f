//! Debug mode: what comes off the queue is printed instead of sent.

use vstd::prelude::*;

use crate::queue::{message_views, MessageView, QueueMessage};

verus! {

/// Exit status after the termination marker was seen.
pub const EXIT_CLEAN: i32 = 0;

/// Exit status when the queue closed without the termination marker.
pub const EXIT_PRODUCER_GONE: i32 = 1;

/// What is printed for a line.
pub open spec fn recv_text(line: Seq<char>) -> Seq<char> {
    "Recv: "@ + line
}

/// Number of messages before the first termination marker; the number of
/// messages when there is none.
pub open spec fn until_marker(messages: Seq<MessageView>) -> nat
    decreases messages.len(),
{
    if messages.len() == 0 {
        0
    } else if messages.first() == MessageView::Shutdown {
        0
    } else {
        1 + until_marker(messages.drop_first())
    }
}

/// What is printed for `messages`: one text for each line before the first
/// termination marker, in order.
pub open spec fn printed(messages: Seq<MessageView>) -> Seq<Seq<char>> {
    Seq::new(
        until_marker(messages),
        |i: int|
            match messages[i] {
                MessageView::Data(line) => recv_text(line),
                MessageView::Shutdown => Seq::empty(),
            },
    )
}

/// The exit status after `messages` and the closing of the queue.
pub open spec fn exit_status(messages: Seq<MessageView>) -> i32 {
    if until_marker(messages) < messages.len() {
        EXIT_CLEAN
    } else {
        EXIT_PRODUCER_GONE
    }
}

/// The views of a sequence of strings.
pub open spec fn text_views(texts: Seq<String>) -> Seq<Seq<char>> {
    Seq::new(texts.len(), |i: int| texts[i]@)
}

/// The count of messages before the marker is the one index below which
/// every message is data and at which, unless the messages end there, the
/// marker stands.
pub proof fn lemma_until_marker(messages: Seq<MessageView>, k: int)
    requires
        0 <= k <= messages.len(),
        forall|i: int| 0 <= i < k ==> messages[i] != MessageView::Shutdown,
        k < messages.len() ==> messages[k] == MessageView::Shutdown,
    ensures
        until_marker(messages) == k,
    decreases messages.len(),
{
    if messages.len() > 0 && k > 0 {
        let rest = messages.drop_first();
        assert(messages[0] != MessageView::Shutdown);
        assert forall|i: int| 0 <= i < k - 1 implies rest[i] != MessageView::Shutdown by {
            assert(rest[i] == messages[i + 1]);
        }
        lemma_until_marker(rest, k - 1);
    }
}

/// What is printed for a line: the line behind the prefix `Recv: `.
pub fn debug_line(line: &str) -> (text: String)
    ensures
        text@ == recv_text(line@),
{
    let mut text = String::from_str("Recv: ");
    text.append(line);
    text
}

/// What is printed for one message; nothing for the termination marker,
/// which ends the output.
pub fn debug_message(message: &QueueMessage) -> (text: Option<String>)
    ensures
        match message@ {
            MessageView::Data(line) => text.is_some() && text.unwrap()@ == recv_text(line),
            MessageView::Shutdown => text.is_none(),
        },
{
    match message {
        QueueMessage::Data(line) => Some(debug_line(line.as_str())),
        QueueMessage::Shutdown => None,
    }
}

/// What debug mode prints for the messages that came off the queue before
/// it closed, and the status it exits with: the lines up to the first
/// termination marker, and a clean exit exactly when there was a marker.
pub fn debug_run(messages: &Vec<QueueMessage>) -> (r: (Vec<String>, i32))
    ensures
        text_views(r.0@) == printed(message_views(messages@)),
        r.1 == exit_status(message_views(messages@)),
{
    let ghost all = message_views(messages@);
    let mut out: Vec<String> = Vec::new();
    let mut i: usize = 0;
    while i < messages.len()
        invariant
            i <= messages@.len(),
            all == message_views(messages@),
            forall|j: int| 0 <= j < i ==> all[j] != MessageView::Shutdown,
            out@.len() == i,
            forall|j: int|
                0 <= j < i ==> (#[trigger] out@[j])@ == match all[j] {
                    MessageView::Data(line) => recv_text(line),
                    MessageView::Shutdown => Seq::empty(),
                },
        decreases messages@.len() - i,
    {
        assert(all[i as int] == messages@[i as int]@);
        match debug_message(&messages[i]) {
            Some(text) => {
                out.push(text);
            },
            None => {
                proof {
                    lemma_until_marker(all, i as int);
                    assert(text_views(out@) =~= printed(all));
                }
                return (out, EXIT_CLEAN);
            },
        }
        i += 1;
    }
    proof {
        lemma_until_marker(all, i as int);
        assert(text_views(out@) =~= printed(all));
    }
    (out, EXIT_PRODUCER_GONE)
}

} // verus!
