//! What travels on the queue between the tailer and the forwarder.

use vstd::prelude::*;
use vstd::utf8::*;

use crate::lines::line_views;

verus! {

/// One message on the queue.
#[derive(Clone, Debug, PartialEq, Eq)]
pub enum QueueMessage {
    /// A complete line of the log file, its newline included.
    Data(String),
    /// The tailer has finished; nothing follows.
    Shutdown,
}

/// A message as contracts see it.
pub enum MessageView {
    Data(Seq<char>),
    Shutdown,
}

impl View for QueueMessage {
    type V = MessageView;

    open spec fn view(&self) -> MessageView {
        match self {
            QueueMessage::Data(text) => MessageView::Data(text@),
            QueueMessage::Shutdown => MessageView::Shutdown,
        }
    }
}

/// The views of a sequence of messages.
pub open spec fn message_views(messages: Seq<QueueMessage>) -> Seq<MessageView> {
    Seq::new(messages.len(), |i: int| messages[i]@)
}

/// One data message for each line, holding the text that the line encodes.
pub open spec fn data_messages(lines: Seq<Seq<u8>>) -> Seq<MessageView> {
    Seq::new(lines.len(), |i: int| MessageView::Data(decode_utf8(lines[i])))
}

/// Every line is valid UTF-8.
pub open spec fn all_decodable(lines: Seq<Seq<u8>>) -> bool {
    forall|i: int| 0 <= i < lines.len() ==> valid_utf8(#[trigger] lines[i])
}

/// Number of lines before the first that is not valid UTF-8; the number of
/// lines when all are valid.
pub open spec fn decodable_prefix(lines: Seq<Seq<u8>>) -> nat
    decreases lines.len(),
{
    if lines.len() == 0 {
        0
    } else if !valid_utf8(lines.first()) {
        0
    } else {
        1 + decodable_prefix(lines.drop_first())
    }
}

/// The decodable prefix is the one index up to which every line is valid
/// and at which, unless the lines end there, one is not.
pub proof fn lemma_decodable_prefix(lines: Seq<Seq<u8>>, k: int)
    requires
        0 <= k <= lines.len(),
        forall|i: int| 0 <= i < k ==> valid_utf8(#[trigger] lines[i]),
        k < lines.len() ==> !valid_utf8(lines[k]),
    ensures
        decodable_prefix(lines) == k,
    decreases lines.len(),
{
    if lines.len() > 0 && k > 0 {
        let rest = lines.drop_first();
        assert(valid_utf8(lines[0]));
        assert forall|i: int| 0 <= i < k - 1 implies valid_utf8(#[trigger] rest[i]) by {
            assert(rest[i] == lines[i + 1]);
        }
        lemma_decodable_prefix(rest, k - 1);
    }
}

/// The decodable prefix covers all lines exactly when all are valid.
pub proof fn lemma_decodable_prefix_bounds(lines: Seq<Seq<u8>>)
    ensures
        decodable_prefix(lines) <= lines.len(),
        decodable_prefix(lines) == lines.len() <==> all_decodable(lines),
        forall|i: int| 0 <= i < decodable_prefix(lines) ==> valid_utf8(#[trigger] lines[i]),
    decreases lines.len(),
{
    if lines.len() > 0 {
        let rest = lines.drop_first();
        lemma_decodable_prefix_bounds(rest);
        if valid_utf8(lines.first()) {
            assert forall|i: int| 0 <= i < decodable_prefix(lines) implies valid_utf8(
                #[trigger] lines[i],
            ) by {
                if i > 0 {
                    assert(lines[i] == rest[i - 1]);
                }
            }
            if all_decodable(rest) {
                assert forall|i: int| 0 <= i < lines.len() implies valid_utf8(
                    #[trigger] lines[i],
                ) by {
                    if i > 0 {
                        assert(lines[i] == rest[i - 1]);
                    }
                }
            }
            if all_decodable(lines) {
                assert forall|i: int| 0 <= i < rest.len() implies valid_utf8(
                    #[trigger] rest[i],
                ) by {
                    assert(rest[i] == lines[i + 1]);
                }
            }
        } else {
            assert(!valid_utf8(lines[0]));
        }
    }
}

/// `String::from_utf8` on a copy of `bytes`: it succeeds exactly on valid
/// UTF-8, and the string it gives is the text that the bytes encode.
#[verifier::external_body]
fn string_from_utf8(bytes: &Vec<u8>) -> (text: Option<String>)
    ensures
        text.is_some() == valid_utf8(bytes@),
        text matches Some(s) ==> s@ == decode_utf8(bytes@),
{
    match String::from_utf8(bytes.clone()) {
        Ok(s) => Some(s),
        Err(_) => None,
    }
}

/// Decodes lines into data messages, in order, up to the first line that is
/// not valid UTF-8. The flag tells whether every line was decoded.
pub fn decode_lines(lines: &Vec<Vec<u8>>) -> (r: (Vec<QueueMessage>, bool))
    ensures
        message_views(r.0@) == data_messages(
            line_views(lines@).take(decodable_prefix(line_views(lines@)) as int),
        ),
        r.1 == all_decodable(line_views(lines@)),
{
    let ghost all = line_views(lines@);
    let mut out: Vec<QueueMessage> = Vec::new();
    let mut i: usize = 0;
    proof {
        lemma_decodable_prefix_bounds(all);
        assert(message_views(out@) =~= data_messages(all.take(0)));
    }
    while i < lines.len()
        invariant
            i <= lines@.len(),
            all == line_views(lines@),
            forall|j: int| 0 <= j < i ==> valid_utf8(#[trigger] all[j]),
            message_views(out@) == data_messages(all.take(i as int)),
        decreases lines@.len() - i,
    {
        assert(all[i as int] == lines@[i as int]@);
        match string_from_utf8(&lines[i]) {
            Some(text) => {
                let ghost before = out@;
                out.push(QueueMessage::Data(text));
                proof {
                    assert(all.take(i + 1) =~= all.take(i as int).push(all[i as int]));
                    assert(message_views(out@) =~= message_views(before).push(
                        MessageView::Data(text@),
                    ));
                    assert(message_views(out@) =~= data_messages(all.take(i + 1)));
                }
            },
            None => {
                proof {
                    lemma_decodable_prefix(all, i as int);
                }
                return (out, false);
            },
        }
        i += 1;
    }
    proof {
        lemma_decodable_prefix(all, i as int);
    }
    (out, true)
}

impl QueueMessage {
    /// Whether this is the termination marker.
    pub fn is_shutdown(&self) -> (last: bool)
        ensures
            last == (self@ == MessageView::Shutdown),
    {
        match self {
            QueueMessage::Shutdown => true,
            QueueMessage::Data(_) => false,
        }
    }

    /// The line that a data message carries.
    pub fn line(&self) -> (text: Option<&String>)
        ensures
            match self@ {
                MessageView::Data(chars) => text.is_some() && text.unwrap()@ == chars,
                MessageView::Shutdown => text.is_none(),
            },
    {
        match self {
            QueueMessage::Data(text) => Some(text),
            QueueMessage::Shutdown => None,
        }
    }
}

} // verus!
