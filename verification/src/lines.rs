//! Splitting a growing byte stream into newline-terminated lines.
//!
//! The stream arrives in chunks of any size. What has been seen so far falls
//! into the complete lines, each ending in its newline, and the pending tail
//! after the last newline, which is kept back until a later chunk ends it.

use vstd::prelude::*;

verus! {

/// The byte that ends a line.
pub const NEWLINE: u8 = 10;

/// No byte of `bytes` is a newline.
pub open spec fn no_newline(bytes: Seq<u8>) -> bool {
    forall|i: int| 0 <= i < bytes.len() ==> bytes[i] != NEWLINE
}

/// `bytes` is one complete line: it ends in a newline and holds no other.
pub open spec fn is_line(bytes: Seq<u8>) -> bool {
    &&& bytes.len() > 0
    &&& bytes.last() == NEWLINE
    &&& no_newline(bytes.drop_last())
}

/// What follows the last newline of `bytes`; all of `bytes` when it holds
/// no newline.
pub open spec fn pending_tail(bytes: Seq<u8>) -> Seq<u8>
    decreases bytes.len(),
{
    if bytes.len() == 0 {
        Seq::empty()
    } else if bytes.last() == NEWLINE {
        Seq::empty()
    } else {
        pending_tail(bytes.drop_last()).push(bytes.last())
    }
}

/// The complete lines of `bytes` in order, each with its newline.
pub open spec fn complete_lines(bytes: Seq<u8>) -> Seq<Seq<u8>>
    decreases bytes.len(),
{
    if bytes.len() == 0 {
        Seq::empty()
    } else if bytes.last() == NEWLINE {
        complete_lines(bytes.drop_last()).push(pending_tail(bytes.drop_last()).push(NEWLINE))
    } else {
        complete_lines(bytes.drop_last())
    }
}

/// The pieces of `parts` laid end to end.
pub open spec fn joined(parts: Seq<Seq<u8>>) -> Seq<u8>
    decreases parts.len(),
{
    if parts.len() == 0 {
        Seq::empty()
    } else {
        joined(parts.drop_last()) + parts.last()
    }
}

/// The lines that come out when `chunks` are fed one after another to a
/// splitter that holds `pending`, and the tail it holds afterwards.
pub open spec fn fed(pending: Seq<u8>, chunks: Seq<Seq<u8>>) -> (Seq<Seq<u8>>, Seq<u8>)
    decreases chunks.len(),
{
    if chunks.len() == 0 {
        (Seq::empty(), pending)
    } else {
        let before = fed(pending, chunks.drop_last());
        let seen = before.1 + chunks.last();
        (before.0 + complete_lines(seen), pending_tail(seen))
    }
}

/// The views of a vector of byte vectors.
pub open spec fn line_views(lines: Seq<Vec<u8>>) -> Seq<Seq<u8>> {
    Seq::new(lines.len(), |i: int| lines[i]@)
}

/// The pending tail holds no newline.
pub proof fn lemma_tail_has_no_newline(bytes: Seq<u8>)
    ensures
        no_newline(pending_tail(bytes)),
    decreases bytes.len(),
{
    if bytes.len() > 0 && bytes.last() != NEWLINE {
        lemma_tail_has_no_newline(bytes.drop_last());
    }
}

/// Bytes without a newline are all pending and hold no complete line.
pub proof fn lemma_no_newline_all_pending(bytes: Seq<u8>)
    requires
        no_newline(bytes),
    ensures
        pending_tail(bytes) == bytes,
        complete_lines(bytes) == Seq::<Seq<u8>>::empty(),
    decreases bytes.len(),
{
    if bytes.len() > 0 {
        lemma_no_newline_all_pending(bytes.drop_last());
        assert(bytes.drop_last().push(bytes.last()) =~= bytes);
    } else {
        assert(pending_tail(bytes) =~= bytes);
    }
}

/// Where what was held back holds no newline, a chunk either completes no
/// line, and everything stays pending, or the new tail lies within the chunk.
pub proof fn lemma_tail_within_chunk(pending: Seq<u8>, chunk: Seq<u8>)
    requires
        no_newline(pending),
    ensures
        complete_lines(pending + chunk).len() == 0 ==> pending_tail(pending + chunk) == pending
            + chunk,
        complete_lines(pending + chunk).len() > 0 ==> pending_tail(pending + chunk).len()
            < chunk.len(),
    decreases chunk.len(),
{
    if chunk.len() == 0 {
        assert(pending + chunk =~= pending);
        lemma_no_newline_all_pending(pending);
    } else {
        let shorter = chunk.drop_last();
        lemma_tail_within_chunk(pending, shorter);
        assert((pending + chunk).drop_last() =~= pending + shorter);
        assert((pending + chunk).last() == chunk.last());
        if chunk.last() != NEWLINE && complete_lines(pending + chunk).len() == 0 {
            assert((pending + shorter).push(chunk.last()) =~= pending + chunk);
        }
    }
}

/// No partial delivery: every line that is handed out ends in a newline and
/// holds no other, and what is kept back holds none.
pub proof fn lemma_lines_are_complete(bytes: Seq<u8>)
    ensures
        forall|i: int|
            0 <= i < complete_lines(bytes).len() ==> is_line(#[trigger] complete_lines(bytes)[i]),
        no_newline(pending_tail(bytes)),
    decreases bytes.len(),
{
    lemma_tail_has_no_newline(bytes);
    if bytes.len() > 0 {
        let front = bytes.drop_last();
        lemma_lines_are_complete(front);
        if bytes.last() == NEWLINE {
            lemma_tail_has_no_newline(front);
            let line = pending_tail(front).push(NEWLINE);
            assert(line.drop_last() =~= pending_tail(front));
            assert(is_line(line));
            assert forall|i: int| 0 <= i < complete_lines(bytes).len() implies is_line(
                #[trigger] complete_lines(bytes)[i],
            ) by {
                if i < complete_lines(front).len() {
                    assert(complete_lines(bytes)[i] == complete_lines(front)[i]);
                } else {
                    assert(complete_lines(bytes)[i] == line);
                }
            }
        }
    }
}

/// Completeness: the lines laid end to end, followed by the pending tail,
/// are the bytes that were seen. Nothing is lost, doubled or reordered.
pub proof fn lemma_split_partition(bytes: Seq<u8>)
    ensures
        joined(complete_lines(bytes)) + pending_tail(bytes) == bytes,
    decreases bytes.len(),
{
    if bytes.len() == 0 {
        assert(joined(complete_lines(bytes)) + pending_tail(bytes) =~= bytes);
    } else {
        let front = bytes.drop_last();
        lemma_split_partition(front);
        assert(front.push(bytes.last()) =~= bytes);
        if bytes.last() == NEWLINE {
            let line = pending_tail(front).push(NEWLINE);
            let lines = complete_lines(front).push(line);
            assert(lines.drop_last() =~= complete_lines(front));
            assert(joined(lines) =~= joined(complete_lines(front)) + line);
            assert(joined(lines) + pending_tail(bytes) =~= (joined(complete_lines(front))
                + pending_tail(front)).push(NEWLINE));
        } else {
            assert(joined(complete_lines(bytes)) + pending_tail(bytes) =~= (joined(
                complete_lines(front),
            ) + pending_tail(front)).push(bytes.last()));
        }
    }
}

/// A stream that ends in a newline is made of its complete lines alone.
pub proof fn lemma_terminated_stream_is_its_lines(bytes: Seq<u8>)
    requires
        bytes.len() == 0 || bytes.last() == NEWLINE,
    ensures
        pending_tail(bytes) == Seq::<u8>::empty(),
        joined(complete_lines(bytes)) == bytes,
{
    lemma_split_partition(bytes);
    assert(joined(complete_lines(bytes)) + Seq::<u8>::empty() =~= joined(complete_lines(bytes)));
}

/// Splitting does not depend on where the stream was cut: the lines of
/// `head + rest` are the lines of `head` followed by the lines of what `head`
/// left pending together with `rest`, and the same tail stays pending.
pub proof fn lemma_split_chunked(head: Seq<u8>, rest: Seq<u8>)
    ensures
        complete_lines(head + rest) == complete_lines(head) + complete_lines(
            pending_tail(head) + rest,
        ),
        pending_tail(head + rest) == pending_tail(pending_tail(head) + rest),
    decreases rest.len(),
{
    let kept = pending_tail(head);
    if rest.len() == 0 {
        assert(head + rest =~= head);
        assert(kept + rest =~= kept);
        lemma_tail_has_no_newline(head);
        lemma_no_newline_all_pending(kept);
        assert(complete_lines(head) + Seq::<Seq<u8>>::empty() =~= complete_lines(head));
    } else {
        let shorter = rest.drop_last();
        lemma_split_chunked(head, shorter);
        assert((head + rest).drop_last() =~= head + shorter);
        assert((kept + rest).drop_last() =~= kept + shorter);
        assert((head + rest).last() == rest.last());
        assert((kept + rest).last() == rest.last());
        if rest.last() == NEWLINE {
            let line = pending_tail(kept + shorter).push(NEWLINE);
            assert(complete_lines(head + rest) =~= complete_lines(head) + complete_lines(
                kept + shorter,
            ).push(line));
        }
    }
}

/// There is one way only to cut a stream into complete lines and a tail
/// without a newline: the way of `complete_lines` and `pending_tail`.
pub proof fn lemma_split_is_unique(lines: Seq<Seq<u8>>, tail: Seq<u8>, bytes: Seq<u8>)
    requires
        forall|i: int| 0 <= i < lines.len() ==> is_line(#[trigger] lines[i]),
        no_newline(tail),
        joined(lines) + tail == bytes,
    ensures
        lines == complete_lines(bytes),
        tail == pending_tail(bytes),
    decreases bytes.len(),
{
    if tail.len() > 0 {
        let front = bytes.drop_last();
        assert(bytes.last() == tail.last());
        assert(front =~= joined(lines) + tail.drop_last());
        lemma_split_is_unique(lines, tail.drop_last(), front);
        assert(tail.drop_last().push(tail.last()) =~= tail);
    } else if lines.len() == 0 {
        assert(bytes =~= Seq::<u8>::empty());
        assert(lines =~= complete_lines(bytes));
        assert(tail =~= pending_tail(bytes));
    } else {
        let line = lines.last();
        let earlier = lines.drop_last();
        let front = bytes.drop_last();
        assert(is_line(line));
        assert(bytes =~= joined(earlier) + line);
        assert(bytes.last() == NEWLINE);
        assert(front =~= joined(earlier) + line.drop_last());
        assert forall|i: int| 0 <= i < earlier.len() implies is_line(#[trigger] earlier[i]) by {
            assert(earlier[i] == lines[i]);
        }
        lemma_split_is_unique(earlier, line.drop_last(), front);
        assert(line.drop_last().push(NEWLINE) =~= line);
        assert(earlier.push(line) =~= lines);
        assert(tail =~= pending_tail(bytes));
    }
}

/// Completeness and order, however the stream was chunked: feeding the
/// chunks one by one hands out the complete lines of the whole stream in
/// order, and keeps back its pending tail.
pub proof fn lemma_fed_is_split(pending: Seq<u8>, chunks: Seq<Seq<u8>>)
    requires
        no_newline(pending),
    ensures
        fed(pending, chunks).0 == complete_lines(pending + joined(chunks)),
        fed(pending, chunks).1 == pending_tail(pending + joined(chunks)),
    decreases chunks.len(),
{
    if chunks.len() == 0 {
        assert(pending + joined(chunks) =~= pending);
        lemma_no_newline_all_pending(pending);
    } else {
        let earlier = chunks.drop_last();
        lemma_fed_is_split(pending, earlier);
        lemma_split_chunked(pending + joined(earlier), chunks.last());
        assert(pending + joined(chunks) =~= (pending + joined(earlier)) + chunks.last());
    }
}

/// The part of a byte stream that no newline has ended yet.
pub struct LineBuffer {
    pending: Vec<u8>,
}

impl View for LineBuffer {
    type V = Seq<u8>;

    /// The pending bytes.
    closed spec fn view(&self) -> Seq<u8> {
        self.pending@
    }
}

impl LineBuffer {
    /// The pending bytes hold no newline.
    pub open spec fn wf(&self) -> bool {
        no_newline(self@)
    }

    /// A buffer that holds nothing.
    pub fn new() -> (buffer: LineBuffer)
        ensures
            buffer@ == Seq::<u8>::empty(),
            buffer.wf(),
    {
        LineBuffer { pending: Vec::new() }
    }

    /// Number of pending bytes.
    pub fn len(&self) -> (n: usize)
        ensures
            n == self@.len(),
    {
        self.pending.len()
    }

    /// Whether nothing is pending.
    pub fn is_empty(&self) -> (empty: bool)
        ensures
            empty == (self@.len() == 0),
    {
        self.pending.len() == 0
    }

    /// The pending bytes.
    pub fn pending(&self) -> (bytes: &Vec<u8>)
        ensures
            bytes@ == self@,
    {
        &self.pending
    }

    /// Takes in the next chunk of the stream. Returns the lines that the
    /// chunk completed, in order; what follows its last newline stays pending.
    pub fn feed(&mut self, chunk: &[u8]) -> (lines: Vec<Vec<u8>>)
        requires
            old(self).wf(),
        ensures
            final(self).wf(),
            line_views(lines@) == complete_lines(old(self)@ + chunk@),
            final(self)@ == pending_tail(old(self)@ + chunk@),
    {
        let ghost start = self@;
        let mut lines: Vec<Vec<u8>> = Vec::new();
        let mut current: Vec<u8> = Vec::new();
        std::mem::swap(&mut self.pending, &mut current);
        proof {
            lemma_no_newline_all_pending(start);
            assert(start + chunk@.subrange(0, 0) =~= start);
            assert(line_views(lines@) =~= complete_lines(start));
        }
        let mut i: usize = 0;
        while i < chunk.len()
            invariant
                i <= chunk@.len(),
                line_views(lines@) == complete_lines(start + chunk@.subrange(0, i as int)),
                current@ == pending_tail(start + chunk@.subrange(0, i as int)),
            decreases chunk@.len() - i,
        {
            let byte = chunk[i];
            let ghost seen = start + chunk@.subrange(0, i as int);
            let ghost next = start + chunk@.subrange(0, i + 1);
            proof {
                assert(next.drop_last() =~= seen);
                assert(next.last() == byte);
            }
            current.push(byte);
            if byte == NEWLINE {
                let mut done: Vec<u8> = Vec::new();
                std::mem::swap(&mut current, &mut done);
                let ghost before = lines@;
                lines.push(done);
                proof {
                    assert(line_views(lines@) =~= line_views(before).push(done@));
                }
            }
            i += 1;
        }
        proof {
            assert(chunk@.subrange(0, i as int) =~= chunk@);
            lemma_tail_has_no_newline(start + chunk@);
        }
        self.pending = current;
        lines
    }
}

} // verus!
