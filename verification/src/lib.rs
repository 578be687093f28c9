//! Adapt a byte-oriented writer into a push-based sink of byte-like items.
//!
//! The adapter accepts one item at a time and writes it fully into the
//! wrapped writer before accepting the next. Its heart is a small state
//! machine over a single slot holding at most one pending item together with
//! an offset recording how many of its bytes the writer has already accepted.
//! The writer itself is polled by the surrounding runtime glue; this crate
//! verifies the state machine: every byte of every accepted item reaches the
//! writer exactly once and in order.

use vstd::prelude::*;
use vstd::slice::slice_subrange;

verus! {

/// An owned value whose content is a sequence of bytes, such as a `Vec<u8>`.
pub trait ByteData {
    /// The bytes the value stands for.
    spec fn bytes_spec(&self) -> Seq<u8>;

    /// Borrow the value's bytes.
    fn bytes(&self) -> (r: &[u8])
        ensures
            r@ == self.bytes_spec(),
    ;
}

impl ByteData for Vec<u8> {
    open spec fn bytes_spec(&self) -> Seq<u8> {
        self@
    }

    fn bytes(&self) -> (r: &[u8]) {
        self.as_slice()
    }
}

/// The concatenation of a sequence of byte strings, in order.
pub open spec fn concat_all(items: Seq<Seq<u8>>) -> Seq<u8>
    decreases items.len(),
{
    if items.len() == 0 {
        Seq::empty()
    } else {
        concat_all(items.drop_last()) + items.last()
    }
}

/// Appending one more byte string extends the concatenation at its end.
pub proof fn lemma_concat_all_push(items: Seq<Seq<u8>>, tail: Seq<u8>)
    ensures
        concat_all(items.push(tail)) == concat_all(items) + tail,
{
    assert(items.push(tail).drop_last() =~= items);
    assert(items.push(tail).last() == tail);
}

/// One in-flight item and how many of its bytes the writer has accepted.
pub struct Cursor<Item> {
    /// Count of bytes already written from the start of `inner`'s bytes.
    pub offset: usize,
    /// The item being written.
    pub inner: Item,
}

impl<Item: ByteData> Cursor<Item> {
    /// The offset never runs past the end of the item.
    pub open spec fn wf(self) -> bool {
        self.offset <= self.inner.bytes_spec().len()
    }

    /// The prefix of the item the writer has already accepted.
    pub open spec fn written_bytes(self) -> Seq<u8> {
        self.inner.bytes_spec().take(self.offset as int)
    }

    /// The suffix of the item still to be written.
    pub open spec fn rest_bytes(self) -> Seq<u8> {
        self.inner.bytes_spec().skip(self.offset as int)
    }

    /// Borrow the still-unwritten suffix of the item: the bytes the next
    /// partial write must be given, starting exactly at the offset.
    pub fn remaining(&self) -> (r: &[u8])
        requires
            self.wf(),
        ensures
            r@ == self.rest_bytes(),
    {
        let b = self.inner.bytes();
        let r = slice_subrange(b, self.offset, b.len());
        proof {
            assert(r@ =~= self.rest_bytes());
        }
        r
    }
}

/// Adapter state: the wrapped writer plus a single slot holding at most one
/// pending item. The two ghost fields record, for the proofs, which items
/// have been written out completely and which bytes the writer has
/// acknowledged so far.
pub struct IntoSink<W, Item> {
    /// The wrapped writer. The adapter only records what the writer
    /// reported; polling the writer is the surrounding glue's job.
    pub writer: W,
    /// The single slot: at most one item may be outstanding at a time.
    pub buffer: Option<Cursor<Item>>,
    /// Items fully handed to the writer, in submission order.
    pub done: Ghost<Seq<Seq<u8>>>,
    /// Every byte the writer has acknowledged, in order.
    pub acked: Ghost<Seq<u8>>,
}

impl<W, Item: ByteData> IntoSink<W, Item> {
    /// The adapter's invariant: the offset stays within the pending item,
    /// and the acknowledged bytes are exactly the finished items followed by
    /// the written prefix of the pending one.
    pub open spec fn wf(self) -> bool {
        match self.buffer {
            Some(c) => c.wf() && self.acked@ == concat_all(self.done@) + c.written_bytes(),
            None => self.acked@ == concat_all(self.done@),
        }
    }

    /// All items accepted so far, finished or pending, in submission order.
    pub open spec fn submitted(self) -> Seq<Seq<u8>> {
        match self.buffer {
            Some(c) => self.done@.push(c.inner.bytes_spec()),
            None => self.done@,
        }
    }

    /// Bytes still owed to the writer before the sink is drained.
    pub open spec fn rest(self) -> Seq<u8> {
        match self.buffer {
            Some(c) => c.rest_bytes(),
            None => Seq::empty(),
        }
    }

    /// True when an item is outstanding in the slot.
    pub fn has_pending(&self) -> (r: bool)
        ensures
            r == (self.buffer is Some),
    {
        match &self.buffer {
            Some(_) => true,
            None => false,
        }
    }
}

/// What the glue driving the adapter must do next on behalf of one of the
/// sink's operations.
pub enum Action {
    /// Hand the pending item's unwritten suffix to the writer's partial
    /// write.
    Write,
    /// Nothing is pending: issue the writer's own flush.
    Flush,
    /// Nothing is pending: issue the writer's shutdown.
    Shutdown,
    /// Nothing is pending: the sink is ready to accept a new item.
    Accept,
}

impl<W, Item: ByteData> IntoSink<W, Item> {
    /// Accept `item` for writing, with no byte of it written yet. The slot
    /// must be empty: submitting while an item is outstanding violates the
    /// sink protocol and is ruled out by this contract rather than handled.
    pub fn start_send(&mut self, item: Item)
        requires
            old(self).wf(),
            old(self).buffer is None,
        ensures
            final(self).wf(),
            final(self).buffer == Some((Cursor { offset: 0usize, inner: item })),
            final(self).done@ == old(self).done@,
            final(self).acked@ == old(self).acked@,
            final(self).writer == old(self).writer,
            final(self).submitted() == old(self).submitted().push(item.bytes_spec()),
    {
        proof {
            assert(item.bytes_spec().take(0) =~= Seq::<u8>::empty());
            assert(concat_all(self.done@) + item.bytes_spec().take(0) =~= concat_all(
                self.done@,
            ));
        }
        self.buffer = Some(Cursor { offset: 0, inner: item });
    }

    /// Drain step shared by every sink operation: the writer has just
    /// accepted `written` more bytes of the pending item's suffix. Advances
    /// the offset and clears the slot exactly when the item is fully
    /// written. Returns true when the slot is now empty.
    ///
    /// A zero count is accepted and changes nothing, mirroring the writer's
    /// partial-write contract; progress is the writer's responsibility.
    pub fn poll_flush_buffer(&mut self, written: usize) -> (drained: bool)
        requires
            old(self).wf(),
            old(self).buffer matches Some(c) && c.offset + written <= c.inner.bytes_spec().len(),
        ensures
            final(self).wf(),
            final(self).writer == old(self).writer,
            final(self).submitted() == old(self).submitted(),
            drained == (final(self).buffer is None),
            ({
                let c = old(self).buffer->Some_0;
                &&& final(self).acked@ == old(self).acked@ + c.inner.bytes_spec().subrange(
                    c.offset as int,
                    c.offset + written,
                )
                &&& (final(self).buffer is None <==> c.offset + written
                    == c.inner.bytes_spec().len())
                &&& (final(self).buffer matches Some(c2) ==> c2.inner == c.inner && c2.offset
                    == c.offset + written)
                &&& (final(self).buffer is None ==> final(self).done@ == old(self).done@.push(
                    c.inner.bytes_spec(),
                ))
                &&& (final(self).buffer is Some ==> final(self).done@ == old(self).done@)
            }),
    {
        let cur = self.buffer.take();
        match cur {
            Some(c) => {
                let ghost c0 = c;
                let len = c.inner.bytes().len();
                let new_offset = c.offset + written;
                self.acked = Ghost(
                    self.acked@ + c0.inner.bytes_spec().subrange(
                        c0.offset as int,
                        c0.offset + written,
                    ),
                );
                if new_offset == len {
                    self.done = Ghost(self.done@.push(c0.inner.bytes_spec()));
                    proof {
                        lemma_concat_all_push(old(self).done@, c0.inner.bytes_spec());
                        assert(old(self).acked@ + c0.inner.bytes_spec().subrange(
                            c0.offset as int,
                            len as int,
                        ) =~= concat_all(self.done@));
                    }
                    true
                } else {
                    self.buffer = Some(Cursor { offset: new_offset, inner: c.inner });
                    proof {
                        assert(self.acked@ =~= concat_all(self.done@)
                            + c0.inner.bytes_spec().take(new_offset as int));
                    }
                    false
                }
            },
            None => vstd::pervasive::unreached(),
        }
    }

    /// Ready decision: an outstanding item must be drained before the sink
    /// may accept a new one.
    pub fn ready_step(&self) -> (a: Action)
        ensures
            a == (if self.buffer is Some {
                Action::Write
            } else {
                Action::Accept
            }),
    {
        match &self.buffer {
            Some(_) => Action::Write,
            None => Action::Accept,
        }
    }

    /// Flush decision: an outstanding item is drained first; only with the
    /// slot empty may the writer's own flush be issued, so a flush never
    /// runs while bytes of an accepted item are still unwritten.
    pub fn flush_step(&self) -> (a: Action)
        ensures
            a == (if self.buffer is Some {
                Action::Write
            } else {
                Action::Flush
            }),
    {
        match &self.buffer {
            Some(_) => Action::Write,
            None => Action::Flush,
        }
    }

    /// Close decision: an outstanding item is drained first, then the
    /// writer is shut down, so closing never discards a buffered item.
    pub fn close_step(&self) -> (a: Action)
        ensures
            a == (if self.buffer is Some {
                Action::Write
            } else {
                Action::Shutdown
            }),
    {
        match &self.buffer {
            Some(_) => Action::Write,
            None => Action::Shutdown,
        }
    }
}

impl<W, Item: ByteData> IntoSink<W, Item> {
    /// Round trip: whenever the slot is empty — as it is after a ready
    /// check, a flush or a close has completed — the bytes the writer has
    /// acknowledged are exactly the concatenation of every accepted item,
    /// in submission order.
    pub proof fn lemma_round_trip(self)
        requires
            self.wf(),
            self.buffer is None,
        ensures
            self.acked@ == concat_all(self.submitted()),
    {
    }

    /// No byte is duplicated or skipped: in every well-formed state the
    /// acknowledged bytes followed by the still-unwritten suffix — which is
    /// exactly what the next partial write is given, starting at the
    /// recorded offset — make up the concatenation of every accepted item.
    pub proof fn lemma_no_loss_no_duplication(self)
        requires
            self.wf(),
        ensures
            self.acked@ + self.rest() == concat_all(self.submitted()),
    {
        match self.buffer {
            Some(c) => {
                lemma_concat_all_push(self.done@, c.inner.bytes_spec());
                assert(self.acked@ + self.rest() =~= concat_all(self.done@)
                    + c.inner.bytes_spec());
            },
            None => {
                assert(self.acked@ + self.rest() =~= self.acked@);
            },
        }
    }
}

/// Wrapping a byte writer in the sink adapter.
pub trait IntoSinkExt: Sized {
    /// Consume `self` and wrap it in an adapter with an empty slot and
    /// nothing yet written.
    fn into_sink<Item: ByteData>(self) -> (s: IntoSink<Self, Item>)
        ensures
            s.writer == self,
            s.buffer is None,
            s.done@ == Seq::<Seq<u8>>::empty(),
            s.acked@ == Seq::<u8>::empty(),
            s.submitted() == Seq::<Seq<u8>>::empty(),
            s.wf(),
    ;
}

impl<W> IntoSinkExt for W {
    fn into_sink<Item: ByteData>(self) -> (s: IntoSink<W, Item>) {
        let s = IntoSink {
            writer: self,
            buffer: None,
            done: Ghost(Seq::empty()),
            acked: Ghost(Seq::empty()),
        };
        proof {
            assert(concat_all(s.done@) =~= Seq::<u8>::empty());
        }
        s
    }
}

} // verus!
