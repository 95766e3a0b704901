//! Byte-stream framing: turn chunks of raw socket bytes into discrete
//! records, each terminated by CR and/or LF, under the wire size limit.
//!
//! Policy for the limit: a record body may hold at most 510 bytes, so that
//! with its CR LF terminator a conformant line never exceeds 512 bytes. A
//! longer record is rejected — reported as one `Oversize` item — and its
//! remaining bytes are discarded up to the next terminator, after which
//! framing resumes. Partial delivery does not matter: feeding a stream in
//! any chunking yields the same items (see `lemma_chunking_invariance`).

use vstd::prelude::*;
use crate::text::{CR, LF, clone_bytes};

verus! {

/// The longest record body the framer accepts.
pub const MAX_RECORD: usize = 510;

/// One framing outcome: a complete record (terminator stripped), or the
/// rejection of an overlong one.
pub enum FrameItem {
    Record(Vec<u8>),
    Oversize,
}

/// Mathematical view of a `FrameItem`.
pub enum FrameItemView {
    Record(Seq<u8>),
    Oversize,
}

impl View for FrameItem {
    type V = FrameItemView;

    open spec fn view(&self) -> FrameItemView {
        match self {
            FrameItem::Record(r) => FrameItemView::Record(r@),
            FrameItem::Oversize => FrameItemView::Oversize,
        }
    }
}

impl DeepView for FrameItem {
    type V = FrameItemView;

    open spec fn deep_view(&self) -> FrameItemView {
        self.view()
    }
}

/// Mathematical view of the framer state: the accumulated partial record,
/// and whether the rest of an overlong record is being discarded.
pub struct FramerView {
    pub buf: Seq<u8>,
    pub skipping: bool,
}

/// Whether a byte terminates a record.
pub open spec fn is_terminator(b: u8) -> bool {
    b == CR || b == LF
}

/// One byte of framing: the new state and the items (at most one) that the
/// byte completes.
pub open spec fn push_spec(st: FramerView, b: u8) -> (FramerView, Seq<FrameItemView>) {
    if st.skipping {
        if is_terminator(b) {
            (FramerView { buf: Seq::empty(), skipping: false }, Seq::empty())
        } else {
            (st, Seq::empty())
        }
    } else if is_terminator(b) {
        (FramerView { buf: Seq::empty(), skipping: false }, seq![FrameItemView::Record(st.buf)])
    } else if st.buf.len() >= MAX_RECORD {
        (FramerView { buf: Seq::empty(), skipping: true }, seq![FrameItemView::Oversize])
    } else {
        (FramerView { buf: st.buf.push(b), skipping: false }, Seq::empty())
    }
}

/// Framing a whole sequence of bytes, byte by byte.
pub open spec fn feed_spec(st: FramerView, bytes: Seq<u8>) -> (FramerView, Seq<FrameItemView>)
    decreases bytes.len(),
{
    if bytes.len() == 0 {
        (st, Seq::empty())
    } else {
        let first = push_spec(st, bytes[0]);
        let rest = feed_spec(first.0, bytes.drop_first());
        (rest.0, first.1 + rest.1)
    }
}

/// End of stream: a non-empty accumulator is yielded as a final record; the
/// discarded tail of an overlong record is dropped silently.
pub open spec fn eof_spec(st: FramerView) -> (FramerView, Seq<FrameItemView>) {
    if !st.skipping && st.buf.len() > 0 {
        (FramerView { buf: Seq::empty(), skipping: false }, seq![FrameItemView::Record(st.buf)])
    } else {
        (FramerView { buf: Seq::empty(), skipping: false }, Seq::empty())
    }
}

/// Feeding a stream in two parts yields the same state and items as feeding
/// it whole.
pub proof fn lemma_feed_append(st: FramerView, a: Seq<u8>, b: Seq<u8>)
    ensures
        feed_spec(st, a + b).0 == feed_spec(feed_spec(st, a).0, b).0,
        feed_spec(st, a + b).1 == feed_spec(st, a).1 + feed_spec(feed_spec(st, a).0, b).1,
    decreases a.len(),
{
    if a.len() == 0 {
        assert(a + b =~= b);
        assert(feed_spec(st, a).1 + feed_spec(feed_spec(st, a).0, b).1
            =~= feed_spec(st, b).1);
    } else {
        let first = push_spec(st, a[0]);
        assert((a + b).drop_first() =~= a.drop_first() + b);
        lemma_feed_append(first.0, a.drop_first(), b);
        assert(feed_spec(st, a + b).1 =~= feed_spec(st, a).1
            + feed_spec(feed_spec(st, a).0, b).1);
    }
}

/// A framer state the framer can actually be in: the accumulator never
/// exceeds the record limit, and nothing accumulates while discarding.
pub open spec fn state_ok(st: FramerView) -> bool {
    &&& st.buf.len() <= MAX_RECORD
    &&& (st.skipping ==> st.buf.len() == 0)
}

/// Whether a framing item respects the record limit.
pub open spec fn item_bounded(item: FrameItemView) -> bool {
    match item {
        FrameItemView::Record(r) => r.len() <= MAX_RECORD,
        FrameItemView::Oversize => true,
    }
}

/// The size limit is enforced: from a sound state, framing any bytes never
/// yields a record longer than the limit — an overlong line is rejected as
/// `Oversize` instead.
pub proof fn lemma_no_oversize_record(st: FramerView, bytes: Seq<u8>)
    requires
        state_ok(st),
    ensures
        state_ok(feed_spec(st, bytes).0),
        forall|i: int|
            0 <= i < feed_spec(st, bytes).1.len()
                ==> item_bounded(#[trigger] feed_spec(st, bytes).1[i]),
    decreases bytes.len(),
{
    if bytes.len() > 0 {
        let first = push_spec(st, bytes[0]);
        lemma_no_oversize_record(first.0, bytes.drop_first());
        assert forall|i: int| 0 <= i < feed_spec(st, bytes).1.len() implies item_bounded(
            #[trigger] feed_spec(st, bytes).1[i],
        ) by {
            if i < first.1.len() {
                assert(feed_spec(st, bytes).1[i] == first.1[i]);
            } else {
                assert(feed_spec(st, bytes).1[i] == feed_spec(first.0, bytes.drop_first()).1[i
                    - first.1.len()]);
            }
        }
    }
}

/// Terminator-free bytes that fit under the limit just accumulate: no
/// record is completed and nothing is rejected.
pub proof fn lemma_feed_plain_accumulates(st: FramerView, bytes: Seq<u8>)
    requires
        !st.skipping,
        st.buf.len() + bytes.len() <= MAX_RECORD,
        forall|i: int| 0 <= i < bytes.len() ==> !is_terminator(#[trigger] bytes[i]),
    ensures
        feed_spec(st, bytes).0 == (FramerView { buf: st.buf + bytes, skipping: false }),
        feed_spec(st, bytes).1 == Seq::<FrameItemView>::empty(),
    decreases bytes.len(),
{
    if bytes.len() == 0 {
        assert(st.buf + bytes =~= st.buf);
        assert(st == (FramerView { buf: st.buf, skipping: st.skipping }));
    } else {
        let b0 = bytes[0];
        assert(!is_terminator(b0));
        let st1 = FramerView { buf: st.buf.push(b0), skipping: false };
        assert(push_spec(st, b0) == (st1, Seq::<FrameItemView>::empty()));
        assert forall|i: int| 0 <= i < bytes.drop_first().len() implies !is_terminator(
            #[trigger] bytes.drop_first()[i],
        ) by {
            assert(bytes.drop_first()[i] == bytes[i + 1]);
        }
        lemma_feed_plain_accumulates(st1, bytes.drop_first());
        assert(st1.buf + bytes.drop_first() =~= st.buf + bytes);
        assert(feed_spec(st, bytes).1 =~= Seq::<FrameItemView>::empty());
    }
}

/// The final record yielded at end of stream respects the limit too.
pub proof fn lemma_no_oversize_final_record(st: FramerView)
    requires
        state_ok(st),
    ensures
        forall|i: int|
            0 <= i < eof_spec(st).1.len() ==> item_bounded(#[trigger] eof_spec(st).1[i]),
{
}

/// All the bytes of a delivery schedule, in order.
pub open spec fn concat_chunks(chunks: Seq<Seq<u8>>) -> Seq<u8>
    decreases chunks.len(),
{
    if chunks.len() == 0 {
        Seq::empty()
    } else {
        chunks[0] + concat_chunks(chunks.drop_first())
    }
}

/// Framing a delivery schedule chunk by chunk.
pub open spec fn feed_chunks_spec(st: FramerView, chunks: Seq<Seq<u8>>) -> (
    FramerView,
    Seq<FrameItemView>,
)
    decreases chunks.len(),
{
    if chunks.len() == 0 {
        (st, Seq::empty())
    } else {
        let first = feed_spec(st, chunks[0]);
        let rest = feed_chunks_spec(first.0, chunks.drop_first());
        (rest.0, first.1 + rest.1)
    }
}

/// Chunking invariance: however a byte stream is split into chunks, framing
/// the chunks one by one yields exactly the state and items of framing the
/// stream in one piece.
pub proof fn lemma_chunking_invariance(st: FramerView, chunks: Seq<Seq<u8>>)
    ensures
        feed_chunks_spec(st, chunks).0 == feed_spec(st, concat_chunks(chunks)).0,
        feed_chunks_spec(st, chunks).1 == feed_spec(st, concat_chunks(chunks)).1,
    decreases chunks.len(),
{
    if chunks.len() == 0 {
    } else {
        let first = feed_spec(st, chunks[0]);
        lemma_chunking_invariance(first.0, chunks.drop_first());
        lemma_feed_append(st, chunks[0], concat_chunks(chunks.drop_first()));
    }
}

/// The incremental framer: accumulates bytes until a terminator completes a
/// record.
pub struct LineFramer {
    pub buf: Vec<u8>,
    pub skipping: bool,
}

impl View for LineFramer {
    type V = FramerView;

    open spec fn view(&self) -> FramerView {
        FramerView { buf: self.buf@, skipping: self.skipping }
    }
}

impl LineFramer {
    /// Whether the state is one the framer can actually be in.
    pub open spec fn wf(&self) -> bool {
        state_ok(self@)
    }

    /// A fresh framer with nothing accumulated.
    pub fn new() -> (r: LineFramer)
        ensures
            r@ == (FramerView { buf: Seq::<u8>::empty(), skipping: false }),
            r.wf(),
    {
        LineFramer { buf: Vec::new(), skipping: false }
    }

    /// Feed one chunk of stream bytes; the records (and oversize
    /// rejections) it completes come back in order.
    pub fn push_chunk(&mut self, chunk: &[u8]) -> (items: Vec<FrameItem>)
        requires
            old(self).wf(),
        ensures
            final(self).wf(),
            final(self)@ == feed_spec(old(self)@, chunk@).0,
            items.deep_view() == feed_spec(old(self)@, chunk@).1,
    {
        let ghost st0 = self@;
        let mut items: Vec<FrameItem> = Vec::new();
        proof {
            assert(chunk@.subrange(0, 0) =~= Seq::<u8>::empty());
            assert(items.deep_view() =~= Seq::<FrameItemView>::empty());
        }
        let mut k: usize = 0;
        while k < chunk.len()
            invariant
                k <= chunk@.len(),
                self.wf(),
                self@ == feed_spec(st0, chunk@.subrange(0, k as int)).0,
                items.deep_view() == feed_spec(st0, chunk@.subrange(0, k as int)).1,
            decreases chunk@.len() - k,
        {
            let ghost pre = self@;
            let ghost dvpre = items.deep_view();
            let b = *vstd::slice::slice_index_get(chunk, k);
            if self.skipping {
                if b == CR || b == LF {
                    self.skipping = false;
                }
            } else if b == CR || b == LF {
                let rec = clone_bytes(&self.buf);
                self.buf.clear();
                items.push(FrameItem::Record(rec));
            } else if self.buf.len() >= MAX_RECORD {
                self.buf.clear();
                self.skipping = true;
                items.push(FrameItem::Oversize);
            } else {
                self.buf.push(b);
            }
            proof {
                let step = push_spec(pre, b);
                assert(self@.buf =~= step.0.buf);
                assert(self@ == step.0);
                assert(items.deep_view() =~= dvpre + step.1);
                assert(chunk@.subrange(0, k + 1 as int) =~= chunk@.subrange(0, k as int)
                    + seq![chunk@[k as int]]);
                lemma_feed_append(st0, chunk@.subrange(0, k as int), seq![chunk@[k as int]]);
                assert(seq![b].drop_first() =~= Seq::<u8>::empty());
                assert(feed_spec(step.0, seq![b].drop_first()).1 =~= Seq::<FrameItemView>::empty());
                assert(feed_spec(pre, seq![b]).0 == step.0);
                assert(feed_spec(pre, seq![b]).1 =~= step.1);
                assert(items.deep_view() =~= feed_spec(st0, chunk@.subrange(0, k + 1 as int)).1);
            }
            k = k + 1;
        }
        proof {
            assert(chunk@.subrange(0, chunk@.len() as int) =~= chunk@);
        }
        items
    }

    /// End of stream: hand out the final partial record, if any.
    pub fn eof(&mut self) -> (item: Option<FrameItem>)
        requires
            old(self).wf(),
        ensures
            final(self).wf(),
            final(self)@ == eof_spec(old(self)@).0,
            (match item {
                Some(it) => seq![it@],
                None => Seq::<FrameItemView>::empty(),
            }) == eof_spec(old(self)@).1,
    {
        if !self.skipping && self.buf.len() > 0 {
            let rec = clone_bytes(&self.buf);
            self.buf.clear();
            proof {
                assert(self@.buf =~= eof_spec(old(self)@).0.buf);
            }
            Some(FrameItem::Record(rec))
        } else {
            self.buf.clear();
            self.skipping = false;
            proof {
                assert(self@.buf =~= eof_spec(old(self)@).0.buf);
            }
            None
        }
    }
}

} // verus!
