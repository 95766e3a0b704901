//! The protocol engine: feed it raw socket bytes, get back the wire lines
//! to send and the events for the display/relay sink.
//!
//! One engine lives exactly as long as one connection. A malformed record
//! is reported and skipped, never fatal. A reply that would not fit on a
//! wire line is dropped and reported.

use vstd::prelude::*;
use crate::dispatch::{DisplayEvent, EventView, connect_cmds, dispatch, dispatch_spec, on_connect};
use crate::framer::{FrameItem, FrameItemView, FramerView, LineFramer, eof_spec, feed_spec};
use crate::message::{OutboundCommand, OutboundView};
use crate::parser::{parse, parse_record};
use crate::session::{Config, ConfigView, Session, SessionView, initial_session};
use crate::text::clone_bytes;
use crate::writer::{MAX_WIRE, serialize, wire_of};

verus! {

/// Serialization of a command list: the wire lines of those that fit, and
/// one `DroppedReply` event for each that does not.
pub open spec fn render_spec(cmds: Seq<OutboundView>) -> (Seq<Seq<u8>>, Seq<EventView>)
    decreases cmds.len(),
{
    if cmds.len() == 0 {
        (Seq::empty(), Seq::empty())
    } else {
        let rest = render_spec(cmds.drop_first());
        if wire_of(cmds[0]).len() <= MAX_WIRE {
            (seq![wire_of(cmds[0])] + rest.0, rest.1)
        } else {
            (rest.0, seq![EventView::DroppedReply] + rest.1)
        }
    }
}

/// What one record does to the engine: nothing for an empty record, a
/// diagnostic for a malformed one, otherwise a dispatch step with its
/// replies serialized.
pub open spec fn record_step(s: SessionView, cfg: ConfigView, rec: Seq<u8>) -> (
    SessionView,
    Seq<Seq<u8>>,
    Seq<EventView>,
) {
    if rec.len() == 0 {
        (s, Seq::empty(), Seq::empty())
    } else {
        match parse_record(rec) {
            None => (s, Seq::empty(), seq![EventView::BadRecord(rec)]),
            Some(m) => {
                let st = dispatch_spec(s, cfg, m);
                let r = render_spec(st.outbound);
                (st.session, r.0, st.events + r.1)
            },
        }
    }
}

/// What one framing item does to the engine.
pub open spec fn item_step(s: SessionView, cfg: ConfigView, item: FrameItemView) -> (
    SessionView,
    Seq<Seq<u8>>,
    Seq<EventView>,
) {
    match item {
        FrameItemView::Oversize => (s, Seq::empty(), seq![EventView::OversizeRecord]),
        FrameItemView::Record(rec) => record_step(s, cfg, rec),
    }
}

/// A whole run of framing items, in order.
pub open spec fn items_steps(s: SessionView, cfg: ConfigView, items: Seq<FrameItemView>) -> (
    SessionView,
    Seq<Seq<u8>>,
    Seq<EventView>,
)
    decreases items.len(),
{
    if items.len() == 0 {
        (s, Seq::empty(), Seq::empty())
    } else {
        let first = item_step(s, cfg, items[0]);
        let rest = items_steps(first.0, cfg, items.drop_first());
        (rest.0, first.1 + rest.1, first.2 + rest.2)
    }
}

/// A run of framing items splits at any point: the first part's session
/// carries into the second, and the outputs concatenate.
pub proof fn lemma_items_steps_append(
    s: SessionView,
    cfg: ConfigView,
    a: Seq<FrameItemView>,
    b: Seq<FrameItemView>,
)
    ensures
        items_steps(s, cfg, a + b).0 == items_steps(items_steps(s, cfg, a).0, cfg, b).0,
        items_steps(s, cfg, a + b).1 == items_steps(s, cfg, a).1 + items_steps(
            items_steps(s, cfg, a).0,
            cfg,
            b,
        ).1,
        items_steps(s, cfg, a + b).2 == items_steps(s, cfg, a).2 + items_steps(
            items_steps(s, cfg, a).0,
            cfg,
            b,
        ).2,
    decreases a.len(),
{
    if a.len() == 0 {
        assert(a + b =~= b);
        assert(items_steps(s, cfg, a).1 + items_steps(s, cfg, b).1 =~= items_steps(s, cfg, b).1);
        assert(items_steps(s, cfg, a).2 + items_steps(s, cfg, b).2 =~= items_steps(s, cfg, b).2);
    } else {
        let first = item_step(s, cfg, a[0]);
        assert((a + b)[0] == a[0]);
        assert((a + b).drop_first() =~= a.drop_first() + b);
        lemma_items_steps_append(first.0, cfg, a.drop_first(), b);
        assert(items_steps(s, cfg, a + b).1 =~= items_steps(s, cfg, a).1 + items_steps(
            items_steps(s, cfg, a).0,
            cfg,
            b,
        ).1);
        assert(items_steps(s, cfg, a + b).2 =~= items_steps(s, cfg, a).2 + items_steps(
            items_steps(s, cfg, a).0,
            cfg,
            b,
        ).2);
    }
}

/// Mathematical view of the engine: framer state, session, configuration.
pub struct EngineView {
    pub framer: FramerView,
    pub session: SessionView,
    pub config: ConfigView,
}

/// What feeding a chunk of stream bytes does: frame them, then run every
/// completed record through the dispatcher.
pub open spec fn engine_feed_spec(e: EngineView, bytes: Seq<u8>) -> (
    EngineView,
    Seq<Seq<u8>>,
    Seq<EventView>,
) {
    let f = feed_spec(e.framer, bytes);
    let d = items_steps(e.session, e.config, f.1);
    (EngineView { framer: f.0, session: d.0, config: e.config }, d.1, d.2)
}

/// Partial delivery does not matter at the engine either: feeding a byte
/// stream in two parts leaves the same engine and produces the same wire
/// lines and events, in the same order, as feeding it whole.
pub proof fn lemma_engine_chunking_invariance(e: EngineView, a: Seq<u8>, b: Seq<u8>)
    ensures
        engine_feed_spec(e, a + b).0 == engine_feed_spec(engine_feed_spec(e, a).0, b).0,
        engine_feed_spec(e, a + b).1 == engine_feed_spec(e, a).1 + engine_feed_spec(
            engine_feed_spec(e, a).0,
            b,
        ).1,
        engine_feed_spec(e, a + b).2 == engine_feed_spec(e, a).2 + engine_feed_spec(
            engine_feed_spec(e, a).0,
            b,
        ).2,
{
    crate::framer::lemma_feed_append(e.framer, a, b);
    let f1 = feed_spec(e.framer, a);
    let f2 = feed_spec(f1.0, b);
    lemma_items_steps_append(e.session, e.config, f1.1, f2.1);
}

/// What the end of the stream does: the final partial record, if any, runs
/// through the dispatcher.
pub open spec fn engine_eof_spec(e: EngineView) -> (EngineView, Seq<Seq<u8>>, Seq<EventView>) {
    let f = eof_spec(e.framer);
    let d = items_steps(e.session, e.config, f.1);
    (EngineView { framer: f.0, session: d.0, config: e.config }, d.1, d.2)
}

/// Serialize a list of replies: wire lines for those that fit, a
/// `DroppedReply` event for each that does not.
fn render_outbound(cmds: &Vec<OutboundCommand>) -> (r: (Vec<Vec<u8>>, Vec<DisplayEvent>))
    ensures
        r.0.deep_view() == render_spec(cmds.deep_view()).0,
        r.1.deep_view() == render_spec(cmds.deep_view()).1,
{
    let ghost cv = cmds.deep_view();
    let ghost full = render_spec(cv);
    let mut lines: Vec<Vec<u8>> = Vec::new();
    let mut evs: Vec<DisplayEvent> = Vec::new();
    let mut k: usize = 0;
    proof {
        assert(cv.subrange(0, cv.len() as int) =~= cv);
    }
    while k < cmds.len()
        invariant
            k <= cmds@.len(),
            cv == cmds.deep_view(),
            cv.len() == cmds@.len(),
            full == render_spec(cv),
            full.0 == lines.deep_view() + render_spec(cv.subrange(k as int, cv.len() as int)).0,
            full.1 == evs.deep_view() + render_spec(cv.subrange(k as int, cv.len() as int)).1,
        decreases cmds@.len() - k,
    {
        let ghost sub = cv.subrange(k as int, cv.len() as int);
        proof {
            assert(sub[0] == cv[k as int]);
            assert(cv[k as int] == cmds@[k as int]@);
            assert(sub.drop_first() =~= cv.subrange(k + 1 as int, cv.len() as int));
        }
        let ghost lv = lines.deep_view();
        let ghost ev = evs.deep_view();
        match serialize(&cmds[k]) {
            Ok(line) => {
                let ghost linev = line@;
                lines.push(line);
                proof {
                    assert(lines.deep_view() =~~= lv.push(linev));
                    assert(lv.push(linev) =~= lv + seq![linev]);
                    assert(full.0 =~= lines.deep_view() + render_spec(sub.drop_first()).0);
                }
            },
            Err(_) => {
                evs.push(DisplayEvent::DroppedReply);
                proof {
                    assert(evs.deep_view() =~~= ev + seq![EventView::DroppedReply]);
                    assert(full.1 =~= evs.deep_view() + render_spec(sub.drop_first()).1);
                }
            },
        }
        k = k + 1;
    }
    proof {
        assert(cv.subrange(cv.len() as int, cv.len() as int) =~= Seq::<OutboundView>::empty());
        assert(full.0 =~= lines.deep_view());
        assert(full.1 =~= evs.deep_view());
    }
    (lines, evs)
}

/// Run one framing item through the dispatcher, appending its wire lines
/// and events.
fn process_item(
    session: &mut Session,
    cfg: &Config,
    item: &FrameItem,
    out: &mut Vec<Vec<u8>>,
    evs: &mut Vec<DisplayEvent>,
)
    ensures
        ({
            let st = item_step(old(session)@, cfg@, item@);
            &&& final(session)@ == st.0
            &&& final(out).deep_view() == old(out).deep_view() + st.1
            &&& final(evs).deep_view() == old(evs).deep_view() + st.2
        }),
{
    match item {
        FrameItem::Oversize => {
            let ghost ev = evs.deep_view();
            evs.push(DisplayEvent::OversizeRecord);
            proof {
                assert(evs.deep_view() =~~= ev + seq![EventView::OversizeRecord]);
                assert(out.deep_view() =~~= old(out).deep_view()
                    + item_step(old(session)@, cfg@, item@).1);
            }
        },
        FrameItem::Record(rec) => {
            if rec.len() == 0 {
                proof {
                    assert(out.deep_view() =~~= old(out).deep_view()
                        + item_step(old(session)@, cfg@, item@).1);
                    assert(evs.deep_view() =~~= old(evs).deep_view()
                        + item_step(old(session)@, cfg@, item@).2);
                }
            } else {
                match parse(rec) {
                    Err(_) => {
                        let ghost ev = evs.deep_view();
                        evs.push(DisplayEvent::BadRecord(clone_bytes(rec)));
                        proof {
                            assert(evs.deep_view() =~~= ev + seq![EventView::BadRecord(rec@)]);
                            assert(out.deep_view() =~~= old(out).deep_view()
                                + item_step(old(session)@, cfg@, item@).1);
                        }
                    },
                    Ok(m) => {
                        let (cmds, mut devs) = dispatch(session, cfg, &m);
                        let ghost ev = evs.deep_view();
                        let ghost dv = devs.deep_view();
                        evs.append(&mut devs);
                        proof {
                            assert(evs.deep_view() =~~= ev + dv);
                        }
                        let (mut lines, mut drops) = render_outbound(&cmds);
                        let ghost ov = out.deep_view();
                        let ghost linesv = lines.deep_view();
                        let ghost dropsv = drops.deep_view();
                        out.append(&mut lines);
                        evs.append(&mut drops);
                        proof {
                            assert(out.deep_view() =~~= ov + linesv);
                            assert(evs.deep_view() =~~= (ev + dv) + dropsv);
                            let st = item_step(old(session)@, cfg@, item@);
                            assert((ev + dv) + dropsv =~= ev + (dv + dropsv));
                            assert(evs.deep_view() =~~= old(evs).deep_view() + st.2);
                        }
                    },
                }
            }
        },
    }
}

/// The protocol engine for one connection.
pub struct Engine {
    pub framer: LineFramer,
    pub session: Session,
    pub config: Config,
}

impl View for Engine {
    type V = EngineView;

    open spec fn view(&self) -> EngineView {
        EngineView { framer: self.framer@, session: self.session@, config: self.config@ }
    }
}

impl Engine {
    /// Whether the engine state is one it can actually be in.
    pub open spec fn wf(&self) -> bool {
        self.framer.wf()
    }

    /// A fresh engine for a new connection.
    pub fn new(config: Config) -> (e: Engine)
        ensures
            e.wf(),
            e@.framer == (FramerView { buf: Seq::<u8>::empty(), skipping: false }),
            e@.session == initial_session(config@),
            e@.config == config@,
    {
        let session = Session::new(&config);
        Engine { framer: LineFramer::new(), session, config }
    }

    /// The connect-time handshake lines: `NICK`, then `USER`.
    pub fn hello(&self) -> (r: (Vec<Vec<u8>>, Vec<DisplayEvent>))
        ensures
            r.0.deep_view() == render_spec(connect_cmds(self@.config)).0,
            r.1.deep_view() == render_spec(connect_cmds(self@.config)).1,
    {
        let cmds = on_connect(&self.config);
        render_outbound(&cmds)
    }

    /// Feed one chunk of stream bytes: every record it completes is parsed
    /// and dispatched. Returns the wire lines to send and the events for
    /// the sink, in order.
    pub fn feed(&mut self, chunk: &[u8]) -> (r: (Vec<Vec<u8>>, Vec<DisplayEvent>))
        requires
            old(self).wf(),
        ensures
            final(self).wf(),
            final(self)@ == engine_feed_spec(old(self)@, chunk@).0,
            r.0.deep_view() == engine_feed_spec(old(self)@, chunk@).1,
            r.1.deep_view() == engine_feed_spec(old(self)@, chunk@).2,
    {
        let items = self.framer.push_chunk(chunk);
        let ghost itemsv = items.deep_view();
        let ghost s1 = self@.session;
        let ghost full = items_steps(s1, self@.config, itemsv);
        let mut out: Vec<Vec<u8>> = Vec::new();
        let mut evs: Vec<DisplayEvent> = Vec::new();
        let mut k: usize = 0;
        proof {
            assert(itemsv.subrange(0, itemsv.len() as int) =~= itemsv);
        }
        while k < items.len()
            invariant
                k <= items@.len(),
                itemsv == items.deep_view(),
                itemsv.len() == items@.len(),
                self.wf(),
                self@.framer == feed_spec(old(self)@.framer, chunk@).0,
                self@.config == old(self)@.config,
                full == items_steps(s1, old(self)@.config, itemsv),
                full.0 == items_steps(
                    self@.session,
                    old(self)@.config,
                    itemsv.subrange(k as int, itemsv.len() as int),
                ).0,
                full.1 == out.deep_view() + items_steps(
                    self@.session,
                    old(self)@.config,
                    itemsv.subrange(k as int, itemsv.len() as int),
                ).1,
                full.2 == evs.deep_view() + items_steps(
                    self@.session,
                    old(self)@.config,
                    itemsv.subrange(k as int, itemsv.len() as int),
                ).2,
            decreases items@.len() - k,
        {
            let ghost sub = itemsv.subrange(k as int, itemsv.len() as int);
            let ghost ov = out.deep_view();
            let ghost ev = evs.deep_view();
            let ghost cur = self@.session;
            proof {
                assert(sub[0] == itemsv[k as int]);
                assert(itemsv[k as int] == items@[k as int]@);
                assert(sub.drop_first() =~= itemsv.subrange(k + 1 as int, itemsv.len() as int));
            }
            process_item(&mut self.session, &self.config, &items[k], &mut out, &mut evs);
            proof {
                let st = item_step(cur, old(self)@.config, itemsv[k as int]);
                let rest = items_steps(self@.session, old(self)@.config, sub.drop_first());
                assert(items_steps(cur, old(self)@.config, sub).1 == st.1 + rest.1);
                assert(ov + (st.1 + rest.1) =~= (ov + st.1) + rest.1);
                assert(ev + (st.2 + rest.2) =~= (ev + st.2) + rest.2);
            }
            k = k + 1;
        }
        proof {
            assert(itemsv.subrange(itemsv.len() as int, itemsv.len() as int)
                =~= Seq::<FrameItemView>::empty());
            assert(full.1 =~= out.deep_view());
            assert(full.2 =~= evs.deep_view());
        }
        (out, evs)
    }

    /// The stream has ended: dispatch the final partial record, if any.
    /// The engine and its session are then discarded with the connection.
    pub fn finish(&mut self) -> (r: (Vec<Vec<u8>>, Vec<DisplayEvent>))
        requires
            old(self).wf(),
        ensures
            final(self).wf(),
            final(self)@ == engine_eof_spec(old(self)@).0,
            r.0.deep_view() == engine_eof_spec(old(self)@).1,
            r.1.deep_view() == engine_eof_spec(old(self)@).2,
    {
        let ghost f = eof_spec(old(self)@.framer);
        let ghost d = items_steps(old(self)@.session, old(self)@.config, f.1);
        let item = self.framer.eof();
        let mut out: Vec<Vec<u8>> = Vec::new();
        let mut evs: Vec<DisplayEvent> = Vec::new();
        match item {
            Some(it) => {
                proof {
                    assert(f.1 == seq![it@]);
                    assert(f.1[0] == it@);
                    assert(f.1.drop_first() =~= Seq::<FrameItemView>::empty());
                }
                process_item(&mut self.session, &self.config, &it, &mut out, &mut evs);
                proof {
                    let st = item_step(old(self)@.session, old(self)@.config, it@);
                    assert(items_steps(st.0, old(self)@.config, f.1.drop_first()).0 == st.0);
                    assert(d.0 == st.0);
                    assert(d.1 =~= st.1);
                    assert(d.2 =~= st.2);
                    assert(out.deep_view() =~~= st.1);
                    assert(evs.deep_view() =~~= st.2);
                    assert(self@ == engine_eof_spec(old(self)@).0);
                }
            },
            None => {
                proof {
                    assert(f.1 == Seq::<FrameItemView>::empty());
                    assert(d.0 == old(self)@.session);
                    assert(d.1 =~= Seq::<Seq<u8>>::empty());
                    assert(d.2 =~= Seq::<EventView>::empty());
                    assert(out.deep_view() =~~= d.1);
                    assert(evs.deep_view() =~~= d.2);
                    assert(self@ == engine_eof_spec(old(self)@).0);
                }
            },
        }
        (out, evs)
    }
}

} // verus!
