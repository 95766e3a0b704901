//! The round trip: a well-formed message, serialized onto the wire, parses
//! back to exactly itself.

use vstd::prelude::*;
use crate::framer::{FrameItemView, FramerView, feed_spec, is_terminator, push_spec,
    lemma_feed_append, lemma_feed_plain_accumulates, MAX_RECORD};
use crate::message::{MessageView, OutboundView, SourceView, wf_message, wf_source, wf_token,
    no_terminators, plain_bytes, client_patterned};
use crate::parser::{parse_record, parse_args_at, parse_source_at, last_index,
    lemma_skip_spaces_is, lemma_token_end_is, lemma_last_index_is, lemma_last_index_props};
use crate::text::{SPACE, COLON, BANG, AT, CR, LF};
use crate::writer::{wire_body, wire_of, params_wire, trailing_wire, MAX_WIRE};

verus! {

/// The outbound form of a message: the source rendered as its wire token,
/// everything else carried over.
pub open spec fn message_outbound(m: MessageView) -> OutboundView {
    OutboundView {
        source: match m.source {
            Some(s) => Some(s.token()),
            None => None,
        },
        command: m.command,
        params: m.params,
        trailing: m.trailing,
    }
}

/// A byte of a suffix, read through the whole sequence.
proof fn lemma_index_in_suffix(s: Seq<u8>, i: int, r: Seq<u8>, k: int)
    requires
        0 <= i <= s.len(),
        s.subrange(i, s.len() as int) == r,
        0 <= k < r.len(),
    ensures
        s[i + k] == r[k],
{
    assert(s.subrange(i, s.len() as int)[k] == s[i + k]);
}

/// A well-formed source's wire token is a nonempty plain token that parses
/// back to the source itself.
pub proof fn lemma_source_token_round_trip(s: SourceView)
    requires
        wf_source(s),
    ensures
        parse_source_at(s.token()) == s,
        plain_bytes(s.token()),
        s.token().len() > 0,
{
    match s {
        SourceView::ServerName(x) => {
            let at = last_index(x, AT, x.len() as int);
            lemma_last_index_props(x, AT, x.len() as int);
            if at >= 0 {
                let bang = last_index(x, BANG, at);
                lemma_last_index_props(x, BANG, at);
                if bang >= 0 {
                    assert(client_patterned(x));
                }
            }
        },
        SourceView::ClientName(n, u, h) => {
            let t = s.token();
            let nu = n + seq![BANG];
            let nub = nu + u;
            assert(t =~= nub + seq![AT] + h);
            let a = nub.len() as int;
            assert(t[a] == AT);
            assert forall|k: int| a < k < t.len() implies t[k] != AT by {
                assert(t[k] == h[k - a - 1]);
            }
            lemma_last_index_is(t, AT, t.len() as int, a);
            let b = n.len() as int;
            assert(nu[b] == BANG);
            assert(t[b] == BANG);
            assert forall|k: int| b < k < a implies t[k] != BANG by {
                assert(nub[k] == u[k - b - 1]);
                assert(t[k] == u[k - b - 1]);
            }
            lemma_last_index_is(t, BANG, a, b);
            assert(t.subrange(0, b) =~= n);
            assert(t.subrange(b + 1, a) =~= u);
            assert(t.subrange(a + 1, t.len() as int) =~= h);
            assert forall|k: int| 0 <= k < t.len() implies t[k] != SPACE && t[k] != crate::text::CR
                && t[k] != crate::text::LF by {
                if k < b {
                    assert(t[k] == n[k]);
                } else if b < k < a {
                    assert(t[k] == u[k - b - 1]);
                } else if a < k {
                    assert(t[k] == h[k - a - 1]);
                }
            }
        },
    }
}

/// The argument region of the wire form — one space, the parameters each
/// followed by a space, then the trailing parameter if any — parses back to
/// exactly those arguments.
pub proof fn lemma_args_round_trip(s: Seq<u8>, i: int, ps: Seq<Seq<u8>>, tr: Option<Seq<u8>>)
    requires
        0 <= i <= s.len(),
        s.subrange(i, s.len() as int) == seq![SPACE] + params_wire(ps) + trailing_wire(tr),
        forall|k: int| 0 <= k < ps.len() ==> wf_token(#[trigger] ps[k]),
    ensures
        parse_args_at(s, i).0 == ps,
        parse_args_at(s, i).1 == tr,
    decreases ps.len(),
{
    let region = seq![SPACE] + params_wire(ps) + trailing_wire(tr);
    let sl = s.len() as int;
    assert(sl - i == region.len());
    assert(region[0] == SPACE);
    lemma_index_in_suffix(s, i, region, 0);
    assert(s[i] == SPACE);
    if ps.len() == 0 {
        assert(params_wire(ps) == Seq::<u8>::empty());
        match tr {
            None => {
                assert(region =~= seq![SPACE]);
                lemma_skip_spaces_is(s, i, i + 1);
                assert(parse_args_at(s, i).0 =~= ps);
            },
            Some(t) => {
                assert(region =~= seq![SPACE, COLON] + t);
                lemma_index_in_suffix(s, i, region, 1);
                assert(s[i + 1] == COLON);
                lemma_skip_spaces_is(s, i, i + 1);
                assert forall|k: int| 0 <= k < t.len() implies s.subrange(i + 2, sl)[k] == t[k] by {
                    lemma_index_in_suffix(s, i, region, 2 + k);
                    assert(region[2 + k] == t[k]);
                }
                assert(s.subrange(i + 2, sl) =~= t);
                assert(parse_args_at(s, i).0 =~= ps);
            },
        }
    } else {
        let p0 = ps[0];
        let rest_region = seq![SPACE] + params_wire(ps.drop_first()) + trailing_wire(tr);
        assert(params_wire(ps) == p0 + seq![SPACE] + params_wire(ps.drop_first()));
        assert(region =~= seq![SPACE] + p0 + rest_region);
        assert(wf_token(p0));
        let head = seq![SPACE] + p0;
        assert forall|k: int| 0 <= k < p0.len() implies s[i + 1 + k] == p0[k] by {
            lemma_index_in_suffix(s, i, region, 1 + k);
            assert(region[1 + k] == head[1 + k]);
            assert(head[1 + k] == p0[k]);
        }
        assert(s[i + 1] == p0[0]);
        lemma_skip_spaces_is(s, i, i + 1);
        let te = i + 1 + p0.len() as int;
        assert forall|k: int| i + 1 <= k < te implies s[k] != SPACE by {
            assert(s[i + 1 + (k - i - 1)] == p0[k - i - 1]);
        }
        if te < sl {
            lemma_index_in_suffix(s, i, region, 1 + p0.len() as int);
            assert(region[1 + p0.len() as int] == rest_region[0]);
            assert(s[te] == SPACE);
        }
        lemma_token_end_is(s, i + 1, te);
        assert forall|k: int| 0 <= k < p0.len() implies s.subrange(i + 1, te)[k] == p0[k] by {
            assert(s[i + 1 + k] == p0[k]);
        }
        assert(s.subrange(i + 1, te) =~= p0);
        assert forall|k: int| 0 <= k < rest_region.len() implies s.subrange(te, sl)[k]
            == rest_region[k] by {
            lemma_index_in_suffix(s, i, region, 1 + p0.len() + k);
            assert(region[1 + p0.len() + k] == rest_region[k]);
            assert(s.subrange(te, sl)[k] == s[te + k]);
        }
        assert(s.subrange(te, sl) =~= rest_region);
        lemma_args_round_trip(s, te, ps.drop_first(), tr);
        assert(parse_args_at(s, i).0 =~= ps);
    }
}

/// The round trip: serializing a well-formed message and parsing the
/// resulting record yields the message back, exactly. A client identity
/// source collapses to its `nick!user@host` triple; a server name is any
/// token not of that pattern.
pub proof fn lemma_round_trip(m: MessageView)
    requires
        wf_message(m),
    ensures
        parse_record(wire_body(message_outbound(m))) == Some(m),
{
    let ob = message_outbound(m);
    let body = wire_body(ob);
    let bl = body.len() as int;
    let tail = seq![SPACE] + params_wire(m.params) + trailing_wire(m.trailing);
    let c = m.command;
    let cl = c.len() as int;
    match m.source {
        None => {
            assert(body =~= c + tail);
            assert forall|k: int| 0 <= k < cl implies body[k] == c[k] by {}
            assert(body[0] == c[0]);
            lemma_skip_spaces_is(body, 0, 0);
            assert(body[cl] == tail[0]);
            lemma_token_end_is(body, 0, cl);
            assert forall|k: int| 0 <= k < cl implies body.subrange(0, cl)[k] == c[k] by {}
            assert(body.subrange(0, cl) =~= c);
            assert forall|k: int| 0 <= k < tail.len() implies body.subrange(cl, bl)[k] == tail[k]
                by {
                assert(body.subrange(cl, bl)[k] == body[cl + k]);
            }
            assert(body.subrange(cl, bl) =~= tail);
            lemma_args_round_trip(body, cl, m.params, m.trailing);
            assert(parse_record(body) == Some(m));
        },
        Some(src) => {
            lemma_source_token_round_trip(src);
            let tok = src.token();
            let tl = tok.len() as int;
            let pre = seq![COLON] + tok + seq![SPACE];
            let front = pre + c;
            assert(body =~= front + tail);
            assert(pre[0] == COLON);
            assert(front[0] == COLON);
            assert(body[0] == COLON);
            let te = 1 + tl;
            assert forall|k: int| 1 <= k < te implies body[k] == tok[k - 1] && body[k] != SPACE by {
                assert((seq![COLON] + tok)[k] == tok[k - 1]);
                assert(pre[k] == tok[k - 1]);
                assert(front[k] == tok[k - 1]);
                assert(body[k] == tok[k - 1]);
            }
            assert(pre[te] == SPACE);
            assert(front[te] == SPACE);
            assert(body[te] == SPACE);
            lemma_token_end_is(body, 1, te);
            assert forall|k: int| 0 <= k < tl implies body.subrange(1, te)[k] == tok[k] by {
                assert(body.subrange(1, te)[k] == body[1 + k]);
            }
            assert(body.subrange(1, te) =~= tok);
            let cs = te + 1;
            assert forall|k: int| 0 <= k < cl implies body[cs + k] == c[k] by {
                assert(front[cs + k] == c[k]);
            }
            assert(body[cs] == c[0]);
            lemma_skip_spaces_is(body, cs, cs);
            let ce = cs + cl;
            assert(body[ce] == tail[0]);
            lemma_token_end_is(body, cs, ce);
            assert forall|k: int| 0 <= k < cl implies body.subrange(cs, ce)[k] == c[k] by {
                assert(body.subrange(cs, ce)[k] == body[cs + k]);
            }
            assert(body.subrange(cs, ce) =~= c);
            assert forall|k: int| 0 <= k < tail.len() implies body.subrange(ce, bl)[k] == tail[k]
                by {
                assert(body.subrange(ce, bl)[k] == body[ce + k]);
                assert(body[ce + k] == tail[k]);
            }
            assert(body.subrange(ce, bl) =~= tail);
            lemma_args_round_trip(body, ce, m.params, m.trailing);
            assert(parse_record(body) == Some(m));
        },
    }
}

proof fn lemma_concat_plain(a: Seq<u8>, b: Seq<u8>)
    requires
        no_terminators(a),
        no_terminators(b),
    ensures
        no_terminators(a + b),
{
    assert forall|i: int| 0 <= i < (a + b).len() implies (a + b)[i] != CR && (a + b)[i] != LF by {
        if i < a.len() {
            assert((a + b)[i] == a[i]);
        } else {
            assert((a + b)[i] == b[i - a.len()]);
        }
    }
}

proof fn lemma_params_wire_plain(ps: Seq<Seq<u8>>)
    requires
        forall|k: int| 0 <= k < ps.len() ==> wf_token(#[trigger] ps[k]),
    ensures
        no_terminators(params_wire(ps)),
    decreases ps.len(),
{
    if ps.len() == 0 {
        assert(no_terminators(params_wire(ps)));
    } else {
        assert(wf_token(ps[0]));
        assert(no_terminators(ps[0]));
        lemma_params_wire_plain(ps.drop_first());
        lemma_concat_plain(ps[0], seq![SPACE]);
        lemma_concat_plain(ps[0] + seq![SPACE], params_wire(ps.drop_first()));
    }
}

/// The wire body of a well-formed message holds no terminator bytes.
proof fn lemma_wire_body_plain(m: MessageView)
    requires
        wf_message(m),
    ensures
        no_terminators(wire_body(message_outbound(m))),
{
    let ob = message_outbound(m);
    let sw = crate::writer::source_wire(ob.source);
    match m.source {
        None => {
            assert(no_terminators(sw));
        },
        Some(src) => {
            lemma_source_token_round_trip(src);
            assert(no_terminators(src.token()));
            lemma_concat_plain(seq![COLON], src.token());
            lemma_concat_plain(seq![COLON] + src.token(), seq![SPACE]);
        },
    }
    assert(no_terminators(m.command));
    lemma_params_wire_plain(m.params);
    match m.trailing {
        None => {
            assert(no_terminators(trailing_wire(m.trailing)));
        },
        Some(t) => {
            lemma_concat_plain(seq![COLON], t);
        },
    }
    lemma_concat_plain(sw, m.command);
    lemma_concat_plain(sw + m.command, seq![SPACE]);
    lemma_concat_plain(sw + m.command + seq![SPACE], params_wire(m.params));
    lemma_concat_plain(
        sw + m.command + seq![SPACE] + params_wire(m.params),
        trailing_wire(m.trailing),
    );
}

/// The whole wire round trip: the serialized line of a well-formed message
/// that fits the wire limit, delivered to a fresh framer, is framed back as
/// exactly that record (the trailing line feed yields one empty record,
/// which the engine skips), and the record parses to the message itself.
pub proof fn lemma_wire_round_trip(m: MessageView)
    requires
        wf_message(m),
        wire_of(message_outbound(m)).len() <= MAX_WIRE,
    ensures
        ({
            let body = wire_body(message_outbound(m));
            let fresh = FramerView { buf: Seq::<u8>::empty(), skipping: false };
            let f = feed_spec(fresh, wire_of(message_outbound(m)));
            &&& f.1 == seq![
                FrameItemView::Record(body),
                FrameItemView::Record(Seq::<u8>::empty()),
            ]
            &&& f.0 == fresh
            &&& parse_record(body) == Some(m)
        }),
{
    let ob = message_outbound(m);
    let body = wire_body(ob);
    let line = wire_of(ob);
    let fresh = FramerView { buf: Seq::<u8>::empty(), skipping: false };
    lemma_wire_body_plain(m);
    assert(body.len() <= MAX_RECORD);
    assert forall|i: int| 0 <= i < body.len() implies !is_terminator(#[trigger] body[i]) by {
        assert(body[i] != CR && body[i] != LF);
    }
    lemma_feed_append(fresh, body, seq![CR, LF]);
    lemma_feed_plain_accumulates(fresh, body);
    assert(Seq::<u8>::empty() + body =~= body);
    let st1 = FramerView { buf: body, skipping: false };
    let empty_rec = FrameItemView::Record(Seq::<u8>::empty());
    assert(seq![CR, LF][0] == CR);
    assert(seq![LF][0] == LF);
    assert(seq![CR, LF].drop_first() =~= seq![LF]);
    assert(seq![LF].drop_first() =~= Seq::<u8>::empty());
    assert(push_spec(st1, CR) == (fresh, seq![FrameItemView::Record(body)]));
    assert(push_spec(fresh, LF) == (fresh, seq![empty_rec]));
    assert(feed_spec(fresh, Seq::<u8>::empty()).0 == fresh);
    assert(feed_spec(fresh, Seq::<u8>::empty()).1 == Seq::<FrameItemView>::empty());
    assert(feed_spec(fresh, seq![LF]).0 == fresh);
    assert(feed_spec(fresh, seq![LF]).1 =~= seq![empty_rec]);
    assert(feed_spec(st1, seq![CR, LF]).0 == fresh);
    assert(feed_spec(st1, seq![CR, LF]).1 =~= seq![FrameItemView::Record(body), empty_rec]);
    assert(feed_spec(fresh, line).0 == fresh);
    assert(feed_spec(fresh, line).1 =~= seq![FrameItemView::Record(body), empty_rec]);
    lemma_round_trip(m);
}

} // verus!
