//! Command dispatch: the state machine over (registration state, command).
//!
//! Registration runs `NICK`/`USER` at connect, then waits for the end of
//! the MOTD (`376`, or `422` when there is none) to join the configured
//! channels; a `433` collision reply grows the nickname by one underscore
//! and re-sends `NICK` only — `USER` is never re-sent. `PING` is answered
//! with one `PONG` echoing the token. Chat lines and everything else are
//! handed to the display/relay sink as events.

use vstd::prelude::*;
use crate::message::{Message, MessageView, OutboundCommand, OutboundView, SourceView};
use crate::session::{Config, ConfigView, Session, SessionView};
use crate::text::{UNDERSCORE, clone_bytes, clone_bytes_list, bytes_eq3, bytes_eq4, bytes_eq6,
    bytes_eq7, vec1, vec4, lemma_deep_bytes};

verus! {

/// The numeric reply that carries one MOTD line.
pub open spec fn cmd_motd_line() -> Seq<u8> {
    seq![51u8, 55u8, 50u8]
}

/// The numeric reply that opens the MOTD.
pub open spec fn cmd_motd_start() -> Seq<u8> {
    seq![51u8, 55u8, 53u8]
}

/// The numeric reply that ends the MOTD.
pub open spec fn cmd_motd_end() -> Seq<u8> {
    seq![51u8, 55u8, 54u8]
}

/// The numeric reply that says there is no MOTD.
pub open spec fn cmd_no_motd() -> Seq<u8> {
    seq![52u8, 50u8, 50u8]
}

/// The numeric reply that says the nickname is already taken.
pub open spec fn cmd_nick_taken() -> Seq<u8> {
    seq![52u8, 51u8, 51u8]
}

/// The NOTICE verb.
pub open spec fn cmd_notice() -> Seq<u8> {
    seq![78u8, 79u8, 84u8, 73u8, 67u8, 69u8]
}

/// The PRIVMSG verb.
pub open spec fn cmd_privmsg() -> Seq<u8> {
    seq![80u8, 82u8, 73u8, 86u8, 77u8, 83u8, 71u8]
}

/// The PING verb.
pub open spec fn cmd_ping() -> Seq<u8> {
    seq![80u8, 73u8, 78u8, 71u8]
}

/// The PONG verb.
pub open spec fn cmd_pong() -> Seq<u8> {
    seq![80u8, 79u8, 78u8, 71u8]
}

/// The NICK verb.
pub open spec fn cmd_nick() -> Seq<u8> {
    seq![78u8, 73u8, 67u8, 75u8]
}

/// The USER verb.
pub open spec fn cmd_user() -> Seq<u8> {
    seq![85u8, 83u8, 69u8, 82u8]
}

/// The JOIN verb.
pub open spec fn cmd_join() -> Seq<u8> {
    seq![74u8, 79u8, 73u8, 78u8]
}

/// What the dispatcher hands to the display/relay sink.
pub enum DisplayEvent {
    /// One MOTD line.
    Motd(Vec<u8>),
    /// A chat line: a NOTICE (when `notice` is set) or a PRIVMSG.
    Chat { notice: bool, channel: Vec<u8>, nick: Vec<u8>, text: Vec<u8> },
    /// Any message the dispatcher has no rule for, passed through raw.
    Raw { source: Vec<u8>, command: Vec<u8>, args: Vec<Vec<u8>> },
    /// A record the parser rejected.
    BadRecord(Vec<u8>),
    /// A record the framer rejected for exceeding the wire limit.
    OversizeRecord,
    /// A reply that was dropped because it would not fit on a wire line.
    DroppedReply,
}

/// Mathematical view of a `DisplayEvent`.
pub enum EventView {
    Motd(Seq<u8>),
    Chat { notice: bool, channel: Seq<u8>, nick: Seq<u8>, text: Seq<u8> },
    Raw { source: Seq<u8>, command: Seq<u8>, args: Seq<Seq<u8>> },
    BadRecord(Seq<u8>),
    OversizeRecord,
    DroppedReply,
}

impl View for DisplayEvent {
    type V = EventView;

    open spec fn view(&self) -> EventView {
        match self {
            DisplayEvent::Motd(t) => EventView::Motd(t@),
            DisplayEvent::Chat { notice, channel, nick, text } => EventView::Chat {
                notice: *notice,
                channel: channel@,
                nick: nick@,
                text: text@,
            },
            DisplayEvent::Raw { source, command, args } => EventView::Raw {
                source: source@,
                command: command@,
                args: args.deep_view(),
            },
            DisplayEvent::BadRecord(r) => EventView::BadRecord(r@),
            DisplayEvent::OversizeRecord => EventView::OversizeRecord,
            DisplayEvent::DroppedReply => EventView::DroppedReply,
        }
    }
}

impl DeepView for DisplayEvent {
    type V = EventView;

    open spec fn deep_view(&self) -> EventView {
        self.view()
    }
}

/// A `NICK` command claiming the given nickname.
pub open spec fn nick_cmd(n: Seq<u8>) -> OutboundView {
    OutboundView { source: None, command: cmd_nick(), params: seq![n], trailing: None }
}

/// The `USER` command of the handshake: `USER <user> 0 * :<realname>`.
pub open spec fn user_cmd(user: Seq<u8>, realname: Seq<u8>) -> OutboundView {
    OutboundView {
        source: None,
        command: cmd_user(),
        params: seq![user, seq![48u8], seq![42u8]],
        trailing: Some(realname),
    }
}

/// A `JOIN` command for one channel, sent as `JOIN :<channel>`.
pub open spec fn join_cmd(ch: Seq<u8>) -> OutboundView {
    OutboundView { source: None, command: cmd_join(), params: Seq::empty(), trailing: Some(ch) }
}

/// The `JOIN` commands for a whole channel list, in order.
pub open spec fn join_cmds(chs: Seq<Seq<u8>>) -> Seq<OutboundView> {
    Seq::new(chs.len(), |i: int| join_cmd(chs[i]))
}

/// A `PONG` reply, echoing the token when there is one.
pub open spec fn pong_cmd(token: Option<Seq<u8>>) -> OutboundView {
    OutboundView { source: None, command: cmd_pong(), params: Seq::empty(), trailing: token }
}

/// The token a `PING` carries, if any.
pub open spec fn ping_token(m: MessageView) -> Option<Seq<u8>> {
    if m.all_args().len() >= 1 {
        Some(m.all_args()[0])
    } else {
        None
    }
}

/// The label shown for a message's source: its short form, or nothing.
pub open spec fn source_label(s: Option<SourceView>) -> Seq<u8> {
    match s {
        Some(sv) => sv.shorten(),
        None => Seq::empty(),
    }
}

/// What one dispatch step produces: the session after the step, the
/// commands to send, and the events for the display/relay sink.
pub struct StepView {
    pub session: SessionView,
    pub outbound: Seq<OutboundView>,
    pub events: Seq<EventView>,
}

/// The dispatch state machine, keyed on (registration state, command).
///
/// Rows whose precondition (not yet registered) fails leave the session
/// unchanged and produce nothing. A listed command whose argument shape
/// does not fit its row falls through to the raw pass-through.
pub open spec fn dispatch_spec(s: SessionView, cfg: ConfigView, m: MessageView) -> StepView {
    let args = m.all_args();
    if m.command == cmd_motd_line() && args.len() == 2 {
        StepView { session: s, outbound: Seq::empty(), events: seq![EventView::Motd(args[1])] }
    } else if m.command == cmd_motd_start() {
        StepView { session: s, outbound: Seq::empty(), events: Seq::empty() }
    } else if m.command == cmd_motd_end() || m.command == cmd_no_motd() {
        if !s.registered {
            StepView {
                session: SessionView {
                    nickname: s.nickname,
                    registered: true,
                    channels: cfg.channels,
                },
                outbound: join_cmds(cfg.channels),
                events: Seq::empty(),
            }
        } else {
            StepView { session: s, outbound: Seq::empty(), events: Seq::empty() }
        }
    } else if m.command == cmd_nick_taken() {
        if !s.registered {
            let grown = s.nickname + seq![UNDERSCORE];
            StepView {
                session: SessionView { nickname: grown, registered: false, channels: s.channels },
                outbound: seq![nick_cmd(grown)],
                events: Seq::empty(),
            }
        } else {
            StepView { session: s, outbound: Seq::empty(), events: Seq::empty() }
        }
    } else if (m.command == cmd_notice() || m.command == cmd_privmsg()) && args.len() == 2 {
        StepView {
            session: s,
            outbound: Seq::empty(),
            events: seq![
                EventView::Chat {
                    notice: m.command == cmd_notice(),
                    channel: args[0],
                    nick: source_label(m.source),
                    text: args[1],
                }
            ],
        }
    } else if m.command == cmd_ping() {
        StepView { session: s, outbound: seq![pong_cmd(ping_token(m))], events: Seq::empty() }
    } else {
        StepView {
            session: s,
            outbound: Seq::empty(),
            events: seq![
                EventView::Raw { source: source_label(m.source), command: m.command, args: args }
            ],
        }
    }
}

/// The commands sent at connect: `NICK`, then `USER`, once each.
pub open spec fn connect_cmds(cfg: ConfigView) -> Seq<OutboundView> {
    seq![nick_cmd(cfg.nickname), user_cmd(cfg.username, cfg.realname)]
}

fn mk_nick(n: &Vec<u8>) -> (c: OutboundCommand)
    ensures
        c@ == nick_cmd(n@),
{
    let mut params: Vec<Vec<u8>> = Vec::new();
    params.push(clone_bytes(n));
    let c = OutboundCommand {
        source: None,
        command: vec4(78, 73, 67, 75),
        params,
        trailing: None,
    };
    proof {
        assert(c@.params =~~= seq![n@]);
    }
    c
}

fn mk_join(ch: &Vec<u8>) -> (c: OutboundCommand)
    ensures
        c@ == join_cmd(ch@),
{
    let c = OutboundCommand {
        source: None,
        command: vec4(74, 79, 73, 78),
        params: Vec::new(),
        trailing: Some(clone_bytes(ch)),
    };
    proof {
        assert(c@.params =~~= Seq::<Seq<u8>>::empty());
    }
    c
}

fn mk_pong(token: Option<Vec<u8>>) -> (c: OutboundCommand)
    ensures
        c@ == pong_cmd(match token {
            Some(t) => Some(t@),
            None => None,
        }),
{
    let c = OutboundCommand {
        source: None,
        command: vec4(80, 79, 78, 71),
        params: Vec::new(),
        trailing: token,
    };
    proof {
        assert(c@.params =~~= Seq::<Seq<u8>>::empty());
    }
    c
}

fn mk_user(user: &Vec<u8>, realname: &Vec<u8>) -> (c: OutboundCommand)
    ensures
        c@ == user_cmd(user@, realname@),
{
    let mut params: Vec<Vec<u8>> = Vec::new();
    params.push(clone_bytes(user));
    params.push(vec1(48));
    params.push(vec1(42));
    let c = OutboundCommand {
        source: None,
        command: vec4(85, 83, 69, 82),
        params,
        trailing: Some(clone_bytes(realname)),
    };
    proof {
        assert(c@.params =~~= seq![user@, seq![48u8], seq![42u8]]);
    }
    c
}

/// Whether the message carries exactly two arguments, counting the
/// trailing parameter.
fn has_two_args(m: &Message) -> (r: bool)
    ensures
        r == (m@.all_args().len() == 2),
{
    (m.params.len() == 2 && m.trailing.is_none()) || (m.params.len() == 1 && m.trailing.is_some())
}

/// Whether the message carries any argument at all.
fn has_args(m: &Message) -> (r: bool)
    ensures
        r == (m@.all_args().len() >= 1),
{
    m.params.len() >= 1 || m.trailing.is_some()
}

/// The two arguments of a two-argument message.
fn two_args<'a>(m: &'a Message) -> (r: (&'a Vec<u8>, &'a Vec<u8>))
    requires
        m@.all_args().len() == 2,
    ensures
        r.0@ == m@.all_args()[0],
        r.1@ == m@.all_args()[1],
{
    proof {
        lemma_deep_bytes(&m.params);
    }
    if m.params.len() == 2 {
        (&m.params[0], &m.params[1])
    } else {
        match &m.trailing {
            Some(t) => (&m.params[0], t),
            None => vstd::pervasive::unreached(),
        }
    }
}

/// The first argument of a message that has one.
fn first_arg<'a>(m: &'a Message) -> (r: &'a Vec<u8>)
    requires
        m@.all_args().len() >= 1,
    ensures
        r@ == m@.all_args()[0],
{
    proof {
        lemma_deep_bytes(&m.params);
    }
    if m.params.len() >= 1 {
        &m.params[0]
    } else {
        match &m.trailing {
            Some(t) => t,
            None => vstd::pervasive::unreached(),
        }
    }
}

/// The whole argument list, owned.
fn all_args_vec(m: &Message) -> (v: Vec<Vec<u8>>)
    ensures
        v.deep_view() == m@.all_args(),
{
    let mut v = clone_bytes_list(&m.params);
    match &m.trailing {
        Some(t) => {
            let ghost prev = v.deep_view();
            v.push(clone_bytes(t));
            proof {
                assert(v.deep_view() =~~= prev.push(t@));
                assert(v.deep_view() =~~= m@.all_args());
            }
        },
        None => {
            proof {
                assert(v.deep_view() =~~= m@.all_args());
            }
        },
    }
    v
}

/// The display label of a source, owned.
fn source_label_vec(s: &Option<crate::message::Source>) -> (v: Vec<u8>)
    ensures
        v@ == source_label(match s {
            Some(sv) => Some(sv@),
            None => None,
        }),
{
    match s {
        Some(sv) => clone_bytes(sv.shorten()),
        None => Vec::new(),
    }
}

/// Dispatch one parsed message against the session: decide the state
/// change, the replies to send, and the events for the sink — exactly as
/// `dispatch_spec` says.
pub fn dispatch(session: &mut Session, cfg: &Config, msg: &Message) -> (r: (
    Vec<OutboundCommand>,
    Vec<DisplayEvent>,
))
    ensures
        ({
            let step = dispatch_spec(old(session)@, cfg@, msg@);
            &&& final(session)@ == step.session
            &&& r.0.deep_view() == step.outbound
            &&& r.1.deep_view() == step.events
        }),
{
    let ghost step = dispatch_spec(session@, cfg@, msg@);
    let mut out: Vec<OutboundCommand> = Vec::new();
    let mut evs: Vec<DisplayEvent> = Vec::new();
    if bytes_eq3(&msg.command, 51, 55, 50) && has_two_args(msg) {
        // 372: one MOTD line for the sink
        let (_, text) = two_args(msg);
        evs.push(DisplayEvent::Motd(clone_bytes(text)));
        proof {
            assert(evs.deep_view() =~~= step.events);
            assert(out.deep_view() =~~= step.outbound);
        }
        return (out, evs);
    }
    if bytes_eq3(&msg.command, 51, 55, 53) {
        // 375: beginning of MOTD, nothing to do
        proof {
            assert(evs.deep_view() =~~= step.events);
            assert(out.deep_view() =~~= step.outbound);
        }
        return (out, evs);
    }
    if bytes_eq3(&msg.command, 51, 55, 54) || bytes_eq3(&msg.command, 52, 50, 50) {
        // 376 / 422: end of MOTD (or none): join the configured channels
        if !session.registered {
            let mut k: usize = 0;
            proof {
                assert(out.deep_view() =~~= join_cmds(cfg@.channels).subrange(0, 0));
            }
            while k < cfg.channels.len()
                invariant
                    k <= cfg.channels@.len(),
                    cfg@.channels.len() == cfg.channels@.len(),
                    out.deep_view() == join_cmds(cfg@.channels).subrange(0, k as int),
                decreases cfg.channels@.len() - k,
            {
                let ghost prev = out.deep_view();
                out.push(mk_join(&cfg.channels[k]));
                proof {
                    lemma_deep_bytes(&cfg.channels);
                    assert(out.deep_view() =~~= prev.push(join_cmd(cfg@.channels[k as int])));
                    assert(out.deep_view() =~~= join_cmds(cfg@.channels).subrange(0, k + 1 as int));
                }
                k = k + 1;
            }
            session.registered = true;
            session.channels = clone_bytes_list(&cfg.channels);
            proof {
                assert(join_cmds(cfg@.channels).subrange(0, cfg@.channels.len() as int)
                    =~= join_cmds(cfg@.channels));
                assert(evs.deep_view() =~~= step.events);
            }
        } else {
            proof {
                assert(evs.deep_view() =~~= step.events);
                assert(out.deep_view() =~~= step.outbound);
            }
        }
        return (out, evs);
    }
    if bytes_eq3(&msg.command, 52, 51, 51) {
        // 433: nickname already taken — grow it and claim again
        if !session.registered {
            session.nickname.push(UNDERSCORE);
            out.push(mk_nick(&session.nickname));
            proof {
                assert(session@.nickname =~= old(session)@.nickname + seq![UNDERSCORE]);
                assert(out.deep_view() =~~= step.outbound);
                assert(evs.deep_view() =~~= step.events);
            }
        } else {
            proof {
                assert(evs.deep_view() =~~= step.events);
                assert(out.deep_view() =~~= step.outbound);
            }
        }
        return (out, evs);
    }
    let is_notice = bytes_eq6(&msg.command, 78, 79, 84, 73, 67, 69);
    if (is_notice || bytes_eq7(&msg.command, 80, 82, 73, 86, 77, 83, 71)) && has_two_args(msg) {
        // NOTICE / PRIVMSG: a chat line for the sink
        let (channel, text) = two_args(msg);
        evs.push(
            DisplayEvent::Chat {
                notice: is_notice,
                channel: clone_bytes(channel),
                nick: source_label_vec(&msg.source),
                text: clone_bytes(text),
            },
        );
        proof {
            assert(evs.deep_view() =~~= step.events);
            assert(out.deep_view() =~~= step.outbound);
        }
        return (out, evs);
    }
    if bytes_eq4(&msg.command, 80, 73, 78, 71) {
        // PING: answer with one PONG, echoing the token
        if has_args(msg) {
            out.push(mk_pong(Some(clone_bytes(first_arg(msg)))));
        } else {
            out.push(mk_pong(None));
        }
        proof {
            assert(out.deep_view() =~~= step.outbound);
            assert(evs.deep_view() =~~= step.events);
        }
        return (out, evs);
    }
    // Anything else: pass the message through raw
    evs.push(
        DisplayEvent::Raw {
            source: source_label_vec(&msg.source),
            command: clone_bytes(&msg.command),
            args: all_args_vec(msg),
        },
    );
    proof {
        assert(evs.deep_view() =~~= step.events);
        assert(out.deep_view() =~~= step.outbound);
    }
    (out, evs)
}

/// The connect-time handshake: claim the nickname and identify, exactly
/// `NICK` then `USER`.
pub fn on_connect(cfg: &Config) -> (r: Vec<OutboundCommand>)
    ensures
        r.deep_view() == connect_cmds(cfg@),
{
    let mut r: Vec<OutboundCommand> = Vec::new();
    r.push(mk_nick(&cfg.nickname));
    r.push(mk_user(&cfg.username, &cfg.realname));
    proof {
        assert(r.deep_view() =~~= connect_cmds(cfg@));
    }
    r
}

/// A `PING` is answered by exactly one outbound command — the `PONG`
/// echoing its token — before any other outbound traffic, and the session
/// does not change.
pub proof fn lemma_ping_pong(s: SessionView, cfg: ConfigView, m: MessageView)
    requires
        m.command == cmd_ping(),
    ensures
        dispatch_spec(s, cfg, m).outbound == seq![pong_cmd(ping_token(m))],
        dispatch_spec(s, cfg, m).session == s,
        dispatch_spec(s, cfg, m).events == Seq::<EventView>::empty(),
{
}

/// Each nickname collision before registration grows the nickname by
/// exactly one trailing underscore and re-sends `NICK` alone.
pub proof fn lemma_nick_collision(s: SessionView, cfg: ConfigView, m: MessageView)
    requires
        m.command == cmd_nick_taken(),
        !s.registered,
    ensures
        dispatch_spec(s, cfg, m).session.nickname == s.nickname + seq![UNDERSCORE],
        dispatch_spec(s, cfg, m).session.registered == s.registered,
        dispatch_spec(s, cfg, m).session.channels == s.channels,
        dispatch_spec(s, cfg, m).outbound == seq![
            nick_cmd(s.nickname + seq![UNDERSCORE])
        ],
{
}

/// Dispatch never sends `USER`: the identification of the handshake is
/// sent at connect only, however many collisions follow.
pub proof fn lemma_dispatch_never_sends_user(s: SessionView, cfg: ConfigView, m: MessageView)
    ensures
        forall|i: int|
            0 <= i < dispatch_spec(s, cfg, m).outbound.len()
                ==> (#[trigger] dispatch_spec(s, cfg, m).outbound[i]).command != cmd_user(),
{
    let step = dispatch_spec(s, cfg, m);
    assert(cmd_nick()[0] != cmd_user()[0]);
    assert(cmd_pong()[0] != cmd_user()[0]);
    assert(cmd_join()[0] != cmd_user()[0]);
    assert forall|i: int| 0 <= i < step.outbound.len() implies (#[trigger] step.outbound[i]).command
        != cmd_user() by {
        if m.command == cmd_motd_end() || m.command == cmd_no_motd() {
            if !s.registered {
                assert(step.outbound[i] == join_cmd(cfg.channels[i]));
            }
        }
    }
}

/// Connect sends `NICK` then `USER`, once each.
pub proof fn lemma_connect_sends_user_once(cfg: ConfigView)
    ensures
        connect_cmds(cfg).len() == 2,
        connect_cmds(cfg)[0].command == cmd_nick(),
        connect_cmds(cfg)[1].command == cmd_user(),
        connect_cmds(cfg)[0] == nick_cmd(cfg.nickname),
        connect_cmds(cfg)[1] == user_cmd(cfg.username, cfg.realname),
{
}

/// The end of the MOTD (or word that there is none) before registration
/// joins exactly the configured channels, in order, and completes
/// registration.
pub proof fn lemma_registration(s: SessionView, cfg: ConfigView, m: MessageView)
    requires
        m.command == cmd_motd_end() || m.command == cmd_no_motd(),
        !s.registered,
    ensures
        dispatch_spec(s, cfg, m).session.registered,
        dispatch_spec(s, cfg, m).session.nickname == s.nickname,
        dispatch_spec(s, cfg, m).session.channels == cfg.channels,
        dispatch_spec(s, cfg, m).session.joined() == cfg.channels.to_set(),
        dispatch_spec(s, cfg, m).outbound.len() == cfg.channels.len(),
        forall|i: int|
            0 <= i < cfg.channels.len()
                ==> dispatch_spec(s, cfg, m).outbound[i] == join_cmd(#[trigger] cfg.channels[i]),
{
}

} // verus!
