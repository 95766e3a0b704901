//! Connection-scoped state: the configuration supplied before connect, and
//! the session created fresh for each connection.

use vstd::prelude::*;

verus! {

/// The configuration record supplied before connect. The engine itself uses
/// the identity fields and the channel list; the server address, port and
/// password are carried for the connection layer.
#[derive(Clone)]
pub struct Config {
    pub nickname: Vec<u8>,
    pub username: Vec<u8>,
    pub realname: Vec<u8>,
    pub password: Vec<u8>,
    pub server: Vec<u8>,
    pub port: u16,
    pub channels: Vec<Vec<u8>>,
}

/// Mathematical view of a `Config`.
pub struct ConfigView {
    pub nickname: Seq<u8>,
    pub username: Seq<u8>,
    pub realname: Seq<u8>,
    pub password: Seq<u8>,
    pub server: Seq<u8>,
    pub port: u16,
    pub channels: Seq<Seq<u8>>,
}

impl View for Config {
    type V = ConfigView;

    open spec fn view(&self) -> ConfigView {
        ConfigView {
            nickname: self.nickname@,
            username: self.username@,
            realname: self.realname@,
            password: self.password@,
            server: self.server@,
            port: self.port,
            channels: self.channels.deep_view(),
        }
    }
}

/// Mutable connection state: the nickname currently claimed (it grows a
/// trailing underscore on each collision), whether registration has
/// completed, and the set of joined channels.
pub struct Session {
    pub nickname: Vec<u8>,
    pub registered: bool,
    pub channels: Vec<Vec<u8>>,
}

/// Mathematical view of a `Session`. `channels` is kept in join order; as
/// the joined-channel set it is read through `joined`.
pub struct SessionView {
    pub nickname: Seq<u8>,
    pub registered: bool,
    pub channels: Seq<Seq<u8>>,
}

impl SessionView {
    /// The joined-channel set.
    pub open spec fn joined(self) -> Set<Seq<u8>> {
        self.channels.to_set()
    }
}

impl View for Session {
    type V = SessionView;

    open spec fn view(&self) -> SessionView {
        SessionView {
            nickname: self.nickname@,
            registered: self.registered,
            channels: self.channels.deep_view(),
        }
    }
}

/// The session a connection starts in.
pub open spec fn initial_session(cfg: ConfigView) -> SessionView {
    SessionView { nickname: cfg.nickname, registered: false, channels: Seq::empty() }
}

impl Session {
    /// A fresh session for a new connection: the configured nickname, not
    /// yet registered, no channels joined.
    pub fn new(cfg: &Config) -> (s: Session)
        ensures
            s@ == initial_session(cfg@),
    {
        let s = Session {
            nickname: crate::text::clone_bytes(&cfg.nickname),
            registered: false,
            channels: Vec::new(),
        };
        proof {
            assert(s@.channels =~= initial_session(cfg@).channels);
        }
        s
    }
}

} // verus!
