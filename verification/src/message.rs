//! The wire data model: message sources, parsed messages, and outbound
//! commands, together with their mathematical views and well-formedness.
//!
//! Records travel as byte strings. All structure of the wire grammar (spaces,
//! colons, terminators) is ASCII, so the engine frames, parses and serializes
//! raw bytes; text is only decoded for display, outside the engine.

use vstd::prelude::*;
use crate::text::{SPACE, COLON, CR, LF};

verus! {

/// The origin of an incoming message: either the network's server by name, or
/// a peer given as `nick!user@host`.
pub enum Source {
    ServerName(Vec<u8>),
    ClientName(Vec<u8>, Vec<u8>, Vec<u8>),
}

/// Mathematical view of a `Source`.
pub enum SourceView {
    ServerName(Seq<u8>),
    ClientName(Seq<u8>, Seq<u8>, Seq<u8>),
}

impl View for Source {
    type V = SourceView;

    open spec fn view(&self) -> SourceView {
        match self {
            Source::ServerName(x) => SourceView::ServerName(x@),
            Source::ClientName(n, u, h) => SourceView::ClientName(n@, u@, h@),
        }
    }
}

impl DeepView for Source {
    type V = SourceView;

    open spec fn deep_view(&self) -> SourceView {
        self.view()
    }
}

impl SourceView {
    /// The short display form: a client is shortened to its nick.
    pub open spec fn shorten(self) -> Seq<u8> {
        match self {
            SourceView::ServerName(x) => x,
            SourceView::ClientName(n, _, _) => n,
        }
    }

    /// The token form the source takes on the wire, after the leading colon.
    pub open spec fn token(self) -> Seq<u8> {
        match self {
            SourceView::ServerName(x) => x,
            SourceView::ClientName(n, u, h) => n + seq![crate::text::BANG] + u + seq![crate::text::AT] + h,
        }
    }
}

impl Source {
    /// The short display form: a client identity is shortened to its nick.
    pub fn shorten(&self) -> (r: &Vec<u8>)
        ensures
            r@ == self@.shorten(),
    {
        match self {
            Source::ServerName(x) => x,
            Source::ClientName(n, _, _) => n,
        }
    }
}

/// One parsed protocol record.
///
/// `params` are the positional parameters; `trailing` is the final parameter
/// introduced by `" :"`, the only one allowed to contain spaces.
pub struct Message {
    pub source: Option<Source>,
    pub command: Vec<u8>,
    pub params: Vec<Vec<u8>>,
    pub trailing: Option<Vec<u8>>,
}

/// Mathematical view of a `Message`.
pub struct MessageView {
    pub source: Option<SourceView>,
    pub command: Seq<u8>,
    pub params: Seq<Seq<u8>>,
    pub trailing: Option<Seq<u8>>,
}

impl View for Message {
    type V = MessageView;

    open spec fn view(&self) -> MessageView {
        MessageView {
            source: match self.source {
                Some(s) => Some(s@),
                None => None,
            },
            command: self.command@,
            params: self.params.deep_view(),
            trailing: match self.trailing {
                Some(t) => Some(t@),
                None => None,
            },
        }
    }
}

impl MessageView {
    /// Positional parameters and trailing parameter as one argument list,
    /// the shape the dispatcher keys its decisions on.
    pub open spec fn all_args(self) -> Seq<Seq<u8>> {
        self.params + match self.trailing {
            Some(t) => seq![t],
            None => Seq::<Seq<u8>>::empty(),
        }
    }
}

/// A command to be serialized and written out: the write-side mirror of
/// `Message`, with the source already in token form.
pub struct OutboundCommand {
    pub source: Option<Vec<u8>>,
    pub command: Vec<u8>,
    pub params: Vec<Vec<u8>>,
    pub trailing: Option<Vec<u8>>,
}

/// Mathematical view of an `OutboundCommand`.
pub struct OutboundView {
    pub source: Option<Seq<u8>>,
    pub command: Seq<u8>,
    pub params: Seq<Seq<u8>>,
    pub trailing: Option<Seq<u8>>,
}

impl View for OutboundCommand {
    type V = OutboundView;

    open spec fn view(&self) -> OutboundView {
        OutboundView {
            source: match self.source {
                Some(s) => Some(s@),
                None => None,
            },
            command: self.command@,
            params: self.params.deep_view(),
            trailing: match self.trailing {
                Some(t) => Some(t@),
                None => None,
            },
        }
    }
}

impl DeepView for OutboundCommand {
    type V = OutboundView;

    open spec fn deep_view(&self) -> OutboundView {
        self.view()
    }
}

/// A token that can stand on the wire as a command or positional parameter:
/// nonempty, free of spaces and terminators, and not opening with the colon
/// that would make it look like a trailing parameter.
pub open spec fn wf_token(t: Seq<u8>) -> bool {
    &&& t.len() > 0
    &&& t[0] != COLON
    &&& forall|i: int| 0 <= i < t.len() ==> t[i] != SPACE && t[i] != CR && t[i] != LF
}

/// Free of spaces and terminators (for the pieces of a source token).
pub open spec fn plain_bytes(t: Seq<u8>) -> bool {
    forall|i: int| 0 <= i < t.len() ==> t[i] != SPACE && t[i] != CR && t[i] != LF
}

/// Free of record terminators (for trailing parameters, which may hold
/// spaces and colons).
pub open spec fn no_terminators(t: Seq<u8>) -> bool {
    forall|i: int| 0 <= i < t.len() ==> t[i] != CR && t[i] != LF
}

/// A source whose wire token reads back as the same source.
///
/// A server name must be a nonempty plain token that does not itself match
/// the `nick!user@host` pattern. In a client identity the user may hold
/// neither separator and the host no `@`, so that the token splits back at
/// the separators it was built from; the nick is unconstrained beyond
/// plainness, since the split takes the last eligible `!` and the last `@`.
pub open spec fn wf_source(s: SourceView) -> bool {
    match s {
        SourceView::ServerName(x) => {
            &&& x.len() > 0
            &&& plain_bytes(x)
            &&& !client_patterned(x)
        },
        SourceView::ClientName(n, u, h) => {
            &&& plain_bytes(n)
            &&& plain_bytes(u)
            &&& plain_bytes(h)
            &&& forall|i: int| 0 <= i < u.len() ==> u[i] != crate::text::BANG && u[i] != crate::text::AT
            &&& forall|i: int| 0 <= i < h.len() ==> h[i] != crate::text::AT
        },
    }
}

/// Whether a token matches the `nick!user@host` pattern: some `!` with a
/// later `@`.
pub open spec fn client_patterned(t: Seq<u8>) -> bool {
    exists|i: int, j: int|
        0 <= i < j < t.len() && t[i] == crate::text::BANG && t[j] == crate::text::AT
}

/// A message every part of which can stand on the wire and read back intact.
pub open spec fn wf_message(m: MessageView) -> bool {
    &&& match m.source {
        Some(s) => wf_source(s),
        None => true,
    }
    &&& wf_token(m.command)
    &&& forall|i: int| 0 <= i < m.params.len() ==> wf_token(#[trigger] m.params[i])
    &&& match m.trailing {
        Some(t) => no_terminators(t),
        None => true,
    }
}

} // verus!
