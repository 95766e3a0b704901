//! Wire serialization of outbound commands, under the 512-byte line limit.

use vstd::prelude::*;
use crate::message::{OutboundCommand, OutboundView};
use crate::text::{SPACE, COLON, CR, LF, append_bytes};

verus! {

/// The wire limit on one line, terminator included.
pub const MAX_WIRE: usize = 512;

/// A command whose serialized form would not fit on one wire line.
#[derive(Debug)]
pub enum WriteError {
    TooLong,
}

/// The wire form of an optional source prefix: `:source ` when present.
pub open spec fn source_wire(s: Option<Seq<u8>>) -> Seq<u8> {
    match s {
        Some(t) => seq![COLON] + t + seq![SPACE],
        None => Seq::empty(),
    }
}

/// The wire form of the positional parameters: each followed by a space.
pub open spec fn params_wire(ps: Seq<Seq<u8>>) -> Seq<u8>
    decreases ps.len(),
{
    if ps.len() == 0 {
        Seq::empty()
    } else {
        ps[0] + seq![SPACE] + params_wire(ps.drop_first())
    }
}

/// The wire form of an optional trailing parameter: `:trailing` when present.
pub open spec fn trailing_wire(t: Option<Seq<u8>>) -> Seq<u8> {
    match t {
        Some(t) => seq![COLON] + t,
        None => Seq::empty(),
    }
}

/// The body of a wire line: source prefix, command and a space, parameters,
/// trailing parameter — everything but the terminator.
pub open spec fn wire_body(c: OutboundView) -> Seq<u8> {
    source_wire(c.source) + c.command + seq![SPACE] + params_wire(c.params)
        + trailing_wire(c.trailing)
}

/// The full wire line: the body followed by CR LF.
pub open spec fn wire_of(c: OutboundView) -> Seq<u8> {
    wire_body(c) + seq![CR, LF]
}

/// `params_wire` grows at the back, one parameter and its space at a time.
pub proof fn lemma_params_wire_snoc(ps: Seq<Seq<u8>>, p: Seq<u8>)
    ensures
        params_wire(ps.push(p)) == params_wire(ps) + p + seq![SPACE],
    decreases ps.len(),
{
    if ps.len() == 0 {
        assert(ps.push(p).drop_first() =~= Seq::<Seq<u8>>::empty());
        assert(params_wire(Seq::<Seq<u8>>::empty()) == Seq::<u8>::empty());
        assert(ps.push(p)[0] == p);
        assert(params_wire(ps.push(p)) =~= params_wire(ps) + p + seq![SPACE]);
    } else {
        assert(ps.push(p).drop_first() =~= ps.drop_first().push(p));
        lemma_params_wire_snoc(ps.drop_first(), p);
        assert(params_wire(ps.push(p)) =~= params_wire(ps) + p + seq![SPACE]);
    }
}

/// Serialize a command into one wire line, or refuse one that would exceed
/// the 512-byte limit. No truncation is performed: an oversize command is
/// the caller's to shorten.
pub fn serialize(c: &OutboundCommand) -> (r: Result<Vec<u8>, WriteError>)
    ensures
        match r {
            Ok(v) => v@ == wire_of(c@) && v@.len() <= MAX_WIRE,
            Err(_) => wire_of(c@).len() > MAX_WIRE,
        },
{
    let mut out: Vec<u8> = Vec::new();
    match &c.source {
        Some(s) => {
            out.push(COLON);
            append_bytes(&mut out, s);
            out.push(SPACE);
            proof {
                assert(out@ =~= source_wire(c@.source));
            }
        },
        None => {},
    }
    append_bytes(&mut out, &c.command);
    out.push(SPACE);
    let ghost head = source_wire(c@.source) + c@.command + seq![SPACE];
    proof {
        assert(params_wire(c@.params.subrange(0, 0)) =~= Seq::<u8>::empty());
        assert(out@ =~= head + params_wire(c@.params.subrange(0, 0)));
    }
    let mut k: usize = 0;
    while k < c.params.len()
        invariant
            k <= c.params@.len(),
            out@ == head + params_wire(c@.params.subrange(0, k as int)),
            head == source_wire(c@.source) + c@.command + seq![SPACE],
        decreases c.params@.len() - k,
    {
        let ghost taken = c@.params.subrange(0, k as int);
        append_bytes(&mut out, &c.params[k]);
        out.push(SPACE);
        proof {
            assert(c@.params[k as int] =~= c.params@[k as int]@);
            lemma_params_wire_snoc(taken, c@.params[k as int]);
            assert(taken.push(c@.params[k as int]) =~= c@.params.subrange(0, k + 1 as int));
            assert(out@ =~= head + params_wire(c@.params.subrange(0, k + 1 as int)));
        }
        k = k + 1;
    }
    proof {
        assert(params_wire(c@.params.subrange(0, 0)) =~= Seq::<u8>::empty());
        assert(c@.params.subrange(0, c.params@.len() as int) =~= c@.params);
    }
    match &c.trailing {
        Some(t) => {
            out.push(COLON);
            append_bytes(&mut out, t);
        },
        None => {},
    }
    out.push(CR);
    out.push(LF);
    proof {
        assert(out@ =~= wire_of(c@));
    }
    if out.len() > MAX_WIRE {
        Err(WriteError::TooLong)
    } else {
        Ok(out)
    }
}

} // verus!
