//! The message grammar: an explicit scan-and-slice tokenizer for one record.
//!
//! A record has the shape
//! `[':' source ' '] command [' ' param]* [' :' trailing]`.
//! The grammar is stated by `parse_record` over byte sequences; the
//! executable parser is proved to return exactly what the grammar says.

use vstd::prelude::*;
use crate::message::{Message, MessageView, Source, SourceView};
use crate::text::{SPACE, COLON, BANG, AT, clone_bytes, subvec};

verus! {

/// A record that cannot be parsed: it holds no command token.
#[derive(Debug)]
pub enum ParseError {
    Malformed,
}

/// The first position at or after `i` that does not hold a space, or the
/// end of the sequence.
pub open spec fn skip_spaces(s: Seq<u8>, i: int) -> int
    decreases s.len() - i,
{
    if i >= s.len() {
        s.len() as int
    } else if s[i] != SPACE {
        i
    } else {
        skip_spaces(s, i + 1)
    }
}

/// The first position at or after `i` that holds a space, or the end of
/// the sequence: the end of the token that starts at `i`.
pub open spec fn token_end(s: Seq<u8>, i: int) -> int
    decreases s.len() - i,
{
    if i >= s.len() {
        s.len() as int
    } else if s[i] == SPACE {
        i
    } else {
        token_end(s, i + 1)
    }
}

pub proof fn lemma_skip_spaces_bounds(s: Seq<u8>, i: int)
    requires
        i <= s.len(),
    ensures
        i <= skip_spaces(s, i) <= s.len(),
    decreases s.len() - i,
{
    if i < s.len() && s[i] == SPACE {
        lemma_skip_spaces_bounds(s, i + 1);
    }
}

pub proof fn lemma_token_end_bounds(s: Seq<u8>, i: int)
    requires
        i <= s.len(),
    ensures
        i <= token_end(s, i) <= s.len(),
    decreases s.len() - i,
{
    if i < s.len() && s[i] != SPACE {
        lemma_token_end_bounds(s, i + 1);
    }
}

/// What `skip_spaces` stops at: spaces before, a non-space (or the end) at
/// the result.
pub proof fn lemma_skip_spaces_props(s: Seq<u8>, i: int)
    requires
        0 <= i <= s.len(),
    ensures
        i <= skip_spaces(s, i) <= s.len(),
        forall|k: int| i <= k < skip_spaces(s, i) ==> s[k] == SPACE,
        skip_spaces(s, i) < s.len() ==> s[skip_spaces(s, i)] != SPACE,
    decreases s.len() - i,
{
    if i < s.len() && s[i] == SPACE {
        lemma_skip_spaces_props(s, i + 1);
    }
}

/// `skip_spaces` is pinned by those properties: if all of `[i, j)` is
/// spaces and `j` is the end or a non-space, then `skip_spaces` yields `j`.
pub proof fn lemma_skip_spaces_is(s: Seq<u8>, i: int, j: int)
    requires
        0 <= i <= j <= s.len(),
        forall|k: int| i <= k < j ==> s[k] == SPACE,
        j == s.len() || s[j] != SPACE,
    ensures
        skip_spaces(s, i) == j,
    decreases j - i,
{
    if i < j {
        lemma_skip_spaces_is(s, i + 1, j);
    }
}

/// What `token_end` stops at: non-spaces before, a space (or the end) at
/// the result.
pub proof fn lemma_token_end_props(s: Seq<u8>, i: int)
    requires
        0 <= i <= s.len(),
    ensures
        i <= token_end(s, i) <= s.len(),
        forall|k: int| i <= k < token_end(s, i) ==> s[k] != SPACE,
        token_end(s, i) < s.len() ==> s[token_end(s, i)] == SPACE,
    decreases s.len() - i,
{
    if i < s.len() && s[i] != SPACE {
        lemma_token_end_props(s, i + 1);
    }
}

/// `token_end` is pinned by those properties.
pub proof fn lemma_token_end_is(s: Seq<u8>, i: int, j: int)
    requires
        0 <= i <= j <= s.len(),
        forall|k: int| i <= k < j ==> s[k] != SPACE,
        j == s.len() || s[j] == SPACE,
    ensures
        token_end(s, i) == j,
    decreases j - i,
{
    if i < j {
        lemma_token_end_is(s, i + 1, j);
    }
}

/// The positional parameters and trailing parameter read from position `i`
/// on: space-delimited tokens until one opens with a colon, which instead
/// begins the trailing parameter, taken verbatim to the end.
pub open spec fn parse_args_at(s: Seq<u8>, i: int) -> (Seq<Seq<u8>>, Option<Seq<u8>>)
    decreases s.len() - i,
    when i >= 0
    via parse_args_at_decreases
{
    let j = skip_spaces(s, i);
    if j >= s.len() {
        (Seq::empty(), None)
    } else if s[j] == COLON {
        (Seq::empty(), Some(s.subrange(j + 1, s.len() as int)))
    } else {
        let te = token_end(s, j);
        let rest = parse_args_at(s, te);
        (seq![s.subrange(j, te)] + rest.0, rest.1)
    }
}

#[via_fn]
proof fn parse_args_at_decreases(s: Seq<u8>, i: int) {
    if 0 <= i <= s.len() {
        lemma_skip_spaces_props(s, i);
        let j = skip_spaces(s, i);
        if j < s.len() && s[j] != COLON {
            lemma_token_end_bounds(s, j + 1);
            assert(token_end(s, j) == token_end(s, j + 1));
        }
    }
}

/// The largest position below `end` holding byte `b`, or `-1` if none does.
pub open spec fn last_index(s: Seq<u8>, b: u8, end: int) -> int
    decreases end,
{
    if end <= 0 {
        -1
    } else if s[end - 1] == b {
        end - 1
    } else {
        last_index(s, b, end - 1)
    }
}

/// What `last_index` finds: an occurrence with none after it, or `-1` when
/// there is no occurrence at all.
pub proof fn lemma_last_index_props(s: Seq<u8>, b: u8, end: int)
    requires
        end <= s.len(),
    ensures
        last_index(s, b, end) == -1 ==> forall|k: int| 0 <= k < end ==> s[k] != b,
        last_index(s, b, end) >= 0 ==> {
            &&& last_index(s, b, end) < end
            &&& s[last_index(s, b, end)] == b
            &&& forall|k: int| last_index(s, b, end) < k < end ==> s[k] != b
        },
    decreases end,
{
    if end > 0 && s[end - 1] != b {
        lemma_last_index_props(s, b, end - 1);
    }
}

/// `last_index` is pinned: an occurrence at `r` with none after it is the
/// result.
pub proof fn lemma_last_index_is(s: Seq<u8>, b: u8, end: int, r: int)
    requires
        0 <= r < end <= s.len(),
        s[r] == b,
        forall|k: int| r < k < end ==> s[k] != b,
    ensures
        last_index(s, b, end) == r,
    decreases end,
{
    if r < end - 1 {
        lemma_last_index_is(s, b, end - 1, r);
    }
}

/// `last_index` yields `-1` when no position below `end` holds `b`.
pub proof fn lemma_last_index_none(s: Seq<u8>, b: u8, end: int)
    requires
        end <= s.len(),
        forall|k: int| 0 <= k < end ==> s[k] != b,
    ensures
        last_index(s, b, end) == -1,
    decreases end,
{
    if end > 0 {
        lemma_last_index_none(s, b, end - 1);
    }
}

/// The source a token denotes. A token of the shape `nick!user@host` — split
/// at the last `@`, and at the last `!` before it — is a client identity;
/// any other token is a server name.
pub open spec fn parse_source_at(t: Seq<u8>) -> SourceView {
    let at = last_index(t, AT, t.len() as int);
    if at < 0 {
        SourceView::ServerName(t)
    } else {
        let bang = last_index(t, BANG, at);
        if bang < 0 {
            SourceView::ServerName(t)
        } else {
            SourceView::ClientName(
                t.subrange(0, bang),
                t.subrange(bang + 1, at),
                t.subrange(at + 1, t.len() as int),
            )
        }
    }
}

/// The message a record denotes, or `None` when the record is malformed.
///
/// A record opening with a colon carries a source token up to the first
/// space; the next token is the command; the rest are parameters. A record
/// with no command token (empty, or spaces only, or a source prefix with
/// nothing after it) is malformed.
pub open spec fn parse_record(r: Seq<u8>) -> Option<MessageView> {
    if r.len() > 0 && r[0] == COLON {
        let te = token_end(r, 1);
        let src = parse_source_at(r.subrange(1, te));
        let body = if te < r.len() {
            te + 1
        } else {
            te
        };
        parse_body(r, body, Some(src))
    } else {
        parse_body(r, 0, None)
    }
}

/// The command and arguments read from position `i` on.
pub open spec fn parse_body(r: Seq<u8>, i: int, src: Option<SourceView>) -> Option<MessageView> {
    let j = skip_spaces(r, i);
    if j >= r.len() {
        None
    } else {
        let ce = token_end(r, j);
        let args = parse_args_at(r, ce);
        Some(
            MessageView {
                source: src,
                command: r.subrange(j, ce),
                params: args.0,
                trailing: args.1,
            },
        )
    }
}

fn skip_spaces_exec(r: &Vec<u8>, i: usize) -> (j: usize)
    requires
        i <= r@.len(),
    ensures
        j == skip_spaces(r@, i as int),
        i <= j <= r@.len(),
{
    let mut k: usize = i;
    while k < r.len() && r[k] == SPACE
        invariant
            i <= k <= r@.len(),
            skip_spaces(r@, i as int) == skip_spaces(r@, k as int),
        decreases r@.len() - k,
    {
        k = k + 1;
    }
    proof {
        lemma_skip_spaces_bounds(r@, k as int);
    }
    k
}

fn token_end_exec(r: &Vec<u8>, i: usize) -> (j: usize)
    requires
        i <= r@.len(),
    ensures
        j == token_end(r@, i as int),
        i <= j <= r@.len(),
{
    let mut k: usize = i;
    while k < r.len() && r[k] != SPACE
        invariant
            i <= k <= r@.len(),
            token_end(r@, i as int) == token_end(r@, k as int),
        decreases r@.len() - k,
    {
        k = k + 1;
    }
    proof {
        lemma_token_end_bounds(r@, k as int);
    }
    k
}

fn last_index_exec(t: &Vec<u8>, b: u8, end: usize) -> (r: Option<usize>)
    requires
        end <= t@.len(),
    ensures
        match r {
            Some(k) => last_index(t@, b, end as int) == k && k < end,
            None => last_index(t@, b, end as int) == -1,
        },
{
    let mut k: usize = end;
    while k > 0
        invariant
            k <= end <= t@.len(),
            last_index(t@, b, end as int) == last_index(t@, b, k as int),
        decreases k,
    {
        if t[k - 1] == b {
            return Some(k - 1);
        }
        k = k - 1;
    }
    None
}

/// Read a source token: `nick!user@host` becomes a client identity, any
/// other token a server name.
pub fn parse_source(token: &Vec<u8>) -> (s: Source)
    ensures
        s@ == parse_source_at(token@),
{
    match last_index_exec(token, AT, token.len()) {
        None => Source::ServerName(clone_bytes(token)),
        Some(at) => match last_index_exec(token, BANG, at) {
            None => Source::ServerName(clone_bytes(token)),
            Some(bang) => Source::ClientName(
                subvec(token, 0, bang),
                subvec(token, bang + 1, at),
                subvec(token, at + 1, token.len()),
            ),
        },
    }
}

/// Read the positional parameters and the trailing parameter of a record,
/// starting at position `from` (just after the command token).
pub fn parse_args(record: &Vec<u8>, from: usize) -> (r: (Vec<Vec<u8>>, Option<Vec<u8>>))
    requires
        from <= record@.len(),
    ensures
        r.0.deep_view() == parse_args_at(record@, from as int).0,
        (match r.1 {
            Some(t) => Some(t@),
            None => None,
        }) == parse_args_at(record@, from as int).1,
{
    let ghost s = record@;
    let ghost goal = parse_args_at(s, from as int);
    let mut params: Vec<Vec<u8>> = Vec::new();
    let mut i: usize = from;
    loop
        invariant
            from <= i <= s.len(),
            s == record@,
            goal == parse_args_at(s, from as int),
            goal.0 == params.deep_view() + parse_args_at(s, i as int).0,
            goal.1 == parse_args_at(s, i as int).1,
        decreases s.len() - i,
    {
        let j = skip_spaces_exec(record, i);
        if j >= record.len() {
            proof {
                assert(parse_args_at(s, i as int).0 =~= Seq::<Seq<u8>>::empty());
                assert(goal.0 =~= params.deep_view());
            }
            return (params, None);
        }
        if record[j] == COLON {
            let tr = subvec(record, j + 1, record.len());
            proof {
                assert(parse_args_at(s, i as int).0 =~= Seq::<Seq<u8>>::empty());
                assert(goal.0 =~= params.deep_view());
            }
            return (params, Some(tr));
        }
        let te = token_end_exec(record, j);
        proof {
            lemma_skip_spaces_props(s, i as int);
            lemma_token_end_bounds(s, j + 1);
            assert(token_end(s, j as int) == token_end(s, j + 1));
            assert(parse_args_at(s, i as int).0 == seq![s.subrange(j as int, te as int)]
                + parse_args_at(s, te as int).0);
            assert(parse_args_at(s, i as int).1 == parse_args_at(s, te as int).1);
        }
        let tok = subvec(record, j, te);
        let ghost prev = params.deep_view();
        params.push(tok);
        proof {
            assert(params.deep_view() =~~= prev + seq![tok@]);
            assert(prev + seq![s.subrange(j as int, te as int)] + parse_args_at(s, te as int).0
                =~= prev + (seq![s.subrange(j as int, te as int)] + parse_args_at(s, te as int).0));
        }
        i = te;
    }
}

/// Parse one record into a message, or report it malformed.
pub fn parse(record: &Vec<u8>) -> (res: Result<Message, ParseError>)
    ensures
        match res {
            Ok(m) => parse_record(record@) == Some(m@),
            Err(_) => parse_record(record@) == None::<MessageView>,
        },
{
    let ghost s = record@;
    let mut src: Option<Source> = None;
    let mut body_start: usize = 0;
    if record.len() > 0 && record[0] == COLON {
        let te = token_end_exec(record, 1);
        let tok = subvec(record, 1, te);
        src = Some(parse_source(&tok));
        body_start = if te < record.len() {
            te + 1
        } else {
            te
        };
    }
    let j = skip_spaces_exec(record, body_start);
    if j >= record.len() {
        return Err(ParseError::Malformed);
    }
    let ce = token_end_exec(record, j);
    let command = subvec(record, j, ce);
    let (params, trailing) = parse_args(record, ce);
    let m = Message { source: src, command, params, trailing };
    proof {
        assert(parse_record(s) == Some(m@));
    }
    Ok(m)
}

} // verus!
