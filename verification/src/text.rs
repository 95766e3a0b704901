//! Small verified helpers on byte vectors.

use vstd::prelude::*;

verus! {

/// The space character, the token delimiter of the wire protocol.
pub const SPACE: u8 = 32;

/// The colon character, which introduces a source prefix and a trailing parameter.
pub const COLON: u8 = 58;

/// Carriage return, one of the two record terminators.
pub const CR: u8 = 13;

/// Line feed, the other record terminator.
pub const LF: u8 = 10;

/// The exclamation mark that separates nick from user in a source token.
pub const BANG: u8 = 33;

/// The at sign that separates user from host in a source token.
pub const AT: u8 = 64;

/// The underscore appended to the nickname on a collision.
pub const UNDERSCORE: u8 = 95;

/// Copy of a byte vector, with its contents pinned down.
pub fn clone_bytes(v: &Vec<u8>) -> (r: Vec<u8>)
    ensures
        r@ == v@,
{
    let mut r: Vec<u8> = Vec::new();
    let mut i: usize = 0;
    while i < v.len()
        invariant
            i <= v.len(),
            r@ == v@.subrange(0, i as int),
        decreases v.len() - i,
    {
        r.push(v[i]);
        proof {
            assert(r@ =~= v@.subrange(0, i + 1 as int));
        }
        i = i + 1;
    }
    proof {
        assert(r@ =~= v@);
    }
    r
}

/// Copy of the byte range `[i, j)` of a vector.
pub fn subvec(v: &Vec<u8>, i: usize, j: usize) -> (r: Vec<u8>)
    requires
        i <= j <= v@.len(),
    ensures
        r@ == v@.subrange(i as int, j as int),
{
    let mut r: Vec<u8> = Vec::new();
    let mut k: usize = i;
    while k < j
        invariant
            i <= k <= j <= v@.len(),
            r@ == v@.subrange(i as int, k as int),
        decreases j - k,
    {
        r.push(v[k]);
        proof {
            assert(r@ =~= v@.subrange(i as int, k + 1 as int));
        }
        k = k + 1;
    }
    r
}

/// Append the bytes of `src` to `dst`.
pub fn append_bytes(dst: &mut Vec<u8>, src: &Vec<u8>)
    ensures
        final(dst)@ == old(dst)@ + src@,
{
    let mut k: usize = 0;
    while k < src.len()
        invariant
            k <= src@.len(),
            dst@ == old(dst)@ + src@.subrange(0, k as int),
        decreases src@.len() - k,
    {
        dst.push(src[k]);
        proof {
            assert(dst@ =~= old(dst)@ + src@.subrange(0, k + 1 as int));
        }
        k = k + 1;
    }
    proof {
        assert(old(dst)@ + src@.subrange(0, src@.len() as int) =~= old(dst)@ + src@);
    }
}

/// Whether a byte vector holds exactly the three given bytes.
pub fn bytes_eq3(v: &Vec<u8>, a: u8, b: u8, c: u8) -> (r: bool)
    ensures
        r == (v@ == seq![a, b, c]),
{
    let r = v.len() == 3 && v[0] == a && v[1] == b && v[2] == c;
    proof {
        if r {
            assert(v@ =~= seq![a, b, c]);
        }
    }
    r
}

/// Whether a byte vector holds exactly the four given bytes.
pub fn bytes_eq4(v: &Vec<u8>, a: u8, b: u8, c: u8, d: u8) -> (r: bool)
    ensures
        r == (v@ == seq![a, b, c, d]),
{
    let r = v.len() == 4 && v[0] == a && v[1] == b && v[2] == c && v[3] == d;
    proof {
        if r {
            assert(v@ =~= seq![a, b, c, d]);
        }
    }
    r
}

/// Whether a byte vector holds exactly the six given bytes.
pub fn bytes_eq6(v: &Vec<u8>, a: u8, b: u8, c: u8, d: u8, e: u8, f: u8) -> (r: bool)
    ensures
        r == (v@ == seq![a, b, c, d, e, f]),
{
    let r = v.len() == 6 && v[0] == a && v[1] == b && v[2] == c && v[3] == d && v[4] == e
        && v[5] == f;
    proof {
        if r {
            assert(v@ =~= seq![a, b, c, d, e, f]);
        }
    }
    r
}

/// Whether a byte vector holds exactly the seven given bytes.
pub fn bytes_eq7(v: &Vec<u8>, a: u8, b: u8, c: u8, d: u8, e: u8, f: u8, g: u8) -> (r: bool)
    ensures
        r == (v@ == seq![a, b, c, d, e, f, g]),
{
    let r = v.len() == 7 && v[0] == a && v[1] == b && v[2] == c && v[3] == d && v[4] == e
        && v[5] == f && v[6] == g;
    proof {
        if r {
            assert(v@ =~= seq![a, b, c, d, e, f, g]);
        }
    }
    r
}

/// A list of byte vectors viewed deeply is the list of their views.
pub proof fn lemma_deep_bytes(v: &Vec<Vec<u8>>)
    ensures
        v.deep_view().len() == v@.len(),
        forall|i: int| 0 <= i < v@.len() ==> #[trigger] v.deep_view()[i] == v@[i]@,
{
    assert forall|i: int| 0 <= i < v@.len() implies #[trigger] v.deep_view()[i] == v@[i]@ by {
        assert(v.deep_view()[i] =~= v@[i]@);
    }
}

/// Copy of a list of byte vectors.
pub fn clone_bytes_list(v: &Vec<Vec<u8>>) -> (r: Vec<Vec<u8>>)
    ensures
        r.deep_view() == v.deep_view(),
{
    let mut r: Vec<Vec<u8>> = Vec::new();
    let mut i: usize = 0;
    proof {
        assert(r.deep_view() =~~= v.deep_view().subrange(0, 0));
    }
    while i < v.len()
        invariant
            i <= v@.len(),
            r.deep_view() == v.deep_view().subrange(0, i as int),
        decreases v@.len() - i,
    {
        let ghost prev = r.deep_view();
        r.push(clone_bytes(&v[i]));
        proof {
            lemma_deep_bytes(v);
            assert(r.deep_view() =~~= prev.push(v.deep_view()[i as int]));
            assert(r.deep_view() =~~= v.deep_view().subrange(0, i + 1 as int));
        }
        i = i + 1;
    }
    proof {
        assert(v.deep_view().subrange(0, v@.len() as int) =~= v.deep_view());
    }
    r
}

/// A one-byte vector.
pub fn vec1(a: u8) -> (r: Vec<u8>)
    ensures
        r@ == seq![a],
{
    let mut r: Vec<u8> = Vec::new();
    r.push(a);
    proof {
        assert(r@ =~= seq![a]);
    }
    r
}

/// A four-byte vector.
pub fn vec4(a: u8, b: u8, c: u8, d: u8) -> (r: Vec<u8>)
    ensures
        r@ == seq![a, b, c, d],
{
    let mut r: Vec<u8> = Vec::new();
    r.push(a);
    r.push(b);
    r.push(c);
    r.push(d);
    proof {
        assert(r@ =~= seq![a, b, c, d]);
    }
    r
}

} // verus!
