//! Little-endian integer fields and the variable-length integer of the
//! Bitcoin wire format: specification-level encoders, a total parser on byte
//! sequences, and executable readers proved against the parser.
//!
//! The parser accepts only the minimal form of a variable-length integer, so
//! every successful parse pins the exact bytes: re-encoding what was parsed
//! yields the original slice.

use vstd::prelude::*;

verus! {

pub open spec fn enc_u16le(v: u16) -> Seq<u8> {
    seq![(v & 0xff) as u8, ((v >> 8) & 0xff) as u8]
}

pub open spec fn enc_u32le(v: u32) -> Seq<u8> {
    seq![
        (v & 0xff) as u8,
        ((v >> 8) & 0xff) as u8,
        ((v >> 16) & 0xff) as u8,
        ((v >> 24) & 0xff) as u8,
    ]
}

pub open spec fn enc_u64le(v: u64) -> Seq<u8> {
    seq![
        (v & 0xff) as u8,
        ((v >> 8) & 0xff) as u8,
        ((v >> 16) & 0xff) as u8,
        ((v >> 24) & 0xff) as u8,
        ((v >> 32) & 0xff) as u8,
        ((v >> 40) & 0xff) as u8,
        ((v >> 48) & 0xff) as u8,
        ((v >> 56) & 0xff) as u8,
    ]
}

/// Minimal variable-length integer: one byte below 0xfd, otherwise a marker
/// byte followed by the little-endian value in 2, 4 or 8 bytes.
pub open spec fn enc_varint(v: u64) -> Seq<u8> {
    if v < 0xfd {
        seq![v as u8]
    } else if v <= 0xffff {
        seq![0xfdu8] + enc_u16le(v as u16)
    } else if v <= 0xffffffff {
        seq![0xfeu8] + enc_u32le(v as u32)
    } else {
        seq![0xffu8] + enc_u64le(v)
    }
}

pub open spec fn u16_from_le(b0: u8, b1: u8) -> u16 {
    (b0 as u16) | ((b1 as u16) << 8)
}

pub open spec fn u32_from_le(b0: u8, b1: u8, b2: u8, b3: u8) -> u32 {
    (b0 as u32) | ((b1 as u32) << 8) | ((b2 as u32) << 16) | ((b3 as u32) << 24)
}

pub open spec fn u64_from_le(b0: u8, b1: u8, b2: u8, b3: u8, b4: u8, b5: u8, b6: u8, b7: u8) -> u64 {
    (b0 as u64) | ((b1 as u64) << 8) | ((b2 as u64) << 16) | ((b3 as u64) << 24)
        | ((b4 as u64) << 32) | ((b5 as u64) << 40) | ((b6 as u64) << 48) | ((b7 as u64) << 56)
}

pub open spec fn parse_u16le(b: Seq<u8>, pos: int) -> Option<(u16, int)> {
    if 0 <= pos && pos + 2 <= b.len() {
        Some((u16_from_le(b[pos], b[pos + 1]), pos + 2))
    } else {
        None
    }
}

pub open spec fn parse_u32le(b: Seq<u8>, pos: int) -> Option<(u32, int)> {
    if 0 <= pos && pos + 4 <= b.len() {
        Some((u32_from_le(b[pos], b[pos + 1], b[pos + 2], b[pos + 3]), pos + 4))
    } else {
        None
    }
}

pub open spec fn parse_u64le(b: Seq<u8>, pos: int) -> Option<(u64, int)> {
    if 0 <= pos && pos + 8 <= b.len() {
        Some((
            u64_from_le(
                b[pos], b[pos + 1], b[pos + 2], b[pos + 3],
                b[pos + 4], b[pos + 5], b[pos + 6], b[pos + 7],
            ),
            pos + 8,
        ))
    } else {
        None
    }
}

/// Rejects non-minimal forms, so a parsed value re-encodes to the same bytes.
pub open spec fn parse_varint(b: Seq<u8>, pos: int) -> Option<(u64, int)> {
    if 0 <= pos && pos + 1 <= b.len() {
        let tag = b[pos];
        if tag < 0xfd {
            Some((tag as u64, pos + 1))
        } else if tag == 0xfd {
            match parse_u16le(b, pos + 1) {
                Some((v, p)) => if v >= 0xfd { Some((v as u64, p)) } else { None },
                None => None,
            }
        } else if tag == 0xfe {
            match parse_u32le(b, pos + 1) {
                Some((v, p)) => if v > 0xffff { Some((v as u64, p)) } else { None },
                None => None,
            }
        } else {
            match parse_u64le(b, pos + 1) {
                Some((v, p)) => if v > 0xffffffff { Some((v, p)) } else { None },
                None => None,
            }
        }
    } else {
        None
    }
}

/// A fixed-width slice of the input, as for a 32-byte transaction id.
pub open spec fn parse_nbytes(b: Seq<u8>, pos: int, n: int) -> Option<(Seq<u8>, int)> {
    if 0 <= pos && 0 <= n && pos + n <= b.len() {
        Some((b.subrange(pos, pos + n), pos + n))
    } else {
        None
    }
}

/// A length-prefixed chunk: varint length, then that many bytes.
pub open spec fn parse_chunk(b: Seq<u8>, pos: int) -> Option<(Seq<u8>, int)> {
    match parse_varint(b, pos) {
        Some((n, p)) => parse_nbytes(b, p, n as int),
        None => None,
    }
}

pub open spec fn enc_chunk(s: Seq<u8>) -> Seq<u8> {
    enc_varint(s.len() as u64) + s
}

/// `k` items in sequence, each read by `f`.
pub open spec fn parse_list<T>(
    b: Seq<u8>,
    pos: int,
    k: nat,
    f: spec_fn(Seq<u8>, int) -> Option<(T, int)>,
) -> Option<(Seq<T>, int)>
    decreases k,
{
    if k == 0 {
        Some((Seq::empty(), pos))
    } else {
        match f(b, pos) {
            Some((x, p)) => match parse_list(b, p, (k - 1) as nat, f) {
                Some((xs, q)) => Some((seq![x] + xs, q)),
                None => None,
            },
            None => None,
        }
    }
}

pub open spec fn enc_list<T>(xs: Seq<T>, ef: spec_fn(T) -> Seq<u8>) -> Seq<u8>
    decreases xs.len(),
{
    if xs.len() == 0 {
        Seq::empty()
    } else {
        ef(xs[0]) + enc_list(xs.drop_first(), ef)
    }
}

/// `f` is sound for `ef` when every successful parse consumed exactly the
/// encoding of the value it returned.
pub open spec fn parser_sound_for<T>(
    b: Seq<u8>,
    f: spec_fn(Seq<u8>, int) -> Option<(T, int)>,
    ef: spec_fn(T) -> Seq<u8>,
) -> bool {
    forall|p: int|
        #[trigger] f(b, p) matches Some(xq) ==> 0 <= p <= xq.1 <= b.len() && b.subrange(p, xq.1)
            == ef(xq.0)
}

pub proof fn lemma_parse_u16le_sound(b: Seq<u8>, pos: int, v: u16, p: int)
    requires
        parse_u16le(b, pos) == Some::<(u16, int)>((v, p)),
    ensures
        0 <= pos <= p <= b.len(),
        p == pos + 2,
        b.subrange(pos, p) == enc_u16le(v),
{
    let b0 = b[pos];
    let b1 = b[pos + 1];
    assert((((b0 as u16) | ((b1 as u16) << 8)) & 0xff) as u8 == b0) by (bit_vector);
    assert(((((b0 as u16) | ((b1 as u16) << 8)) >> 8) & 0xff) as u8 == b1) by (bit_vector);
    assert(b.subrange(pos, p) =~= enc_u16le(v));
}

pub proof fn lemma_parse_u32le_sound(b: Seq<u8>, pos: int, v: u32, p: int)
    requires
        parse_u32le(b, pos) == Some::<(u32, int)>((v, p)),
    ensures
        0 <= pos <= p <= b.len(),
        p == pos + 4,
        b.subrange(pos, p) == enc_u32le(v),
{
    let b0 = b[pos];
    let b1 = b[pos + 1];
    let b2 = b[pos + 2];
    let b3 = b[pos + 3];
    let x = u32_from_le(b0, b1, b2, b3);
    assert((((b0 as u32) | ((b1 as u32) << 8) | ((b2 as u32) << 16) | ((b3 as u32) << 24)) & 0xff)
        as u8 == b0) by (bit_vector);
    assert(((((b0 as u32) | ((b1 as u32) << 8) | ((b2 as u32) << 16) | ((b3 as u32) << 24)) >> 8)
        & 0xff) as u8 == b1) by (bit_vector);
    assert(((((b0 as u32) | ((b1 as u32) << 8) | ((b2 as u32) << 16) | ((b3 as u32) << 24)) >> 16)
        & 0xff) as u8 == b2) by (bit_vector);
    assert(((((b0 as u32) | ((b1 as u32) << 8) | ((b2 as u32) << 16) | ((b3 as u32) << 24)) >> 24)
        & 0xff) as u8 == b3) by (bit_vector);
    assert(b.subrange(pos, p) =~= enc_u32le(x));
}

pub proof fn lemma_parse_u64le_sound(b: Seq<u8>, pos: int, v: u64, p: int)
    requires
        parse_u64le(b, pos) == Some::<(u64, int)>((v, p)),
    ensures
        0 <= pos <= p <= b.len(),
        p == pos + 8,
        b.subrange(pos, p) == enc_u64le(v),
{
    let b0 = b[pos];
    let b1 = b[pos + 1];
    let b2 = b[pos + 2];
    let b3 = b[pos + 3];
    let b4 = b[pos + 4];
    let b5 = b[pos + 5];
    let b6 = b[pos + 6];
    let b7 = b[pos + 7];
    let x = u64_from_le(b0, b1, b2, b3, b4, b5, b6, b7);
    assert({
        let y = (b0 as u64) | ((b1 as u64) << 8) | ((b2 as u64) << 16) | ((b3 as u64) << 24)
            | ((b4 as u64) << 32) | ((b5 as u64) << 40) | ((b6 as u64) << 48) | ((b7 as u64) << 56);
        (y & 0xff) as u8 == b0 && ((y >> 8) & 0xff) as u8 == b1 && ((y >> 16) & 0xff) as u8 == b2
            && ((y >> 24) & 0xff) as u8 == b3 && ((y >> 32) & 0xff) as u8 == b4
            && ((y >> 40) & 0xff) as u8 == b5 && ((y >> 48) & 0xff) as u8 == b6
            && ((y >> 56) & 0xff) as u8 == b7
    }) by (bit_vector);
    assert(b.subrange(pos, p) =~= enc_u64le(x));
}

pub proof fn lemma_parse_varint_sound(b: Seq<u8>, pos: int, v: u64, p: int)
    requires
        parse_varint(b, pos) == Some::<(u64, int)>((v, p)),
    ensures
        0 <= pos <= p <= b.len(),
        b.subrange(pos, p) == enc_varint(v),
{
    let tag = b[pos];
    if tag < 0xfd {
        assert(v < 0xfd);
        assert((v as u8) == tag);
        assert(b.subrange(pos, p) =~= enc_varint(v));
    } else if tag == 0xfd {
        let (w, q) = parse_u16le(b, pos + 1).unwrap();
        lemma_parse_u16le_sound(b, pos + 1, w, q);
        assert(v == w as u64 && 0xfd <= v <= 0xffff);
        assert((v as u16) == w);
        assert(b.subrange(pos, p) =~= seq![0xfdu8] + b.subrange(pos + 1, p));
    } else if tag == 0xfe {
        let (w, q) = parse_u32le(b, pos + 1).unwrap();
        lemma_parse_u32le_sound(b, pos + 1, w, q);
        assert(v == w as u64 && 0xffff < v <= 0xffffffff);
        assert((v as u32) == w);
        assert(b.subrange(pos, p) =~= seq![0xfeu8] + b.subrange(pos + 1, p));
    } else {
        let (w, q) = parse_u64le(b, pos + 1).unwrap();
        lemma_parse_u64le_sound(b, pos + 1, w, q);
        assert(v == w && v > 0xffffffff);
        assert(b.subrange(pos, p) =~= seq![0xffu8] + b.subrange(pos + 1, p));
    }
}

pub proof fn lemma_parse_chunk_sound(b: Seq<u8>, pos: int, s: Seq<u8>, p: int)
    requires
        parse_chunk(b, pos) == Some::<(Seq<u8>, int)>((s, p)),
    ensures
        0 <= pos <= p <= b.len(),
        b.subrange(pos, p) == enc_chunk(s),
        s.len() <= b.len(),
{
    let (n, q) = parse_varint(b, pos).unwrap();
    lemma_parse_varint_sound(b, pos, n, q);
    assert(s == b.subrange(q, q + n as int));
    assert(s.len() == n as nat);
    assert(b.subrange(pos, p) =~= b.subrange(pos, q) + b.subrange(q, p));
}

pub proof fn lemma_parse_list_sound<T>(
    b: Seq<u8>,
    pos: int,
    k: nat,
    f: spec_fn(Seq<u8>, int) -> Option<(T, int)>,
    ef: spec_fn(T) -> Seq<u8>,
    xs: Seq<T>,
    p: int,
)
    requires
        parser_sound_for(b, f, ef),
        0 <= pos <= b.len(),
        parse_list(b, pos, k, f) == Some::<(Seq<T>, int)>((xs, p)),
    ensures
        pos <= p <= b.len(),
        xs.len() == k,
        b.subrange(pos, p) == enc_list(xs, ef),
    decreases k,
{
    if k == 0 {
        assert(b.subrange(pos, p) =~= enc_list(xs, ef));
    } else {
        let (x, q) = f(b, pos).unwrap();
        assert(f(b, pos) matches Some(xq) && xq == (x, q));
        assert(0 <= pos <= q <= b.len() && b.subrange(pos, q) == ef(x));
        let (rest, p2) = parse_list(b, q, (k - 1) as nat, f).unwrap();
        lemma_parse_list_sound(b, q, (k - 1) as nat, f, ef, rest, p2);
        assert(xs == seq![x] + rest);
        assert(xs[0] == x);
        assert(xs.drop_first() =~= rest);
        assert(b.subrange(pos, p) =~= b.subrange(pos, q) + b.subrange(q, p));
    }
}

pub proof fn lemma_subrange_split(b: Seq<u8>, i: int, j: int, k: int)
    requires
        0 <= i <= j <= k <= b.len(),
    ensures
        b.subrange(i, k) == b.subrange(i, j) + b.subrange(j, k),
{
    assert(b.subrange(i, k) =~= b.subrange(i, j) + b.subrange(j, k));
}

pub proof fn lemma_subrange_all(b: Seq<u8>)
    ensures
        b == b.subrange(0, b.len() as int),
{
    assert(b =~= b.subrange(0, b.len() as int));
}

/// One step of `parse_list`, as the executable readers walk it.
pub proof fn lemma_parse_list_step<T>(
    b: Seq<u8>,
    pos: int,
    k: nat,
    f: spec_fn(Seq<u8>, int) -> Option<(T, int)>,
)
    requires
        k > 0,
    ensures
        parse_list(b, pos, k, f) == match f(b, pos) {
            Some((x, p)) => match parse_list(b, p, (k - 1) as nat, f) {
                Some((xs, q)) => Some((seq![x] + xs, q)),
                None => None,
            },
            None => None::<(Seq<T>, int)>,
        },
{
}

pub fn read_u16le(b: &[u8], pos: usize) -> (r: Option<(u16, usize)>)
    ensures
        match r {
            Some((v, p)) => parse_u16le(b@, pos as int) == Some::<(u16, int)>((v, p as int)),
            None => parse_u16le(b@, pos as int) is None,
        },
{
    if pos <= b.len() && b.len() - pos >= 2 {
        let b0 = b[pos];
        let b1 = b[pos + 1];
        Some(((b0 as u16) | ((b1 as u16) << 8), pos + 2))
    } else {
        None
    }
}

pub fn read_u32le(b: &[u8], pos: usize) -> (r: Option<(u32, usize)>)
    ensures
        match r {
            Some((v, p)) => parse_u32le(b@, pos as int) == Some::<(u32, int)>((v, p as int)),
            None => parse_u32le(b@, pos as int) is None,
        },
{
    if pos <= b.len() && b.len() - pos >= 4 {
        let b0 = b[pos];
        let b1 = b[pos + 1];
        let b2 = b[pos + 2];
        let b3 = b[pos + 3];
        Some((
            (b0 as u32) | ((b1 as u32) << 8) | ((b2 as u32) << 16) | ((b3 as u32) << 24),
            pos + 4,
        ))
    } else {
        None
    }
}

pub fn read_u64le(b: &[u8], pos: usize) -> (r: Option<(u64, usize)>)
    ensures
        match r {
            Some((v, p)) => parse_u64le(b@, pos as int) == Some::<(u64, int)>((v, p as int)),
            None => parse_u64le(b@, pos as int) is None,
        },
{
    if pos <= b.len() && b.len() - pos >= 8 {
        let b0 = b[pos];
        let b1 = b[pos + 1];
        let b2 = b[pos + 2];
        let b3 = b[pos + 3];
        let b4 = b[pos + 4];
        let b5 = b[pos + 5];
        let b6 = b[pos + 6];
        let b7 = b[pos + 7];
        Some((
            (b0 as u64) | ((b1 as u64) << 8) | ((b2 as u64) << 16) | ((b3 as u64) << 24)
                | ((b4 as u64) << 32) | ((b5 as u64) << 40) | ((b6 as u64) << 48)
                | ((b7 as u64) << 56),
            pos + 8,
        ))
    } else {
        None
    }
}

pub fn read_varint(b: &[u8], pos: usize) -> (r: Option<(u64, usize)>)
    ensures
        match r {
            Some((v, p)) => parse_varint(b@, pos as int) == Some::<(u64, int)>((v, p as int)),
            None => parse_varint(b@, pos as int) is None,
        },
{
    if pos >= b.len() {
        return None;
    }
    let tag = b[pos];
    if tag < 0xfd {
        Some((tag as u64, pos + 1))
    } else if tag == 0xfd {
        match read_u16le(b, pos + 1) {
            Some((v, p)) => if v >= 0xfd {
                Some((v as u64, p))
            } else {
                None
            },
            None => None,
        }
    } else if tag == 0xfe {
        match read_u32le(b, pos + 1) {
            Some((v, p)) => if v > 0xffff {
                Some((v as u64, p))
            } else {
                None
            },
            None => None,
        }
    } else {
        match read_u64le(b, pos + 1) {
            Some((v, p)) => if v > 0xffffffff {
                Some((v, p))
            } else {
                None
            },
            None => None,
        }
    }
}

/// Copies the fixed-width field at `pos`.
pub fn read_nbytes(b: &[u8], pos: usize, n: usize) -> (r: Option<(Vec<u8>, usize)>)
    ensures
        match r {
            Some((v, p)) => parse_nbytes(b@, pos as int, n as int)
                == Some::<(Seq<u8>, int)>((v@, p as int)),
            None => parse_nbytes(b@, pos as int, n as int) is None,
        },
{
    if pos <= b.len() && b.len() - pos >= n {
        let s = vstd::slice::slice_subrange(b, pos, pos + n);
        let v = vstd::slice::slice_to_vec(s);
        Some((v, pos + n))
    } else {
        None
    }
}

/// Reads a length-prefixed chunk.
pub fn read_chunk(b: &[u8], pos: usize) -> (r: Option<(Vec<u8>, usize)>)
    ensures
        match r {
            Some((v, p)) => parse_chunk(b@, pos as int) == Some::<(Seq<u8>, int)>((v@, p as int)),
            None => parse_chunk(b@, pos as int) is None,
        },
{
    match read_varint(b, pos) {
        Some((n, p)) => {
            proof {
                lemma_parse_varint_sound(b@, pos as int, n, p as int);
            }
            let rem = b.len() - p;
            if n <= (rem as u64) {
                read_nbytes(b, p, n as usize)
            } else {
                proof {
                    assert(parse_nbytes(b@, p as int, n as int) is None);
                }
                None
            }
        },
        None => None,
    }
}

pub proof fn lemma_enc_list_push<T>(xs: Seq<T>, x: T, ef: spec_fn(T) -> Seq<u8>)
    ensures
        enc_list(xs.push(x), ef) == enc_list(xs, ef) + ef(x),
    decreases xs.len(),
{
    if xs.len() == 0 {
        assert(xs.push(x)[0] == x);
        assert(xs.push(x).drop_first() =~= Seq::<T>::empty());
        assert(enc_list(Seq::<T>::empty(), ef) == Seq::<u8>::empty());
        assert(enc_list(xs.push(x), ef) == ef(x) + Seq::<u8>::empty());
        assert(ef(x) + Seq::<u8>::empty() =~= Seq::<u8>::empty() + ef(x));
    } else {
        assert(xs.push(x).drop_first() =~= xs.drop_first().push(x));
        assert(xs.push(x)[0] == xs[0]);
        lemma_enc_list_push(xs.drop_first(), x, ef);
        assert(ef(xs[0]) + (enc_list(xs.drop_first(), ef) + ef(x)) =~= (ef(xs[0]) + enc_list(
            xs.drop_first(),
            ef,
        )) + ef(x));
    }
}

pub fn write_u16le(out: &mut Vec<u8>, v: u16)
    ensures
        final(out)@ == old(out)@ + enc_u16le(v),
{
    proof {
        assert((v & 0xff) < 256 && ((v >> 8) & 0xff) < 256) by (bit_vector);
    }
    out.push((v & 0xff) as u8);
    out.push(((v >> 8) & 0xff) as u8);
    proof {
        assert(out@ =~= old(out)@ + enc_u16le(v));
    }
}

pub fn write_u32le(out: &mut Vec<u8>, v: u32)
    ensures
        final(out)@ == old(out)@ + enc_u32le(v),
{
    proof {
        assert((v & 0xff) < 256 && ((v >> 8) & 0xff) < 256 && ((v >> 16) & 0xff) < 256 && ((v
            >> 24) & 0xff) < 256) by (bit_vector);
    }
    out.push((v & 0xff) as u8);
    out.push(((v >> 8) & 0xff) as u8);
    out.push(((v >> 16) & 0xff) as u8);
    out.push(((v >> 24) & 0xff) as u8);
    proof {
        assert(out@ =~= old(out)@ + enc_u32le(v));
    }
}

pub fn write_u64le(out: &mut Vec<u8>, v: u64)
    ensures
        final(out)@ == old(out)@ + enc_u64le(v),
{
    proof {
        assert((v & 0xff) < 256 && ((v >> 8) & 0xff) < 256 && ((v >> 16) & 0xff) < 256 && ((v
            >> 24) & 0xff) < 256 && ((v >> 32) & 0xff) < 256 && ((v >> 40) & 0xff) < 256 && ((v
            >> 48) & 0xff) < 256 && ((v >> 56) & 0xff) < 256) by (bit_vector);
    }
    out.push((v & 0xff) as u8);
    out.push(((v >> 8) & 0xff) as u8);
    out.push(((v >> 16) & 0xff) as u8);
    out.push(((v >> 24) & 0xff) as u8);
    out.push(((v >> 32) & 0xff) as u8);
    out.push(((v >> 40) & 0xff) as u8);
    out.push(((v >> 48) & 0xff) as u8);
    out.push(((v >> 56) & 0xff) as u8);
    proof {
        assert(out@ =~= old(out)@ + enc_u64le(v));
    }
}

pub fn write_varint(out: &mut Vec<u8>, v: u64)
    ensures
        final(out)@ == old(out)@ + enc_varint(v),
{
    if v < 0xfd {
        out.push(v as u8);
        proof {
            assert(out@ =~= old(out)@ + enc_varint(v));
        }
    } else if v <= 0xffff {
        out.push(0xfd);
        write_u16le(out, v as u16);
        proof {
            assert((old(out)@ + seq![0xfdu8]) + enc_u16le(v as u16) =~= old(out)@ + (seq![0xfdu8]
                + enc_u16le(v as u16)));
        }
    } else if v <= 0xffffffff {
        out.push(0xfe);
        write_u32le(out, v as u32);
        proof {
            assert((old(out)@ + seq![0xfeu8]) + enc_u32le(v as u32) =~= old(out)@ + (seq![0xfeu8]
                + enc_u32le(v as u32)));
        }
    } else {
        out.push(0xff);
        write_u64le(out, v);
        proof {
            assert((old(out)@ + seq![0xffu8]) + enc_u64le(v) =~= old(out)@ + (seq![0xffu8]
                + enc_u64le(v)));
        }
    }
}

/// Appends the bytes of `s` as they stand.
pub fn write_raw(out: &mut Vec<u8>, s: &Vec<u8>)
    ensures
        final(out)@ == old(out)@ + s@,
{
    let mut j: usize = 0;
    while j < s.len()
        invariant
            j <= s.len(),
            out@ == old(out)@ + s@.subrange(0, j as int),
        decreases s.len() - j,
    {
        let ghost prev = out@;
        out.push(s[j]);
        proof {
            assert(out@ =~= prev.push(s@[j as int]));
            assert(prev.push(s@[j as int]) =~= old(out)@ + s@.subrange(0, j as int + 1));
        }
        j = j + 1;
    }
    proof {
        assert(s@.subrange(0, s@.len() as int) =~= s@);
    }
}

/// Appends a length-prefixed chunk.
pub fn write_chunk(out: &mut Vec<u8>, s: &Vec<u8>)
    ensures
        final(out)@ == old(out)@ + enc_chunk(s@),
{
    write_varint(out, s.len() as u64);
    write_raw(out, s);
    proof {
        assert((old(out)@ + enc_varint(s@.len() as u64)) + s@ =~= old(out)@ + (enc_varint(
            s@.len() as u64,
        ) + s@));
    }
}

} // verus!
