//! The MessagePack forms that the tunnel's records use: unsigned integers,
//! booleans, strings, array headers and byte arrays. Every form is
//! written in its shortest encoding, and the readers accept exactly those
//! encodings, so that reading is the inverse of writing.
use vstd::prelude::*;

verus! {

/// Upper bound on the size of any frame or record, in bytes.
pub const MAX_FRAME: usize = 16777216;

/// `e` stands in `s` from position `pos` on.
pub open spec fn occurs_at(s: Seq<u8>, pos: int, e: Seq<u8>) -> bool {
    0 <= pos && pos + e.len() <= s.len() && s.subrange(pos, pos + e.len()) == e
}

/// A concatenation occurs where its first part does and the second follows.
pub proof fn lemma_occurs_split(s: Seq<u8>, pos: int, a: Seq<u8>, b: Seq<u8>)
    ensures
        occurs_at(s, pos, a + b) <==> (occurs_at(s, pos, a) && occurs_at(s, pos + a.len(), b)),
{
    let e = a + b;
    if occurs_at(s, pos, e) {
        assert(s.subrange(pos, pos + a.len()) =~= e.subrange(0, a.len() as int));
        assert(e.subrange(0, a.len() as int) =~= a);
        assert(s.subrange(pos + a.len(), pos + e.len()) =~= e.subrange(a.len() as int, e.len() as int));
        assert(e.subrange(a.len() as int, e.len() as int) =~= b);
    }
    if occurs_at(s, pos, a) && occurs_at(s, pos + a.len(), b) {
        assert(s.subrange(pos, pos + e.len()) =~= e);
    }
}

pub open spec fn be16(v: u64) -> Seq<u8> {
    seq![((v >> 8u64) & 0xffu64) as u8, (v & 0xffu64) as u8]
}

pub open spec fn be32(v: u64) -> Seq<u8> {
    seq![
        ((v >> 24u64) & 0xffu64) as u8,
        ((v >> 16u64) & 0xffu64) as u8,
        ((v >> 8u64) & 0xffu64) as u8,
        (v & 0xffu64) as u8,
    ]
}

pub open spec fn be64(v: u64) -> Seq<u8> {
    seq![
        ((v >> 56u64) & 0xffu64) as u8,
        ((v >> 48u64) & 0xffu64) as u8,
        ((v >> 40u64) & 0xffu64) as u8,
        ((v >> 32u64) & 0xffu64) as u8,
        ((v >> 24u64) & 0xffu64) as u8,
        ((v >> 16u64) & 0xffu64) as u8,
        ((v >> 8u64) & 0xffu64) as u8,
        (v & 0xffu64) as u8,
    ]
}

/// An unsigned integer in its shortest form.
pub open spec fn enc_uint(v: u64) -> Seq<u8> {
    if v < 128 {
        seq![v as u8]
    } else if v < 256 {
        seq![0xccu8, v as u8]
    } else if v < 65536 {
        seq![0xcdu8] + be16(v)
    } else if v < 0x1_0000_0000 {
        seq![0xceu8] + be32(v)
    } else {
        seq![0xcfu8] + be64(v)
    }
}

pub open spec fn enc_bool(b: bool) -> Seq<u8> {
    if b {
        seq![0xc3u8]
    } else {
        seq![0xc2u8]
    }
}

pub open spec fn str_header(n: nat) -> Seq<u8> {
    if n < 32 {
        seq![(0xa0 + n) as u8]
    } else if n < 256 {
        seq![0xd9u8, n as u8]
    } else if n < 65536 {
        seq![0xdau8] + be16(n as u64)
    } else {
        seq![0xdbu8] + be32(n as u64)
    }
}

/// A string whose UTF-8 bytes are `b`.
pub open spec fn enc_str(b: Seq<u8>) -> Seq<u8> {
    str_header(b.len()) + b
}

pub open spec fn array_header(n: nat) -> Seq<u8> {
    if n < 16 {
        seq![(0x90 + n) as u8]
    } else if n < 65536 {
        seq![0xdcu8] + be16(n as u64)
    } else {
        seq![0xddu8] + be32(n as u64)
    }
}

/// The elements of a byte array, each one an integer.
pub open spec fn enc_byte_items(s: Seq<u8>) -> Seq<u8>
    decreases s.len(),
{
    if s.len() == 0 {
        Seq::empty()
    } else {
        enc_byte_items(s.drop_last()) + enc_uint(s.last() as u64)
    }
}

/// A byte sequence as an array of integers (serde's form of `Vec<u8>`).
pub open spec fn enc_bytes(s: Seq<u8>) -> Seq<u8> {
    array_header(s.len()) + enc_byte_items(s)
}

proof fn lemma_be16(v: u64)
    requires
        v < 65536,
    ensures
        ((be16(v)[0] as u64) << 8u64) | (be16(v)[1] as u64) == v,
{
    assert(((((v >> 8u64) & 0xffu64) as u8 as u64) << 8u64) | (((v & 0xffu64) as u8) as u64) == v)
        by (bit_vector)
        requires
            v < 65536,
    ;
}

proof fn lemma_from_be16(a: u8, b: u8)
    ensures
        ({
            let v = ((a as u64) << 8u64) | (b as u64);
            v < 65536 && be16(v) == seq![a, b]
        }),
{
    let v = ((a as u64) << 8u64) | (b as u64);
    assert(v < 65536 && ((v >> 8u64) & 0xffu64) as u8 == a && (v & 0xffu64) as u8 == b)
        by (bit_vector)
        requires
            v == ((a as u64) << 8u64) | (b as u64),
    ;
    assert(be16(v) =~= seq![a, b]);
}

pub open spec fn from_be32(a: u8, b: u8, c: u8, d: u8) -> u64 {
    ((a as u64) << 24u64) | ((b as u64) << 16u64) | ((c as u64) << 8u64) | (d as u64)
}

proof fn lemma_be32(v: u64)
    requires
        v < 0x1_0000_0000,
    ensures
        from_be32(be32(v)[0], be32(v)[1], be32(v)[2], be32(v)[3]) == v,
{
    assert(((((v >> 24u64) & 0xffu64) as u8 as u64) << 24u64) | ((((v >> 16u64) & 0xffu64) as u8
        as u64) << 16u64) | ((((v >> 8u64) & 0xffu64) as u8 as u64) << 8u64) | (((v & 0xffu64)
        as u8) as u64) == v) by (bit_vector)
        requires
            v < 0x1_0000_0000,
    ;
}

proof fn lemma_from_be32(a: u8, b: u8, c: u8, d: u8)
    ensures
        from_be32(a, b, c, d) < 0x1_0000_0000,
        be32(from_be32(a, b, c, d)) == seq![a, b, c, d],
{
    let v = from_be32(a, b, c, d);
    assert(v < 0x1_0000_0000 && ((v >> 24u64) & 0xffu64) as u8 == a && ((v >> 16u64) & 0xffu64)
        as u8 == b && ((v >> 8u64) & 0xffu64) as u8 == c && (v & 0xffu64) as u8 == d)
        by (bit_vector)
        requires
            v == ((a as u64) << 24u64) | ((b as u64) << 16u64) | ((c as u64) << 8u64) | (d as u64),
    ;
    assert(be32(v) =~= seq![a, b, c, d]);
}

pub open spec fn from_be64(s: Seq<u8>) -> u64 {
    ((s[0] as u64) << 56u64) | ((s[1] as u64) << 48u64) | ((s[2] as u64) << 40u64) | ((s[3] as u64)
        << 32u64) | ((s[4] as u64) << 24u64) | ((s[5] as u64) << 16u64) | ((s[6] as u64) << 8u64)
        | (s[7] as u64)
}

proof fn lemma_be64(v: u64)
    ensures
        from_be64(be64(v)) == v,
{
    assert(((((v >> 56u64) & 0xffu64) as u8 as u64) << 56u64) | ((((v >> 48u64) & 0xffu64) as u8
        as u64) << 48u64) | ((((v >> 40u64) & 0xffu64) as u8 as u64) << 40u64) | ((((v >> 32u64)
        & 0xffu64) as u8 as u64) << 32u64) | ((((v >> 24u64) & 0xffu64) as u8 as u64) << 24u64)
        | ((((v >> 16u64) & 0xffu64) as u8 as u64) << 16u64) | ((((v >> 8u64) & 0xffu64) as u8
        as u64) << 8u64) | (((v & 0xffu64) as u8) as u64) == v) by (bit_vector);
}

proof fn lemma_from_be64(s: Seq<u8>)
    requires
        s.len() == 8,
    ensures
        be64(from_be64(s)) == s,
{
    let (a, b, c, d, e, f, g, h) = (s[0], s[1], s[2], s[3], s[4], s[5], s[6], s[7]);
    let v = from_be64(s);
    assert(((v >> 56u64) & 0xffu64) as u8 == a && ((v >> 48u64) & 0xffu64) as u8 == b && ((v
        >> 40u64) & 0xffu64) as u8 == c && ((v >> 32u64) & 0xffu64) as u8 == d && ((v >> 24u64)
        & 0xffu64) as u8 == e && ((v >> 16u64) & 0xffu64) as u8 == f && ((v >> 8u64) & 0xffu64)
        as u8 == g && (v & 0xffu64) as u8 == h) by (bit_vector)
        requires
            v == ((a as u64) << 56u64) | ((b as u64) << 48u64) | ((c as u64) << 40u64) | ((d
                as u64) << 32u64) | ((e as u64) << 24u64) | ((f as u64) << 16u64) | ((g as u64)
                << 8u64) | (h as u64),
    ;
    assert(be64(v) =~= s);
}

/// Appends the shortest encoding of `v`.
pub fn put_uint(out: &mut Vec<u8>, v: u64)
    ensures
        final(out)@ == old(out)@ + enc_uint(v),
{
    if v < 128 {
        out.push(v as u8);
    } else if v < 256 {
        out.push(0xcc);
        out.push(v as u8);
    } else if v < 65536 {
        out.push(0xcd);
        out.push(((v >> 8) & 0xff) as u8);
        out.push((v & 0xff) as u8);
    } else if v < 0x1_0000_0000 {
        out.push(0xce);
        out.push(((v >> 24) & 0xff) as u8);
        out.push(((v >> 16) & 0xff) as u8);
        out.push(((v >> 8) & 0xff) as u8);
        out.push((v & 0xff) as u8);
    } else {
        out.push(0xcf);
        out.push(((v >> 56) & 0xff) as u8);
        out.push(((v >> 48) & 0xff) as u8);
        out.push(((v >> 40) & 0xff) as u8);
        out.push(((v >> 32) & 0xff) as u8);
        out.push(((v >> 24) & 0xff) as u8);
        out.push(((v >> 16) & 0xff) as u8);
        out.push(((v >> 8) & 0xff) as u8);
        out.push((v & 0xff) as u8);
    }
    assert(out@ =~= old(out)@ + enc_uint(v));
}

/// Reads the shortest encoding of an unsigned integer at `pos`.
pub fn read_uint(b: &[u8], pos: usize) -> (r: Option<(u64, usize)>)
    requires
        pos <= b@.len(),
    ensures
        r matches Some((v, end)) ==> end == pos + enc_uint(v).len() && occurs_at(
            b@,
            pos as int,
            enc_uint(v),
        ),
        forall|v: u64| #[trigger]
            occurs_at(b@, pos as int, enc_uint(v)) ==> r == Some(
                (v, (pos + enc_uint(v).len()) as usize),
            ),
{
    let ghost s = b@;
    if pos >= b.len() {
        return None;
    }
    let m = b[pos];
    if m < 0x80 {
        proof {
            assert(s.subrange(pos as int, pos + 1) =~= enc_uint(m as u64));
            assert forall|v: u64| #[trigger] occurs_at(s, pos as int, enc_uint(v)) implies v == m as u64 by {
                assert(s.subrange(pos as int, pos + enc_uint(v).len())[0] == s[pos as int]);
            }
        }
        return Some((m as u64, pos + 1));
    }
    if m == 0xcc {
        if b.len() - pos < 2 {
            proof {
                assert forall|v: u64| !#[trigger] occurs_at(s, pos as int, enc_uint(v)) by {
                    if occurs_at(s, pos as int, enc_uint(v)) {
                        assert(s.subrange(pos as int, pos + enc_uint(v).len())[0] == s[pos as int]);
                    }
                }
            }
            return None;
        }
        let x = b[pos + 1];
        proof {
            assert forall|v: u64| #[trigger] occurs_at(s, pos as int, enc_uint(v)) implies v == x as u64 && x >= 128 by {
                let e = s.subrange(pos as int, pos + enc_uint(v).len());
                assert(e[0] == s[pos as int]);
                assert(e[1] == s[pos + 1]);
            }
        }
        if x < 0x80 {
            return None;
        }
        proof {
            assert(s.subrange(pos as int, pos + 2) =~= enc_uint(x as u64));
        }
        return Some((x as u64, pos + 2));
    }
    if m == 0xcd {
        if b.len() - pos < 3 {
            proof {
                assert forall|v: u64| !#[trigger] occurs_at(s, pos as int, enc_uint(v)) by {
                    if occurs_at(s, pos as int, enc_uint(v)) {
                        assert(s.subrange(pos as int, pos + enc_uint(v).len())[0] == s[pos as int]);
                    }
                }
            }
            return None;
        }
        let v0 = ((b[pos + 1] as u64) << 8u64) | (b[pos + 2] as u64);
        proof {
            lemma_from_be16(b[pos + 1 as int], b[pos + 2 as int]);
            assert forall|v: u64| #[trigger] occurs_at(s, pos as int, enc_uint(v)) implies v == v0 && v >= 256 by {
                let e = s.subrange(pos as int, pos + enc_uint(v).len());
                assert(e[0] == s[pos as int]);
                assert(e[1] == s[pos + 1]);
                assert(e[2] == s[pos + 2]);
                lemma_be16(v);
            }
        }
        if v0 < 256 {
            return None;
        }
        proof {
            assert(s.subrange(pos as int, pos + 3) =~= enc_uint(v0));
        }
        return Some((v0, pos + 3));
    }
    if m == 0xce {
        if b.len() - pos < 5 {
            proof {
                assert forall|v: u64| !#[trigger] occurs_at(s, pos as int, enc_uint(v)) by {
                    if occurs_at(s, pos as int, enc_uint(v)) {
                        assert(s.subrange(pos as int, pos + enc_uint(v).len())[0] == s[pos as int]);
                    }
                }
            }
            return None;
        }
        let v0 = ((b[pos + 1] as u64) << 24u64) | ((b[pos + 2] as u64) << 16u64) | ((b[pos + 3]
            as u64) << 8u64) | (b[pos + 4] as u64);
        proof {
            lemma_from_be32(b[pos + 1 as int], b[pos + 2 as int], b[pos + 3 as int], b[pos + 4 as int]);
            assert forall|v: u64| #[trigger] occurs_at(s, pos as int, enc_uint(v)) implies v == v0 && v >= 65536 by {
                let e = s.subrange(pos as int, pos + enc_uint(v).len());
                assert(e[0] == s[pos as int]);
                assert(e[1] == s[pos + 1]);
                assert(e[2] == s[pos + 2]);
                assert(e[3] == s[pos + 3]);
                assert(e[4] == s[pos + 4]);
                lemma_be32(v);
            }
        }
        if v0 < 65536 {
            return None;
        }
        proof {
            assert(s.subrange(pos as int, pos + 5) =~= enc_uint(v0));
        }
        return Some((v0, pos + 5));
    }
    if m == 0xcf {
        if b.len() - pos < 9 {
            proof {
                assert forall|v: u64| !#[trigger] occurs_at(s, pos as int, enc_uint(v)) by {
                    if occurs_at(s, pos as int, enc_uint(v)) {
                        assert(s.subrange(pos as int, pos + enc_uint(v).len())[0] == s[pos as int]);
                    }
                }
            }
            return None;
        }
        let v0 = ((b[pos + 1] as u64) << 56u64) | ((b[pos + 2] as u64) << 48u64) | ((b[pos + 3]
            as u64) << 40u64) | ((b[pos + 4] as u64) << 32u64) | ((b[pos + 5] as u64) << 24u64)
            | ((b[pos + 6] as u64) << 16u64) | ((b[pos + 7] as u64) << 8u64) | (b[pos + 8] as u64);
        proof {
            let w = s.subrange(pos + 1, pos + 9);
            assert(v0 == from_be64(w));
            lemma_from_be64(w);
            assert forall|v: u64| #[trigger] occurs_at(s, pos as int, enc_uint(v)) implies v == v0 && v >= 0x1_0000_0000 by {
                let e = s.subrange(pos as int, pos + enc_uint(v).len());
                assert(e[0] == s[pos as int]);
                assert(e.subrange(1, 9) =~= w);
                lemma_be64(v);
            }
        }
        if v0 < 0x1_0000_0000 {
            return None;
        }
        proof {
            assert(s.subrange(pos as int, pos + 9) =~= enc_uint(v0));
        }
        return Some((v0, pos + 9));
    }
    proof {
        assert forall|v: u64| !#[trigger] occurs_at(s, pos as int, enc_uint(v)) by {
            if occurs_at(s, pos as int, enc_uint(v)) {
                assert(s.subrange(pos as int, pos + enc_uint(v).len())[0] == s[pos as int]);
            }
        }
    }
    None
}

pub fn put_bool(out: &mut Vec<u8>, v: bool)
    ensures
        final(out)@ == old(out)@ + enc_bool(v),
{
    out.push(if v { 0xc3 } else { 0xc2 });
    assert(out@ =~= old(out)@ + enc_bool(v));
}

pub fn read_bool(b: &[u8], pos: usize) -> (r: Option<(bool, usize)>)
    requires
        pos <= b@.len(),
    ensures
        r matches Some((v, end)) ==> end == pos + 1 && occurs_at(b@, pos as int, enc_bool(v)),
        forall|v: bool| #[trigger]
            occurs_at(b@, pos as int, enc_bool(v)) ==> r == Some((v, (pos + 1) as usize)),
{
    let ghost s = b@;
    proof {
        assert forall|v: bool| #[trigger] occurs_at(s, pos as int, enc_bool(v)) implies pos < s.len() && s[pos as int] == enc_bool(v)[0] by {
            assert(s.subrange(pos as int, pos + 1)[0] == s[pos as int]);
        }
    }
    if pos < b.len() && (b[pos] == 0xc2 || b[pos] == 0xc3) {
        let v = b[pos] == 0xc3;
        proof {
            assert(s.subrange(pos as int, pos + 1) =~= enc_bool(v));
        }
        Some((v, pos + 1))
    } else {
        None
    }
}

/// Appends the header of a string of `n` bytes.
fn put_str_header(out: &mut Vec<u8>, n: usize)
    requires
        n < 0x1_0000_0000,
    ensures
        final(out)@ == old(out)@ + str_header(n as nat),
{
    let v = n as u64;
    if n < 32 {
        out.push((0xa0 + n) as u8);
    } else if n < 256 {
        out.push(0xd9);
        out.push(n as u8);
    } else if n < 65536 {
        out.push(0xda);
        out.push(((v >> 8) & 0xff) as u8);
        out.push((v & 0xff) as u8);
    } else {
        out.push(0xdb);
        out.push(((v >> 24) & 0xff) as u8);
        out.push(((v >> 16) & 0xff) as u8);
        out.push(((v >> 8) & 0xff) as u8);
        out.push((v & 0xff) as u8);
    }
    assert(out@ =~= old(out)@ + str_header(n as nat));
}

/// Appends the header of an array of `n` elements.
pub fn put_array_header(out: &mut Vec<u8>, n: usize)
    requires
        n < 0x1_0000_0000,
    ensures
        final(out)@ == old(out)@ + array_header(n as nat),
{
    let v = n as u64;
    if n < 16 {
        out.push((0x90 + n) as u8);
    } else if n < 65536 {
        out.push(0xdc);
        out.push(((v >> 8) & 0xff) as u8);
        out.push((v & 0xff) as u8);
    } else {
        out.push(0xdd);
        out.push(((v >> 24) & 0xff) as u8);
        out.push(((v >> 16) & 0xff) as u8);
        out.push(((v >> 8) & 0xff) as u8);
        out.push((v & 0xff) as u8);
    }
    assert(out@ =~= old(out)@ + array_header(n as nat));
}

/// Reads a length that follows a marker in `len_bytes` big-endian bytes.
fn read_be(b: &[u8], pos: usize, len_bytes: usize) -> (r: u64)
    requires
        len_bytes == 1 || len_bytes == 2 || len_bytes == 4,
        pos + len_bytes <= b@.len(),
    ensures
        len_bytes == 1 ==> r == b@[pos as int],
        len_bytes == 2 ==> r < 65536 && be16(r) == b@.subrange(pos as int, pos + 2),
        len_bytes == 4 ==> r < 0x1_0000_0000 && be32(r) == b@.subrange(pos as int, pos + 4),
{
    if len_bytes == 1 {
        b[pos] as u64
    } else if len_bytes == 2 {
        let r = ((b[pos] as u64) << 8u64) | (b[pos + 1] as u64);
        proof {
            lemma_from_be16(b@[pos as int], b@[pos + 1]);
            assert(b@.subrange(pos as int, pos + 2) =~= seq![b@[pos as int], b@[pos + 1]]);
        }
        r
    } else {
        let r = ((b[pos] as u64) << 24u64) | ((b[pos + 1] as u64) << 16u64) | ((b[pos + 2] as u64)
            << 8u64) | (b[pos + 3] as u64);
        proof {
            lemma_from_be32(b@[pos as int], b@[pos + 1], b@[pos + 2], b@[pos + 3]);
            assert(b@.subrange(pos as int, pos + 4) =~= seq![
                b@[pos as int],
                b@[pos + 1],
                b@[pos + 2],
                b@[pos + 3],
            ]);
        }
        r
    }
}

/// Reads a string header at `pos`: the length and the end of the header.
fn read_str_header(b: &[u8], pos: usize) -> (r: Option<(usize, usize)>)
    requires
        pos <= b@.len(),
    ensures
        r matches Some((n, end)) ==> end == pos + str_header(n as nat).len() && n
            < 0x1_0000_0000 && occurs_at(b@, pos as int, str_header(n as nat)),
        forall|n: nat|
            n < 0x1_0000_0000 && #[trigger] occurs_at(b@, pos as int, str_header(n)) ==> r == Some(
                (n as usize, (pos + str_header(n).len()) as usize),
            ),
{
    let ghost s = b@;
    if pos >= b.len() {
        return None;
    }
    let m = b[pos];
    let (len_bytes, lo, fix): (usize, u64, bool) = if 0xa0 <= m && m <= 0xbf {
        (0, 0, true)
    } else if m == 0xd9 {
        (1, 32, false)
    } else if m == 0xda {
        (2, 256, false)
    } else if m == 0xdb {
        (4, 65536, false)
    } else {
        proof {
            assert forall|n: nat| n < 0x1_0000_0000 && #[trigger] occurs_at(s, pos as int, str_header(n)) implies false by {
                assert(s.subrange(pos as int, pos + str_header(n).len())[0] == s[pos as int]);
            }
        }
        return None;
    };
    if fix {
        let n = (m - 0xa0) as usize;
        proof {
            assert(s.subrange(pos as int, pos + 1) =~= str_header(n as nat));
            assert forall|k: nat| k < 0x1_0000_0000 && #[trigger] occurs_at(s, pos as int, str_header(k)) implies k == n by {
                assert(s.subrange(pos as int, pos + str_header(k).len())[0] == s[pos as int]);
            }
        }
        return Some((n, pos + 1));
    }
    if b.len() - pos - 1 < len_bytes {
        proof {
            assert forall|n: nat| n < 0x1_0000_0000 && #[trigger] occurs_at(s, pos as int, str_header(n)) implies false by {
                assert(s.subrange(pos as int, pos + str_header(n).len())[0] == s[pos as int]);
            }
        }
        return None;
    }
    let v = read_be(b, pos + 1, len_bytes);
    proof {
        assert forall|n: nat| n < 0x1_0000_0000 && #[trigger] occurs_at(s, pos as int, str_header(n)) implies n == v && n >= lo by {
            let e = s.subrange(pos as int, pos + str_header(n).len());
            assert(e[0] == s[pos as int]);
            if len_bytes == 1 {
                assert(e[1] == s[pos + 1]);
            } else if len_bytes == 2 {
                assert(e.subrange(1, 3) =~= s.subrange(pos + 1, pos + 3));
                lemma_be16(n as u64);
                lemma_be16(v);
            } else {
                assert(e.subrange(1, 5) =~= s.subrange(pos + 1, pos + 5));
                lemma_be32(n as u64);
                lemma_be32(v);
            }
        }
    }
    if v < lo {
        return None;
    }
    let n = v as usize;
    proof {
        let e = s.subrange(pos as int, pos + 1 + len_bytes);
        if len_bytes == 1 {
            assert(e =~= str_header(n as nat));
        } else if len_bytes == 2 {
            assert(e =~= str_header(n as nat));
        } else {
            assert(e =~= str_header(n as nat));
        }
    }
    Some((n, pos + 1 + len_bytes))
}

/// Reads an array header at `pos`: the element count and the end of the header.
pub fn read_array_header(b: &[u8], pos: usize) -> (r: Option<(usize, usize)>)
    requires
        pos <= b@.len(),
    ensures
        r matches Some((n, end)) ==> end == pos + array_header(n as nat).len() && n
            < 0x1_0000_0000 && occurs_at(b@, pos as int, array_header(n as nat)),
        forall|n: nat|
            n < 0x1_0000_0000 && #[trigger] occurs_at(b@, pos as int, array_header(n)) ==> r == Some(
                (n as usize, (pos + array_header(n).len()) as usize),
            ),
{
    let ghost s = b@;
    if pos >= b.len() {
        return None;
    }
    let m = b[pos];
    let (len_bytes, lo, fix): (usize, u64, bool) = if 0x90 <= m && m <= 0x9f {
        (0, 0, true)
    } else if m == 0xdc {
        (2, 16, false)
    } else if m == 0xdd {
        (4, 65536, false)
    } else {
        proof {
            assert forall|n: nat| n < 0x1_0000_0000 && #[trigger] occurs_at(s, pos as int, array_header(n)) implies false by {
                assert(s.subrange(pos as int, pos + array_header(n).len())[0] == s[pos as int]);
            }
        }
        return None;
    };
    if fix {
        let n = (m - 0x90) as usize;
        proof {
            assert(s.subrange(pos as int, pos + 1) =~= array_header(n as nat));
            assert forall|k: nat| k < 0x1_0000_0000 && #[trigger] occurs_at(s, pos as int, array_header(k)) implies k == n by {
                assert(s.subrange(pos as int, pos + array_header(k).len())[0] == s[pos as int]);
            }
        }
        return Some((n, pos + 1));
    }
    if b.len() - pos - 1 < len_bytes {
        proof {
            assert forall|n: nat| n < 0x1_0000_0000 && #[trigger] occurs_at(s, pos as int, array_header(n)) implies false by {
                assert(s.subrange(pos as int, pos + array_header(n).len())[0] == s[pos as int]);
            }
        }
        return None;
    }
    let v = read_be(b, pos + 1, len_bytes);
    proof {
        assert forall|n: nat| n < 0x1_0000_0000 && #[trigger] occurs_at(s, pos as int, array_header(n)) implies n == v && n >= lo by {
            let e = s.subrange(pos as int, pos + array_header(n).len());
            assert(e[0] == s[pos as int]);
            if len_bytes == 1 {
                assert(e[1] == s[pos + 1]);
            } else if len_bytes == 2 {
                assert(e.subrange(1, 3) =~= s.subrange(pos + 1, pos + 3));
                lemma_be16(n as u64);
                lemma_be16(v);
            } else {
                assert(e.subrange(1, 5) =~= s.subrange(pos + 1, pos + 5));
                lemma_be32(n as u64);
                lemma_be32(v);
            }
        }
    }
    if v < lo {
        return None;
    }
    let n = v as usize;
    proof {
        let e = s.subrange(pos as int, pos + 1 + len_bytes);
        if len_bytes == 1 {
            assert(e =~= array_header(n as nat));
        } else if len_bytes == 2 {
            assert(e =~= array_header(n as nat));
        } else {
            assert(e =~= array_header(n as nat));
        }
    }
    Some((n, pos + 1 + len_bytes))
}

/// Appends a string whose UTF-8 bytes are `t`.
pub fn put_str(out: &mut Vec<u8>, t: &[u8])
    requires
        t@.len() < 0x1_0000_0000,
    ensures
        final(out)@ == old(out)@ + enc_str(t@),
{
    put_str_header(out, t.len());
    let ghost start = out@;
    let mut i: usize = 0;
    while i < t.len()
        invariant
            i <= t@.len(),
            out@ == start + t@.subrange(0, i as int),
        decreases t@.len() - i,
    {
        out.push(t[i]);
        i = i + 1;
        assert(out@ =~= start + t@.subrange(0, i as int));
    }
    assert(t@.subrange(0, t@.len() as int) =~= t@);
}

/// Reads a string at `pos`; its bytes are `b[start..end]`.
pub fn read_str(b: &[u8], pos: usize) -> (r: Option<(usize, usize)>)
    requires
        pos <= b@.len(),
        b@.len() <= MAX_FRAME,
    ensures
        r matches Some((start, end)) ==> start <= end && occurs_at(
            b@,
            pos as int,
            enc_str(b@.subrange(start as int, end as int)),
        ) && end == pos + enc_str(b@.subrange(start as int, end as int)).len(),
        forall|t: Seq<u8>| #[trigger]
            occurs_at(b@, pos as int, enc_str(t)) ==> (r matches Some((start, end)) && b@.subrange(
                start as int,
                end as int,
            ) == t && end == pos + enc_str(t).len()),
{
    let ghost s = b@;
    proof {
        assert forall|t: Seq<u8>| #[trigger] occurs_at(s, pos as int, enc_str(t)) implies occurs_at(s, pos as int, str_header(t.len())) && occurs_at(s, pos + str_header(t.len()).len(), t) by {
            lemma_occurs_split(s, pos as int, str_header(t.len()), t);
        }
    }
    match read_str_header(b, pos) {
        None => None,
        Some((n, start)) => {
            if b.len() - start < n {
                return None;
            }
            let end = start + n;
            proof {
                let t = s.subrange(start as int, end as int);
                assert(s.subrange(pos as int, end as int) =~= enc_str(t));
            }
            Some((start, end))
        },
    }
}

pub proof fn lemma_byte_items_len(p: Seq<u8>)
    ensures
        enc_byte_items(p).len() >= p.len(),
    decreases p.len(),
{
    if p.len() > 0 {
        lemma_byte_items_len(p.drop_last());
    }
}

/// Each element takes at most two bytes.
pub proof fn lemma_byte_items_len_bound(p: Seq<u8>)
    ensures
        enc_byte_items(p).len() <= 2 * p.len(),
    decreases p.len(),
{
    if p.len() > 0 {
        lemma_byte_items_len_bound(p.drop_last());
    }
}

/// Splitting the elements after the first `i` bytes.
proof fn lemma_byte_items_split(p: Seq<u8>, i: int)
    requires
        0 <= i <= p.len(),
    ensures
        enc_byte_items(p) == enc_byte_items(p.subrange(0, i)) + enc_byte_items(p.subrange(i, p.len() as int)),
    decreases p.len() - i,
{
    if i < p.len() {
        lemma_byte_items_split(p, i + 1);
        let q = p.subrange(0, i + 1);
        assert(q.drop_last() =~= p.subrange(0, i));
        let r = p.subrange(i, p.len() as int);
        let r1 = p.subrange(i + 1, p.len() as int);
        lemma_byte_items_first(r);
        assert(r.subrange(1, r.len() as int) =~= r1);
        assert(enc_byte_items(p.subrange(0, i)) + enc_byte_items(r) =~= enc_byte_items(p.subrange(0, i)) + enc_uint(p[i] as u64) + enc_byte_items(r1));
    } else {
        assert(p.subrange(0, i) =~= p);
        assert(p.subrange(i, p.len() as int) =~= Seq::<u8>::empty());
        assert(enc_byte_items(p) + Seq::<u8>::empty() =~= enc_byte_items(p));
    }
}

/// The elements start with the first byte's integer.
proof fn lemma_byte_items_first(r: Seq<u8>)
    requires
        r.len() > 0,
    ensures
        enc_byte_items(r) == enc_uint(r[0] as u64) + enc_byte_items(r.subrange(1, r.len() as int)),
    decreases r.len(),
{
    if r.len() == 1 {
        assert(r.drop_last() =~= Seq::<u8>::empty());
        assert(r.subrange(1, 1) =~= Seq::<u8>::empty());
        assert(enc_byte_items(r.drop_last()) =~= Seq::<u8>::empty());
        assert(enc_byte_items(r.subrange(1, 1)) =~= Seq::<u8>::empty());
        assert(r.last() == r[0]);
        assert(enc_byte_items(r) =~= enc_uint(r[0] as u64) + Seq::<u8>::empty());
    } else {
        lemma_byte_items_first(r.drop_last());
        assert(r.drop_last().subrange(1, r.len() - 1) =~= r.subrange(1, r.len() as int).drop_last());
        assert(r.subrange(1, r.len() as int).last() == r.last());
        assert(enc_byte_items(r) =~= enc_uint(r[0] as u64) + enc_byte_items(r.subrange(1, r.len() as int)));
    }
}

/// Where the first `i` elements of `p` have been read up to `cur`, the next
/// element's integer stands at `cur`.
proof fn lemma_next_byte_item(s: Seq<u8>, start: int, cur: int, p: Seq<u8>, i: int)
    requires
        0 <= i < p.len(),
        0 <= start <= cur <= s.len(),
        occurs_at(s, start, enc_byte_items(p)),
        s.subrange(start, cur) == enc_byte_items(p.subrange(0, i)),
    ensures
        occurs_at(s, cur, enc_uint(p[i] as u64)),
{
    let rest = p.subrange(i, p.len() as int);
    lemma_byte_items_split(p, i);
    lemma_byte_items_first(rest);
    assert(rest[0] == p[i]);
    let a = enc_byte_items(p.subrange(0, i));
    let b = enc_uint(p[i] as u64) + enc_byte_items(rest.subrange(1, rest.len() as int));
    assert(enc_byte_items(p) == a + b);
    assert(a.len() == cur - start);
    lemma_occurs_split(s, start, a, b);
    lemma_occurs_split(s, start + a.len(), enc_uint(p[i] as u64), enc_byte_items(rest.subrange(1, rest.len() as int)));
}

/// Appends `p` as an array of integers.
pub fn put_bytes(out: &mut Vec<u8>, p: &[u8])
    requires
        p@.len() < 0x1_0000_0000,
    ensures
        final(out)@ == old(out)@ + enc_bytes(p@),
{
    put_array_header(out, p.len());
    let ghost start = out@;
    let mut i: usize = 0;
    while i < p.len()
        invariant
            i <= p@.len(),
            out@ == start + enc_byte_items(p@.subrange(0, i as int)),
        decreases p@.len() - i,
    {
        put_uint(out, p[i] as u64);
        proof {
            let q = p@.subrange(0, i + 1);
            assert(q.drop_last() =~= p@.subrange(0, i as int));
        }
        i = i + 1;
        assert(out@ =~= start + enc_byte_items(p@.subrange(0, i as int)));
    }
    assert(p@.subrange(0, p@.len() as int) =~= p@);
    assert(out@ =~= old(out)@ + enc_bytes(p@));
}

/// Reads an array of integers below 256 at `pos`.
pub fn read_bytes(b: &[u8], pos: usize) -> (r: Option<(Vec<u8>, usize)>)
    requires
        pos <= b@.len(),
        b@.len() <= MAX_FRAME,
    ensures
        r matches Some((p, end)) ==> end == pos + enc_bytes(p@).len() && occurs_at(
            b@,
            pos as int,
            enc_bytes(p@),
        ),
        forall|p: Seq<u8>| #[trigger]
            occurs_at(b@, pos as int, enc_bytes(p)) ==> (r matches Some((q, end)) && q@ == p && end
                == pos + enc_bytes(p).len()),
{
    let ghost s = b@;
    proof {
        assert forall|p: Seq<u8>| #[trigger] occurs_at(s, pos as int, enc_bytes(p)) implies p.len() < 0x1_0000_0000 && occurs_at(s, pos as int, array_header(p.len())) && occurs_at(s, pos + array_header(p.len()).len(), enc_byte_items(p)) by {
            lemma_byte_items_len(p);
            lemma_occurs_split(s, pos as int, array_header(p.len()), enc_byte_items(p));
        }
    }
    let (n, start) = match read_array_header(b, pos) {
        None => { return None; },
        Some(x) => x,
    };
    let mut items: Vec<u8> = Vec::new();
    let mut cur = start;
    let mut i: usize = 0;
    while i < n
        invariant
            i <= n,
            start <= cur <= s.len(),
            items@.len() == i,
            s == b@,
            b@.len() <= MAX_FRAME,
            start == pos + array_header(n as nat).len(),
            occurs_at(s, pos as int, array_header(n as nat)),
            s.subrange(start as int, cur as int) == enc_byte_items(items@),
            forall|p: Seq<u8>| #[trigger] occurs_at(s, pos as int, enc_bytes(p)) ==> p.len() == n && p.subrange(0, i as int) == items@ && occurs_at(s, start as int, enc_byte_items(p)),
        decreases n - i,
    {
        let ghost before = items@;
        match read_uint(b, cur) {
            None => {
                proof {
                    assert forall|p: Seq<u8>| !#[trigger] occurs_at(s, pos as int, enc_bytes(p)) by {
                        if occurs_at(s, pos as int, enc_bytes(p)) {
                            lemma_next_byte_item(s, start as int, cur as int, p, i as int);
                        }
                    }
                }
                return None;
            },
            Some((v, next)) => {
                proof {
                    assert forall|p: Seq<u8>| #[trigger] occurs_at(s, pos as int, enc_bytes(p)) implies p[i as int] == v by {
                        lemma_next_byte_item(s, start as int, cur as int, p, i as int);
                    }
                }
                if v >= 256 {
                    proof {
                        assert forall|p: Seq<u8>| !#[trigger] occurs_at(s, pos as int, enc_bytes(p)) by {
                            if occurs_at(s, pos as int, enc_bytes(p)) {
                                assert(p[i as int] == v);
                            }
                        }
                    }
                    return None;
                }
                items.push(v as u8);
                proof {
                    assert(items@.drop_last() =~= before);
                    assert(s.subrange(start as int, next as int) =~= s.subrange(start as int, cur as int) + s.subrange(cur as int, next as int));
                    assert forall|p: Seq<u8>| #[trigger] occurs_at(s, pos as int, enc_bytes(p)) implies p.subrange(0, i + 1) == items@ by {
                        assert(p[i as int] == v);
                        assert(p.subrange(0, i + 1) =~= items@);
                    }
                }
                cur = next;
                i = i + 1;
            },
        }
    }
    proof {
        assert(s.subrange(pos as int, cur as int) =~= s.subrange(pos as int, start as int) + s.subrange(start as int, cur as int));
        assert(s.subrange(pos as int, cur as int) =~= enc_bytes(items@));
        assert forall|p: Seq<u8>| #[trigger] occurs_at(s, pos as int, enc_bytes(p)) implies p == items@ by {
            assert(p.subrange(0, n as int) =~= p);
        }
    }
    Some((items, cur))
}

/// Distinct counts have distinct array headers.
pub proof fn lemma_array_header_injective(n1: nat, n2: nat)
    requires
        n1 < 0x1_0000_0000,
        n2 < 0x1_0000_0000,
        array_header(n1) == array_header(n2),
    ensures
        n1 == n2,
{
    let (h1, h2) = (array_header(n1), array_header(n2));
    assert(h1[0] == h2[0]);
    if n1 >= 16 && n1 < 65536 && n2 >= 16 && n2 < 65536 {
        assert(h1[1] == h2[1] && h1[2] == h2[2]);
        lemma_be16(n1 as u64);
        lemma_be16(n2 as u64);
    } else if n1 >= 65536 && n2 >= 65536 {
        assert(h1[1] == h2[1] && h1[2] == h2[2] && h1[3] == h2[3] && h1[4] == h2[4]);
        lemma_be32(n1 as u64);
        lemma_be32(n2 as u64);
    }
}

/// The elements of two byte sequences of one length encode alike only if
/// the sequences are equal.
pub proof fn lemma_byte_items_injective(p1: Seq<u8>, p2: Seq<u8>)
    requires
        p1.len() == p2.len(),
        enc_byte_items(p1) == enc_byte_items(p2),
    ensures
        p1 == p2,
    decreases p1.len(),
{
    if p1.len() > 0 {
        let (e1, e2) = (enc_byte_items(p1), enc_byte_items(p2));
        let (u1, u2) = (enc_uint(p1.last() as u64), enc_uint(p2.last() as u64));
        let (a1, a2) = (enc_byte_items(p1.drop_last()), enc_byte_items(p2.drop_last()));
        assert(e1 == a1 + u1 && e2 == a2 + u2);
        assert(e1.last() == u1.last() && e2.last() == u2.last());
        assert(p1.last() == p2.last());
        assert(a1 =~= e1.subrange(0, e1.len() - u1.len()));
        assert(a2 =~= e2.subrange(0, e2.len() - u2.len()));
        lemma_byte_items_injective(p1.drop_last(), p2.drop_last());
        assert(p1 =~= p1.drop_last().push(p1.last()));
        assert(p2 =~= p2.drop_last().push(p2.last()));
    } else {
        assert(p1 =~= p2);
    }
}

/// Byte sequences of at most `MAX_FRAME` bytes encode alike only if equal.
pub proof fn lemma_enc_bytes_injective(p1: Seq<u8>, p2: Seq<u8>)
    requires
        p1.len() <= MAX_FRAME,
        p2.len() <= MAX_FRAME,
        enc_bytes(p1) == enc_bytes(p2),
    ensures
        p1 == p2,
{
    let (h1, h2) = (array_header(p1.len()), array_header(p2.len()));
    let e = enc_bytes(p1);
    assert(h1[0] == e[0] && h2[0] == e[0]);
    assert(h1.len() == h2.len());
    assert(h1 =~= e.subrange(0, h1.len() as int));
    assert(h2 =~= e.subrange(0, h2.len() as int));
    lemma_array_header_injective(p1.len(), p2.len());
    assert(enc_byte_items(p1) =~= e.subrange(h1.len() as int, e.len() as int));
    assert(enc_byte_items(p2) =~= e.subrange(h2.len() as int, e.len() as int));
    lemma_byte_items_injective(p1, p2);
}

} // verus!
