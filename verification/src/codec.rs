//! The canonical ordered-list binary encoding of the wire format: byte
//! strings carry a length-prefixed header, unsigned integers are minimal
//! big-endian byte strings, and a list is its items' encodings concatenated
//! behind a list header.

use vstd::prelude::*;

use crate::words::{
    be_val, lemma_min_be_len, lemma_min_be_val, lemma_pow256_monotone, lemma_u64_bound_pow,
    min_be, pow256, u64_to_min_be,
};

verus! {

/// The encoding of a byte string: itself when it is a single byte below
/// `0x80`; behind a one-byte header when at most 55 bytes long; behind a
/// header and an explicit minimal big-endian length otherwise.
pub open spec fn enc_str(s: Seq<u8>) -> Seq<u8> {
    if s.len() == 1 && s[0] < 0x80 {
        s
    } else if s.len() <= 55 {
        seq![(0x80 + s.len()) as u8] + s
    } else {
        seq![(0xb7 + min_be(s.len() as nat).len()) as u8] + min_be(s.len() as nat) + s
    }
}

/// The encoding of an unsigned integer: its minimal big-endian byte string.
pub open spec fn enc_uint(n: nat) -> Seq<u8> {
    enc_str(min_be(n))
}

/// The encoding of a list, given the concatenation of its items' encodings.
pub open spec fn enc_list(payload: Seq<u8>) -> Seq<u8> {
    if payload.len() <= 55 {
        seq![(0xc0 + payload.len()) as u8] + payload
    } else {
        seq![(0xf7 + min_be(payload.len() as nat).len()) as u8] + min_be(payload.len() as nat)
            + payload
    }
}

/// Reads one item header at `pos`: whether the item is a list, where its
/// payload starts, and how long the payload is. `None` on a truncated or
/// non-canonical header.
pub open spec fn spec_parse_header(s: Seq<u8>, pos: int) -> Option<(bool, int, nat)> {
    if !(0 <= pos < s.len()) {
        None
    } else {
        let b = s[pos];
        if b < 0x80 {
            Some((false, pos, 1nat))
        } else if b <= 0xb7 {
            let l = (b - 0x80) as nat;
            if pos + 1 + l > s.len() {
                None
            } else if l == 1 && s[pos + 1] < 0x80 {
                None
            } else {
                Some((false, pos + 1, l))
            }
        } else if b <= 0xbf {
            let ll = (b - 0xb7) as nat;
            if pos + 1 + ll > s.len() {
                None
            } else if s[pos + 1] == 0 {
                None
            } else {
                let l = be_val(s.subrange(pos + 1, pos + 1 + ll));
                if l <= 55 {
                    None
                } else if pos + 1 + ll + l > s.len() {
                    None
                } else {
                    Some((false, pos + 1 + ll, l))
                }
            }
        } else if b <= 0xf7 {
            let l = (b - 0xc0) as nat;
            if pos + 1 + l > s.len() {
                None
            } else {
                Some((true, pos + 1, l))
            }
        } else {
            let ll = (b - 0xf7) as nat;
            if pos + 1 + ll > s.len() {
                None
            } else if s[pos + 1] == 0 {
                None
            } else {
                let l = be_val(s.subrange(pos + 1, pos + 1 + ll));
                if l <= 55 {
                    None
                } else if pos + 1 + ll + l > s.len() {
                    None
                } else {
                    Some((true, pos + 1 + ll, l))
                }
            }
        }
    }
}

/// A parsed header always makes progress and stays inside the buffer.
pub proof fn lemma_parse_header_progress(s: Seq<u8>, pos: int)
    requires
        spec_parse_header(s, pos) is Some,
    ensures
        ({
            let (il, ps, pl) = spec_parse_header(s, pos).unwrap();
            pos <= ps && pos < ps + pl && ps + pl <= s.len()
        }),
{
}

/// The items of the region `[pos, end)`: each item's list flag and payload.
/// `None` when the region is not exactly a sequence of well-formed items.
pub open spec fn spec_items(s: Seq<u8>, pos: int, end: int) -> Option<Seq<(bool, Seq<u8>)>>
    decreases end - pos,
{
    if pos == end {
        Some(Seq::empty())
    } else if pos > end {
        None
    } else {
        match spec_parse_header(s, pos) {
            None => None,
            Some((il, ps, pl)) => {
                if ps + pl > end || ps + pl <= pos {
                    None
                } else {
                    match spec_items(s, ps + pl, end) {
                        None => None,
                        Some(rest) => Some(
                            seq![(il, s.subrange(ps, ps + pl))] + rest,
                        ),
                    }
                }
            },
        }
    }
}

/// Parsing at the start of an embedded string-item encoding finds a string
/// item whose payload is exactly the encoded byte string.
pub proof fn lemma_parse_enc_str(buf: Seq<u8>, pos: int, x: Seq<u8>)
    requires
        x.len() < pow256(8),
        0 <= pos,
        pos + enc_str(x).len() <= buf.len(),
        buf.subrange(pos, pos + enc_str(x).len() as int) == enc_str(x),
    ensures
        enc_str(x).len() >= x.len(),
        spec_parse_header(buf, pos) == Some(
            (false, pos + (enc_str(x).len() - x.len()), x.len() as nat),
        ),
        buf.subrange(pos + (enc_str(x).len() - x.len()), pos + enc_str(x).len() as int) == x,
{
    let e = enc_str(x);
    if x.len() == 1 && x[0] < 0x80 {
        assert(e =~= x);
        assert(buf[pos] == e[0]);
        assert(buf.subrange(pos, pos + 1) =~= x);
        assert(spec_parse_header(buf, pos) == Some((false, pos, 1nat)));
    } else if x.len() <= 55 {
        assert(e == seq![(0x80 + x.len()) as u8] + x);
        assert(e.len() == 1 + x.len());
        assert(e[0] == (0x80 + x.len()) as u8);
        assert(buf[pos] == e[0]);
        let b = buf[pos];
        assert(0x80 <= b <= 0xb7);
        assert((b - 0x80) as nat == x.len());
        assert(buf.subrange(pos + 1, pos + 1 + x.len() as int) =~= x) by {
            assert(forall|i: int| 0 <= i < x.len() ==> e[1 + i] == #[trigger] x[i]);
            assert(forall|i: int|
                0 <= i < x.len() ==> buf[pos + 1 + i] == #[trigger] buf.subrange(
                    pos,
                    pos + e.len() as int,
                )[1 + i]);
        }
        if x.len() == 1 {
            assert(buf[pos + 1] == x[0]);
            assert(!(buf[pos + 1] < 0x80));
        }
        assert(spec_parse_header(buf, pos) == Some((false, pos + 1, x.len() as nat)));
    } else {
        let m = min_be(x.len() as nat);
        lemma_min_be_val(x.len() as nat);
        lemma_min_be_len(x.len() as nat, 8);
        let ll = m.len() as int;
        assert(1 <= ll <= 8);
        assert(e == seq![(0xb7 + m.len()) as u8] + m + x);
        assert(e.len() == 1 + ll + x.len());
        assert(e[0] == (0xb7 + m.len()) as u8);
        assert(buf[pos] == e[0]);
        let b = buf[pos];
        assert(0xb8 <= b <= 0xbf);
        assert((b - 0xb7) as nat == m.len());
        assert(forall|i: int| 0 <= i < ll ==> e[1 + i] == #[trigger] m[i]);
        assert(forall|i: int| 0 <= i < x.len() ==> e[1 + ll + i] == #[trigger] x[i]);
        assert(forall|i: int|
            0 <= i < e.len() ==> buf[pos + i] == #[trigger] buf.subrange(
                pos,
                pos + e.len() as int,
            )[i]);
        assert(buf.subrange(pos + 1, pos + 1 + ll) =~= m);
        assert(buf[pos + 1] == m[0]);
        assert(m[0] != 0);
        assert(be_val(buf.subrange(pos + 1, pos + 1 + ll)) == x.len());
        assert(x.len() > 55);
        assert(buf.subrange(pos + 1 + ll, pos + 1 + ll + x.len() as int) =~= x);
        assert(spec_parse_header(buf, pos) == Some((false, pos + 1 + ll, x.len() as nat)));
    }
}

/// Parsing at the start of a list encoding finds a list item whose payload is
/// exactly the encoded payload.
pub proof fn lemma_parse_enc_list(payload: Seq<u8>)
    requires
        payload.len() < pow256(8),
    ensures
        enc_list(payload).len() > payload.len(),
        spec_parse_header(enc_list(payload), 0) == Some(
            (true, enc_list(payload).len() - payload.len(), payload.len() as nat),
        ),
        enc_list(payload).subrange(
            enc_list(payload).len() - payload.len(),
            enc_list(payload).len() as int,
        ) == payload,
{
    let e = enc_list(payload);
    if payload.len() <= 55 {
        assert(e == seq![(0xc0 + payload.len()) as u8] + payload);
        assert(e.len() == 1 + payload.len());
        assert(e[0] == (0xc0 + payload.len()) as u8);
        let b = e[0];
        assert(0xc0 <= b <= 0xf7);
        assert((b - 0xc0) as nat == payload.len());
        assert(e.subrange(1, e.len() as int) =~= payload);
        assert(spec_parse_header(e, 0) == Some((true, 1int, payload.len() as nat)));
    } else {
        let m = min_be(payload.len() as nat);
        lemma_min_be_val(payload.len() as nat);
        lemma_min_be_len(payload.len() as nat, 8);
        let ll = m.len() as int;
        assert(1 <= ll <= 8);
        assert(e == seq![(0xf7 + m.len()) as u8] + m + payload);
        assert(e.len() == 1 + ll + payload.len());
        assert(e[0] == (0xf7 + m.len()) as u8);
        let b = e[0];
        assert(0xf8 <= b);
        assert(forall|i: int| 0 <= i < ll ==> e[1 + i] == #[trigger] m[i]);
        assert(forall|i: int| 0 <= i < payload.len() ==> e[1 + ll + i] == #[trigger] payload[i]);
        assert(e.subrange(1, 1 + ll) =~= m);
        assert(e[1] == m[0]);
        assert(m[0] != 0);
        assert(be_val(e.subrange(1, 1 + ll)) == payload.len());
        assert(payload.len() > 55);
        assert(e.subrange(1 + ll, 1 + ll + payload.len() as int) =~= payload);
        assert(spec_parse_header(e, 0) == Some((true, 1 + ll, payload.len() as nat)));
    }
}

/// Prepending one well-formed string item to a well-formed item region gives
/// a well-formed item region with that item in front.
pub proof fn lemma_items_cons(
    s: Seq<u8>,
    pos: int,
    end: int,
    hps: int,
    x: Seq<u8>,
    rest: Seq<(bool, Seq<u8>)>,
)
    requires
        spec_parse_header(s, pos) == Some((false, hps, x.len() as nat)),
        s.subrange(hps, hps + x.len() as int) == x,
        hps + x.len() <= end,
        spec_items(s, hps + x.len() as int, end) == Some(rest),
    ensures
        spec_items(s, pos, end) == Some(seq![(false, x)] + rest),
{
    lemma_parse_header_progress(s, pos);
    assert(pos < hps + x.len());
    assert(pos < end);
    assert(spec_items(s, pos, end) == Some(seq![(false, s.subrange(hps, hps + x.len() as int))]
        + rest));
}

/// Whether a byte string is the canonical payload of an unsigned integer
/// that fits in 64 bits: at most 8 bytes, no leading zero.
pub open spec fn uint_ok(p: Seq<u8>) -> bool {
    p.len() <= 8 && (p.len() == 0 || p[0] != 0)
}

/// Reads one item header at `pos` of the byte slice.
pub fn parse_header(bytes: &[u8], pos: usize) -> (r: Option<(bool, usize, usize)>)
    ensures
        match r {
            Some(h) => {
                &&& spec_parse_header(bytes@, pos as int) == Some((h.0, h.1 as int, h.2 as nat))
                &&& pos <= h.1
                &&& pos < h.1 + h.2 <= bytes@.len()
            },
            None => spec_parse_header(bytes@, pos as int) is None,
        },
{
    let n = bytes.len();
    if pos >= n {
        return None;
    }
    let b = *vstd::slice::slice_index_get(bytes, pos);
    if b < 0x80 {
        Some((false, pos, 1))
    } else if b <= 0xb7 {
        let l = (b - 0x80) as usize;
        if l > n - pos - 1 {
            return None;
        }
        if l == 1 && *vstd::slice::slice_index_get(bytes, pos + 1) < 0x80 {
            return None;
        }
        Some((false, pos + 1, l))
    } else if b <= 0xbf {
        match read_long_length(bytes, pos, (b - 0xb7) as usize) {
            Some((ps, pl)) => Some((false, ps, pl)),
            None => None,
        }
    } else if b <= 0xf7 {
        let l = (b - 0xc0) as usize;
        if l > n - pos - 1 {
            return None;
        }
        Some((true, pos + 1, l))
    } else {
        match read_long_length(bytes, pos, (b - 0xf7) as usize) {
            Some((ps, pl)) => Some((true, ps, pl)),
            None => None,
        }
    }
}

/// Reads the explicit length of a long-form item whose header sits at `pos`
/// and announces `ll` length bytes; returns the payload start and length.
fn read_long_length(bytes: &[u8], pos: usize, ll: usize) -> (r: Option<(usize, usize)>)
    requires
        pos < bytes@.len(),
        1 <= ll <= 8,
    ensures
        match r {
            Some(h) => {
                &&& pos + 1 + ll <= bytes@.len()
                &&& bytes@[pos + 1] != 0
                &&& be_val(bytes@.subrange(pos + 1, pos + 1 + ll)) > 55
                &&& h.0 == pos + 1 + ll
                &&& (h.1 as nat) == be_val(bytes@.subrange(pos + 1, pos + 1 + ll))
                &&& h.0 + h.1 <= bytes@.len()
            },
            None => {
                ||| pos + 1 + ll > bytes@.len()
                ||| (pos + 1 + ll <= bytes@.len() && bytes@[pos + 1] == 0)
                ||| (pos + 1 + ll <= bytes@.len() && bytes@[pos + 1] != 0 && be_val(
                    bytes@.subrange(pos + 1, pos + 1 + ll),
                ) <= 55)
                ||| (pos + 1 + ll <= bytes@.len() && bytes@[pos + 1] != 0 && be_val(
                    bytes@.subrange(pos + 1, pos + 1 + ll),
                ) > 55 && pos + 1 + ll + be_val(bytes@.subrange(pos + 1, pos + 1 + ll))
                    > bytes@.len())
            },
        },
{
    let n = bytes.len();
    if ll > n - pos - 1 {
        return None;
    }
    if *vstd::slice::slice_index_get(bytes, pos + 1) == 0 {
        return None;
    }
    let mut l: u64 = 0;
    let mut j: usize = 0;
    proof {
        assert(bytes@.subrange(pos + 1, pos + 1) =~= Seq::<u8>::empty());
        assert(be_val(Seq::<u8>::empty()) == 0);
        assert(pow256(0) == 1);
    }
    while j < ll
        invariant
            j <= ll,
            ll <= 8,
            n == bytes@.len(),
            pos + 1 + ll <= n,
            (l as nat) == be_val(bytes@.subrange(pos + 1, pos + 1 + j)),
            (l as nat) < pow256(j as nat),
        decreases ll - j,
    {
        proof {
            let s = bytes@.subrange(pos + 1, pos + 1 + j + 1);
            assert(s.drop_last() =~= bytes@.subrange(pos + 1, pos + 1 + j));
            assert(s.last() == bytes@[pos + 1 + j]);
            lemma_pow256_monotone((j + 1) as nat, 8);
            lemma_u64_bound_pow(0u64);
            crate::words::lemma_pow256_mul(j as nat);
            vstd::arithmetic::mul::lemma_mul_inequality(l as int, pow256(j as nat) - 1, 256);
        }
        l = l * 256 + (*vstd::slice::slice_index_get(bytes, pos + 1 + j) as u64);
        j = j + 1;
    }
    if l <= 55 {
        return None;
    }
    let avail = n - pos - 1 - ll;
    if l > avail as u64 {
        return None;
    }
    Some((pos + 1 + ll, l as usize))
}

/// Reads a canonical unsigned integer payload of at most 8 bytes.
pub fn be_bytes_to_u64(p: &Vec<u8>) -> (r: u64)
    requires
        p@.len() <= 8,
    ensures
        (r as nat) == be_val(p@),
{
    let mut acc: u64 = 0;
    let mut j: usize = 0;
    proof {
        assert(p@.subrange(0, 0) =~= Seq::<u8>::empty());
        assert(be_val(Seq::<u8>::empty()) == 0);
        assert(pow256(0) == 1);
    }
    let n = p.len();
    while j < n
        invariant
            j <= n,
            n == p@.len(),
            n <= 8,
            (acc as nat) == be_val(p@.subrange(0, j as int)),
            (acc as nat) < pow256(j as nat),
        decreases n - j,
    {
        proof {
            let s = p@.subrange(0, j + 1);
            assert(s.drop_last() =~= p@.subrange(0, j as int));
            assert(s.last() == p@[j as int]);
            lemma_pow256_monotone((j + 1) as nat, 8);
            lemma_u64_bound_pow(0u64);
            crate::words::lemma_pow256_mul(j as nat);
            vstd::arithmetic::mul::lemma_mul_inequality(acc as int, pow256(j as nat) - 1, 256);
        }
        acc = acc * 256 + (p[j] as u64);
        j = j + 1;
    }
    proof {
        assert(p@.subrange(0, n as int) =~= p@);
    }
    acc
}

/// Appends the bytes of `src` to `dst`.
pub fn push_all(dst: &mut Vec<u8>, src: &Vec<u8>)
    ensures
        final(dst)@ == old(dst)@ + src@,
{
    let n = src.len();
    let mut i: usize = 0;
    while i < n
        invariant
            i <= n,
            n == src@.len(),
            dst@ == old(dst)@ + src@.take(i as int),
        decreases n - i,
    {
        proof {
            assert((old(dst)@ + src@.take(i as int)).push(src@[i as int]) =~= old(dst)@
                + src@.take(i + 1));
        }
        dst.push(src[i]);
        i = i + 1;
    }
    proof {
        assert(src@.take(n as int) =~= src@);
    }
}

/// Appends the encoding of the byte string `s` as one item.
pub fn append_str_item(out: &mut Vec<u8>, s: &Vec<u8>)
    ensures
        final(out)@ == old(out)@ + enc_str(s@),
{
    let n = s.len();
    if n == 1 && s[0] < 0x80 {
        out.push(s[0]);
        proof {
            assert(enc_str(s@) =~= s@);
            assert(old(out)@.push(s@[0]) =~= old(out)@ + s@);
        }
    } else if n <= 55 {
        out.push(0x80u8 + n as u8);
        let ghost mid = out@;
        push_all(out, s);
        proof {
            assert(mid =~= old(out)@ + seq![(0x80 + s@.len()) as u8]);
            assert(out@ =~= old(out)@ + (seq![(0x80 + s@.len()) as u8] + s@));
        }
    } else {
        let lb = u64_to_min_be(n as u64);
        proof {
            lemma_u64_bound_pow(n as u64);
            lemma_min_be_len(n as nat, 8);
            lemma_min_be_val(n as nat);
        }
        out.push(0xb7u8 + lb.len() as u8);
        push_all(out, &lb);
        let ghost mid = out@;
        push_all(out, s);
        proof {
            assert(mid =~= old(out)@ + seq![(0xb7 + min_be(s@.len() as nat).len()) as u8] + min_be(
                s@.len() as nat,
            ));
            assert(out@ =~= old(out)@ + (seq![(0xb7 + min_be(s@.len() as nat).len()) as u8]
                + min_be(s@.len() as nat) + s@));
        }
    }
}

/// Appends the encoding of the unsigned integer `x` as one item.
pub fn append_uint_item(out: &mut Vec<u8>, x: u64)
    ensures
        final(out)@ == old(out)@ + enc_uint(x as nat),
{
    let m = u64_to_min_be(x);
    proof {
        lemma_u64_bound_pow(x);
        lemma_min_be_len(x as nat, 8);
    }
    append_str_item(out, &m);
}

/// Wraps an already-encoded payload in a list header.
pub fn wrap_list(payload: Vec<u8>) -> (r: Vec<u8>)
    ensures
        r@ == enc_list(payload@),
{
    let n = payload.len();
    let mut out: Vec<u8> = Vec::new();
    if n <= 55 {
        out.push(0xc0u8 + n as u8);
        let ghost mid = out@;
        push_all(&mut out, &payload);
        proof {
            assert(mid =~= seq![(0xc0 + payload@.len()) as u8]);
            assert(out@ =~= enc_list(payload@));
        }
    } else {
        let lb = u64_to_min_be(n as u64);
        proof {
            lemma_u64_bound_pow(n as u64);
            lemma_min_be_len(n as nat, 8);
        }
        out.push(0xf7u8 + lb.len() as u8);
        push_all(&mut out, &lb);
        let ghost mid = out@;
        push_all(&mut out, &payload);
        proof {
            assert(mid =~= seq![(0xf7 + min_be(payload@.len() as nat).len()) as u8] + min_be(
                payload@.len() as nat,
            ));
            assert(out@ =~= enc_list(payload@));
        }
    }
    out
}

/// Walks the items of the region `[start, end)`, returning each item's list
/// flag and payload bytes; `None` when the region is not a well-formed item
/// sequence.
pub fn scan_items(bytes: &[u8], start: usize, end: usize) -> (r: Option<(Vec<bool>, Vec<Vec<u8>>)>)
    requires
        start <= end <= bytes@.len(),
    ensures
        match r {
            Some(p) => {
                &&& spec_items(bytes@, start as int, end as int) matches Some(items)
                &&& p.0@.len() == p.1@.len()
                &&& spec_items(bytes@, start as int, end as int).unwrap().len() == p.0@.len()
                &&& forall|i: int|
                    0 <= i < p.0@.len() ==> spec_items(bytes@, start as int, end as int).unwrap()[i]
                        == (p.0@[i], p.1@[i]@)
            },
            None => spec_items(bytes@, start as int, end as int) is None,
        },
{
    let mut flags: Vec<bool> = Vec::new();
    let mut payloads: Vec<Vec<u8>> = Vec::new();
    let mut cursor: usize = start;
    let ghost s = bytes@;
    while cursor < end
        invariant
            start <= cursor <= end <= s.len(),
            s == bytes@,
            flags@.len() == payloads@.len(),
            match spec_items(s, cursor as int, end as int) {
                Some(rest) => spec_items(s, start as int, end as int) matches Some(all)
                    && all.len() == flags@.len() + rest.len() && (forall|i: int|
                    0 <= i < flags@.len() ==> all[i] == (flags@[i], payloads@[i]@)) && (forall|
                    i: int,
                |
                    0 <= i < rest.len() ==> all[flags@.len() + i] == rest[i]),
                None => spec_items(s, start as int, end as int) is None,
            },
        decreases end - cursor,
    {
        let h = match parse_header(bytes, cursor) {
            Some(h) => h,
            None => {
                proof {
                    assert(spec_items(s, cursor as int, end as int) is None);
                }
                return None;
            },
        };
        let (is_list, ps, pl) = h;
        if ps > end || pl > end - ps {
            proof {
                assert(spec_items(s, cursor as int, end as int) is None);
            }
            return None;
        }
        let payload = vstd::slice::slice_to_vec(vstd::slice::slice_subrange(bytes, ps, ps + pl));
        let ghost flags_old = flags@;
        let ghost payloads_old = payloads@;
        flags.push(is_list);
        payloads.push(payload);
        proof {
            let rest_opt = spec_items(s, (ps + pl) as int, end as int);
            assert(spec_items(s, cursor as int, end as int) == (match rest_opt {
                None => None::<Seq<(bool, Seq<u8>)>>,
                Some(rest) => Some(seq![(is_list, s.subrange(ps as int, ps + pl))] + rest),
            }));
            if rest_opt is Some {
                let rest_new = rest_opt.unwrap();
                let rest_old = spec_items(s, cursor as int, end as int).unwrap();
                let all = spec_items(s, start as int, end as int).unwrap();
                assert(rest_old == seq![(is_list, s.subrange(ps as int, ps + pl))] + rest_new);
                assert(rest_old[0] == (is_list, s.subrange(ps as int, ps + pl)));
                assert(payloads@[flags_old.len() as int]@ == s.subrange(ps as int, ps + pl));
                assert(all[flags_old.len() as int] == rest_old[0]);
                assert(forall|i: int|
                    0 <= i < flags@.len() ==> all[i] == (flags@[i], #[trigger] payloads@[i]@)) by {
                    assert(forall|i: int|
                        0 <= i < flags_old.len() ==> all[i] == (flags_old[i], #[trigger] payloads_old[i]@));
                }
                assert(forall|i: int|
                    0 <= i < rest_new.len() ==> all[flags@.len() + i] == #[trigger] rest_new[i]) by {
                    assert(forall|i: int|
                        0 <= i < rest_new.len() ==> #[trigger] rest_new[i] == rest_old[i + 1]);
                }
            }
        }
        cursor = ps + pl;
    }
    proof {
        assert(spec_items(s, cursor as int, end as int) == Some(Seq::<(bool, Seq<u8>)>::empty()));
    }
    Some((flags, payloads))
}

} // verus!
