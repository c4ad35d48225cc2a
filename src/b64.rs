//! Base64 with the URL-safe alphabet and no padding, as the segments of a
//! compact signed token use it.
use vstd::prelude::*;

verus! {

/// The ASCII byte that writes a six-bit value.
pub open spec fn b64_byte(v: u8) -> u8 {
    if v < 26 {
        (65 + v) as u8
    } else if v < 52 {
        (97 + (v - 26)) as u8
    } else if v < 62 {
        (48 + (v - 52)) as u8
    } else if v == 62 {
        45u8
    } else {
        95u8
    }
}

/// The six-bit value an ASCII byte writes, if it is in the alphabet.
pub open spec fn b64_val(b: u8) -> Option<u8> {
    if 65 <= b <= 90 {
        Some((b - 65) as u8)
    } else if 97 <= b <= 122 {
        Some((b - 97 + 26) as u8)
    } else if 48 <= b <= 57 {
        Some((b - 48 + 52) as u8)
    } else if b == 45 {
        Some(62u8)
    } else if b == 95 {
        Some(63u8)
    } else {
        None
    }
}

pub open spec fn is_b64_byte(b: u8) -> bool {
    b64_val(b) is Some
}

pub open spec fn enc3(a: u8, b: u8, c: u8) -> Seq<u8> {
    seq![
        b64_byte(a >> 2),
        b64_byte(((a & 3) << 4) | (b >> 4)),
        b64_byte(((b & 15) << 2) | (c >> 6)),
        b64_byte(c & 63),
    ]
}

pub open spec fn enc2(a: u8, b: u8) -> Seq<u8> {
    seq![b64_byte(a >> 2), b64_byte(((a & 3) << 4) | (b >> 4)), b64_byte((b & 15) << 2)]
}

pub open spec fn enc1(a: u8) -> Seq<u8> {
    seq![b64_byte(a >> 2), b64_byte((a & 3) << 4)]
}

/// The unpadded URL-safe base64 text of `s`.
pub open spec fn b64_encode(s: Seq<u8>) -> Seq<u8>
    decreases s.len(),
{
    if s.len() >= 3 {
        enc3(s[0], s[1], s[2]) + b64_encode(s.skip(3))
    } else if s.len() == 2 {
        enc2(s[0], s[1])
    } else if s.len() == 1 {
        enc1(s[0])
    } else {
        Seq::empty()
    }
}

pub open spec fn dec4(w: u8, x: u8, y: u8, z: u8) -> Seq<u8> {
    seq![(w << 2) | (x >> 4), ((x & 15) << 4) | (y >> 2), ((y & 3) << 6) | z]
}

pub open spec fn dec3(w: u8, x: u8, y: u8) -> Seq<u8> {
    seq![(w << 2) | (x >> 4), ((x & 15) << 4) | (y >> 2)]
}

pub open spec fn dec2(w: u8, x: u8) -> Seq<u8> {
    seq![(w << 2) | (x >> 4)]
}

/// The bytes that unpadded URL-safe base64 text `t` writes, if it is such
/// text.
pub open spec fn b64_decode(t: Seq<u8>) -> Option<Seq<u8>>
    decreases t.len(),
{
    if t.len() >= 4 {
        match (b64_val(t[0]), b64_val(t[1]), b64_val(t[2]), b64_val(t[3]), b64_decode(t.skip(4))) {
            (Some(w), Some(x), Some(y), Some(z), Some(rest)) => Some(dec4(w, x, y, z) + rest),
            _ => None,
        }
    } else if t.len() == 3 {
        match (b64_val(t[0]), b64_val(t[1]), b64_val(t[2])) {
            (Some(w), Some(x), Some(y)) => Some(dec3(w, x, y)),
            _ => None,
        }
    } else if t.len() == 2 {
        match (b64_val(t[0]), b64_val(t[1])) {
            (Some(w), Some(x)) => Some(dec2(w, x)),
            _ => None,
        }
    } else if t.len() == 1 {
        None
    } else {
        Some(Seq::empty())
    }
}

fn byte_of(v: u8) -> (r: u8)
    requires
        v < 64,
    ensures
        r == b64_byte(v),
{
    if v < 26 {
        65 + v
    } else if v < 52 {
        97 + (v - 26)
    } else if v < 62 {
        48 + (v - 52)
    } else if v == 62 {
        45
    } else {
        95
    }
}

fn val_of(b: u8) -> (r: Option<u8>)
    ensures
        r == b64_val(b),
{
    if 65 <= b && b <= 90 {
        Some(b - 65)
    } else if 97 <= b && b <= 122 {
        Some(b - 97 + 26)
    } else if 48 <= b && b <= 57 {
        Some(b - 48 + 52)
    } else if b == 45 {
        Some(62)
    } else if b == 95 {
        Some(63)
    } else {
        None
    }
}

proof fn lemma_six_bits(a: u8, b: u8, c: u8)
    ensures
        a >> 2 < 64,
        ((a & 3) << 4) | (b >> 4) < 64,
        ((b & 15) << 2) | (c >> 6) < 64,
        c & 63 < 64,
        (b & 15) << 2 < 64,
        (a & 3) << 4 < 64,
{
    assert(a >> 2 < 64) by (bit_vector);
    assert(((a & 3) << 4) | (b >> 4) < 64) by (bit_vector);
    assert(((b & 15) << 2) | (c >> 6) < 64) by (bit_vector);
    assert(c & 63 < 64) by (bit_vector);
    assert((b & 15) << 2 < 64) by (bit_vector);
    assert((a & 3) << 4 < 64) by (bit_vector);
}

/// Appends the unpadded URL-safe base64 text of `s`.
pub fn encode_into(out: &mut Vec<u8>, s: &[u8])
    ensures
        final(out)@ == old(out)@ + b64_encode(s@),
        forall|i: int| old(out)@.len() <= i < final(out)@.len() ==> is_b64_byte(#[trigger] final(out)@[i]),
{
    let n = s.len();
    let mut i: usize = 0;
    proof {
        lemma_encode_alphabet(s@);
    }
    assert(s@.skip(0) =~= s@);
    while n - i >= 3
        invariant
            n == s@.len(),
            i <= n,
            old(out)@ + b64_encode(s@) == out@ + b64_encode(s@.skip(i as int)),
            forall|k: int| old(out)@.len() <= k < out@.len() ==> is_b64_byte(#[trigger] out@[k]),
            forall|k: int| 0 <= k < b64_encode(s@).len() ==> is_b64_byte(#[trigger] b64_encode(s@)[k]),
            old(out)@.len() <= out@.len(),
        decreases n - i,
    {
        let a = s[i];
        let b = s[i + 1];
        let c = s[i + 2];
        proof {
            lemma_six_bits(a, b, c);
            let t = s@.skip(i as int);
            assert(t.skip(3) =~= s@.skip(i + 3));
            assert(b64_encode(t) == enc3(a, b, c) + b64_encode(s@.skip(i + 3)));
        }
        out.push(byte_of(a >> 2));
        out.push(byte_of(((a & 3) << 4) | (b >> 4)));
        out.push(byte_of(((b & 15) << 2) | (c >> 6)));
        out.push(byte_of(c & 63));
        proof {
            let ghost_old = old(out)@;
            assert(out@.len() >= 4);
            assert(out@.subrange(out@.len() - 4, out@.len() as int) =~= enc3(a, b, c));
            assert(out@ =~= out@.subrange(0, out@.len() - 4) + enc3(a, b, c));
            assert forall|k: int| ghost_old.len() <= k < out@.len() implies is_b64_byte(#[trigger] out@[k]) by {
                if k >= out@.len() - 4 {
                    assert(b64_val(b64_byte(a >> 2)) is Some);
                    assert(b64_val(b64_byte(((a & 3) << 4) | (b >> 4))) is Some);
                    assert(b64_val(b64_byte(((b & 15) << 2) | (c >> 6))) is Some);
                    assert(b64_val(b64_byte(c & 63)) is Some);
                }
            }
        }
        i = i + 3;
    }
    let ghost before = out@;
    if n - i == 2 {
        let a = s[i];
        let b = s[i + 1];
        proof {
            lemma_six_bits(a, b, 0);
        }
        out.push(byte_of(a >> 2));
        out.push(byte_of(((a & 3) << 4) | (b >> 4)));
        out.push(byte_of((b & 15) << 2));
        assert(out@ =~= before + enc2(a, b));
    } else if n - i == 1 {
        let a = s[i];
        proof {
            lemma_six_bits(a, 0, 0);
        }
        out.push(byte_of(a >> 2));
        out.push(byte_of((a & 3) << 4));
        assert(out@ =~= before + enc1(a));
    }
    proof {
        let t = s@.skip(i as int);
        if n - i == 2 {
            assert(b64_encode(t) == enc2(s@[i as int], s@[i + 1]));
        } else if n - i == 1 {
            assert(b64_encode(t) == enc1(s@[i as int]));
        } else {
            assert(b64_encode(t) == Seq::<u8>::empty());
        }
        assert(final(out)@ =~= old(out)@ + b64_encode(s@));
        assert forall|k: int| old(out)@.len() <= k < final(out)@.len() implies is_b64_byte(#[trigger] final(out)@[k]) by {
            assert(final(out)@[k] == b64_encode(s@)[k - old(out)@.len()]);
        }
    }
}

/// Every byte of an encoding is in the alphabet.
pub proof fn lemma_encode_alphabet(s: Seq<u8>)
    ensures
        forall|k: int| 0 <= k < b64_encode(s).len() ==> is_b64_byte(#[trigger] b64_encode(s)[k]),
    decreases s.len(),
{
    if s.len() >= 3 {
        lemma_encode_alphabet(s.skip(3));
        lemma_six_bits(s[0], s[1], s[2]);
        let e = b64_encode(s);
        assert forall|k: int| 0 <= k < e.len() implies is_b64_byte(#[trigger] e[k]) by {
            if k >= 4 {
                assert(e[k] == b64_encode(s.skip(3))[k - 4]);
            }
        }
    } else if s.len() == 2 {
        lemma_six_bits(s[0], s[1], 0);
    } else if s.len() == 1 {
        lemma_six_bits(s[0], 0, 0);
    }
}

/// Reads the unpadded URL-safe base64 text `t[from..to]`.
pub fn decode_range(t: &[u8], from: usize, to: usize) -> (r: Option<Vec<u8>>)
    requires
        from <= to <= t@.len(),
    ensures
        r matches Some(v) ==> b64_decode(t@.subrange(from as int, to as int)) == Some(v@),
        r is None ==> b64_decode(t@.subrange(from as int, to as int)) is None,
{
    let ghost whole = t@.subrange(from as int, to as int);
    let mut out: Vec<u8> = Vec::new();
    let mut i: usize = from;
    assert(t@.subrange(i as int, to as int) =~= whole);
    while to - i >= 4
        invariant
            from <= i <= to <= t@.len(),
            b64_decode(whole) == (match b64_decode(t@.subrange(i as int, to as int)) {
                Some(rest) => Some(out@ + rest),
                None => None,
            }),
            whole == t@.subrange(from as int, to as int),
        decreases to - i,
    {
        let ghost cur = t@.subrange(i as int, to as int);
        assert(cur.skip(4) =~= t@.subrange(i + 4, to as int));
        match (val_of(t[i]), val_of(t[i + 1]), val_of(t[i + 2]), val_of(t[i + 3])) {
            (Some(w), Some(x), Some(y), Some(z)) => {
                let ghost prev = out@;
                out.push((w << 2) | (x >> 4));
                out.push(((x & 15) << 4) | (y >> 2));
                out.push(((y & 3) << 6) | z);
                assert(out@ =~= prev + dec4(w, x, y, z));
                proof {
                    match b64_decode(t@.subrange(i + 4, to as int)) {
                        Some(rest) => {
                            assert(prev + (dec4(w, x, y, z) + rest) =~= out@ + rest);
                        },
                        None => {},
                    }
                }
                i = i + 4;
            },
            _ => {
                return None;
            },
        }
    }
    let ghost cur = t@.subrange(i as int, to as int);
    let left = to - i;
    if left == 3 {
        match (val_of(t[i]), val_of(t[i + 1]), val_of(t[i + 2])) {
            (Some(w), Some(x), Some(y)) => {
                let ghost prev = out@;
                out.push((w << 2) | (x >> 4));
                out.push(((x & 15) << 4) | (y >> 2));
                assert(out@ =~= prev + dec3(w, x, y));
                Some(out)
            },
            _ => None,
        }
    } else if left == 2 {
        match (val_of(t[i]), val_of(t[i + 1])) {
            (Some(w), Some(x)) => {
                let ghost prev = out@;
                out.push((w << 2) | (x >> 4));
                assert(out@ =~= prev + dec2(w, x));
                Some(out)
            },
            _ => None,
        }
    } else if left == 1 {
        None
    } else {
        assert(out@ + Seq::<u8>::empty() =~= out@);
        Some(out)
    }
}

proof fn lemma_val_of_byte(v: u8)
    requires
        v < 64,
    ensures
        b64_val(b64_byte(v)) == Some(v),
{
}

/// Decoding an encoding gives back the bytes encoded.
pub proof fn lemma_b64_round_trip(s: Seq<u8>)
    ensures
        b64_decode(b64_encode(s)) == Some(s),
    decreases s.len(),
{
    if s.len() >= 3 {
        let (a, b, c) = (s[0], s[1], s[2]);
        lemma_six_bits(a, b, c);
        lemma_val_of_byte(a >> 2);
        lemma_val_of_byte(((a & 3) << 4) | (b >> 4));
        lemma_val_of_byte(((b & 15) << 2) | (c >> 6));
        lemma_val_of_byte(c & 63);
        lemma_b64_round_trip(s.skip(3));
        let e = b64_encode(s);
        assert(e.skip(4) =~= b64_encode(s.skip(3)));
        assert(((a >> 2) << 2) | ((((a & 3) << 4) | (b >> 4)) >> 4) == a) by (bit_vector);
        assert(((((a & 3) << 4) | (b >> 4)) & 15) << 4 | ((((b & 15) << 2) | (c >> 6)) >> 2) == b)
            by (bit_vector);
        assert(((((b & 15) << 2) | (c >> 6)) & 3) << 6 | (c & 63) == c) by (bit_vector);
        assert(s =~= seq![a, b, c] + s.skip(3));
    } else if s.len() == 2 {
        let (a, b) = (s[0], s[1]);
        lemma_six_bits(a, b, 0);
        lemma_val_of_byte(a >> 2);
        lemma_val_of_byte(((a & 3) << 4) | (b >> 4));
        lemma_val_of_byte((b & 15) << 2);
        assert(((a >> 2) << 2) | ((((a & 3) << 4) | (b >> 4)) >> 4) == a) by (bit_vector);
        assert(((((a & 3) << 4) | (b >> 4)) & 15) << 4 | (((b & 15) << 2) >> 2) == b) by (bit_vector);
        assert(s =~= seq![a, b]);
    } else if s.len() == 1 {
        let a = s[0];
        lemma_six_bits(a, 0, 0);
        lemma_val_of_byte(a >> 2);
        lemma_val_of_byte((a & 3) << 4);
        assert(((a >> 2) << 2) | (((a & 3) << 4) >> 4) == a) by (bit_vector);
        assert(s =~= seq![a]);
    } else {
        assert(s =~= Seq::<u8>::empty());
    }
}

} // verus!
