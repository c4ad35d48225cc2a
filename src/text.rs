//! Byte-level text helpers: hexadecimal and decimal numerals, literals.
use vstd::prelude::*;

verus! {

/// The ASCII byte of the lowercase hexadecimal digit for a value below 16.
pub open spec fn hex_byte(d: nat) -> u8 {
    if d < 10 {
        (48 + d) as u8
    } else {
        (97 + (d - 10)) as u8
    }
}

/// The value of an ASCII hexadecimal digit (either case), if it is one.
pub open spec fn hex_value(b: u8) -> Option<nat> {
    if 48 <= b <= 57 {
        Some((b - 48) as nat)
    } else if 97 <= b <= 102 {
        Some((b - 87) as nat)
    } else if 65 <= b <= 70 {
        Some((b - 55) as nat)
    } else {
        None
    }
}

/// The last `n` hexadecimal digits of `v`, most significant first.
pub open spec fn hex_digits(v: nat, n: nat) -> Seq<u8>
    decreases n,
{
    if n == 0 {
        Seq::empty()
    } else {
        hex_digits(v / 16, (n - 1) as nat).push(hex_byte(v % 16))
    }
}

/// The number written by a sequence of hexadecimal digits.
pub open spec fn parse_hex(s: Seq<u8>) -> Option<nat>
    decreases s.len(),
{
    if s.len() == 0 {
        Some(0)
    } else {
        match (parse_hex(s.drop_last()), hex_value(s.last())) {
            (Some(p), Some(d)) => Some(p * 16 + d),
            _ => None,
        }
    }
}

pub open spec fn pow16(n: nat) -> nat
    decreases n,
{
    if n == 0 {
        1
    } else {
        16 * pow16((n - 1) as nat)
    }
}

/// The decimal digits of `v`, without leading zeros.
pub open spec fn dec_digits(v: nat) -> Seq<u8>
    decreases v,
{
    if v < 10 {
        seq![(48 + v) as u8]
    } else {
        dec_digits(v / 10).push((48 + v % 10) as u8)
    }
}

/// A signed integer in decimal, with a leading `-` when negative.
pub open spec fn int_text(v: int) -> Seq<u8> {
    if v < 0 {
        seq![45u8] + dec_digits((-v) as nat)
    } else {
        dec_digits(v as nat)
    }
}

pub open spec fn is_digit(b: u8) -> bool {
    48 <= b <= 57
}

/// The number written by a sequence of decimal digits (empty gives zero).
pub open spec fn parse_digits(s: Seq<u8>) -> Option<nat>
    decreases s.len(),
{
    if s.len() == 0 {
        Some(0)
    } else {
        match parse_digits(s.drop_last()) {
            Some(p) => if is_digit(s.last()) {
                Some((p * 10 + (s.last() - 48)) as nat)
            } else {
                None
            },
            None => None,
        }
    }
}

pub open spec fn fits_i64(v: int) -> bool {
    i64::MIN <= v <= i64::MAX
}

/// The `i64` written by a decimal numeral with an optional leading `-`.
pub open spec fn parse_int(s: Seq<u8>) -> Option<i64> {
    if s.len() > 0 && s[0] == 45u8 {
        let body = s.skip(1);
        match parse_digits(body) {
            Some(m) => if body.len() > 0 && fits_i64(-m) {
                Some((-m) as i64)
            } else {
                None
            },
            None => None,
        }
    } else {
        match parse_digits(s) {
            Some(m) => if s.len() > 0 && fits_i64(m as int) {
                Some(m as i64)
            } else {
                None
            },
            None => None,
        }
    }
}

/// Relies on String::push: the character is appended at the end.
#[verifier::external_body]
pub(crate) fn push_char(s: &mut String, c: char)
    ensures
        final(s)@ == old(s)@.push(c),
{
    s.push(c)
}

pub fn hex_of(d: u8) -> (b: u8)
    requires
        d < 16,
    ensures
        b == hex_byte(d as nat),
{
    if d < 10 {
        48u8 + d
    } else {
        97u8 + (d - 10)
    }
}

/// Appends the last `n` hexadecimal digits of `v`.
pub fn write_hex(out: &mut Vec<u8>, v: u128, n: u32)
    ensures
        final(out)@ == old(out)@ + hex_digits(v as nat, n as nat),
    decreases n,
{
    if n > 0 {
        write_hex(out, v / 16, n - 1);
        out.push(hex_of((v % 16) as u8));
        assert(final(out)@ =~= old(out)@ + hex_digits(v as nat, n as nat));
    } else {
        assert(final(out)@ =~= old(out)@ + hex_digits(v as nat, n as nat));
    }
}

/// Appends the decimal digits of `v`.
pub fn write_digits(out: &mut Vec<u8>, v: u64)
    ensures
        final(out)@ == old(out)@ + dec_digits(v as nat),
    decreases v,
{
    if v >= 10 {
        write_digits(out, v / 10);
    }
    out.push(48u8 + (v % 10) as u8);
    assert(final(out)@ =~= old(out)@ + dec_digits(v as nat));
}

/// Appends `v` in decimal, with a leading `-` when negative.
pub fn write_int(out: &mut Vec<u8>, v: i64)
    ensures
        final(out)@ == old(out)@ + int_text(v as int),
{
    if v < 0 {
        out.push(45u8);
        let m: u64 = (-(v as i128)) as u64;
        write_digits(out, m);
        assert(final(out)@ =~= old(out)@ + int_text(v as int));
    } else {
        write_digits(out, v as u64);
    }
}

/// Appends the bytes of `lit`.
pub fn write_all(out: &mut Vec<u8>, lit: &[u8])
    ensures
        final(out)@ == old(out)@ + lit@,
{
    let mut i: usize = 0;
    while i < lit.len()
        invariant
            i <= lit@.len(),
            out@ == old(out)@ + lit@.take(i as int),
        decreases lit@.len() - i,
    {
        out.push(lit[i]);
        i = i + 1;
        assert(out@ =~= old(out)@ + lit@.take(i as int));
    }
    assert(lit@.take(i as int) =~= lit@);
}

pub fn hex_value_of(b: u8) -> (r: Option<u8>)
    ensures
        r matches Some(d) ==> d < 16 && hex_value(b) == Some(d as nat),
        r is None ==> hex_value(b) is None,
{
    if 48 <= b && b <= 57 {
        Some(b - 48)
    } else if 97 <= b && b <= 102 {
        Some(b - 87)
    } else if 65 <= b && b <= 70 {
        Some(b - 55)
    } else {
        None
    }
}

/// Reads the 32 hexadecimal digits of `s` from `start` on.
pub fn read_hex32(s: &[u8], start: usize) -> (r: Option<u128>)
    requires
        start + 32 <= s@.len(),
    ensures
        r == (match parse_hex(s@.subrange(start as int, start + 32)) {
            Some(v) => Some(v as u128),
            None => None::<u128>,
        }),
{
    let len = s.len();
    let mut acc: u128 = 0;
    let mut i: usize = 0;
    while i < 32
        invariant
            len == s@.len(),
            start + 32 <= s@.len(),
            i <= 32,
            parse_hex(s@.subrange(start as int, start + i)) == Some(acc as nat),
            (acc as nat) < pow16(i as nat),
        decreases 32 - i,
    {
        let sub = Ghost(s@.subrange(start as int, start + i + 1));
        assert(sub@.drop_last() =~= s@.subrange(start as int, start + i));
        match hex_value_of(s[start + i]) {
            Some(d) => {
                proof {
                    lemma_pow16_bound(i as nat);
                    lemma_pow16_le((i + 1) as nat, 32);
                    lemma_pow16_32();
                    assert((acc as nat) * 16 + (d as nat) < pow16((i + 1) as nat)) by (nonlinear_arith)
                        requires
                            (acc as nat) < pow16(i as nat),
                            (d as nat) < 16,
                            pow16((i + 1) as nat) == 16 * pow16(i as nat),
                    ;
                }
                acc = acc * 16 + d as u128;
                i = i + 1;
            },
            None => {
                proof {
                    lemma_parse_hex_none(s@.subrange(start as int, start + 32), (i + 1) as nat);
                    assert(s@.subrange(start as int, start + 32).take(i + 1) =~= sub@);
                }
                return None;
            },
        }
    }
    assert(s@.subrange(start as int, start + i) =~= s@.subrange(start as int, start + 32));
    Some(acc)
}

pub proof fn lemma_pow16_32()
    ensures
        pow16(32) == 0x1_0000_0000_0000_0000_0000_0000_0000_0000,
{
    reveal_with_fuel(pow16, 33);
}

proof fn lemma_pow16_le(i: nat, j: nat)
    requires
        i <= j,
    ensures
        pow16(i) <= pow16(j),
    decreases j - i,
{
    if i < j {
        lemma_pow16_le(i, (j - 1) as nat);
        lemma_pow16_bound((j - 1) as nat);
    }
}

proof fn lemma_pow16_bound(n: nat)
    ensures
        pow16(n + 1) == 16 * pow16(n),
        pow16(n) >= 1,
    decreases n,
{
    if n > 0 {
        lemma_pow16_bound((n - 1) as nat);
    }
}

/// A failure in a prefix is a failure of the whole.
proof fn lemma_parse_hex_none(s: Seq<u8>, k: nat)
    requires
        0 < k <= s.len(),
        parse_hex(s.take(k as int)) is None,
    ensures
        parse_hex(s) is None,
    decreases s.len() - k,
{
    if k < s.len() {
        assert(s.take((k + 1) as int).drop_last() =~= s.take(k as int));
        lemma_parse_hex_none(s, k + 1);
    } else {
        assert(s.take(k as int) =~= s);
    }
}

/// Hexadecimal digits read back as the value they were written from.
pub proof fn lemma_hex_round_trip(v: nat, n: nat)
    requires
        v < pow16(n),
    ensures
        parse_hex(hex_digits(v, n)) == Some(v),
        hex_digits(v, n).len() == n,
    decreases n,
{
    if n > 0 {
        let q = v / 16;
        assert(q < pow16((n - 1) as nat)) by (nonlinear_arith)
            requires
                v < pow16(n),
                pow16(n) == 16 * pow16((n - 1) as nat),
                q == v / 16,
        ;
        lemma_hex_round_trip(q, (n - 1) as nat);
        let s = hex_digits(v, n);
        assert(s.drop_last() =~= hex_digits(q, (n - 1) as nat));
        assert(hex_value(hex_byte(v % 16)) == Some(v % 16));
    }
}


/// Reads the decimal digits `s[from..end]`, where their value is at most `2^63`.
fn read_digits(s: &[u8], from: usize, end: usize) -> (r: Option<u64>)
    requires
        from <= end <= s@.len(),
    ensures
        r == (match parse_digits(s@.subrange(from as int, end as int)) {
            Some(m) => if m <= 0x8000_0000_0000_0000 {
                Some(m as u64)
            } else {
                None::<u64>
            },
            None => None::<u64>,
        }),
{
    let mut acc: u64 = 0;
    let mut i: usize = from;
    while i < end
        invariant
            from <= i <= end <= s@.len(),
            acc <= 0x8000_0000_0000_0000,
            parse_digits(s@.subrange(from as int, i as int)) == Some(acc as nat),
        decreases end - i,
    {
        let b = s[i];
        let ghost whole = s@.subrange(from as int, end as int);
        assert(s@.subrange(from as int, i + 1).drop_last() =~= s@.subrange(from as int, i as int));
        assert(whole.take(i + 1 - from) =~= s@.subrange(from as int, i + 1));
        if !(48 <= b && b <= 57) {
            proof {
                lemma_parse_digits_prefix(whole, (i + 1 - from) as nat);
            }
            return None;
        }
        if acc > 922_337_203_685_477_580 || (acc == 922_337_203_685_477_580 && b > 56) {
            proof {
                lemma_parse_digits_prefix(whole, (i + 1 - from) as nat);
            }
            return None;
        }
        acc = acc * 10 + (b - 48) as u64;
        i = i + 1;
    }
    Some(acc)
}

/// A value read from the whole is at least the value read from a prefix, and a
/// failure in a prefix is a failure of the whole.
proof fn lemma_parse_digits_prefix(s: Seq<u8>, k: nat)
    requires
        k <= s.len(),
    ensures
        parse_digits(s.take(k as int)) is None ==> parse_digits(s) is None,
        parse_digits(s) matches Some(m) ==> parse_digits(s.take(k as int)) matches Some(p) && p <= m,
    decreases s.len() - k,
{
    if k < s.len() {
        assert(s.take((k + 1) as int).drop_last() =~= s.take(k as int));
        lemma_parse_digits_prefix(s, k + 1);
    } else {
        assert(s.take(k as int) =~= s);
    }
}

/// Reads the decimal numeral `s[start..end]`, with an optional leading `-`.
pub fn read_int(s: &[u8], start: usize, end: usize) -> (r: Option<i64>)
    requires
        start <= end <= s@.len(),
    ensures
        r == parse_int(s@.subrange(start as int, end as int)),
{
    let ghost t = s@.subrange(start as int, end as int);
    let neg = start < end && s[start] == 45u8;
    let from = if neg { start + 1 } else { start };
    assert(neg ==> t.skip(1) =~= s@.subrange(from as int, end as int));
    assert(!neg ==> t =~= s@.subrange(from as int, end as int));
    if from == end {
        return None;
    }
    match read_digits(s, from, end) {
        Some(m) => {
            if neg {
                Some((-(m as i128)) as i64)
            } else if m <= 0x7fff_ffff_ffff_ffff {
                Some(m as i64)
            } else {
                None
            }
        },
        None => None,
    }
}

/// Decimal digits read back as the value they were written from.
pub proof fn lemma_digits_round_trip(v: nat)
    ensures
        parse_digits(dec_digits(v)) == Some(v),
        dec_digits(v).len() > 0,
        forall|i: int| 0 <= i < dec_digits(v).len() ==> is_digit(#[trigger] dec_digits(v)[i]),
    decreases v,
{
    if v >= 10 {
        lemma_digits_round_trip(v / 10);
        assert(dec_digits(v).drop_last() =~= dec_digits(v / 10));
        assert(dec_digits(v).last() == (48 + v % 10) as u8);
        assert((v / 10) * 10 + v % 10 == v);
        assert(is_digit(dec_digits(v).last()));
        assert(parse_digits(dec_digits(v)) == Some(((v / 10) * 10 + (dec_digits(v).last() - 48)) as nat));
    } else {
        assert(dec_digits(v).drop_last() =~= Seq::<u8>::empty());
        assert(dec_digits(v).last() == (48 + v) as u8);
        assert(parse_digits(Seq::<u8>::empty()) == Some(0nat));
        assert(parse_digits(dec_digits(v)) == Some((0 * 10 + (dec_digits(v).last() - 48)) as nat));
    }
}

/// A signed numeral read back as the value it was written from.
pub proof fn lemma_int_round_trip(v: i64)
    ensures
        parse_int(int_text(v as int)) == Some(v),
        int_text(v as int).len() > 0,
        forall|i: int| 0 <= i < int_text(v as int).len() ==>
            is_digit(#[trigger] int_text(v as int)[i]) || int_text(v as int)[i] == 45u8,
{
    if v < 0 {
        let m = (-v) as nat;
        lemma_digits_round_trip(m);
        let t = int_text(v as int);
        assert(t.skip(1) =~= dec_digits(m));
        assert forall|i: int| 0 <= i < t.len() implies is_digit(#[trigger] t[i]) || t[i] == 45u8 by {
            if i > 0 {
                assert(t[i] == dec_digits(m)[i - 1]);
            }
        }
    } else {
        lemma_digits_round_trip(v as nat);
        assert(is_digit(dec_digits(v as nat)[0]));
    }
}

/// Turns ASCII bytes into text, one character per byte.
pub fn ascii_text(b: &Vec<u8>) -> (r: String)
    ensures
        r@ == b@.map_values(|x: u8| x as char),
{
    let mut out = String::new();
    let mut i: usize = 0;
    while i < b.len()
        invariant
            i <= b@.len(),
            out@ =~= b@.take(i as int).map_values(|x: u8| x as char),
        decreases b@.len() - i,
    {
        push_char(&mut out, b[i] as char);
        i = i + 1;
        assert(out@ =~= b@.take(i as int).map_values(|x: u8| x as char));
    }
    assert(b@.take(i as int) =~= b@);
    out
}

} // verus!
