//! Canonical byte encodings.
//!
//! The signable form of every protocol object is a JSON text rendered to
//! bytes.  So that a signer and a verifier on different machines produce the
//! same bytes, the encoding is pinned down here once, as spec functions, and
//! the executable encoders are proved to match them: decimal numerals with no
//! sign for unsigned fields and a leading `-` for negative ones, JSON strings
//! with the mandatory escapes (`"`, `\`, and control bytes as `\u00XX`), and
//! all other UTF-8 bytes passed through unchanged.

use vstd::prelude::*;

verus! {

/// The decimal numeral of `n`, as ASCII bytes, most significant digit first.
pub open spec fn dec_bytes(n: nat) -> Seq<u8>
    decreases n,
{
    if n < 10 {
        seq![(48 + n) as u8]
    } else {
        dec_bytes(n / 10) + seq![(48 + n % 10) as u8]
    }
}

/// The decimal numeral of a signed value: a `-` sign, then the magnitude.
pub open spec fn dec_bytes_signed(n: int) -> Seq<u8> {
    if n < 0 {
        seq![45u8] + dec_bytes((-n) as nat)
    } else {
        dec_bytes(n as nat)
    }
}

/// Append the decimal numeral of `n` to `out`.
pub fn push_dec_u128(out: &mut Vec<u8>, n: u128)
    ensures
        final(out)@ == old(out)@ + dec_bytes(n as nat),
    decreases n,
{
    if n < 10 {
        out.push(48 + n as u8);
        assert(out@ =~= old(out)@ + dec_bytes(n as nat));
    } else {
        push_dec_u128(out, n / 10);
        out.push(48 + (n % 10) as u8);
        assert(out@ =~= old(out)@ + dec_bytes(n as nat));
    }
}

/// Append the decimal numeral of `n` to `out`.
pub fn push_dec_u64(out: &mut Vec<u8>, n: u64)
    ensures
        final(out)@ == old(out)@ + dec_bytes(n as nat),
{
    push_dec_u128(out, n as u128);
}

/// Append the decimal numeral of the signed value `n` to `out`.
pub fn push_dec_i64(out: &mut Vec<u8>, n: i64)
    ensures
        final(out)@ == old(out)@ + dec_bytes_signed(n as int),
{
    if n < 0 {
        out.push(45);
        // Magnitude without overflow even for the smallest value.
        let m: u64 = ((-(n + 1)) as u64) + 1;
        assert(m == -(n as int));
        push_dec_u128(out, m as u128);
        assert(out@ =~= old(out)@ + dec_bytes_signed(n as int));
    } else {
        push_dec_u128(out, n as u128);
    }
}

/// The lowercase hex digit for a value below 16, as an ASCII byte.
pub open spec fn hex_digit(d: nat) -> u8 {
    if d < 10 {
        (48 + d) as u8
    } else {
        (87 + d) as u8
    }
}

/// JSON escape of one byte of UTF-8 text.  Bytes that are part of multi-byte
/// sequences (`>= 0x80`) never coincide with ASCII specials and pass through.
pub open spec fn escaped_byte(b: u8) -> Seq<u8> {
    if b == 34 {
        seq![92u8, 34u8]
    } else if b == 92 {
        seq![92u8, 92u8]
    } else if b < 32 {
        seq![92u8, 117u8, 48u8, 48u8, hex_digit((b / 16) as nat), hex_digit((b % 16) as nat)]
    } else {
        seq![b]
    }
}

/// JSON escape of a byte string, byte by byte.
pub open spec fn escaped(s: Seq<u8>) -> Seq<u8>
    decreases s.len(),
{
    if s.len() == 0 {
        Seq::empty()
    } else {
        escaped(s.drop_last()) + escaped_byte(s.last())
    }
}

/// Append the JSON escape of `s` to `out`.
pub fn push_escaped(out: &mut Vec<u8>, s: &[u8])
    ensures
        final(out)@ == old(out)@ + escaped(s@),
{
    let ghost base = out@;
    for i in 0..s.len()
        invariant
            out@ == base + escaped(s@.take(i as int)),
    {
        let b: u8 = s[i];
        if b == 34 {
            out.push(92);
            out.push(34);
        } else if b == 92 {
            out.push(92);
            out.push(92);
        } else if b < 32 {
            out.push(92);
            out.push(117);
            out.push(48);
            out.push(48);
            let hi: u8 = b / 16;
            let lo: u8 = b % 16;
            out.push(if hi < 10 { 48 + hi } else { 87 + hi });
            out.push(if lo < 10 { 48 + lo } else { 87 + lo });
        } else {
            out.push(b);
        }
        assert(s@.take(i + 1).drop_last() =~= s@.take(i as int));
        assert(s@.take(i + 1).last() == b);
        assert(out@ =~= base + escaped(s@.take(i + 1)));
    }
    assert(s@.take(s@.len() as int) =~= s@);
}

/// The little-endian bytes of `n`, `len` bytes long.
pub open spec fn le_bytes(n: nat, len: nat) -> Seq<u8>
    decreases len,
{
    if len == 0 {
        Seq::empty()
    } else {
        seq![(n % 256) as u8] + le_bytes(n / 256, (len - 1) as nat)
    }
}

/// Append the 8 little-endian bytes of `n` to `out`.
pub fn push_le_u64(out: &mut Vec<u8>, n: u64)
    ensures
        final(out)@ == old(out)@ + le_bytes(n as nat, 8),
{
    let mut v: u64 = n;
    let ghost base = out@;
    proof {
        vstd::arithmetic::power::lemma_pow0(256);
    }
    for i in 0..8usize
        invariant
            v as int == n as int / vstd::arithmetic::power::pow(256, i as nat),
            out@ == base + le_bytes(n as nat, i as nat),
    {
        proof {
            vstd::arithmetic::power::lemma_pow_adds(256, i as nat, 1);
            vstd::arithmetic::power::lemma_pow_positive(256, i as nat);
            vstd::arithmetic::power::lemma_pow1(256);
            vstd::arithmetic::div_mod::lemma_div_denominator(
                n as int,
                vstd::arithmetic::power::pow(256, i as nat) as int,
                256,
            );
        }
        out.push((v % 256) as u8);
        v = v / 256;
        proof {
            lemma_le_bytes_snoc(n as nat, i as nat);
        }
    }
    proof {
        lemma_le_bytes_full(n as nat);
    }
}

/// The big-endian bytes of `n`, `len` bytes long.
pub open spec fn be_bytes(n: nat, len: nat) -> Seq<u8>
    decreases len,
{
    if len == 0 {
        Seq::empty()
    } else {
        be_bytes(n / 256, (len - 1) as nat) + seq![(n % 256) as u8]
    }
}

/// Append the 8 big-endian bytes of `n` to `out`.
pub fn push_be_u64(out: &mut Vec<u8>, n: u64)
    ensures
        final(out)@ == old(out)@ + be_bytes(n as nat, 8),
{
    let mut tmp: Vec<u8> = Vec::new();
    push_le_u64(&mut tmp, n);
    let ghost base = out@;
    let mut i: usize = 8;
    while i > 0
        invariant
            tmp@ == le_bytes(n as nat, 8),
            i <= 8,
            out@ == base + le_rev_suffix(n as nat, i as nat),
        decreases i,
    {
        i = i - 1;
        proof {
            lemma_le_bytes_index(n as nat, 8, i as nat);
            lemma_le_rev_suffix_step(n as nat, i as nat);
        }
        out.push(tmp[i]);
        assert(out@ =~= base + le_rev_suffix(n as nat, i as nat));
    }
    proof {
        lemma_le_rev_suffix_zero(n as nat);
    }
}

/// The last `8 - i` little-endian bytes of `n`, reversed.
pub open spec fn le_rev_suffix(n: nat, i: nat) -> Seq<u8>
    recommends
        i <= 8,
{
    Seq::new((8 - i) as nat, |j: int| le_bytes(n, 8)[7 - j])
}

proof fn lemma_le_bytes_len(n: nat, len: nat)
    ensures
        le_bytes(n, len).len() == len,
    decreases len,
{
    if len > 0 {
        lemma_le_bytes_len(n / 256, (len - 1) as nat);
    }
}

proof fn lemma_le_bytes_index(n: nat, len: nat, i: nat)
    requires
        i < len,
    ensures
        le_bytes(n, len).len() == len,
        le_bytes(n, len)[i as int] == ((n as int / vstd::arithmetic::power::pow(256, i)) % 256) as u8,
    decreases i,
{
    lemma_le_bytes_len(n, len);
    if i == 0 {
        vstd::arithmetic::power::lemma_pow0(256);
    } else {
        lemma_le_bytes_index(n / 256, (len - 1) as nat, (i - 1) as nat);
        lemma_le_bytes_len(n / 256, (len - 1) as nat);
        assert(le_bytes(n, len)[i as int] == le_bytes(n / 256, (len - 1) as nat)[i - 1]);
        vstd::arithmetic::power::lemma_pow_adds(256, 1, (i - 1) as nat);
        vstd::arithmetic::power::lemma_pow1(256);
        vstd::arithmetic::power::lemma_pow_positive(256, (i - 1) as nat);
        vstd::arithmetic::div_mod::lemma_div_denominator(
            n as int,
            256,
            vstd::arithmetic::power::pow(256, (i - 1) as nat) as int,
        );
    }
}

proof fn lemma_le_bytes_snoc(n: nat, i: nat)
    requires
        i < 8,
    ensures
        le_bytes(n, (i + 1) as nat) == le_bytes(n, i) + seq![
            ((n as int / vstd::arithmetic::power::pow(256, i)) % 256) as u8,
        ],
    decreases i,
{
    if i == 0 {
        vstd::arithmetic::power::lemma_pow0(256);
        assert(le_bytes((n / 256) as nat, 0) =~= Seq::<u8>::empty());
        assert(le_bytes(n, 0) =~= Seq::<u8>::empty());
        assert(le_bytes(n, 1) =~= le_bytes(n, 0) + seq![(n % 256) as u8]);
    } else {
        lemma_le_bytes_snoc(n / 256, (i - 1) as nat);
        vstd::arithmetic::power::lemma_pow_adds(256, 1, (i - 1) as nat);
        vstd::arithmetic::power::lemma_pow1(256);
        vstd::arithmetic::power::lemma_pow_positive(256, (i - 1) as nat);
        vstd::arithmetic::div_mod::lemma_div_denominator(
            n as int,
            256,
            vstd::arithmetic::power::pow(256, (i - 1) as nat) as int,
        );
        assert(le_bytes(n, (i + 1) as nat) =~= le_bytes(n, i) + seq![
            ((n as int / vstd::arithmetic::power::pow(256, i)) % 256) as u8,
        ]);
    }
}

proof fn lemma_le_bytes_full(n: nat)
    requires
        n < 0x1_0000_0000_0000_0000,
    ensures
        forall|i: nat| i <= 8 ==> #[trigger] le_bytes(n, i) == le_bytes(n as nat, 8).take(i as int),
{
    assert forall|i: nat| i <= 8 implies #[trigger] le_bytes(n, i) == le_bytes(n as nat, 8).take(
        i as int,
    ) by {
        lemma_le_bytes_take(n, 8, i);
    }
}

proof fn lemma_le_bytes_take(n: nat, len: nat, i: nat)
    requires
        i <= len,
    ensures
        le_bytes(n, i) == le_bytes(n, len).take(i as int),
    decreases i,
{
    lemma_le_bytes_len(n, len);
    lemma_le_bytes_len(n, i);
    assert forall|j: int| 0 <= j < i implies le_bytes(n, i)[j] == le_bytes(n, len)[j] by {
        lemma_le_bytes_index(n, i, j as nat);
        lemma_le_bytes_index(n, len, j as nat);
    }
    assert(le_bytes(n, i) =~= le_bytes(n, len).take(i as int));
}

proof fn lemma_le_rev_suffix_step(n: nat, i: nat)
    requires
        i < 8,
    ensures
        le_rev_suffix(n, i) == le_rev_suffix(n, (i + 1) as nat) + seq![le_bytes(n, 8)[i as int]],
{
    assert(le_rev_suffix(n, i) =~= le_rev_suffix(n, (i + 1) as nat) + seq![
        le_bytes(n, 8)[i as int],
    ]);
}

proof fn lemma_le_rev_is_be(n: nat, len: nat)
    ensures
        Seq::new(len, |j: int| le_bytes(n, len)[len - 1 - j]) == be_bytes(n, len),
    decreases len,
{
    lemma_le_bytes_len(n, len);
    if len == 0 {
        assert(Seq::new(0, |j: int| le_bytes(n, 0)[0 - 1 - j]) =~= be_bytes(n, 0));
    } else {
        lemma_le_rev_is_be(n / 256, (len - 1) as nat);
        lemma_le_bytes_len(n / 256, (len - 1) as nat);
        assert forall|j: int| 0 <= j < len - 1 implies #[trigger] le_bytes(n, len)[len - 1 - j]
            == le_bytes(n / 256, (len - 1) as nat)[len - 2 - j] by {
            assert(le_bytes(n, len)[len - 1 - j] == le_bytes(n / 256, (len - 1) as nat)[len - 2
                - j]);
        }
        assert(Seq::new(len, |j: int| le_bytes(n, len)[len - 1 - j]) =~= be_bytes(n, len));
    }
}

/// The reverse direction of `le_rev_suffix` at 8: the full big-endian form.
proof fn lemma_le_rev_suffix_zero(n: nat)
    ensures
        le_rev_suffix(n, 0) == be_bytes(n, 8),
{
    lemma_le_rev_is_be(n, 8);
    assert(le_rev_suffix(n, 0) =~= Seq::new(8, |j: int| le_bytes(n, 8)[8 - 1 - j]));
}


/// The value a big-endian byte string denotes.
pub open spec fn be_value(s: Seq<u8>) -> int
    decreases s.len(),
{
    if s.len() == 0 {
        0
    } else {
        be_value(s.drop_last()) * 256 + s.last()
    }
}

/// A big-endian byte string denotes a value below `256^len`.
pub proof fn lemma_be_value_bound(s: Seq<u8>)
    ensures
        0 <= be_value(s) < vstd::arithmetic::power::pow(256, s.len()),
    decreases s.len(),
{
    if s.len() == 0 {
        vstd::arithmetic::power::lemma_pow0(256);
    } else {
        lemma_be_value_bound(s.drop_last());
        vstd::arithmetic::power::lemma_pow_adds(256, (s.len() - 1) as nat, 1);
        vstd::arithmetic::power::lemma_pow1(256);
        let p = vstd::arithmetic::power::pow(256, (s.len() - 1) as nat);
        assert(be_value(s.drop_last()) * 256 <= (p - 1) * 256) by (nonlinear_arith)
            requires
                be_value(s.drop_last()) <= p - 1,
        ;
        assert(be_value(s.drop_last()) * 256 >= 0) by (nonlinear_arith)
            requires
                be_value(s.drop_last()) >= 0,
        ;
    }
}

/// Big-endian byte strings have their stated length.
pub proof fn lemma_be_bytes_len(n: nat, len: nat)
    ensures
        be_bytes(n, len).len() == len,
    decreases len,
{
    if len > 0 {
        lemma_be_bytes_len(n / 256, (len - 1) as nat);
    }
}

/// Reading back the big-endian bytes of `n` yields `n`.
pub proof fn lemma_be_value_of_bytes(n: nat, len: nat)
    requires
        n < vstd::arithmetic::power::pow(256, len),
    ensures
        be_bytes(n, len).len() == len,
        be_value(be_bytes(n, len)) == n,
    decreases len,
{
    if len == 0 {
        vstd::arithmetic::power::lemma_pow0(256);
    } else {
        vstd::arithmetic::power::lemma_pow_adds(256, (len - 1) as nat, 1);
        vstd::arithmetic::power::lemma_pow1(256);
        let p = vstd::arithmetic::power::pow(256, (len - 1) as nat);
        assert(n / 256 < p) by (nonlinear_arith)
            requires
                0 <= n < p * 256,
        ;
        lemma_be_value_of_bytes(n / 256, (len - 1) as nat);
        let s = be_bytes(n, len);
        assert(s =~= be_bytes(n / 256, (len - 1) as nat) + seq![(n % 256) as u8]);
        assert(s.drop_last() =~= be_bytes(n / 256, (len - 1) as nat));
        assert(be_value(s) == (n / 256) * 256 + n % 256);
        assert((n / 256) * 256 + n % 256 == n) by {
            vstd::arithmetic::div_mod::lemma_fundamental_div_mod(n as int, 256);
        }
    }
}

/// The bytes of the value a byte string denotes are the string itself.
pub proof fn lemma_be_bytes_of_value(s: Seq<u8>)
    ensures
        be_bytes(be_value(s) as nat, s.len()) == s,
    decreases s.len(),
{
    lemma_be_value_bound(s);
    if s.len() > 0 {
        lemma_be_bytes_of_value(s.drop_last());
        lemma_be_value_bound(s.drop_last());
        let v = be_value(s);
        assert(v == be_value(s.drop_last()) * 256 + s.last());
        assert(v / 256 == be_value(s.drop_last()) && v % 256 == s.last()) by {
            vstd::arithmetic::div_mod::lemma_fundamental_div_mod_converse(
                v,
                256,
                be_value(s.drop_last()),
                s.last() as int,
            );
        }
        assert(be_bytes(v as nat, s.len()) =~= be_bytes((v as nat) / 256, (s.len() - 1) as nat)
            + seq![((v as nat) % 256) as u8]);
        assert(be_bytes(v as nat, s.len()) =~= s);
    } else {
        assert(be_bytes(0, 0) =~= s);
    }
}

/// `256^8` written out.
pub proof fn lemma_pow256_8()
    ensures
        vstd::arithmetic::power::pow(256, 8) == 0x1_0000_0000_0000_0000,
{
    reveal_with_fuel(vstd::arithmetic::power::pow, 9);
}

/// Read 8 big-endian bytes starting at `*pos`; the bytes read are exactly
/// the big-endian form of the result.
pub fn read_be_u64(buf: &Vec<u8>, pos: &mut usize) -> (r: Option<u64>)
    ensures
        *old(pos) + 8 <= buf@.len() ==> (r matches Some(v) && *final(pos) == *old(pos) + 8
            && be_bytes(v as nat, 8) == buf@.subrange(*old(pos) as int, *old(pos) + 8)
            && v as int == be_value(buf@.subrange(*old(pos) as int, *old(pos) + 8))),
        *old(pos) + 8 > buf@.len() ==> r is None && *final(pos) == *old(pos),
{
    let blen: usize = buf.len();
    if blen < 8 || *pos > blen - 8 {
        return None;
    }
    let start: usize = *pos;
    let mut acc: u64 = 0;
    let mut i: usize = 0;
    while i < 8
        invariant
            blen == buf@.len(),
            start + 8 <= blen,
            i <= 8,
            acc as int == be_value(buf@.subrange(start as int, start + i)),
        decreases 8 - i,
    {
        proof {
            lemma_be_value_bound(buf@.subrange(start as int, start + i));
            vstd::arithmetic::power::lemma_pow_adds(256, i as nat, (8 - i) as nat);
            vstd::arithmetic::power::lemma_pow_positive(256, (8 - i) as nat);
            lemma_pow256_8();
            let p = vstd::arithmetic::power::pow(256, i as nat);
            let q = vstd::arithmetic::power::pow(256, (8 - i) as nat);
            assert(q >= 256) by {
                vstd::arithmetic::power::lemma_pow_increases(256, 1, (8 - i) as nat);
                vstd::arithmetic::power::lemma_pow1(256);
            }
            assert(p * 256 <= p * q) by (nonlinear_arith)
                requires
                    q >= 256,
                    p >= 1,
            ;
            assert((acc as int) * 256 + 255 < p * 256) by (nonlinear_arith)
                requires
                    acc as int <= p - 1,
                    p >= 1,
            ;
        }
        let idx: usize = start + i;
        let b: u8 = buf[idx];
        acc = acc * 256 + b as u64;
        i = i + 1;
        proof {
            let sub = buf@.subrange(start as int, start + i);
            assert(sub.drop_last() =~= buf@.subrange(start as int, start + i - 1));
            assert(sub.last() == b);
        }
    }
    *pos = start + 8;
    proof {
        lemma_be_bytes_of_value(buf@.subrange(start as int, start as int + 8));
    }
    Some(acc)
}

} // verus!
