//! The mathematical model of the wire formats, and the conversions between
//! integers and their byte encodings.

use vstd::prelude::*;
use vstd::arithmetic::div_mod::{lemma_add_mod_noop, lemma_add_mod_noop_right, lemma_mul_mod_noop_right, lemma_mul_mod_noop_left};

verus! {

/// The number of values that `n` bytes can hold: 256 to the power `n`.
pub open spec fn byte_limit(n: nat) -> nat
    decreases n,
{
    if n == 0 {
        1
    } else {
        256 * byte_limit((n - 1) as nat)
    }
}

/// The `n` big-endian bytes of `v`: the most significant byte first. Digits
/// of `v` above the `n`-th are dropped.
pub open spec fn be_bytes(v: nat, n: nat) -> Seq<u8>
    decreases n,
{
    if n == 0 {
        Seq::empty()
    } else {
        be_bytes(v / 256, (n - 1) as nat).push((v % 256) as u8)
    }
}

/// The number that the bytes of `s` spell in big-endian order.
pub open spec fn be_value(s: Seq<u8>) -> nat
    decreases s.len(),
{
    if s.len() == 0 {
        0
    } else {
        be_value(s.drop_last()) * 256 + s.last() as nat
    }
}

/// The two's-complement reading of `u` in a word of `modulus` values.
pub open spec fn signed_of(u: int, modulus: int) -> int {
    if 2 * u >= modulus {
        u - modulus
    } else {
        u
    }
}

/// The unsigned word that stands for `v` in two's complement.
pub open spec fn unsigned_of(v: int, modulus: int) -> int {
    v % modulus
}

/// The number of values of a 16-bit word.
pub open spec fn limit16() -> int {
    0x1_0000
}

/// The number of values of a 32-bit word.
pub open spec fn limit32() -> int {
    0x1_0000_0000
}

/// The number of values of a 64-bit word.
pub open spec fn limit64() -> int {
    0x1_0000_0000_0000_0000
}

/// `byte_limit` for each width up to eight bytes.
pub proof fn lemma_byte_limit_values()
    ensures
        byte_limit(0) == 1,
        byte_limit(1) == 0x100,
        byte_limit(2) == 0x1_0000,
        byte_limit(3) == 0x100_0000,
        byte_limit(4) == 0x1_0000_0000,
        byte_limit(5) == 0x100_0000_0000,
        byte_limit(6) == 0x1_0000_0000_0000,
        byte_limit(7) == 0x100_0000_0000_0000,
        byte_limit(8) == 0x1_0000_0000_0000_0000,
{
    reveal_with_fuel(byte_limit, 9);
}

/// `be_bytes(v, n)` has exactly `n` bytes.
pub proof fn lemma_be_bytes_len(v: nat, n: nat)
    ensures
        be_bytes(v, n).len() == n,
    decreases n,
{
    if n > 0 {
        lemma_be_bytes_len(v / 256, (n - 1) as nat);
    }
}

/// The value of `n` bytes is below `byte_limit(n)`.
pub proof fn lemma_be_value_bound(s: Seq<u8>)
    ensures
        be_value(s) < byte_limit(s.len()),
    decreases s.len(),
{
    if s.len() > 0 {
        lemma_be_value_bound(s.drop_last());
    }
}

/// Decoding undoes encoding: a number that fits in `n` bytes is read back
/// unchanged from its `n` big-endian bytes.
pub proof fn lemma_be_round_trip(v: nat, n: nat)
    requires
        v < byte_limit(n),
    ensures
        be_value(be_bytes(v, n)) == v,
        be_bytes(v, n).len() == n,
    decreases n,
{
    lemma_be_bytes_len(v, n);
    if n > 0 {
        let rest = be_bytes(v / 256, (n - 1) as nat);
        lemma_be_round_trip(v / 256, (n - 1) as nat);
        assert(be_bytes(v, n).drop_last() =~= rest);
    }
}

/// Encoding undoes decoding: the big-endian bytes of the value of `s` are `s`.
pub proof fn lemma_be_bytes_of_value(s: Seq<u8>)
    ensures
        be_bytes(be_value(s), s.len()) == s,
    decreases s.len(),
{
    if s.len() > 0 {
        lemma_be_bytes_of_value(s.drop_last());
        assert(be_bytes(be_value(s), s.len()) =~= s);
    }
}

/// Two's complement round trip: a value in the signed range of a word comes
/// back from its unsigned form.
pub proof fn lemma_signed_round_trip(v: int, modulus: int)
    requires
        modulus > 0,
        modulus % 2 == 0,
        -(modulus / 2) <= v < modulus / 2,
    ensures
        0 <= unsigned_of(v, modulus) < modulus,
        signed_of(unsigned_of(v, modulus), modulus) == v,
{
    if v >= 0 {
        vstd::arithmetic::div_mod::lemma_small_mod(v as nat, modulus as nat);
    } else {
        vstd::arithmetic::div_mod::lemma_small_mod((v + modulus) as nat, modulus as nat);
        vstd::arithmetic::div_mod::lemma_mod_add_multiples_vanish(v, modulus);
    }
}

/// The big-endian bytes of `v`, `n` of them.
pub fn encode_be(v: u64, n: usize) -> (out: Vec<u8>)
    requires
        n <= 8,
    ensures
        out@ == be_bytes(v as nat, n as nat),
        out@.len() == n,
{
    let mut out: Vec<u8> = vec![0u8; n];
    let mut rem: u64 = v;
    let mut i: usize = n;
    while i > 0
        invariant
            i <= n,
            out@.len() == n,
            be_bytes(v as nat, n as nat) == be_bytes(rem as nat, i as nat) + out@.subrange(
                i as int,
                n as int,
            ),
        decreases i,
    {
        let ghost before = out@;
        let low: u8 = (rem % 256) as u8;
        i = i - 1;
        out.set(i, low);
        proof {
            assert(be_bytes(rem as nat, (i + 1) as nat) == be_bytes(
                rem as nat / 256,
                i as nat,
            ).push(low));
            assert(out@.subrange(i as int, n as int) =~= seq![low] + before.subrange(
                i + 1,
                n as int,
            ));
            assert(be_bytes(rem as nat / 256, i as nat).push(low) + before.subrange(i + 1, n as int)
                =~= be_bytes(rem as nat / 256, i as nat) + out@.subrange(i as int, n as int));
        }
        rem = rem / 256;
    }
    proof {
        assert(be_bytes(rem as nat, 0) + out@.subrange(0, n as int) =~= out@);
        lemma_be_bytes_len(v as nat, n as nat);
    }
    out
}

/// The number spelled in big-endian order by the `n` bytes of `bytes` from
/// index `start` on.
pub fn decode_be(bytes: &Vec<u8>, start: usize, n: usize) -> (v: u64)
    requires
        n <= 8,
        start + n <= bytes@.len(),
    ensures
        v as nat == be_value(bytes@.subrange(start as int, start + n)),
{
    let total: usize = bytes.len();
    let mut acc: u64 = 0;
    let mut i: usize = 0;
    while i < n
        invariant
            i <= n <= 8,
            start + n <= bytes@.len(),
            bytes@.len() == total,
            acc as nat == be_value(bytes@.subrange(start as int, start + i)),
        decreases n - i,
    {
        let b: u8 = bytes[start + i];
        proof {
            let prefix = bytes@.subrange(start as int, start + i);
            let next = bytes@.subrange(start as int, start + i + 1);
            lemma_be_value_bound(prefix);
            lemma_byte_limit_values();
            lemma_byte_limit_monotone(i as nat, 7);
            assert(next.drop_last() =~= prefix);
            assert(next.last() == b);
        }
        acc = acc * 256 + b as u64;
        i = i + 1;
    }
    acc
}

/// `byte_limit` grows with the number of bytes.
pub proof fn lemma_byte_limit_monotone(a: nat, b: nat)
    requires
        a <= b,
    ensures
        byte_limit(a) <= byte_limit(b),
    decreases b,
{
    if a < b {
        lemma_byte_limit_monotone(a, (b - 1) as nat);
    }
}

/// Whether `modulus` is the number of values of an 8, 16, 32 or 64 bit word.
pub open spec fn is_word_modulus(modulus: int) -> bool {
    modulus == 0x100 || modulus == limit16() || modulus == limit32() || modulus == limit64()
}

/// The unsigned word that stands for `v` in two's complement.
pub fn wrap_unsigned(v: i64, modulus: u128) -> (u: u64)
    requires
        is_word_modulus(modulus as int),
        -(modulus / 2) <= v < modulus / 2,
    ensures
        u as int == unsigned_of(v as int, modulus as int),
        (u as int) < modulus,
{
    proof {
        lemma_signed_round_trip(v as int, modulus as int);
    }
    if v >= 0 {
        proof {
            vstd::arithmetic::div_mod::lemma_small_mod(v as nat, modulus as nat);
        }
        v as u64
    } else {
        proof {
            vstd::arithmetic::div_mod::lemma_small_mod((v + modulus) as nat, modulus as nat);
            vstd::arithmetic::div_mod::lemma_mod_add_multiples_vanish(v as int, modulus as int);
        }
        let wide: i128 = v as i128 + modulus as i128;
        wide as u64
    }
}

/// The two's-complement reading of the word `u`.
pub fn wrap_signed(u: u64, modulus: u128) -> (v: i64)
    requires
        is_word_modulus(modulus as int),
        (u as int) < modulus,
    ensures
        v as int == signed_of(u as int, modulus as int),
        -(modulus / 2) <= v < modulus / 2,
{
    if u as u128 >= modulus / 2 {
        let wide: i128 = u as i128 - modulus as i128;
        wide as i64
    } else {
        u as i64
    }
}

/// Whether `field` is a number of values that this library cuts numbers
/// down to: a power of two that divides the 64-bit word.
pub open spec fn is_field_modulus(field: int) -> bool {
    field == 0x100 || field == 0x1000 || field == limit16() || field == 0x400_0000 || field
        == limit32()
}

/// Reducing a 64-bit two's-complement word to a field gives what reducing
/// the number itself gives.
pub proof fn lemma_mod_of_word(v: int, field: int)
    requires
        is_field_modulus(field),
    ensures
        unsigned_of(v, limit64()) % field == v % field,
{
    let cofactor: int = if field == 0x100 {
        0x100_0000_0000_0000
    } else if field == 0x1000 {
        0x10_0000_0000_0000
    } else if field == limit16() {
        0x1_0000_0000_0000
    } else if field == 0x400_0000 {
        0x40_0000_0000
    } else {
        0x1_0000_0000
    };
    assert(field * cofactor == limit64());
    vstd::arithmetic::div_mod::lemma_mod_mod(v, field, cofactor);
}

/// The low bits of `v` in two's complement: `v` reduced to a field of
/// `field` values.
pub fn truncate(v: i64, field: u64) -> (u: u64)
    requires
        is_field_modulus(field as int),
    ensures
        u as int == unsigned_of(v as int, field as int),
        u < field,
{
    proof {
        lemma_mod_of_word(v as int, field as int);
    }
    wrap_unsigned(v, 0x1_0000_0000_0000_0000) % field
}

/// The base-128 encoding of `v`: seven bits to a byte, the lowest group
/// first, the high bit set on every byte but the last.
pub open spec fn var_bytes(v: nat) -> Seq<u8>
    decreases v,
{
    if v < 128 {
        seq![v as u8]
    } else {
        seq![(v % 128 + 128) as u8] + var_bytes(v / 128)
    }
}

/// Whether `s` starts with a whole base-128 number: some byte has its high
/// bit clear.
pub open spec fn var_complete(s: Seq<u8>) -> bool
    decreases s.len(),
{
    s.len() > 0 && (s[0] < 128 || var_complete(s.drop_first()))
}

/// The number of bytes up to and including the first one with its high bit
/// clear (the length of `s` if there is none).
pub open spec fn var_len(s: Seq<u8>) -> nat
    decreases s.len(),
{
    if s.len() == 0 {
        0
    } else if s[0] < 128 {
        1
    } else {
        1 + var_len(s.drop_first())
    }
}

/// The number that the leading base-128 groups of `s` spell, each group
/// seven bits above the one before. It is not reduced to any word size.
pub open spec fn var_value(s: Seq<u8>) -> nat
    decreases s.len(),
{
    if s.len() == 0 {
        0
    } else if s[0] < 128 {
        s[0] as nat
    } else {
        (s[0] - 128) as nat + 128 * var_value(s.drop_first())
    }
}

/// A base-128 number is no longer than the bytes it is read from, and a
/// whole one has at least one byte.
pub proof fn lemma_var_len_bound(s: Seq<u8>)
    ensures
        var_len(s) <= s.len(),
        var_complete(s) ==> var_len(s) >= 1,
    decreases s.len(),
{
    if s.len() > 0 && s[0] >= 128 {
        lemma_var_len_bound(s.drop_first());
    }
}

/// The number of values that `k` base-128 groups can hold.
pub open spec fn group_limit(k: nat) -> nat
    decreases k,
{
    if k == 0 {
        1
    } else {
        128 * group_limit((k - 1) as nat)
    }
}

/// A number below `group_limit(k)` takes between one and `k` bytes.
pub proof fn lemma_var_bytes_len(v: nat, k: nat)
    requires
        k >= 1,
        v < group_limit(k),
    ensures
        1 <= var_bytes(v).len() <= k,
    decreases k,
{
    reveal_with_fuel(group_limit, 2);
    if v >= 128 {
        lemma_var_bytes_len(v / 128, (k - 1) as nat);
    }
}

/// A 32-bit word takes at most five bytes, a 64-bit word at most ten.
pub proof fn lemma_var_bytes_len_word(v: nat)
    ensures
        v < limit32() ==> 1 <= var_bytes(v).len() <= 5,
        v < limit64() ==> 1 <= var_bytes(v).len() <= 10,
{
    reveal_with_fuel(group_limit, 11);
    assert(group_limit(5) == 0x8_0000_0000);
    assert(group_limit(10) == 0x40_0000_0000_0000_0000);
    if v < limit32() {
        lemma_var_bytes_len(v, 5);
    }
    if v < limit64() {
        lemma_var_bytes_len(v, 10);
    }
}

/// Decoding undoes encoding, whatever follows the encoded number: the
/// encoding of `v` is whole, as long as itself, and spells `v`.
pub proof fn lemma_var_round_trip(v: nat, rest: Seq<u8>)
    ensures
        var_complete(var_bytes(v) + rest),
        var_len(var_bytes(v) + rest) == var_bytes(v).len(),
        var_value(var_bytes(v) + rest) == v,
    decreases v,
{
    let s = var_bytes(v) + rest;
    if v >= 128 {
        lemma_var_round_trip(v / 128, rest);
        assert(s.drop_first() =~= var_bytes(v / 128) + rest);
        assert(s[0] == (v % 128 + 128) as u8);
    } else {
        assert(s[0] == v as u8);
    }
}

/// The base-128 encoding of `v`.
pub fn encode_var(v: u64) -> (out: Vec<u8>)
    ensures
        out@ == var_bytes(v as nat),
{
    let mut out: Vec<u8> = Vec::new();
    let mut rem: u64 = v;
    loop
        invariant_except_break
            var_bytes(v as nat) == out@ + var_bytes(rem as nat),
        ensures
            out@ == var_bytes(v as nat),
        decreases rem,
    {
        let low: u8 = (rem % 128) as u8;
        let ghost before = out@;
        if rem >= 128 {
            out.push(low + 128);
            proof {
                assert(before + (seq![(low + 128) as u8] + var_bytes(rem as nat / 128)) =~= out@
                    + var_bytes(rem as nat / 128));
            }
            rem = rem / 128;
        } else {
            out.push(low);
            proof {
                assert(before + seq![low] =~= out@);
            }
            break ;
        }
    }
    out
}

/// One step of reading base-128 groups: taking the group `g` out of the
/// value still to come, and keeping the sum and the weight reduced to a word
/// of `p` values, gives the same as doing it on the numbers themselves.
proof fn lemma_var_step(lo: int, m: int, g: int, rest: int, p: int)
    requires
        p > 0,
    ensures
        lo + m * (g + 128 * rest) == (lo + m * g) + (m * 128) * rest,
        ((lo % p) + g * (m % p)) % p == (lo + m * g) % p,
        ((m % p) * 128) % p == (m * 128) % p,
{
    assert(lo + m * (g + 128 * rest) == (lo + m * g) + (m * 128) * rest) by (nonlinear_arith);
    lemma_mul_mod_noop_right(g, m, p);
    lemma_add_mod_noop(lo, g * m, p);
    lemma_add_mod_noop_right(lo % p, g * (m % p), p);
    assert(g * m == m * g) by (nonlinear_arith);
    lemma_mul_mod_noop_left(m, 128, p);
}

/// Reads one base-128 number from `bytes[start..end]`, reduced to a word of
/// `modulus` values. Gives the word and the number of bytes it took, or
/// `None` where no byte of the range has its high bit clear.
pub fn decode_var(bytes: &Vec<u8>, start: usize, end: usize, modulus: u128) -> (r: Option<
    (u64, usize),
>)
    requires
        start <= end <= bytes@.len(),
        modulus == limit32() || modulus == limit64(),
    ensures
        r is Some <==> var_complete(bytes@.subrange(start as int, end as int)),
        r is Some ==> {
            let s = bytes@.subrange(start as int, end as int);
            &&& r.unwrap().0 as nat == var_value(s) % (modulus as nat)
            &&& r.unwrap().1 as nat == var_len(s)
            &&& 1 <= r.unwrap().1 <= end - start
        },
{
    let ghost s = bytes@.subrange(start as int, end as int);
    let ghost mut lo: int = 0;
    let ghost mut m: int = 1;
    let mut acc: u128 = 0;
    let mut mult: u128 = 1;
    let mut i: usize = start;
    proof {
        assert(s.skip(0) =~= s);
    }
    while i < end
        invariant
            start <= i <= end <= bytes@.len(),
            modulus == limit32() || modulus == limit64(),
            s == bytes@.subrange(start as int, end as int),
            var_complete(s) == var_complete(s.skip(i - start)),
            var_len(s) == (i - start) + var_len(s.skip(i - start)),
            var_value(s) == lo + m * var_value(s.skip(i - start)),
            lo >= 0,
            m >= 1,
            acc as int == lo % (modulus as int),
            mult as int == m % (modulus as int),
            acc < modulus,
            mult < modulus,
        decreases end - i,
    {
        let b: u8 = bytes[i];
        let ghost tail = s.skip(i - start);
        proof {
            assert((b as u128) * mult <= 255 * 0x1_0000_0000_0000_0000) by (nonlinear_arith)
                requires
                    b <= 255,
                    mult < 0x1_0000_0000_0000_0000,
            ;
            assert(tail[0] == b);
            assert(tail.drop_first() =~= s.skip(i + 1 - start));
        }
        if b < 128 {
            proof {
                lemma_var_step(lo, m, b as int, 0, modulus as int);
            }
            let word: u128 = (acc + (b as u128) * mult) % modulus;
            return Some((word as u64, i + 1 - start));
        }
        let g: u8 = b - 128;
        proof {
            assert((g as u128) * mult <= 255 * 0x1_0000_0000_0000_0000) by (nonlinear_arith)
                requires
                    g <= 255,
                    mult < 0x1_0000_0000_0000_0000,
            ;
            assert(mult * 128 <= 128 * 0x1_0000_0000_0000_0000) by (nonlinear_arith)
                requires
                    mult < 0x1_0000_0000_0000_0000,
            ;
            lemma_var_step(lo, m, g as int, var_value(tail.drop_first()) as int, modulus as int);
            assert(m * g >= 0) by (nonlinear_arith)
                requires
                    m >= 1,
                    g >= 0,
            ;
            lo = lo + m * g;
            m = m * 128;
        }
        acc = (acc + (g as u128) * mult) % modulus;
        mult = (mult * 128) % modulus;
        i = i + 1;
    }
    None
}

} // verus!
