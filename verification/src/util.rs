//! Byte-order conversions shared by the memory unit and the processor, and a
//! small decimal renderer used by the state-dump methods.

use vstd::prelude::*;

verus! {

/// Folds `s` into a 32-bit accumulator, big-endian: each step shifts the
/// accumulator one byte left (dropping the top byte) and adds the next byte.
pub open spec fn be_u32_rec(s: Seq<u8>, acc: u32) -> u32
    decreases s.len(),
{
    if s.len() == 0 {
        acc
    } else {
        be_u32_rec(s.drop_first(), (((acc as nat) * 256 + s[0] as nat) % 0x1_0000_0000) as u32)
    }
}

/// The value of `s` read as a big-endian integer, truncated to 32 bits.
pub open spec fn spec_be_u32(s: Seq<u8>) -> u32 {
    be_u32_rec(s, 0)
}

/// The four big-endian bytes of `v`, most significant first.
pub open spec fn spec_be_bytes(v: u32) -> Seq<u8> {
    seq![
        (v / 0x100_0000) as u8,
        ((v / 0x1_0000) % 256) as u8,
        ((v / 256) % 256) as u8,
        (v % 256) as u8,
    ]
}

/// Decode bytes as one big-endian unsigned integer, truncated to 32 bits.
pub fn raw_to_u32_big_endian(vec: &[u8]) -> (ret: u32)
    ensures
        ret == spec_be_u32(vec@),
{
    let mut ret: u32 = 0;
    let mut i: usize = 0;
    proof {
        assert(vec@.skip(0) =~= vec@);
    }
    while i < vec.len()
        invariant
            i <= vec@.len(),
            be_u32_rec(vec@, 0) == be_u32_rec(vec@.skip(i as int), ret),
        decreases vec@.len() - i,
    {
        let b = vec[i];
        proof {
            assert(vec@.skip(i as int).len() > 0);
            assert(vec@.skip(i as int)[0] == vec@[i as int]);
            assert(vec@.skip(i as int).drop_first() =~= vec@.skip(i as int + 1));
        }
        ret = (((ret as u64) * 256 + b as u64) % 0x1_0000_0000) as u32;
        i = i + 1;
    }
    proof {
        assert(vec@.skip(i as int) =~= Seq::<u8>::empty());
    }
    ret
}

/// Encode `val` as its four big-endian bytes.
pub fn u32_to_raw_big_endian(val: u32) -> (ret: Vec<u8>)
    ensures
        ret@ == spec_be_bytes(val),
{
    let mut ret: Vec<u8> = Vec::new();
    ret.push((val / 0x100_0000) as u8);
    ret.push(((val / 0x1_0000) % 256) as u8);
    ret.push(((val / 256) % 256) as u8);
    ret.push((val % 256) as u8);
    proof {
        assert(ret@ =~= spec_be_bytes(val));
    }
    ret
}

/// Encoding a value and decoding the result gives the value back: the two
/// big-endian conversions are mutually inverse on 32-bit values.
pub proof fn lemma_be_round_trip(v: u32)
    ensures
        spec_be_u32(spec_be_bytes(v)) == v,
{
    let s = spec_be_bytes(v);
    let b0 = (v / 0x100_0000) as nat;
    let b1 = ((v / 0x1_0000) % 256) as nat;
    let b2 = ((v / 256) % 256) as nat;
    let b3 = (v % 256) as nat;
    assert(b0 < 256);
    let a1 = b0;
    let a2 = a1 * 256 + b1;
    let a3 = a2 * 256 + b2;
    let a4 = a3 * 256 + b3;
    assert(a2 < 0x1_0000);
    assert(a3 < 0x100_0000) by (nonlinear_arith)
        requires
            a3 == a2 * 256 + b2,
            a2 < 0x1_0000,
            b2 < 256,
    ;
    assert(a4 < 0x1_0000_0000) by (nonlinear_arith)
        requires
            a4 == a3 * 256 + b3,
            a3 < 0x100_0000,
            b3 < 256,
    ;
    let s1 = s.drop_first();
    let s2 = s1.drop_first();
    let s3 = s2.drop_first();
    let s4 = s3.drop_first();
    assert(s1 =~= seq![s[1], s[2], s[3]]);
    assert(s2 =~= seq![s[2], s[3]]);
    assert(s3 =~= seq![s[3]]);
    assert(s4 =~= Seq::<u8>::empty());
    assert(be_u32_rec(s, 0) == be_u32_rec(s1, a1 as u32));
    assert(be_u32_rec(s1, a1 as u32) == be_u32_rec(s2, a2 as u32));
    assert(be_u32_rec(s2, a2 as u32) == be_u32_rec(s3, a3 as u32));
    assert(be_u32_rec(s3, a3 as u32) == be_u32_rec(s4, a4 as u32));
    assert(be_u32_rec(s4, a4 as u32) == a4 as u32);
    assert(a4 == v) by (nonlinear_arith)
        requires
            a4 == ((v / 0x100_0000) * 256 + (v / 0x1_0000) % 256) * 256 * 256
                + ((v / 256) % 256) * 256 + v % 256,
    ;
}

/// Character-wise comparison of two string slices.
pub fn str_eq(a: &str, b: &str) -> (r: bool)
    ensures
        r == (a@ == b@),
{
    let alen = a.unicode_len();
    let blen = b.unicode_len();
    if alen != blen {
        return false;
    }
    let mut i: usize = 0;
    while i < alen
        invariant
            alen as nat == a@.len(),
            alen as nat == b@.len(),
            i <= alen,
            forall|j: int| 0 <= j < i ==> a@[j] == b@[j],
        decreases alen - i,
    {
        if a.get_char(i) != b.get_char(i) {
            return false;
        }
        i = i + 1;
    }
    proof {
        assert(a@ =~= b@);
    }
    true
}

/// The decimal digit character for `d`.
pub open spec fn spec_digit(d: nat) -> char {
    if d == 0 { '0' }
    else if d == 1 { '1' }
    else if d == 2 { '2' }
    else if d == 3 { '3' }
    else if d == 4 { '4' }
    else if d == 5 { '5' }
    else if d == 6 { '6' }
    else if d == 7 { '7' }
    else if d == 8 { '8' }
    else { '9' }
}

/// The decimal rendering of `n`, most significant digit first, no leading zeros
/// (a single `'0'` for zero).
pub open spec fn spec_dec(n: nat) -> Seq<char>
    decreases n,
{
    if n < 10 {
        seq![spec_digit(n)]
    } else {
        spec_dec(n / 10).push(spec_digit(n % 10))
    }
}

fn digit_str(d: usize) -> (r: &'static str)
    requires
        d < 10,
    ensures
        r@ =~= seq![spec_digit(d as nat)],
{
    let r = if d == 0 { "0" }
    else if d == 1 { "1" }
    else if d == 2 { "2" }
    else if d == 3 { "3" }
    else if d == 4 { "4" }
    else if d == 5 { "5" }
    else if d == 6 { "6" }
    else if d == 7 { "7" }
    else if d == 8 { "8" }
    else { "9" };
    proof {
        reveal_strlit("0");
        reveal_strlit("1");
        reveal_strlit("2");
        reveal_strlit("3");
        reveal_strlit("4");
        reveal_strlit("5");
        reveal_strlit("6");
        reveal_strlit("7");
        reveal_strlit("8");
        reveal_strlit("9");
    }
    r
}

/// Render `n` in decimal.
pub fn dec_string(n: usize) -> (r: String)
    ensures
        r@ == spec_dec(n as nat),
    decreases n,
{
    if n < 10 {
        String::from_str(digit_str(n))
    } else {
        let mut s = dec_string(n / 10);
        s.append(digit_str(n % 10));
        proof {
            assert(s@ =~= spec_dec(n as nat));
        }
        s
    }
}

} // verus!
