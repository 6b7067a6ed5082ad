//! Textual codecs for heights.
//!
//! The node provider reports the network head as a `0x`-prefixed
//! hexadecimal literal, and cursor rows may carry the indexed head as a
//! decimal string; alert messages render heights in decimal. The parsers
//! accept exactly those shapes and never panic; the encoders produce the
//! canonical form (no leading zeroes), and encoding round-trips through
//! decoding.

use vstd::arithmetic::div_mod::{
    lemma_fundamental_div_mod,
    lemma_fundamental_div_mod_converse,
    lemma_mod_bound,
};
use vstd::prelude::*;

use crate::height::{height_limit, Height};

verus! {

/// Whether `c` is a hexadecimal digit (either case).
pub open spec fn is_hex_digit(c: char) -> bool {
    48 <= c as u32 <= 57 || 97 <= c as u32 <= 102 || 65 <= c as u32 <= 70
}

/// Whether `c` is a decimal digit.
pub open spec fn is_dec_digit(c: char) -> bool {
    48 <= c as u32 <= 57
}

/// The numeric value a digit character denotes; zero for anything else.
pub open spec fn digit_val(c: char) -> int {
    if 48 <= c as u32 <= 57 {
        c as u32 - 48
    } else if 97 <= c as u32 <= 102 {
        c as u32 - 87
    } else if 65 <= c as u32 <= 70 {
        c as u32 - 55
    } else {
        0
    }
}

/// The value of a digit sequence read in base 16.
pub open spec fn hex_seq_value(s: Seq<char>) -> int
    decreases s.len(),
{
    if s.len() == 0 {
        0
    } else {
        hex_seq_value(s.drop_last()) * 16 + digit_val(s.last())
    }
}

/// The value of a digit sequence read in base 10.
pub open spec fn dec_seq_value(s: Seq<char>) -> int
    decreases s.len(),
{
    if s.len() == 0 {
        0
    } else {
        dec_seq_value(s.drop_last()) * 10 + digit_val(s.last())
    }
}

pub open spec fn all_hex_digits(s: Seq<char>) -> bool {
    forall|i: int| 0 <= i < s.len() ==> is_hex_digit(#[trigger] s[i])
}

pub open spec fn all_dec_digits(s: Seq<char>) -> bool {
    forall|i: int| 0 <= i < s.len() ==> is_dec_digit(#[trigger] s[i])
}

/// The accepted shape of a network-head report: `0x` followed by at
/// least one hexadecimal digit.
pub open spec fn is_hex_literal(s: Seq<char>) -> bool {
    s.len() >= 3 && s[0] == '0' && s[1] == 'x' && all_hex_digits(s.skip(2))
}

/// The accepted shape of a decimal height: at least one decimal digit
/// and nothing else.
pub open spec fn is_dec_string(s: Seq<char>) -> bool {
    s.len() >= 1 && all_dec_digits(s)
}

/// The canonical digit character for a value below sixteen.
pub open spec fn digit_char(d: int) -> char {
    if d == 0 { '0' }
    else if d == 1 { '1' }
    else if d == 2 { '2' }
    else if d == 3 { '3' }
    else if d == 4 { '4' }
    else if d == 5 { '5' }
    else if d == 6 { '6' }
    else if d == 7 { '7' }
    else if d == 8 { '8' }
    else if d == 9 { '9' }
    else if d == 10 { 'a' }
    else if d == 11 { 'b' }
    else if d == 12 { 'c' }
    else if d == 13 { 'd' }
    else if d == 14 { 'e' }
    else { 'f' }
}

/// The canonical (no leading zeroes) base-16 rendering of a value.
pub open spec fn hex_digits_of(v: nat) -> Seq<char>
    decreases v,
{
    if v < 16 {
        seq![digit_char(v as int)]
    } else {
        hex_digits_of(v / 16).push(digit_char((v % 16) as int))
    }
}

/// The canonical (no leading zeroes) base-10 rendering of a value.
pub open spec fn dec_digits_of(v: nat) -> Seq<char>
    decreases v,
{
    if v < 10 {
        seq![digit_char(v as int)]
    } else {
        dec_digits_of(v / 10).push(digit_char((v % 10) as int))
    }
}

pub proof fn lemma_hex_seq_value_nonneg(s: Seq<char>)
    ensures
        hex_seq_value(s) >= 0,
    decreases s.len(),
{
    if s.len() > 0 {
        lemma_hex_seq_value_nonneg(s.drop_last());
    }
}

pub proof fn lemma_dec_seq_value_nonneg(s: Seq<char>)
    ensures
        dec_seq_value(s) >= 0,
    decreases s.len(),
{
    if s.len() > 0 {
        lemma_dec_seq_value_nonneg(s.drop_last());
    }
}

/// Reading more digits can only grow the value.
pub proof fn lemma_hex_prefix_value_le(s: Seq<char>, i: int)
    requires
        0 <= i <= s.len(),
    ensures
        hex_seq_value(s.take(i)) <= hex_seq_value(s),
    decreases s.len(),
{
    if i == s.len() {
        assert(s.take(i) =~= s);
    } else {
        assert(s.drop_last().take(i) =~= s.take(i));
        lemma_hex_prefix_value_le(s.drop_last(), i);
        lemma_hex_seq_value_nonneg(s.drop_last());
    }
}

/// Reading more digits can only grow the value.
pub proof fn lemma_dec_prefix_value_le(s: Seq<char>, i: int)
    requires
        0 <= i <= s.len(),
    ensures
        dec_seq_value(s.take(i)) <= dec_seq_value(s),
    decreases s.len(),
{
    if i == s.len() {
        assert(s.take(i) =~= s);
    } else {
        assert(s.drop_last().take(i) =~= s.take(i));
        lemma_dec_prefix_value_le(s.drop_last(), i);
        lemma_dec_seq_value_nonneg(s.drop_last());
    }
}

/// The digit characters decode back to the value they were made from.
proof fn lemma_digit_char_val(d: int)
    requires
        0 <= d < 16,
    ensures
        is_hex_digit(digit_char(d)),
        digit_val(digit_char(d)) == d,
        d < 10 ==> is_dec_digit(digit_char(d)),
{
}

/// Hexadecimal encoding round-trips: the canonical digits of a value
/// decode to that value, and they are all hexadecimal digits.
pub proof fn lemma_hex_digits_round_trip(v: nat)
    ensures
        hex_seq_value(hex_digits_of(v)) == v,
        all_hex_digits(hex_digits_of(v)),
        hex_digits_of(v).len() >= 1,
    decreases v,
{
    if v < 16 {
        lemma_digit_char_val(v as int);
        let s = hex_digits_of(v);
        assert(s.drop_last() =~= Seq::<char>::empty());
        assert(hex_seq_value(Seq::<char>::empty()) == 0);
        assert(s.last() == digit_char(v as int));
        assert(hex_seq_value(s) == 0 * 16 + digit_val(digit_char(v as int)));
    } else {
        lemma_hex_digits_round_trip(v / 16);
        lemma_mod_bound(v as int, 16);
        lemma_digit_char_val((v % 16) as int);
        lemma_fundamental_div_mod(v as int, 16);
        let s = hex_digits_of(v);
        assert(s.drop_last() =~= hex_digits_of(v / 16));
        assert(s.last() == digit_char((v % 16) as int));
        assert(hex_seq_value(s) == hex_seq_value(hex_digits_of(v / 16)) * 16 + digit_val(
            digit_char((v % 16) as int),
        ));
        assert forall|i: int| 0 <= i < s.len() implies is_hex_digit(#[trigger] s[i]) by {
            if i < s.len() - 1 {
                assert(s[i] == hex_digits_of(v / 16)[i]);
            }
        }
    }
}

/// Decimal encoding round-trips in the same way.
pub proof fn lemma_dec_digits_round_trip(v: nat)
    ensures
        dec_seq_value(dec_digits_of(v)) == v,
        all_dec_digits(dec_digits_of(v)),
        dec_digits_of(v).len() >= 1,
    decreases v,
{
    if v < 10 {
        lemma_digit_char_val(v as int);
        let s = dec_digits_of(v);
        assert(s.drop_last() =~= Seq::<char>::empty());
        assert(dec_seq_value(Seq::<char>::empty()) == 0);
        assert(s.last() == digit_char(v as int));
        assert(dec_seq_value(s) == 0 * 10 + digit_val(digit_char(v as int)));
    } else {
        lemma_dec_digits_round_trip(v / 10);
        lemma_mod_bound(v as int, 10);
        lemma_digit_char_val((v % 10) as int);
        lemma_fundamental_div_mod(v as int, 10);
        let s = dec_digits_of(v);
        assert(s.drop_last() =~= dec_digits_of(v / 10));
        assert(s.last() == digit_char((v % 10) as int));
        assert(dec_seq_value(s) == dec_seq_value(dec_digits_of(v / 10)) * 10 + digit_val(
            digit_char((v % 10) as int),
        ));
        assert forall|i: int| 0 <= i < s.len() implies is_dec_digit(#[trigger] s[i]) by {
            if i < s.len() - 1 {
                assert(s[i] == dec_digits_of(v / 10)[i]);
            }
        }
    }
}

/// The full `0x`-prefixed hexadecimal encoding of an in-range value is a
/// well-shaped literal that decodes back to that value.
pub proof fn lemma_hex_encoding_round_trips(v: nat)
    requires
        v < height_limit(),
    ensures
        is_hex_literal(seq!['0', 'x'] + hex_digits_of(v)),
        hex_seq_value((seq!['0', 'x'] + hex_digits_of(v)).skip(2)) == v,
{
    lemma_hex_digits_round_trip(v);
    let e = seq!['0', 'x'] + hex_digits_of(v);
    assert(e.skip(2) =~= hex_digits_of(v));
}

/// The decimal encoding of an in-range value is a well-shaped decimal
/// string that decodes back to that value.
pub proof fn lemma_dec_encoding_round_trips(v: nat)
    requires
        v < height_limit(),
    ensures
        is_dec_string(dec_digits_of(v)),
        dec_seq_value(dec_digits_of(v)) == v,
{
    lemma_dec_digits_round_trip(v);
}

/// The numeric value of a hexadecimal digit character, if it is one.
fn hex_digit_of_char(c: char) -> (r: Option<u64>)
    ensures
        r is Some <==> is_hex_digit(c),
        r is Some ==> r->0 as int == digit_val(c) && r->0 < 16,
{
    let u = c as u32;
    if 48 <= u && u <= 57 {
        Some((u - 48) as u64)
    } else if 97 <= u && u <= 102 {
        Some((u - 87) as u64)
    } else if 65 <= u && u <= 70 {
        Some((u - 55) as u64)
    } else {
        None
    }
}

/// The numeric value of a decimal digit character, if it is one.
fn dec_digit_of_char(c: char) -> (r: Option<u64>)
    ensures
        r is Some <==> is_dec_digit(c),
        r is Some ==> r->0 as int == digit_val(c) && r->0 < 10,
{
    let u = c as u32;
    if 48 <= u && u <= 57 {
        Some((u - 48) as u64)
    } else {
        None
    }
}

/// One limb of multiplying by sixteen and adding a carry.
fn mulacc16_limb(w: u64, c: u64) -> (r: (u64, u64))
    requires
        c < 16,
    ensures
        r.0 as int + r.1 as int * 0x10000000000000000 == w as int * 16 + c,
        r.1 < 16,
{
    let t: u128 = (w as u128) * 16 + (c as u128);
    proof {
        lemma_fundamental_div_mod(t as int, 0x10000000000000000);
        lemma_mod_bound(t as int, 0x10000000000000000);
        if t as int / 0x10000000000000000 >= 16 {
            assert(0x10000000000000000 * (t as int / 0x10000000000000000)
                >= 0x10000000000000000 * 16);
            assert(false);
        }
    }
    ((t % 0x10000000000000000) as u64, (t / 0x10000000000000000) as u64)
}

/// One limb of multiplying by ten and adding a carry.
fn mulacc10_limb(w: u64, c: u64) -> (r: (u64, u64))
    requires
        c < 10,
    ensures
        r.0 as int + r.1 as int * 0x10000000000000000 == w as int * 10 + c,
        r.1 < 10,
{
    let t: u128 = (w as u128) * 10 + (c as u128);
    proof {
        lemma_fundamental_div_mod(t as int, 0x10000000000000000);
        lemma_mod_bound(t as int, 0x10000000000000000);
        if t as int / 0x10000000000000000 >= 10 {
            assert(0x10000000000000000 * (t as int / 0x10000000000000000)
                >= 0x10000000000000000 * 10);
            assert(false);
        }
    }
    ((t % 0x10000000000000000) as u64, (t / 0x10000000000000000) as u64)
}

/// Shifts a height one hexadecimal digit left and adds `d`, reporting
/// overflow past 2^256.
fn mul16_add(h: &Height, d: u64) -> (r: (Height, bool))
    requires
        d < 16,
    ensures
        !r.1 ==> r.0.as_int() == h.as_int() * 16 + d,
        r.1 ==> h.as_int() * 16 + d >= height_limit(),
{
    let (n0, c0) = mulacc16_limb(h.w0, d);
    let (n1, c1) = mulacc16_limb(h.w1, c0);
    let (n2, c2) = mulacc16_limb(h.w2, c1);
    let (n3, c3) = mulacc16_limb(h.w3, c2);
    let out = Height { w0: n0, w1: n1, w2: n2, w3: n3 };
    proof {
        assert(out.as_int() + c3 as int * height_limit() == h.as_int() * 16 + d);
        if c3 >= 1 {
            assert(c3 as int * height_limit() >= height_limit());
        }
    }
    (out, c3 != 0)
}

/// Shifts a height one decimal digit left and adds `d`, reporting
/// overflow past 2^256.
fn mul10_add(h: &Height, d: u64) -> (r: (Height, bool))
    requires
        d < 10,
    ensures
        !r.1 ==> r.0.as_int() == h.as_int() * 10 + d,
        r.1 ==> h.as_int() * 10 + d >= height_limit(),
{
    let (n0, c0) = mulacc10_limb(h.w0, d);
    let (n1, c1) = mulacc10_limb(h.w1, c0);
    let (n2, c2) = mulacc10_limb(h.w2, c1);
    let (n3, c3) = mulacc10_limb(h.w3, c2);
    let out = Height { w0: n0, w1: n1, w2: n2, w3: n3 };
    proof {
        assert(out.as_int() + c3 as int * height_limit() == h.as_int() * 10 + d);
        if c3 >= 1 {
            assert(c3 as int * height_limit() >= height_limit());
        }
    }
    (out, c3 != 0)
}

/// One limb of a short division by sixteen, most significant limb first.
fn div16_limb(w: u64, rem_in: u64) -> (r: (u64, u64))
    requires
        rem_in < 16,
    ensures
        r.0 as int * 16 + r.1 as int == rem_in as int * 0x10000000000000000 + w,
        r.1 < 16,
{
    let cur: u128 = (rem_in as u128) * 0x10000000000000000 + (w as u128);
    proof {
        lemma_fundamental_div_mod(cur as int, 16);
        lemma_mod_bound(cur as int, 16);
        if cur as int / 16 >= 0x10000000000000000 {
            assert(16 * (cur as int / 16) >= 16 * 0x10000000000000000);
            assert(false);
        }
    }
    ((cur / 16) as u64, (cur % 16) as u64)
}

/// One limb of a short division by ten, most significant limb first.
fn div10_limb(w: u64, rem_in: u64) -> (r: (u64, u64))
    requires
        rem_in < 10,
    ensures
        r.0 as int * 10 + r.1 as int == rem_in as int * 0x10000000000000000 + w,
        r.1 < 10,
{
    let cur: u128 = (rem_in as u128) * 0x10000000000000000 + (w as u128);
    proof {
        lemma_fundamental_div_mod(cur as int, 10);
        lemma_mod_bound(cur as int, 10);
        if cur as int / 10 >= 0x10000000000000000 {
            assert(10 * (cur as int / 10) >= 10 * 0x10000000000000000);
            assert(false);
        }
    }
    ((cur / 10) as u64, (cur % 10) as u64)
}

/// Quotient and remainder of a height by sixteen.
fn div_rem_16(h: &Height) -> (r: (Height, u64))
    ensures
        r.0.as_int() * 16 + r.1 as int == h.as_int(),
        r.1 < 16,
{
    let (q3, r3) = div16_limb(h.w3, 0);
    let (q2, r2) = div16_limb(h.w2, r3);
    let (q1, r1) = div16_limb(h.w1, r2);
    let (q0, r0) = div16_limb(h.w0, r1);
    let q = Height { w0: q0, w1: q1, w2: q2, w3: q3 };
    proof {
        assert(q.as_int() * 16 + r0 as int == h.as_int());
    }
    (q, r0)
}

/// Quotient and remainder of a height by ten.
fn div_rem_10(h: &Height) -> (r: (Height, u64))
    ensures
        r.0.as_int() * 10 + r.1 as int == h.as_int(),
        r.1 < 10,
{
    let (q3, r3) = div10_limb(h.w3, 0);
    let (q2, r2) = div10_limb(h.w2, r3);
    let (q1, r1) = div10_limb(h.w1, r2);
    let (q0, r0) = div10_limb(h.w0, r1);
    let q = Height { w0: q0, w1: q1, w2: q2, w3: q3 };
    proof {
        assert(q.as_int() * 10 + r0 as int == h.as_int());
    }
    (q, r0)
}

/// The digit characters of a digit-value sequence, read back to front.
pub open spec fn rev_digit_chars(ds: Seq<u64>) -> Seq<char> {
    Seq::new(ds.len(), |i: int| digit_char(ds[ds.len() - 1 - i] as int))
}

proof fn lemma_rev_digit_chars_push(ds: Seq<u64>, d: u64)
    ensures
        rev_digit_chars(ds.push(d)) =~= seq![digit_char(d as int)] + rev_digit_chars(ds),
{
}

/// The one-character string for a digit value below sixteen.
fn digit_str(d: u64) -> (r: &'static str)
    requires
        d < 16,
    ensures
        r@ == seq![digit_char(d as int)],
{
    proof {
        reveal_strlit("0");
        reveal_strlit("1");
        reveal_strlit("2");
        reveal_strlit("3");
        reveal_strlit("4");
        reveal_strlit("5");
        reveal_strlit("6");
        reveal_strlit("7");
        reveal_strlit("8");
        reveal_strlit("9");
        reveal_strlit("a");
        reveal_strlit("b");
        reveal_strlit("c");
        reveal_strlit("d");
        reveal_strlit("e");
        reveal_strlit("f");
    }
    let r: &'static str = match d {
        0 => "0",
        1 => "1",
        2 => "2",
        3 => "3",
        4 => "4",
        5 => "5",
        6 => "6",
        7 => "7",
        8 => "8",
        9 => "9",
        10 => "a",
        11 => "b",
        12 => "c",
        13 => "d",
        14 => "e",
        _ => "f",
    };
    proof {
        assert(r@ =~= seq![digit_char(d as int)]);
    }
    r
}

/// The digit values of a height in base 16, least significant first.
fn digits_base16(h: &Height) -> (digs: Vec<u64>)
    ensures
        digs@.len() >= 1,
        forall|k: int| 0 <= k < digs@.len() ==> #[trigger] digs@[k] < 16,
        rev_digit_chars(digs@) == hex_digits_of(h.as_int() as nat),
{
    let ghost orig = h.as_int();
    let mut digs: Vec<u64> = Vec::new();
    let (q, d) = div_rem_16(h);
    digs.push(d);
    let mut cur = q;
    proof {
        lemma_fundamental_div_mod_converse(orig, 16, q.as_int(), d as int);
        assert(rev_digit_chars(digs@) =~= seq![digit_char(d as int)]);
        if cur.as_int() > 0 {
            assert(hex_digits_of(orig as nat) == hex_digits_of((orig / 16) as nat).push(
                digit_char((orig % 16) as int),
            ));
            assert(hex_digits_of(cur.as_int() as nat).push(digit_char(d as int))
                =~= hex_digits_of(cur.as_int() as nat) + rev_digit_chars(digs@));
        }
    }
    while !cur.is_zero()
        invariant
            digs@.len() >= 1,
            forall|k: int| 0 <= k < digs@.len() ==> #[trigger] digs@[k] < 16,
            0 <= orig,
            cur.as_int() == 0 ==> hex_digits_of(orig as nat) == rev_digit_chars(digs@),
            cur.as_int() > 0 ==> hex_digits_of(orig as nat) == hex_digits_of(
                cur.as_int() as nat,
            ) + rev_digit_chars(digs@),
        decreases cur.as_int(),
    {
        let ghost pre = cur.as_int();
        let (q2, d2) = div_rem_16(&cur);
        proof {
            lemma_fundamental_div_mod_converse(pre, 16, q2.as_int(), d2 as int);
            lemma_rev_digit_chars_push(digs@, d2);
            if q2.as_int() > 0 {
                assert(hex_digits_of(pre as nat) == hex_digits_of((pre / 16) as nat).push(
                    digit_char((pre % 16) as int),
                ));
                assert(hex_digits_of(q2.as_int() as nat).push(digit_char(d2 as int))
                    + rev_digit_chars(digs@) =~= hex_digits_of(q2.as_int() as nat)
                    + rev_digit_chars(digs@.push(d2)));
            } else {
                assert(pre < 16);
                assert(hex_digits_of(pre as nat) == seq![digit_char(pre as int)]);
                assert(seq![digit_char(d2 as int)] + rev_digit_chars(digs@)
                    =~= rev_digit_chars(digs@.push(d2)));
            }
        }
        digs.push(d2);
        cur = q2;
    }
    digs
}

/// The digit values of a height in base 10, least significant first.
fn digits_base10(h: &Height) -> (digs: Vec<u64>)
    ensures
        digs@.len() >= 1,
        forall|k: int| 0 <= k < digs@.len() ==> #[trigger] digs@[k] < 10,
        rev_digit_chars(digs@) == dec_digits_of(h.as_int() as nat),
{
    let ghost orig = h.as_int();
    let mut digs: Vec<u64> = Vec::new();
    let (q, d) = div_rem_10(h);
    digs.push(d);
    let mut cur = q;
    proof {
        lemma_fundamental_div_mod_converse(orig, 10, q.as_int(), d as int);
        assert(rev_digit_chars(digs@) =~= seq![digit_char(d as int)]);
        if cur.as_int() > 0 {
            assert(dec_digits_of(orig as nat) == dec_digits_of((orig / 10) as nat).push(
                digit_char((orig % 10) as int),
            ));
            assert(dec_digits_of(cur.as_int() as nat).push(digit_char(d as int))
                =~= dec_digits_of(cur.as_int() as nat) + rev_digit_chars(digs@));
        }
    }
    while !cur.is_zero()
        invariant
            digs@.len() >= 1,
            forall|k: int| 0 <= k < digs@.len() ==> #[trigger] digs@[k] < 10,
            0 <= orig,
            cur.as_int() == 0 ==> dec_digits_of(orig as nat) == rev_digit_chars(digs@),
            cur.as_int() > 0 ==> dec_digits_of(orig as nat) == dec_digits_of(
                cur.as_int() as nat,
            ) + rev_digit_chars(digs@),
        decreases cur.as_int(),
    {
        let ghost pre = cur.as_int();
        let (q2, d2) = div_rem_10(&cur);
        proof {
            lemma_fundamental_div_mod_converse(pre, 10, q2.as_int(), d2 as int);
            lemma_rev_digit_chars_push(digs@, d2);
            if q2.as_int() > 0 {
                assert(dec_digits_of(pre as nat) == dec_digits_of((pre / 10) as nat).push(
                    digit_char((pre % 10) as int),
                ));
                assert(dec_digits_of(q2.as_int() as nat).push(digit_char(d2 as int))
                    + rev_digit_chars(digs@) =~= dec_digits_of(q2.as_int() as nat)
                    + rev_digit_chars(digs@.push(d2)));
            } else {
                assert(pre < 10);
                assert(dec_digits_of(pre as nat) == seq![digit_char(pre as int)]);
                assert(seq![digit_char(d2 as int)] + rev_digit_chars(digs@)
                    =~= rev_digit_chars(digs@.push(d2)));
            }
        }
        digs.push(d2);
        cur = q2;
    }
    digs
}

/// Appends the digits collected least-significant-first in most
/// significant order.
fn append_digits(out: &mut String, digs: &Vec<u64>)
    requires
        forall|k: int| 0 <= k < digs@.len() ==> #[trigger] digs@[k] < 16,
    ensures
        final(out)@ == old(out)@ + rev_digit_chars(digs@),
{
    let ghost base = out@;
    let mut j: usize = 0;
    while j < digs.len()
        invariant
            j <= digs@.len(),
            forall|k: int| 0 <= k < digs@.len() ==> #[trigger] digs@[k] < 16,
            out@ == base + rev_digit_chars(digs@).take(j as int),
        decreases digs@.len() - j,
    {
        let c = digit_str(digs[digs.len() - 1 - j]);
        out.append(c);
        proof {
            assert(rev_digit_chars(digs@).take(j + 1) =~= rev_digit_chars(digs@).take(j as int)
                + seq![digit_char(digs@[digs@.len() - 1 - j] as int)]);
        }
        j = j + 1;
    }
    proof {
        assert(rev_digit_chars(digs@).take(digs@.len() as int) =~= rev_digit_chars(digs@));
    }
}

/// Renders a height as a `0x`-prefixed hexadecimal literal, the form the
/// node provider itself reports, with no leading zeroes.
pub fn to_hex_string(h: &Height) -> (r: String)
    ensures
        r@ == seq!['0', 'x'] + hex_digits_of(h.as_int() as nat),
{
    let digs = digits_base16(h);
    let mut out = String::from_str("0x");
    proof {
        reveal_strlit("0x");
        assert(out@ =~= seq!['0', 'x']);
    }
    append_digits(&mut out, &digs);
    out
}

/// Renders a height in decimal, the form alert messages use, with no
/// leading zeroes.
pub fn to_dec_string(h: &Height) -> (r: String)
    ensures
        r@ == dec_digits_of(h.as_int() as nat),
{
    let digs = digits_base10(h);
    let mut out = String::new();
    append_digits(&mut out, &digs);
    proof {
        assert(Seq::<char>::empty() + rev_digit_chars(digs@) =~= rev_digit_chars(digs@));
    }
    out
}

/// Decodes a `0x`-prefixed hexadecimal block-height literal.
///
/// Succeeds exactly on well-shaped literals whose value fits in 256
/// bits; any other input — a missing prefix, a stray character, an empty
/// digit run, a value past 2^256 — is rejected, never coerced.
pub fn from_hex_str(s: &str) -> (r: Option<Height>)
    ensures
        match r {
            Some(h) => is_hex_literal(s@) && hex_seq_value(s@.skip(2)) < height_limit()
                && h.as_int() == hex_seq_value(s@.skip(2)),
            None => !(is_hex_literal(s@) && hex_seq_value(s@.skip(2)) < height_limit()),
        },
{
    let n = s.unicode_len();
    if n < 3 {
        return None;
    }
    if s.get_char(0) != '0' || s.get_char(1) != 'x' {
        return None;
    }
    let ghost ds = s@.skip(2);
    let mut acc = Height::zero();
    let mut i: usize = 2;
    while i < n
        invariant
            2 <= i <= n,
            n == s@.len(),
            ds == s@.skip(2),
            acc.as_int() == hex_seq_value(ds.take(i - 2)),
            0 <= acc.as_int() < height_limit(),
            forall|k: int| 0 <= k < i - 2 ==> is_hex_digit(#[trigger] ds[k]),
        decreases n - i,
    {
        let c = s.get_char(i);
        proof {
            assert(ds[i - 2] == s@[i as int]);
        }
        match hex_digit_of_char(c) {
            None => {
                proof {
                    assert(!is_hex_digit(ds[i - 2]));
                }
                return None;
            },
            Some(d) => {
                let (next, overflow) = mul16_add(&acc, d);
                proof {
                    assert(ds.take(i - 2 + 1).drop_last() =~= ds.take(i - 2));
                    assert(ds.take(i - 2 + 1).last() == ds[i - 2]);
                    assert(hex_seq_value(ds.take(i - 2 + 1)) == acc.as_int() * 16
                        + digit_val(ds[i - 2]));
                }
                if overflow {
                    proof {
                        lemma_hex_prefix_value_le(ds, i - 2 + 1);
                    }
                    return None;
                }
                acc = next;
                proof {
                    next.lemma_range();
                }
            },
        }
        i = i + 1;
    }
    proof {
        assert(ds.take(n - 2) =~= ds);
    }
    Some(acc)
}

/// Decodes a decimal block-height string, as a cursor row may carry one.
///
/// Succeeds exactly on non-empty all-digit strings whose value fits in
/// 256 bits.
pub fn from_dec_str(s: &str) -> (r: Option<Height>)
    ensures
        match r {
            Some(h) => is_dec_string(s@) && dec_seq_value(s@) < height_limit()
                && h.as_int() == dec_seq_value(s@),
            None => !(is_dec_string(s@) && dec_seq_value(s@) < height_limit()),
        },
{
    let n = s.unicode_len();
    if n == 0 {
        return None;
    }
    let mut acc = Height::zero();
    let mut i: usize = 0;
    while i < n
        invariant
            0 <= i <= n,
            n == s@.len(),
            acc.as_int() == dec_seq_value(s@.take(i as int)),
            0 <= acc.as_int() < height_limit(),
            forall|k: int| 0 <= k < i ==> is_dec_digit(#[trigger] s@[k]),
        decreases n - i,
    {
        let c = s.get_char(i);
        match dec_digit_of_char(c) {
            None => {
                return None;
            },
            Some(d) => {
                let (next, overflow) = mul10_add(&acc, d);
                proof {
                    assert(s@.take(i + 1).drop_last() =~= s@.take(i as int));
                    assert(s@.take(i + 1).last() == s@[i as int]);
                    assert(dec_seq_value(s@.take(i + 1)) == acc.as_int() * 10
                        + digit_val(s@[i as int]));
                }
                if overflow {
                    proof {
                        lemma_dec_prefix_value_le(s@, i + 1);
                    }
                    return None;
                }
                acc = next;
                proof {
                    next.lemma_range();
                }
            },
        }
        i = i + 1;
    }
    proof {
        assert(s@.take(n as int) =~= s@);
    }
    Some(acc)
}

} // verus!
