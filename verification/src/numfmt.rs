//! Decimal and hexadecimal text of integers, decimal parsing, and the
//! human-readable size text of a byte count.
use vstd::prelude::*;
use vstd::arithmetic::div_mod::{lemma_fundamental_div_mod, lemma_div_denominator, lemma_div_decreases};
use crate::text::{append_chars, append_str};

verus! {

/// `base` to the power `e`.
pub open spec fn pow(base: nat, e: nat) -> nat
    decreases e,
{
    if e == 0 {
        1
    } else {
        base * pow(base, (e - 1) as nat)
    }
}

/// The character of a decimal or hexadecimal digit (lower case).
pub open spec fn digit_char(d: nat) -> char {
    if d == 0 {
        '0'
    } else if d == 1 {
        '1'
    } else if d == 2 {
        '2'
    } else if d == 3 {
        '3'
    } else if d == 4 {
        '4'
    } else if d == 5 {
        '5'
    } else if d == 6 {
        '6'
    } else if d == 7 {
        '7'
    } else if d == 8 {
        '8'
    } else if d == 9 {
        '9'
    } else if d == 10 {
        'a'
    } else if d == 11 {
        'b'
    } else if d == 12 {
        'c'
    } else if d == 13 {
        'd'
    } else if d == 14 {
        'e'
    } else {
        'f'
    }
}

/// The digits of `n` in base `b` (2 to 16), most significant first, no leading zeros.
pub open spec fn digits(n: nat, b: nat) -> Seq<char>
    recommends
        2 <= b <= 16,
    decreases n,
{
    if b < 2 || n < b {
        seq![digit_char(n)]
    } else {
        proof {
            lemma_div_decreases(n as int, b as int);
        }
        digits(n / b, b).push(digit_char(n % b))
    }
}

/// Decimal text of `n`, as `Display` prints an unsigned integer.
pub open spec fn dec(n: nat) -> Seq<char> {
    digits(n, 10)
}

/// `n` in lower-case hexadecimal, left-padded with zeros to at least four
/// digits, as `format!("{:04x}", n)`.
pub open spec fn hex4(n: nat) -> Seq<char> {
    let h = digits(n, 16);
    if h.len() >= 4 {
        h
    } else {
        Seq::new((4 - h.len()) as nat, |i: int| '0') + h
    }
}

fn digit_of(d: u64) -> (c: char)
    requires
        d < 16,
    ensures
        c == digit_char(d as nat),
{
    if d == 0 {
        '0'
    } else if d == 1 {
        '1'
    } else if d == 2 {
        '2'
    } else if d == 3 {
        '3'
    } else if d == 4 {
        '4'
    } else if d == 5 {
        '5'
    } else if d == 6 {
        '6'
    } else if d == 7 {
        '7'
    } else if d == 8 {
        '8'
    } else if d == 9 {
        '9'
    } else if d == 10 {
        'a'
    } else if d == 11 {
        'b'
    } else if d == 12 {
        'c'
    } else if d == 13 {
        'd'
    } else if d == 14 {
        'e'
    } else {
        'f'
    }
}

fn push_digits(n: u128, b: u128, out: &mut Vec<char>)
    requires
        2 <= b <= 16,
    ensures
        final(out)@ == old(out)@ + digits(n as nat, b as nat),
    decreases n,
{
    if n < b {
        out.push(digit_of(n as u64));
        assert(digits(n as nat, b as nat) == seq![digit_char(n as nat)]);
    } else {
        let ghost o = out@;
        proof {
            lemma_div_decreases(n as int, b as int);
        }
        push_digits(n / b, b, out);
        out.push(digit_of((n % b) as u64));
        assert(out@ =~= o + digits(n as nat, b as nat));
    }
}

/// Decimal text of `n`.
pub fn dec_chars(n: u128) -> (r: Vec<char>)
    ensures
        r@ == dec(n as nat),
{
    let mut r: Vec<char> = Vec::new();
    push_digits(n, 10, &mut r);
    assert(r@ =~= dec(n as nat));
    r
}

/// `format!("{:04x}", n)`.
pub fn hex4_chars(n: u128) -> (r: Vec<char>)
    ensures
        r@ == hex4(n as nat),
{
    let mut h: Vec<char> = Vec::new();
    push_digits(n, 16, &mut h);
    assert(h@ =~= digits(n as nat, 16));
    if h.len() >= 4 {
        h
    } else {
        let mut r: Vec<char> = Vec::new();
        let pad = 4 - h.len();
        while r.len() < pad
            invariant
                r.len() <= pad,
                pad == 4 - h.len(),
                forall|i: int| 0 <= i < r.len() ==> r@[i] == '0',
            decreases pad - r.len(),
        {
            r.push('0');
        }
        append_chars(&mut r, &h);
        assert(r@ =~= hex4(n as nat));
        r
    }
}

/// The value of the decimal digits `s` (all ASCII digits).
pub open spec fn digits_value(s: Seq<char>) -> nat
    decreases s.len(),
{
    if s.len() == 0 {
        0
    } else {
        digits_value(s.drop_last()) * 10 + ((s.last() as nat) - ('0' as nat)) as nat
    }
}

/// An ASCII decimal digit.
pub open spec fn is_digit(c: char) -> bool {
    '0' <= c && c <= '9'
}

/// The text after an optional leading `+`.
pub open spec fn unsigned_digits(s: Seq<char>) -> Seq<char> {
    if s.len() > 0 && s[0] == '+' {
        s.drop_first()
    } else {
        s
    }
}

/// Every character is an ASCII digit.
pub open spec fn all_digits(d: Seq<char>) -> bool {
    forall|i: int| 0 <= i < d.len() ==> is_digit(#[trigger] d[i])
}

/// What `str::parse` gives for an unsigned integer type whose largest value
/// is `max`: an optional leading `+`, then one or more ASCII digits, and a
/// value no larger than `max`; anything else is rejected.
pub open spec fn parse_unsigned(s: Seq<char>, max: nat) -> Option<nat> {
    let d = unsigned_digits(s);
    if d.len() == 0 || !all_digits(d) {
        None
    } else if digits_value(d) > max {
        None
    } else {
        Some(digits_value(d))
    }
}

/// `s.parse::<u64>()` as an `Option`, with `max` the largest value admitted
/// (`u64::MAX` for `u64`, `u16::MAX` for `u16`).
pub fn parse_unsigned_chars(s: &Vec<char>, max: u64) -> (r: Option<u64>)
    ensures
        r matches Some(v) ==> parse_unsigned(s@, max as nat) == Some(v as nat),
        r is None ==> parse_unsigned(s@, max as nat) is None,
{
    let start: usize = if s.len() > 0 && s[0] == '+' {
        1
    } else {
        0
    };
    let ghost d = s@.subrange(start as int, s.len() as int);
    assert(d =~= unsigned_digits(s@));
    if start == s.len() {
        return None;
    }
    let mut v: u64 = 0;
    let mut over = false;
    let mut i: usize = start;
    while i < s.len()
        invariant
            start <= i <= s.len(),
            d == s@.subrange(start as int, s.len() as int),
            d == unsigned_digits(s@),
            forall|k: int| start <= k < i ==> is_digit(s@[k]),
            !over ==> v as nat == digits_value(s@.subrange(start as int, i as int)) && v <= max,
            over ==> digits_value(s@.subrange(start as int, i as int)) > max,
        decreases s.len() - i,
    {
        let c = s[i];
        if !('0' <= c && c <= '9') {
            assert(!is_digit(d[i - start]));
            assert(!all_digits(d));
            return None;
        }
        let dv: u64 = (c as u32 - '0' as u32) as u64;
        let ghost pre = s@.subrange(start as int, i as int);
        assert(s@.subrange(start as int, i + 1).drop_last() =~= pre);
        assert(s@.subrange(start as int, i + 1).last() == c);
        assert(digits_value(s@.subrange(start as int, i + 1)) == digits_value(pre) * 10 + dv);
        if !over {
            if dv > max || v > (max - dv) / 10 {
                over = true;
                proof {
                    if dv <= max {
                        lemma_step_over(v as nat, dv as nat, max as nat);
                    }
                }
            } else {
                proof {
                    lemma_step_ok(v as nat, dv as nat, max as nat);
                }
                v = v * 10 + dv;
            }
        }
        i += 1;
    }
    assert(s@.subrange(start as int, s.len() as int) == d);
    assert(all_digits(d)) by {
        assert forall|k: int| 0 <= k < d.len() implies is_digit(#[trigger] d[k]) by {
            assert(d[k] == s@[start + k]);
        }
    }
    if over {
        None
    } else {
        Some(v)
    }
}

proof fn lemma_step_over(v: nat, dv: nat, max: nat)
    requires
        dv <= max,
        v > (max - dv) as nat / 10,
    ensures
        v * 10 + dv > max,
{
    let m = (max - dv) as nat;
    lemma_fundamental_div_mod(m as int, 10);
    assert(v * 10 + dv > max) by (nonlinear_arith)
        requires
            m == 10 * (m / 10) + m % 10,
            m % 10 < 10,
            v >= m / 10 + 1,
            m + dv == max,
    {
    }
}

proof fn lemma_step_ok(v: nat, dv: nat, max: nat)
    requires
        dv <= max,
        v <= (max - dv) as nat / 10,
    ensures
        v * 10 + dv <= max,
{
    let m = (max - dv) as nat;
    lemma_fundamental_div_mod(m as int, 10);
    assert(v * 10 + dv <= max) by (nonlinear_arith)
        requires
            m == 10 * (m / 10) + m % 10,
            m % 10 >= 0,
            v <= m / 10,
            m + dv == max,
    {
    }
}

/// The quotient `n / d` rounded to the
/// nearest integer, ties to the even one.
pub open spec fn round_div(n: nat, d: nat) -> nat {
    let q = n / d;
    let r = n % d;
    if 2 * r > d || (2 * r == d && q % 2 == 1) {
        q + 1
    } else {
        q
    }
}

/// How many low bits of `t` a 53-bit significand cannot hold (2^53 = 0x20_0000_0000_0000).
pub open spec fn excess_bits(t: nat) -> nat
    decreases t,
{
    if t < 0x20_0000_0000_0000 {
        0
    } else {
        1 + excess_bits(t / 2)
    }
}

/// The value of `b as f64`: `b` rounded to 53 significant bits, to nearest, ties to even.
pub open spec fn as_f64(b: nat) -> nat {
    let d = pow(2, excess_bits(b));
    round_div(b, d) * d
}

/// How many times `as_f64(b)` is divided by 1024 before it drops below
/// 1024 or the largest unit is reached.
pub open spec fn unit_steps(v: nat, k: nat) -> nat
    decreases 4 - k,
{
    if k < 4 && v >= unit_size(k + 1) {
        unit_steps(v, k + 1)
    } else {
        k
    }
}

/// 1024 to the power `k`, for `k` up to 4.
pub open spec fn unit_size(k: nat) -> nat {
    if k == 0 {
        1
    } else if k == 1 {
        1024
    } else if k == 2 {
        0x10_0000
    } else if k == 3 {
        0x4000_0000
    } else {
        0x100_0000_0000
    }
}

/// The unit names, from bytes to tebibytes.
pub open spec fn unit_name(k: nat) -> Seq<char> {
    if k == 0 {
        "B"@
    } else if k == 1 {
        "KiB"@
    } else if k == 2 {
        "MiB"@
    } else if k == 3 {
        "GiB"@
    } else {
        "TiB"@
    }
}

/// Two decimal digits of `n < 100`, with a leading zero.
pub open spec fn two_digits(n: nat) -> Seq<char> {
    seq![digit_char(n / 10), digit_char(n % 10)]
}

/// The size text: `0 B` for zero; a count below 1024 bytes in whole bytes;
/// else the size in the largest unit (up to TiB) that keeps it at least 1,
/// with two decimals, rounded half to even from the value of the count as a
/// 64-bit float.
pub open spec fn size_text(bytes: nat) -> Seq<char> {
    if bytes == 0 {
        "0 B"@
    } else {
        let v = as_f64(bytes);
        let k = unit_steps(v, 0);
        if k == 0 {
            dec(bytes) + " "@ + unit_name(0)
        } else {
            let q = round_div(v * 100, unit_size(k));
            dec(q / 100) + "."@ + two_digits(q % 100) + " "@ + unit_name(k)
        }
    }
}

proof fn lemma_pow_pos(b: nat, e: nat)
    requires
        b >= 1,
    ensures
        pow(b, e) >= 1,
    decreases e,
{
    if e > 0 {
        lemma_pow_pos(b, (e - 1) as nat);
        assert(b * pow(b, (e - 1) as nat) >= 1) by (nonlinear_arith)
            requires
                b >= 1,
                pow(b, (e - 1) as nat) >= 1,
        {
        }
    }
}

proof fn lemma_round_div_bound(n: nat, d: nat)
    requires
        d >= 1,
    ensures
        round_div(n, d) * d <= n + d,
{
    lemma_fundamental_div_mod(n as int, d as int);
    let q = n / d;
    assert(q * d <= n) by (nonlinear_arith)
        requires
            n == d * q + n % d,
            n % d >= 0,
    {
    }
    assert((q + 1) * d == q * d + d) by (nonlinear_arith);
}

fn round_div_exec(n: u128, d: u128) -> (r: u128)
    requires
        d >= 1,
        d <= 0x1_0000_0000_0000_0000_0000,
        n < 0x1_0000_0000_0000_0000_0000_0000,
    ensures
        r as nat == round_div(n as nat, d as nat),
{
    let q = n / d;
    let r = n % d;
    if 2 * r > d || (2 * r == d && q % 2 == 1) {
        q + 1
    } else {
        q
    }
}

/// The size text of a byte count, as a file browser shows it.
pub fn format_size(bytes: u64) -> (r: String)
    ensures
        r@ == size_text(bytes as nat),
{
    if bytes == 0 {
        return String::from_str("0 B");
    }
    // The value of `bytes as f64`.
    let mut t: u64 = bytes;
    let mut d: u128 = 1;
    let ghost mut s: nat = 0;
    while t >= 0x20_0000_0000_0000
        invariant
            d as nat == pow(2, s),
            t as nat == bytes as nat / pow(2, s),
            excess_bits(bytes as nat) == s + excess_bits(t as nat),
            d >= 1,
            d <= 0x1_0000_0000_0000_0000,
            t as nat * d as nat <= bytes as nat,
            t >= 1,
        decreases t,
    {
        proof {
            lemma_pow_pos(2, s);
            lemma_div_denominator(bytes as int, pow(2, s) as int, 2);
            assert(pow(2, s + 1) == 2 * pow(2, s));
            lemma_fundamental_div_mod(t as int, 2);
            assert((t / 2) as nat * (2 * d as nat) <= t as nat * d as nat) by (nonlinear_arith)
                requires
                    t == 2 * (t / 2) + t % 2,
                    t % 2 >= 0,
                    d >= 1,
            {
            }
            assert(2 * d as nat <= 0x1_0000_0000_0000_0000) by (nonlinear_arith)
                requires
                    (t / 2) as nat * (2 * d as nat) <= bytes as nat,
                    t / 2 >= 1,
                    bytes <= 0xffff_ffff_ffff_ffff,
            {
            }
        }
        t = t / 2;
        d = d * 2;
        proof {
            s = s + 1;
        }
    }
    proof {
        assert(excess_bits(t as nat) == 0);
        lemma_round_div_bound(bytes as nat, d as nat);
    }
    assert(bytes as nat + d as nat <= 0x2_0000_0000_0000_0000);
    let v: u128 = round_div_exec(bytes as u128, d) * d;
    assert(v as nat == as_f64(bytes as nat));
    // How many units to step up.
    let mut k: u64 = 0;
    let mut div: u128 = 1;
    while k < 4 && v >= div * 1024
        invariant
            k <= 4,
            div as nat == unit_size(k as nat),
            unit_steps(v as nat, 0) == unit_steps(v as nat, k as nat),
        decreases 4 - k,
    {
        div = div * 1024;
        k = k + 1;
    }
    let k_is = k;
    assert(unit_steps(v as nat, 0) == k_is);
    let mut out: Vec<char> = Vec::new();
    if k == 0 {
        let dd = dec_chars(bytes as u128);
        append_chars(&mut out, &dd);
        append_str(&mut out, " ");
        append_str(&mut out, "B");
        assert(out@ =~= size_text(bytes as nat));
    } else {
        let q = round_div_exec(v * 100, div);
        let whole = dec_chars(q / 100);
        append_chars(&mut out, &whole);
        append_str(&mut out, ".");
        let frac = q % 100;
        out.push(digit_of((frac / 10) as u64));
        out.push(digit_of((frac % 10) as u64));
        append_str(&mut out, " ");
        if k == 1 {
            append_str(&mut out, "KiB");
        } else if k == 2 {
            append_str(&mut out, "MiB");
        } else if k == 3 {
            append_str(&mut out, "GiB");
        } else {
            append_str(&mut out, "TiB");
        }
        assert(out@ =~= size_text(bytes as nat));
    }
    crate::text::string_of(&out)
}

/// The value of one decimal digit character.
proof fn lemma_digit_value(d: nat)
    requires
        d < 10,
    ensures
        is_digit(digit_char(d)),
        digit_char(d) != '+',
        (digit_char(d) as nat) - ('0' as nat) == d,
{
}

/// The decimal text of `n` is one or more digits, with no sign, whose value
/// is `n`: parsing what `Display` printed gives the number back.
pub proof fn lemma_dec_value(n: nat)
    ensures
        dec(n).len() > 0,
        all_digits(dec(n)),
        dec(n)[0] != '+',
        digits_value(dec(n)) == n,
    decreases n,
{
    if n < 10 {
        lemma_digit_value(n);
        assert(dec(n) == seq![digit_char(n)]);
        assert(dec(n).drop_last() =~= Seq::<char>::empty());
        assert(digits_value(Seq::<char>::empty()) == 0);
        assert(dec(n).last() == digit_char(n));
        assert(digits_value(dec(n)) == digits_value(dec(n).drop_last()) * 10 + ((dec(n).last() as nat) - ('0' as nat)) as nat);
    } else {
        lemma_dec_value(n / 10);
        lemma_digit_value(n % 10);
        let d = dec(n);
        assert(d == dec(n / 10).push(digit_char(n % 10)));
        assert(d.drop_last() =~= dec(n / 10));
        assert(all_digits(d)) by {
            assert forall|i: int| 0 <= i < d.len() implies is_digit(#[trigger] d[i]) by {
                if i < d.len() - 1 {
                    assert(d[i] == dec(n / 10)[i]);
                }
            }
        }
        assert(d[0] == dec(n / 10)[0]);
        assert(d.last() == digit_char(n % 10));
        assert(digits_value(d) == digits_value(d.drop_last()) * 10 + ((d.last() as nat) - ('0' as nat)) as nat);
        assert(n == (n / 10) * 10 + n % 10);
    }
}

/// `n` printed in decimal parses back to `n` for any type that holds it.
pub proof fn lemma_dec_parses(n: nat, max: nat)
    requires
        n <= max,
    ensures
        parse_unsigned(dec(n), max) == Some(n),
{
    lemma_dec_value(n);
    assert(unsigned_digits(dec(n)) == dec(n));
}

} // verus!
