//! Human-readable sizes, decimal units like Finder and GNOME Files.
//!
//! The number is worked out in IEEE double precision, as `f64` arithmetic
//! does it: the size becomes the double nearest to it, is divided by 1000
//! (each quotient rounded to the nearest double) while it rounds to 1000 or
//! more, and is printed with `{:.1}` or `{:.0}`, which round the double's
//! exact value to the nearest output, ties to the even one. A double is held
//! here as an exact fraction whose denominator is a power of two.

use crate::text::{push_char, push_str};
use vstd::arithmetic::power2::{
    lemma2_to64, lemma_pow2_adds, lemma_pow2_pos, lemma_pow2_strictly_increases,
    lemma_pow2_unfold, pow2,
};
use vstd::prelude::*;

verus! {

/// `n / d` rounded to the nearest whole number, ties to the even one.
pub open spec fn round_half_even(n: nat, d: nat) -> nat
    recommends
        d > 0,
{
    let q = n / d;
    let r = n % d;
    if 2 * r > d || (2 * r == d && q % 2 == 1) {
        q + 1
    } else {
        q
    }
}

/// The number of binary digits of `n` (none for 0).
pub open spec fn bit_len(n: nat) -> nat
    decreases n,
{
    if n == 0 {
        0
    } else {
        1 + bit_len(n / 2)
    }
}

/// `a / b` is at least `2^k`.
pub open spec fn at_least_pow2(a: nat, b: nat, k: int) -> bool {
    if k >= 0 {
        a >= b * pow2(k as nat)
    } else {
        a * pow2((-k) as nat) >= b
    }
}

/// The binary exponent of `a / b`, the `e` with `2^e <= a / b < 2^(e + 1)`:
/// the difference of the lengths in bits, or one less.
pub open spec fn binary_exponent(a: nat, b: nat) -> int {
    let k = bit_len(a) - bit_len(b);
    if at_least_pow2(a, b, k) {
        k
    } else {
        k - 1
    }
}

/// `a / b` rounded to the nearest double (53 significant bits, ties to the
/// even one), as a fraction whose denominator is a power of two.
pub open spec fn to_double(a: nat, b: nat) -> (nat, nat) {
    let e = binary_exponent(a, b);
    if e >= 52 {
        let s = (e - 52) as nat;
        (round_half_even(a, b * pow2(s)) * pow2(s), 1)
    } else {
        let s = (52 - e) as nat;
        (round_half_even(a * pow2(s), b), pow2(s))
    }
}

/// The value rounds to 1000 or more (`f64::round` rounds halves away from
/// zero, so from 999.5 on).
pub open spec fn rounds_to_a_thousand(x: (nat, nat)) -> bool {
    2 * x.0 >= 1999 * x.1
}

/// Dividing by 1000, each quotient rounded to a double, while the value
/// rounds to 1000 or more, up to GB: the value and its unit.
pub open spec fn scaled_from(x: (nat, nat), unit: nat) -> ((nat, nat), nat)
    decreases 3 - unit,
{
    if unit < 3 && rounds_to_a_thousand(x) {
        scaled_from(to_double(x.0, x.1 * 1000), unit + 1)
    } else {
        (x, unit)
    }
}

/// A size in its unit: the double nearest to `bytes`, scaled as above.
pub open spec fn scaled(bytes: nat) -> ((nat, nat), nat) {
    scaled_from(to_double(bytes, 1), 0)
}

/// The value is below the double nearest to 9.95, which is
/// `2800676018271027 / 2^48`.
pub open spec fn below_nine_point_nine_five(x: (nat, nat)) -> bool {
    x.0 * pow2(48) < 2800676018271027 * x.1
}

pub open spec fn unit_name(unit: nat) -> Seq<char> {
    if unit == 0 {
        "bytes"@
    } else if unit == 1 {
        "KB"@
    } else if unit == 2 {
        "MB"@
    } else {
        "GB"@
    }
}

/// The ASCII digit for `d < 10`.
pub open spec fn digit(d: nat) -> char {
    ((48 + d) as u8) as char
}

/// `n` in decimal digits.
pub open spec fn decimal(n: nat) -> Seq<char>
    decreases n,
{
    if n < 10 {
        seq![digit(n)]
    } else {
        decimal(n / 10).push(digit(n % 10))
    }
}

/// The number shown for a value: tenths below 9.95 (with no trailing
/// ".0"), whole numbers from there on; both rounded ties to even.
pub open spec fn number_text(x: (nat, nat)) -> Seq<char> {
    if below_nine_point_nine_five(x) {
        let tenths = round_half_even(10 * x.0, x.1);
        if tenths % 10 == 0 {
            decimal(tenths / 10)
        } else {
            decimal(tenths / 10) + seq!['.', digit(tenths % 10)]
        }
    } else {
        decimal(round_half_even(x.0, x.1))
    }
}

/// "Empty", "512 bytes", "20 KB", "1.5 MB", "110 MB".
pub open spec fn size_text(bytes: nat) -> Seq<char> {
    if bytes == 0 {
        "Empty"@
    } else if scaled(bytes).1 == 0 {
        decimal(bytes) + " bytes"@
    } else {
        number_text(scaled(bytes).0) + " "@ + unit_name(scaled(bytes).1)
    }
}

/// Lengths in bits bound numbers: `2^(bit_len(n) - 1) <= n < 2^bit_len(n)`.
proof fn lemma_bit_len(n: nat)
    ensures
        n > 0 ==> pow2((bit_len(n) - 1) as nat) <= n,
        n < pow2(bit_len(n)),
        n > 0 ==> bit_len(n) >= 1,
    decreases n,
{
    lemma_pow2_pos(bit_len(n));
    if n > 0 {
        lemma_bit_len(n / 2);
        let l = bit_len(n / 2);
        lemma_pow2_unfold(l + 1);
        if n >= 2 {
            lemma_pow2_unfold(l);
        } else {
            assert(n / 2 == 0);
            assert(pow2(0) == 1) by {
                lemma2_to64();
            }
        }
    }
}

/// Powers of two grow with their exponent.
proof fn lemma_pow2_le(i: nat, j: nat)
    requires
        i <= j,
    ensures
        pow2(i) <= pow2(j),
{
    if i < j {
        lemma_pow2_strictly_increases(i, j);
    }
}

/// A number at most `2^p` has at most `p + 1` bits; one below `2^p`, at
/// most `p`.
proof fn lemma_bit_len_at_most(n: nat, p: nat)
    requires
        n <= pow2(p),
    ensures
        bit_len(n) <= p + 1,
        n < pow2(p) ==> bit_len(n) <= p,
{
    lemma_bit_len(n);
    if n > 0 && bit_len(n) > p + 1 {
        lemma_pow2_strictly_increases(p, (bit_len(n) - 1) as nat);
    }
    if n > 0 && n < pow2(p) && bit_len(n) > p {
        lemma_pow2_le(p, (bit_len(n) - 1) as nat);
    }
}

/// The powers of two that bound the numbers here.
proof fn lemma_pow2_128()
    ensures
        pow2(0) == 1,
        pow2(48) == 0x1_0000_0000_0000,
        pow2(54) == 0x40_0000_0000_0000,
        pow2(64) == 0x1_0000_0000_0000_0000,
        pow2(71) == 0x80_0000_0000_0000_0000,
        pow2(100) == 0x10_0000_0000_0000_0000_0000_0000,
        pow2(128) == 0x1_0000_0000_0000_0000 * 0x1_0000_0000_0000_0000,
{
    lemma2_to64();
    lemma_pow2_adds(32, 16);
    lemma_pow2_adds(32, 22);
    lemma_pow2_adds(16, 6);
    lemma_pow2_adds(64, 7);
    lemma_pow2_adds(32, 4);
    lemma_pow2_adds(64, 36);
    lemma_pow2_adds(64, 64);
}

/// `n / d < r` when `n < r * d`.
proof fn lemma_quotient_below(n: nat, d: nat, r: nat)
    requires
        d > 0,
        n < r * d,
    ensures
        n / d < r,
{
    assert(n / d < r) by (nonlinear_arith)
        requires
            d > 0,
            n < r * d,
    ;
}

/// Rounding a quotient gives at most one more than the quotient.
proof fn lemma_round_half_even_bound(n: nat, d: nat, r: nat)
    requires
        d > 0,
        n < r * d,
    ensures
        round_half_even(n, d) <= r,
{
    lemma_quotient_below(n, d, r);
}

fn bit_len_exec(n: u128) -> (r: u32)
    ensures
        r as nat == bit_len(n as nat),
        r <= 128,
{
    proof {
        lemma_pow2_128();
        lemma_bit_len_at_most(n as nat, 128);
    }
    let mut m: u128 = n;
    let mut r: u32 = 0;
    while m > 0
        invariant
            bit_len(n as nat) == r + bit_len(m as nat),
            bit_len(n as nat) <= 128,
        decreases m,
    {
        m = m / 2;
        r = r + 1;
    }
    r
}

fn pow2_exec(k: u32) -> (r: u128)
    requires
        k <= 127,
    ensures
        r as nat == pow2(k as nat),
{
    proof {
        lemma_pow2_128();
        assert(pow2(0) == 1) by {
            lemma2_to64();
        }
    }
    let mut r: u128 = 1;
    let mut i: u32 = 0;
    while i < k
        invariant
            i <= k <= 127,
            r as nat == pow2(i as nat),
            pow2(128) == 0x1_0000_0000_0000_0000 * 0x1_0000_0000_0000_0000,
        decreases k - i,
    {
        proof {
            lemma_pow2_unfold((i + 1) as nat);
            lemma_pow2_strictly_increases((i + 1) as nat, 128);
        }
        r = r * 2;
        i = i + 1;
    }
    r
}

fn round_half_even_exec(n: u128, d: u128) -> (r: u128)
    requires
        0 < d < 0x4000_0000_0000_0000_0000_0000_0000_0000,
        n < 0x8000_0000_0000_0000_0000_0000_0000_0000,
    ensures
        r == round_half_even(n as nat, d as nat),
{
    let q = n / d;
    let r = n % d;
    if 2 * r > d || (2 * r == d && q % 2 == 1) {
        q + 1
    } else {
        q
    }
}

/// The double nearest to `a / b`, for `1/2 <= a / b` and numbers of the
/// sizes that sizes come in.
fn to_double_exec(a: u128, b: u128) -> (r: (u128, u128))
    requires
        0 < b < 0x1_0000_0000_0000_0000,
        b <= 2 * a,
        a < 0x10_0000_0000_0000_0000_0000_0000,
    ensures
        (r.0 as nat, r.1 as nat) == to_double(a as nat, b as nat),
        1 <= r.1 <= pow2(54),
        r.0 <= pow2(bit_len(a as nat) + 1) || r.0 <= pow2(54),
{
    let la = bit_len_exec(a);
    let lb = bit_len_exec(b);
    proof {
        lemma_bit_len(a as nat);
        lemma_bit_len(b as nat);
        lemma_pow2_128();
        lemma2_to64();
        lemma_pow2_adds(64, 36);
        lemma_bit_len_at_most(a as nat, 100);
        lemma_bit_len_at_most(b as nat, 64);
        // b <= 2a < 2^(la + 1), so b has at most la + 1 bits.
        lemma_pow2_unfold((la + 1) as nat);
        lemma_bit_len_at_most(b as nat, (la + 1) as nat);
    }
    let ghost k: int = la - lb;
    let at_least = if la >= lb {
        let p = pow2_exec(la - lb);
        proof {
            lemma_pow2_pos((la - lb) as nat);
            lemma_pow2_adds(lb as nat, (la - lb) as nat);
            lemma_pow2_le(la as nat, 100);
            assert(b * p < pow2(lb as nat) * p) by (nonlinear_arith)
                requires
                    b < pow2(lb as nat),
                    p > 0,
            ;
        }
        a >= b * p
    } else {
        let p = pow2_exec(lb - la);
        proof {
            lemma_pow2_adds(la as nat, (lb - la) as nat);
            lemma_pow2_pos((lb - la) as nat);
            assert(a * p < pow2(la as nat) * p) by (nonlinear_arith)
                requires
                    a < pow2(la as nat),
                    p > 0,
            ;
        }
        a * p >= b
    };
    assert(at_least == at_least_pow2(a as nat, b as nat, k));
    let e: i32 = if at_least {
        la as i32 - lb as i32
    } else {
        la as i32 - lb as i32 - 1
    };
    assert(e == binary_exponent(a as nat, b as nat));
    if e >= 52 {
        let s = (e - 52) as u32;
        let p = pow2_exec(s);
        proof {
            lemma_pow2_adds(lb as nat, s as nat);
            lemma_pow2_adds((lb - 1) as nat, s as nat);
            lemma_pow2_adds(54, (lb - 1 + s) as nat);
            lemma_pow2_le(la as nat, (54 + lb - 1 + s) as nat);
            lemma_pow2_le((lb + s) as nat, 100);
            lemma_pow2_pos(s as nat);
            assert(b * p < pow2((lb + s) as nat)) by (nonlinear_arith)
                requires
                    b < pow2(lb as nat),
                    p == pow2(s as nat),
                    p > 0,
                    pow2((lb + s) as nat) == pow2(lb as nat) * pow2(s as nat),
            ;
            assert(b * p >= pow2((lb - 1 + s) as nat)) by (nonlinear_arith)
                requires
                    b >= pow2((lb - 1) as nat),
                    p == pow2(s as nat),
                    pow2((lb - 1 + s) as nat) == pow2((lb - 1) as nat) * pow2(s as nat),
            ;
            assert(a < pow2(54) * (b * p)) by (nonlinear_arith)
                requires
                    a < pow2(la as nat),
                    pow2(la as nat) <= pow2((54 + lb - 1 + s) as nat),
                    pow2((54 + lb - 1 + s) as nat) == pow2(54) * pow2((lb - 1 + s) as nat),
                    b * p >= pow2((lb - 1 + s) as nat),
            ;
            lemma_round_half_even_bound(a as nat, (b * p) as nat, pow2(54));
        }
        let m = round_half_even_exec(a, b * p);
        proof {
            lemma_pow2_adds(54, s as nat);
            lemma_pow2_le((54 + s) as nat, (la + 1) as nat);
            assert(m * p <= pow2((54 + s) as nat)) by (nonlinear_arith)
                requires
                    m <= pow2(54),
                    p == pow2(s as nat),
                    pow2((54 + s) as nat) == pow2(54) * pow2(s as nat),
            ;
            lemma_pow2_le((la + 1) as nat, 101);
            lemma_pow2_adds(64, 37);
        }
        (m * p, 1)
    } else {
        let s = (52 - e) as u32;
        let p = pow2_exec(s);
        proof {
            lemma_pow2_pos(s as nat);
            lemma_pow2_adds(la as nat, s as nat);
            lemma_pow2_adds((lb - 1) as nat, 54);
            lemma_pow2_le((la + s) as nat, (lb - 1 + 54) as nat);
            lemma_pow2_le((lb - 1 + 54) as nat, 117);
            lemma_pow2_adds(64, 53);
            lemma_pow2_adds(117, 10);
            lemma_pow2_le(s as nat, 54);
            lemma_pow2_adds(54, 10);
            assert(a * p < pow2((la + s) as nat)) by (nonlinear_arith)
                requires
                    a < pow2(la as nat),
                    p == pow2(s as nat),
                    p > 0,
                    pow2((la + s) as nat) == pow2(la as nat) * pow2(s as nat),
            ;
            assert(a * p < pow2(54) * b) by (nonlinear_arith)
                requires
                    a * p < pow2((la + s) as nat),
                    pow2((la + s) as nat) <= pow2((lb - 1 + 54) as nat),
                    pow2((lb - 1 + 54) as nat) == pow2((lb - 1) as nat) * pow2(54),
                    b >= pow2((lb - 1) as nat),
            ;
            lemma_round_half_even_bound((a * p) as nat, b as nat, pow2(54));
        }
        let m = round_half_even_exec(a * p, b);
        (m, p)
    }
}

fn digit_exec(d: u128) -> (c: char)
    requires
        d < 10,
    ensures
        c == digit(d as nat),
{
    let b: u8 = 48 + (d as u8);
    b as char
}

/// Appends `n` in decimal.
pub fn push_decimal(s: &mut String, n: u128)
    ensures
        final(s)@ == old(s)@ + decimal(n as nat),
    decreases n,
{
    if n >= 10 {
        push_decimal(s, n / 10);
    }
    let c = digit_exec(n % 10);
    push_char(s, c);
    proof {
        if n < 10 {
            assert(decimal(n as nat) =~= seq![digit(n as nat)]);
        }
    }
}

/// "Empty", "512 bytes", "20 KB", "1.5 MB", "110 MB": one decimal below 10,
/// none above, and no trailing ".0".
pub fn size(bytes: u64) -> (r: String)
    ensures
        r@ == size_text(bytes as nat),
{
    if bytes == 0 {
        return "Empty".to_owned();
    }
    proof {
        lemma_pow2_128();
        lemma2_to64();
        lemma_pow2_adds(64, 36);
    }
    let mut x = to_double_exec(bytes as u128, 1);
    let mut unit: u32 = 0;
    proof {
        lemma_bit_len_at_most(bytes as nat, 64);
        lemma_pow2_le((bit_len(bytes as nat) + 1) as nat, 65);
        lemma_pow2_le(54, 65);
        lemma_pow2_le(65, 71);
    }
    // Divide while the number would print as 1000 or more, so 999,999 bytes
    // reads "1 MB" rather than "1000 KB".
    while unit < 3 && 2 * x.0 >= 1999 * x.1
        invariant
            unit <= 3,
            scaled_from((x.0 as nat, x.1 as nat), unit as nat) == scaled(bytes as nat),
            1 <= x.1 <= pow2(54),
            x.0 <= pow2((65 + 2 * unit) as nat),
            x.0 <= pow2(71),
            pow2(54) == 0x40_0000_0000_0000,
            pow2(71) == 0x80_0000_0000_0000_0000,
            pow2(100) == 0x10_0000_0000_0000_0000_0000_0000,
        decreases 3 - unit,
    {
        proof {
            lemma_pow2_le((65 + 2 * unit) as nat, 71);
            lemma_pow2_le(71, 100);
            lemma_pow2_strictly_increases(71, 100);
        }
        let next = to_double_exec(x.0, x.1 * 1000);
        proof {
            lemma_bit_len_at_most(x.0 as nat, (65 + 2 * unit) as nat);
            lemma_pow2_le((bit_len(x.0 as nat) + 1) as nat, (65 + 2 * (unit + 1)) as nat);
            lemma_pow2_le(54, (65 + 2 * (unit + 1)) as nat);
            lemma_pow2_le((65 + 2 * (unit + 1)) as nat, 71);
        }
        x = next;
        unit = unit + 1;
    }
    assert(scaled(bytes as nat) == ((x.0 as nat, x.1 as nat), unit as nat));
    let mut out = String::new();
    if unit == 0 {
        push_decimal(&mut out, bytes as u128);
        push_str(&mut out, " bytes");
        return out;
    }
    proof {
        lemma_pow2_le((65 + 2 * unit) as nat, 71);
        lemma_pow2_adds(71, 48);
        lemma_pow2_le(119, 126);
        lemma_pow2_adds(64, 62);
        lemma2_to64();
        assert(x.0 * pow2(48) <= pow2(119)) by (nonlinear_arith)
            requires
                x.0 <= pow2(71),
                pow2(119) == pow2(71) * pow2(48),
        ;
    }
    let below = x.0 * 0x1_0000_0000_0000 < 2800676018271027 * x.1;
    if below {
        let tenths = round_half_even_exec(10 * x.0, x.1);
        push_decimal(&mut out, tenths / 10);
        if tenths % 10 != 0 {
            push_char(&mut out, '.');
            push_char(&mut out, digit_exec(tenths % 10));
            assert(out@ =~= decimal((tenths / 10) as nat) + seq!['.', digit((tenths % 10) as nat)]);
        }
    } else {
        push_decimal(&mut out, round_half_even_exec(x.0, x.1));
    }
    push_str(&mut out, " ");
    if unit == 1 {
        push_str(&mut out, "KB");
    } else if unit == 2 {
        push_str(&mut out, "MB");
    } else {
        push_str(&mut out, "GB");
    }
    out
}

/// The search for a unit stops below GB only where the value rounds under
/// a thousand.
proof fn lemma_scaled_stops(x: (nat, nat), unit: nat)
    requires
        unit <= 3,
    ensures
        unit <= scaled_from(x, unit).1 <= 3,
        scaled_from(x, unit).1 < 3 ==> !rounds_to_a_thousand(scaled_from(x, unit).0),
    decreases 3 - unit,
{
    if unit < 3 && rounds_to_a_thousand(x) {
        lemma_scaled_stops(to_double(x.0, x.1 * 1000), unit + 1);
    }
}

/// Comparing `a / b` with `2^k` is comparing `a * 2^c` with `b * 2^(k + c)`.
proof fn lemma_at_least_pow2_scaled(a: nat, b: nat, k: int, c: nat)
    requires
        c + k >= 0,
    ensures
        at_least_pow2(a, b, k) <==> a * pow2(c) >= b * pow2((k + c) as nat),
{
    lemma_pow2_pos(c);
    if k >= 0 {
        lemma_pow2_adds(k as nat, c);
        let (x, y, m) = (a as int, (b * pow2(k as nat)) as int, pow2(c) as int);
        assert(x >= y <==> x * m >= y * m) by (nonlinear_arith)
            requires
                m > 0,
        ;
        assert(b * pow2((k + c) as nat) == b * pow2(k as nat) * pow2(c)) by (nonlinear_arith)
            requires
                pow2((k + c) as nat) == pow2(k as nat) * pow2(c),
        ;
    } else {
        lemma_pow2_adds((-k) as nat, (k + c) as nat);
        lemma_pow2_pos((k + c) as nat);
        let (x, y, m) = ((a * pow2((-k) as nat)) as int, b as int, pow2((k + c) as nat) as int);
        assert(x >= y <==> x * m >= y * m) by (nonlinear_arith)
            requires
                m > 0,
        ;
        assert(a * pow2(c) == a * pow2((-k) as nat) * pow2((k + c) as nat)) by (nonlinear_arith)
            requires
                pow2(c) == pow2((-k) as nat) * pow2((k + c) as nat),
        ;
    }
}

/// The binary exponent is what it says: `2^e <= a / b < 2^(e + 1)`.
pub proof fn binary_exponent_brackets(a: nat, b: nat)
    requires
        a > 0,
        b > 0,
    ensures
        at_least_pow2(a, b, binary_exponent(a, b)),
        !at_least_pow2(a, b, binary_exponent(a, b) + 1),
{
    lemma_bit_len(a);
    lemma_bit_len(b);
    let la = bit_len(a);
    let lb = bit_len(b);
    let k = la - lb;
    let c = lb + 1;
    lemma_at_least_pow2_scaled(a, b, k - 1, c);
    lemma_at_least_pow2_scaled(a, b, k, c);
    lemma_at_least_pow2_scaled(a, b, k + 1, c);
    lemma_pow2_adds((la - 1) as nat, (lb + 1) as nat);
    lemma_pow2_adds(la, lb);
    lemma_pow2_adds(la, 1);
    lemma_pow2_adds(la + lb, 1);
    lemma_pow2_adds(la, lb + 1);
    lemma_pow2_adds((lb - 1) as nat, la + 2);
    lemma_pow2_pos(la);
    lemma_pow2_pos(lb + 1);
    assert(a * pow2(c) >= b * pow2((k - 1 + c) as nat)) by (nonlinear_arith)
        requires
            a >= pow2((la - 1) as nat),
            b < pow2(lb),
            pow2(c) > 0,
            pow2(la) > 0,
            (k - 1 + c) as nat == la,
            pow2(((la - 1) + (lb + 1)) as nat) == pow2((la - 1) as nat) * pow2(c),
            c == lb + 1,
            pow2(la + lb) == pow2(la) * pow2(lb),
            ((la - 1) + (lb + 1)) as nat == la + lb,
    ;
    assert(a * pow2(c) < b * pow2((k + 1 + c) as nat)) by (nonlinear_arith)
        requires
            a < pow2(la),
            b >= pow2((lb - 1) as nat),
            pow2(c) > 0,
            (k + 1 + c) as nat == la + 2,
            c == lb + 1,
            pow2(la + (lb + 1)) == pow2(la) * pow2(lb + 1),
            pow2(((lb - 1) + (la + 2)) as nat) == pow2((lb - 1) as nat) * pow2(la + 2),
            ((lb - 1) + (la + 2)) as nat == la + (lb + 1),
    ;
}

/// Below GB, a size never reads as a thousand of its unit: the number shown,
/// whole or in tenths, is at most 999 or 999.9.
pub proof fn never_a_thousand_of_a_unit(bytes: nat)
    requires
        bytes > 0,
        scaled(bytes).1 < 3,
        scaled(bytes).0.1 > 0,
    ensures
        round_half_even(scaled(bytes).0.0, scaled(bytes).0.1) <= 999,
        round_half_even(10 * scaled(bytes).0.0, scaled(bytes).0.1) <= 9999,
{
    lemma_scaled_stops(to_double(bytes, 1), 0);
    let n = scaled(bytes).0.0;
    let d = scaled(bytes).0.1;
    assert(2 * n < 1999 * d);
    let q = n / d;
    let r = n % d;
    assert(n == d * q + r) by (nonlinear_arith)
        requires
            d > 0,
            q == n / d,
            r == n % d,
    ;
    assert(q <= 999) by (nonlinear_arith)
        requires
            n == d * q + r,
            0 <= r,
            2 * n < 1999 * d,
            d > 0,
    ;
    assert(q < 999 || 2 * r < d) by (nonlinear_arith)
        requires
            n == d * q + r,
            0 <= r < d,
            2 * n < 1999 * d,
            q <= 999,
    ;
    let q10 = (10 * n) / d;
    let r10 = (10 * n) % d;
    assert(10 * n == d * q10 + r10) by (nonlinear_arith)
        requires
            d > 0,
            q10 == (10 * n) / d,
            r10 == (10 * n) % d,
    ;
    assert(q10 < 9999 || (q10 == 9999 && 2 * r10 < d)) by (nonlinear_arith)
        requires
            10 * n == d * q10 + r10,
            0 <= r10 < d,
            2 * n < 1999 * d,
    ;
}

/// A double's denominator is never zero.
proof fn lemma_to_double_denominator(a: nat, b: nat)
    ensures
        to_double(a, b).1 > 0,
{
    let e = binary_exponent(a, b);
    if e < 52 {
        lemma_pow2_pos((52 - e) as nat);
    }
}

proof fn lemma_scaled_from_denominator(x: (nat, nat), unit: nat)
    requires
        x.1 > 0,
    ensures
        scaled_from(x, unit).0.1 > 0,
    decreases 3 - unit,
{
    if unit < 3 && rounds_to_a_thousand(x) {
        lemma_to_double_denominator(x.0, x.1 * 1000);
        lemma_scaled_from_denominator(to_double(x.0, x.1 * 1000), unit + 1);
    }
}

/// Rounding ties to even gives the nearest whole number: at most half away,
/// and an even one when exactly half away.
proof fn lemma_round_half_even_nearest(n: nat, d: nat)
    requires
        d > 0,
    ensures
        -(d as int) <= 2 * (n - round_half_even(n, d) * d) <= d as int,
        (2 * (n - round_half_even(n, d) * d) == d || 2 * (round_half_even(n, d) * d - n) == d)
            ==> round_half_even(n, d) % 2 == 0,
{
    let q = n / d;
    let r = n % d;
    assert(n == d * q + r && 0 <= r < d) by (nonlinear_arith)
        requires
            d > 0,
            q == n / d,
            r == n % d,
    ;
    let t = round_half_even(n, d);
    if t == q + 1 {
        assert(t * d == q * d + d) by (nonlinear_arith)
            requires
                t == q + 1,
        ;
    } else {
        assert(t == q);
    }
    assert(d * q == q * d) by (nonlinear_arith);
}

/// The digits of a number of tenths: its whole part, then `.` and the tenth
/// unless that is 0.
pub open spec fn tenths_shown(t: nat) -> Seq<char> {
    if t % 10 == 0 {
        decimal(t / 10)
    } else {
        decimal(t / 10) + seq!['.', digit(t % 10)]
    }
}

/// In every unit above bytes, a value below 9.95 is shown in tenths: the
/// number of tenths nearest to it (ties to the even one), as "1.2" or "5",
/// then the unit; so 1,200 bytes read "1.2 KB", whatever the unit.
pub proof fn small_values_are_shown_in_tenths(bytes: nat)
    requires
        bytes > 0,
        scaled(bytes).1 >= 1,
        scaled(bytes).0.0 * 0x1_0000_0000_0000 < 2800676018271027 * scaled(bytes).0.1,
    ensures
        exists|t: nat|
            #![trigger tenths_shown(t)]
            {
                let n = 10 * scaled(bytes).0.0;
                let d = scaled(bytes).0.1;
                &&& -(d as int) <= 2 * (n - t * d) <= d as int
                &&& (2 * (n - t * d) == d || 2 * (t * d - n) == d) ==> t % 2 == 0
                &&& size_text(bytes) == tenths_shown(t) + " "@ + unit_name(scaled(bytes).1)
            },
{
    lemma_pow2_128();
    lemma_to_double_denominator(bytes, 1);
    lemma_scaled_from_denominator(to_double(bytes, 1), 0);
    let x = scaled(bytes).0;
    let t = round_half_even(10 * x.0, x.1);
    lemma_round_half_even_nearest(10 * x.0, x.1);
    assert(below_nine_point_nine_five(x));
    assert(number_text(x) == tenths_shown(t));
}

} // verus!
