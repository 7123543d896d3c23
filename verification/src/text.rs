//! Building the plain-text reports: decimal numbers, fixed-point figures and padded columns.
use vstd::prelude::*;
use vstd::string::*;

verus! {

/// std's `String::push`: appends one character.
#[verifier::external_body]
pub(crate) fn push_char(s: &mut String, c: char)
    ensures
        final(s)@ == old(s)@.push(c),
{
    s.push(c);
}

/// The character for a decimal digit.
pub open spec fn digit_char(d: int) -> char {
    (48 + d) as char
}

/// The decimal rendering of `n`, without leading zeros.
pub open spec fn decimal(n: nat) -> Seq<char>
    decreases n,
{
    if n < 10 {
        seq![digit_char(n as int)]
    } else {
        decimal(n / 10).push(digit_char((n % 10) as int))
    }
}

/// `n` rendered with exactly `width` digits, zero-filled on the left (for `n < 10^width`).
pub open spec fn zero_padded(n: nat, width: nat) -> Seq<char>
    decreases width,
{
    if width == 0 {
        Seq::empty()
    } else {
        zero_padded(n / 10, (width - 1) as nat).push(digit_char((n % 10) as int))
    }
}

/// `10^k`.
pub open spec fn pow10(k: nat) -> nat
    decreases k,
{
    if k == 0 {
        1
    } else {
        10 * pow10((k - 1) as nat)
    }
}

/// `2^k`.
pub open spec fn pow2n(k: nat) -> nat
    decreases k,
{
    if k == 0 {
        1
    } else {
        2 * pow2n((k - 1) as nat)
    }
}

/// The integer nearest to `a / b`, ties to the even one.
pub open spec fn round_half_even(a: nat, b: nat) -> nat
    recommends
        b > 0,
{
    let q = a / b;
    let r = a % b;
    if 2 * r > b || (2 * r == b && q % 2 == 1) {
        q + 1
    } else {
        q
    }
}

/// `floor(log2(n))`, for `n >= 1`.
pub open spec fn log2_floor(n: nat) -> nat
    decreases n,
{
    if n < 2 {
        0
    } else {
        1 + log2_floor(n / 2)
    }
}

/// For `0 < a < b`, the fewest doublings of `a` that reach `b`.
pub open spec fn doublings_to_reach(a: nat, b: nat) -> nat
    decreases (if a >= b { 0 } else { b - a }),
{
    if a == 0 || a >= b {
        0
    } else {
        1 + doublings_to_reach(2 * a, b)
    }
}

/// `floor(log2(a / b))`, for `a, b > 0`.
pub open spec fn ratio_exponent(a: nat, b: nat) -> int {
    if a >= b {
        log2_floor(a / b) as int
    } else {
        -(doublings_to_reach(a, b) as int)
    }
}

/// The scale of the 53-bit significand of `a / b` as a double: its value is the significand
/// divided by `2^t` (multiplied by `2^-t` when `t` is negative).
pub open spec fn binary64_shift(a: nat, b: nat) -> int {
    52 - ratio_exponent(a, b)
}

/// The significand of the double nearest to `a / b` (ties to even), at `binary64_shift`.
pub open spec fn binary64_significand(a: nat, b: nat) -> nat {
    let t = binary64_shift(a, b);
    if t >= 0 {
        round_half_even(a * pow2n(t as nat), b)
    } else {
        round_half_even(a, b * pow2n((-t) as nat))
    }
}

/// The double nearest to the integer `n`, as `n as f64` gives it.
pub open spec fn binary64_of_nat(n: nat) -> nat {
    if n == 0 {
        0
    } else {
        let t = binary64_shift(n, 1);
        if t >= 0 {
            n
        } else {
            binary64_significand(n, 1) * pow2n((-t) as nat)
        }
    }
}

/// The double nearest to `a / b`, scaled by `10^k` and rounded to an integer, ties to even:
/// the digits that `{:.k}` prints for it.
pub open spec fn scaled_binary64_ratio(a: nat, b: nat, k: nat) -> nat {
    if a == 0 {
        0
    } else {
        let t = binary64_shift(a, b);
        let m = binary64_significand(a, b);
        if t >= 0 {
            round_half_even(m * pow10(k), pow2n(t as nat))
        } else {
            m * pow2n((-t) as nat) * pow10(k)
        }
    }
}

/// The double nearest to `a / b` rendered with `k` decimals (k >= 1), as `{:.k}` prints it.
pub open spec fn ratio_fixed_point(a: nat, b: nat, k: nat) -> Seq<char> {
    let v = scaled_binary64_ratio(a, b, k);
    decimal(v / pow10(k)) + seq!['.'] + zero_padded(v % pow10(k), k)
}

/// `n as f64 / d as f64` rendered with `k` decimals, as `{:.k}` prints it.
pub open spec fn fixed_point(n: nat, d: nat, k: nat) -> Seq<char> {
    ratio_fixed_point(binary64_of_nat(n), binary64_of_nat(d), k)
}

/// `part as f64 * 100.0 / whole as f64` rendered with one decimal, as `{:.1}` prints it.
pub open spec fn percent_figure(part: nat, whole: nat) -> Seq<char> {
    ratio_fixed_point(binary64_of_nat(binary64_of_nat(part) * 100), binary64_of_nat(whole), 1)
}

/// `s` right-aligned in a column of `width` characters.
pub open spec fn right_aligned(s: Seq<char>, width: nat) -> Seq<char> {
    if s.len() >= width {
        s
    } else {
        Seq::new((width - s.len()) as nat, |i: int| ' ') + s
    }
}

/// `s` left-aligned in a column of `width` characters.
pub open spec fn left_aligned(s: Seq<char>, width: nat) -> Seq<char> {
    if s.len() >= width {
        s
    } else {
        s + Seq::new((width - s.len()) as nat, |i: int| ' ')
    }
}

fn digit(d: u64) -> (c: char)
    requires
        d < 10,
    ensures
        c == digit_char(d as int),
{
    ((48 + d) as u8) as char
}

/// Append the decimal rendering of `n`.
pub fn push_decimal(s: &mut String, n: u64)
    ensures
        final(s)@ == old(s)@ + decimal(n as nat),
    decreases n,
{
    if n >= 10 {
        push_decimal(s, n / 10);
    }
    push_char(s, digit(n % 10));
    proof {
        assert(decimal(n as nat) =~= if n < 10 {
            seq![digit_char(n as int)]
        } else {
            decimal((n / 10) as nat).push(digit_char((n % 10) as int))
        });
    }
}

/// The decimal rendering of `n`, as a new string.
pub fn decimal_string(n: u64) -> (r: String)
    ensures
        r@ == decimal(n as nat),
{
    let mut s = String::new();
    push_decimal(&mut s, n);
    assert(s@ =~= decimal(n as nat));
    s
}

/// Append `n` zero-filled to exactly `width` digits.
fn push_zero_padded(s: &mut String, n: u64, width: u32)
    ensures
        final(s)@ == old(s)@ + zero_padded(n as nat, width as nat),
    decreases width,
{
    if width > 0 {
        push_zero_padded(s, n / 10, width - 1);
        push_char(s, digit(n % 10));
    }
    assert(old(s)@ + zero_padded(n as nat, width as nat) =~= final(s)@) by {
        if width > 0 {
            assert(zero_padded(n as nat, width as nat) == zero_padded(
                (n / 10) as nat,
                (width - 1) as nat,
            ).push(digit_char((n % 10) as int)));
        }
    }
}

proof fn lemma_pow10_positive(k: nat)
    ensures
        pow10(k) >= 1,
    decreases k,
{
    if k > 0 {
        lemma_pow10_positive((k - 1) as nat);
    }
}

/// Append the decimal rendering of a 128-bit `n`.
pub fn push_decimal_wide(s: &mut String, n: u128)
    ensures
        final(s)@ == old(s)@ + decimal(n as nat),
    decreases n,
{
    if n >= 10 {
        push_decimal_wide(s, n / 10);
    }
    push_char(s, digit((n % 10) as u64));
    proof {
        assert(decimal(n as nat) =~= if n < 10 {
            seq![digit_char(n as int)]
        } else {
            decimal((n / 10) as nat).push(digit_char((n % 10) as int))
        });
    }
}

proof fn lemma_pow2n_positive(k: nat)
    ensures
        pow2n(k) >= 1,
    decreases k,
{
    if k > 0 {
        lemma_pow2n_positive((k - 1) as nat);
    }
}

proof fn lemma_pow2n_adds(a: nat, b: nat)
    ensures
        pow2n(a + b) == pow2n(a) * pow2n(b),
    decreases b,
{
    if b > 0 {
        let c = (b - 1) as nat;
        lemma_pow2n_adds(a, c);
        let x = pow2n(a);
        let y = pow2n(c);
        assert(pow2n(a + c + 1) == 2 * pow2n(a + c));
        assert(pow2n(c + 1) == 2 * y);
        assert(a + b == a + c + 1);
        assert(pow2n(b) == 2 * y);
        assert(pow2n(a + b) == 2 * (x * y));
        assert(pow2n(a + b) == x * pow2n(b)) by (nonlinear_arith)
            requires
                pow2n(a + b) == 2 * (x * y),
                pow2n(b) == 2 * y,
        ;
    } else {
        assert(pow2n(0) == 1);
        assert(a + b == a);
    }
}

proof fn lemma_pow2n_monotonic(a: nat, b: nat)
    requires
        a <= b,
    ensures
        pow2n(a) <= pow2n(b),
    decreases b,
{
    if b > a {
        lemma_pow2n_monotonic(a, (b - 1) as nat);
        lemma_pow2n_positive((b - 1) as nat);
    }
}

/// Powers of two are ordered as their exponents are.
proof fn lemma_pow2n_order(a: nat, b: nat)
    requires
        pow2n(a) < pow2n(b),
    ensures
        a < b,
{
    if a >= b {
        lemma_pow2n_monotonic(b, a);
    }
}

proof fn lemma_pow2n_constants()
    ensures
        pow2n(22) == 0x40_0000,
        pow2n(53) == 0x20_0000_0000_0000,
        pow2n(66) == 0x4_0000_0000_0000_0000,
        pow2n(74) == 0x400_0000_0000_0000_0000,
        pow2n(75) == 0x800_0000_0000_0000_0000,
        pow2n(126) == 0x4000_0000_0000_0000_0000_0000_0000_0000,
{
    reveal_with_fuel(pow2n, 17);
    assert(pow2n(2) == 4);
    assert(pow2n(5) == 32);
    assert(pow2n(6) == 64);
    assert(pow2n(10) == 1024);
    assert(pow2n(11) == 2048);
    assert(pow2n(14) == 0x4000);
    assert(pow2n(16) == 0x1_0000);
    lemma_pow2n_adds(16, 16);
    lemma_pow2n_adds(32, 32);
    lemma_pow2n_adds(16, 6);
    lemma_pow2n_adds(32, 16);
    lemma_pow2n_adds(48, 5);
    lemma_pow2n_adds(64, 2);
    lemma_pow2n_adds(64, 10);
    lemma_pow2n_adds(64, 11);
    assert(pow2n(32) == 0x1_0000_0000);
    assert(pow2n(64) == 0x1_0000_0000_0000_0000);
    lemma_pow2n_adds(64, 32);
    assert(pow2n(96) == 0x1_0000_0000_0000_0000_0000_0000);
    lemma_pow2n_adds(96, 16);
    assert(pow2n(112) == 0x1_0000_0000_0000_0000_0000_0000_0000);
    lemma_pow2n_adds(112, 14);
}

proof fn lemma_log2_floor_bounds(n: nat)
    requires
        n >= 1,
    ensures
        pow2n(log2_floor(n)) <= n < pow2n(log2_floor(n) + 1),
        log2_floor(n) < n,
    decreases n,
{
    if n >= 2 {
        lemma_log2_floor_bounds(n / 2);
        let l = log2_floor(n / 2);
        assert(log2_floor(n) == l + 1);
        assert(pow2n(l + 1) == 2 * pow2n(l));
        assert(pow2n(l + 2) == 2 * pow2n(l + 1));
    }
}

proof fn lemma_doublings_bounds(a: nat, b: nat)
    requires
        0 < a < b,
    ensures
        doublings_to_reach(a, b) >= 1,
        doublings_to_reach(a, b) <= b - a,
        a * pow2n(doublings_to_reach(a, b)) >= b,
        a * pow2n((doublings_to_reach(a, b) - 1) as nat) < b,
    decreases b - a,
{
    let s = doublings_to_reach(a, b);
    if 2 * a >= b {
        assert(doublings_to_reach(2 * a, b) == 0);
        assert(s == 1);
        assert(pow2n(0) == 1);
        assert(pow2n(1) == 2 * pow2n(0));
        assert(a * pow2n(s) == 2 * a) by (nonlinear_arith)
            requires
                pow2n(s) == 2,
        ;
    } else {
        lemma_doublings_bounds(2 * a, b);
        let s2 = doublings_to_reach(2 * a, b);
        assert(s == s2 + 1);
        assert(pow2n(s) == 2 * pow2n(s2));
        assert(a * pow2n(s) == (2 * a) * pow2n(s2)) by (nonlinear_arith)
            requires
                pow2n(s) == 2 * pow2n(s2),
        ;
        assert(pow2n(s2) == 2 * pow2n((s2 - 1) as nat));
        assert(a * pow2n(s2) == (2 * a) * pow2n((s2 - 1) as nat)) by (nonlinear_arith)
            requires
                pow2n(s2) == 2 * pow2n((s2 - 1) as nat),
        ;
    }
}

proof fn lemma_round_half_even_bounds(a: nat, b: nat, c: nat)
    requires
        b > 0,
        a < c * b,
    ensures
        a / b <= round_half_even(a, b) <= a / b + 1,
        a / b < c,
        round_half_even(a, b) <= c,
{
    assert((a / b) * b <= a) by (nonlinear_arith)
        requires
            b > 0,
    ;
    assert(a / b < c) by (nonlinear_arith)
        requires
            (a / b) * b <= a,
            a < c * b,
            b > 0,
    ;
}

/// Where the significand of `a / b` stands: below `2^53` times the unit of its last place.
proof fn lemma_binary64_scale(a: nat, b: nat)
    requires
        a > 0,
        b > 0,
    ensures
        binary64_shift(a, b) >= 0 ==> a * pow2n(binary64_shift(a, b) as nat) < pow2n(53) * b,
        binary64_shift(a, b) < 0 ==> a < pow2n(53) * (b * pow2n((-binary64_shift(a, b)) as nat)),
        binary64_shift(a, b) < 0 ==> pow2n((52 - binary64_shift(a, b)) as nat) <= a,
{
    if a >= b {
        let q = a / b;
        assert(q >= 1) by (nonlinear_arith)
            requires
                a >= b,
                b > 0,
                q == a / b,
        ;
        let l = log2_floor(q);
        lemma_log2_floor_bounds(q);
        assert(a < (q + 1) * b) by (nonlinear_arith)
            requires
                q == a / b,
                b > 0,
        ;
        assert(a < pow2n(l + 1) * b) by (nonlinear_arith)
            requires
                a < (q + 1) * b,
                q + 1 <= pow2n(l + 1),
                b > 0,
        ;
        assert(q <= a) by (nonlinear_arith)
            requires
                q == a / b,
                b >= 1,
        ;
        if l <= 52 {
            let t = (52 - l) as nat;
            lemma_pow2n_adds(l + 1, t);
            lemma_pow2n_positive(t);
            assert(a * pow2n(t) < pow2n(53) * b) by (nonlinear_arith)
                requires
                    a < pow2n(l + 1) * b,
                    pow2n(l + 1) * pow2n(t) == pow2n(53),
                    pow2n(t) >= 1,
            ;
            lemma_pow2n_positive(t);
        } else {
            let u = (l - 52) as nat;
            lemma_pow2n_adds(53, u);
            assert(a < pow2n(53) * (b * pow2n(u))) by (nonlinear_arith)
                requires
                    a < pow2n(l + 1) * b,
                    pow2n(53) * pow2n(u) == pow2n(l + 1),
            ;
        }
    } else {
        let s = doublings_to_reach(a, b);
        lemma_doublings_bounds(a, b);
        let t = (52 + s) as nat;
        lemma_pow2n_adds((s - 1) as nat, 53);
        lemma_pow2n_positive(53);
        assert(pow2n(t) == pow2n((s - 1) as nat) * pow2n(53));
        assert(a * pow2n(t) < pow2n(53) * b) by (nonlinear_arith)
            requires
                a * pow2n((s - 1) as nat) < b,
                pow2n(t) == pow2n((s - 1) as nat) * pow2n(53),
                pow2n(53) >= 1,
        ;
    }
}

fn round_half_even_exec(a: u128, b: u128) -> (r: u128)
    requires
        b > 0,
        a < 0x8000_0000_0000_0000_0000_0000_0000_0000,
    ensures
        r == round_half_even(a as nat, b as nat),
{
    let q = a / b;
    let r = a % b;
    proof {
        assert(q <= a) by (nonlinear_arith)
            requires
                q == a / b,
                b > 0,
        ;
    }
    if r > b - r || (r == b - r && q % 2 == 1) {
        q + 1
    } else {
        q
    }
}

fn log2_floor_exec(n: u128) -> (r: u128)
    requires
        n >= 1,
    ensures
        r == log2_floor(n as nat),
{
    let mut m = n;
    let mut l: u128 = 0;
    proof {
        lemma_log2_floor_bounds(n as nat);
    }
    while m >= 2
        invariant
            1 <= m <= n,
            l + log2_floor(m as nat) == log2_floor(n as nat),
            log2_floor(n as nat) < n,
        decreases m,
    {
        m = m / 2;
        l = l + 1;
    }
    l
}

fn doublings_exec(a: u128, b: u128) -> (r: u128)
    requires
        0 < a < b,
        b <= 0x4_0000_0000_0000_0000,
    ensures
        r == doublings_to_reach(a as nat, b as nat),
{
    let mut x = a;
    let mut s: u128 = 0;
    proof {
        lemma_doublings_bounds(a as nat, b as nat);
    }
    while x < b
        invariant
            0 < x,
            x < 2 * b,
            b <= 0x4_0000_0000_0000_0000,
            s + doublings_to_reach(x as nat, b as nat) == doublings_to_reach(a as nat, b as nat),
            doublings_to_reach(a as nat, b as nat) <= b,
        decreases 2 * b - x,
    {
        x = 2 * x;
        s = s + 1;
    }
    s
}

fn pow2_exec(k: u128) -> (r: u128)
    requires
        k <= 126,
    ensures
        r == pow2n(k as nat),
{
    let mut p: u128 = 1;
    let mut i: u128 = 0;
    while i < k
        invariant
            i <= k <= 126,
            p == pow2n(i as nat),
        decreases k - i,
    {
        proof {
            lemma_pow2n_monotonic((i + 1) as nat, 126);
            lemma_pow2n_constants();
        }
        p = 2 * p;
        i = i + 1;
    }
    p
}

/// The significand of the double nearest to `a / b` and its shift.
fn binary64_parts(a: u128, b: u128) -> (r: (u128, i32))
    requires
        0 < a <= 0x400_0000_0000_0000_0000,
        0 < b <= 0x4_0000_0000_0000_0000,
    ensures
        r.1 == binary64_shift(a as nat, b as nat),
        r.0 == binary64_significand(a as nat, b as nat),
        r.0 <= 0x20_0000_0000_0000,
        -22 <= r.1 <= 118,
{
    proof {
        lemma_pow2n_constants();
        lemma_binary64_scale(a as nat, b as nat);
    }
    let l: i32;
    if a >= b {
        let q = a / b;
        proof {
            assert(1 <= q <= a) by (nonlinear_arith)
                requires
                    q == a / b,
                    a >= b,
                    b > 0,
            ;
            lemma_log2_floor_bounds(q as nat);
        }
        let lq = log2_floor_exec(q);
        proof {
            assert(pow2n(lq as nat) < pow2n(75));
            lemma_pow2n_order(lq as nat, 75);
        }
        l = lq as i32;
    } else {
        proof {
            lemma_doublings_bounds(a as nat, b as nat);
            let s = doublings_to_reach(a as nat, b as nat);
            assert(pow2n((s - 1) as nat) < pow2n(66)) by (nonlinear_arith)
                requires
                    a * pow2n((s - 1) as nat) < b,
                    a >= 1,
                    b <= pow2n(66),
            ;
            lemma_pow2n_order((s - 1) as nat, 66);
        }
        let s = doublings_exec(a, b);
        l = -(s as i32);
    }
    let t: i32 = 52 - l;
    if t >= 0 {
        let p = pow2_exec(t as u128);
        proof {
            lemma_pow2n_positive(t as nat);
            assert(a * p < 0x20_0000_0000_0000 * 0x4_0000_0000_0000_0000) by (nonlinear_arith)
                requires
                    a * p < pow2n(53) * b,
                    pow2n(53) == 0x20_0000_0000_0000,
                    b <= 0x4_0000_0000_0000_0000,
            ;
        }
        let num = a * p;
        proof {
            lemma_round_half_even_bounds(num as nat, b as nat, pow2n(53));
        }
        let m = round_half_even_exec(num, b);
        (m, t)
    } else {
        proof {
            let u = (-t) as nat;
            assert(pow2n((52 + u) as nat) < pow2n(75));
            lemma_pow2n_order((52 + u) as nat, 75);
        }
        let u = (-t) as u128;
        let p = pow2_exec(u);
        proof {
            lemma_pow2n_monotonic(u as nat, 22);
            assert(b * p <= 0x4_0000_0000_0000_0000 * 0x40_0000) by (nonlinear_arith)
                requires
                    b <= 0x4_0000_0000_0000_0000,
                    p <= 0x40_0000,
            ;
            lemma_pow2n_positive(u as nat);
        }
        let den = b * p;
        proof {
            lemma_round_half_even_bounds(a as nat, den as nat, pow2n(53));
        }
        let m = round_half_even_exec(a, den);
        (m, t)
    }
}

/// The double nearest to the integer `n`, as `n as f64` gives it.
pub fn binary64_of_int(n: u128) -> (r: u128)
    requires
        n <= 0x200_0000_0000_0000_0000,
    ensures
        r == binary64_of_nat(n as nat),
        r <= 2 * n,
        n > 0 ==> r > 0,
{
    if n == 0 {
        return 0;
    }
    let (m, t) = binary64_parts(n, 1);
    if t >= 0 {
        n
    } else {
        let u = (-t) as u128;
        let p = pow2_exec(u);
        proof {
            lemma_binary64_scale(n as nat, 1);
            lemma_pow2n_adds(u as nat, 52);
            lemma_pow2n_positive(52);
            lemma_pow2n_positive(u as nat);
            assert(p <= n) by (nonlinear_arith)
                requires
                    p * pow2n(52) <= n,
                    pow2n(52) >= 1,
            ;
            assert(1 * p == p);
            lemma_round_half_even_bounds(n as nat, p as nat, pow2n(53));
            assert(m * p <= 2 * n) by (nonlinear_arith)
                requires
                    m <= n / p + 1,
                    p <= n,
                    p > 0,
            ;
            assert(m >= 1) by (nonlinear_arith)
                requires
                    m >= n / p,
                    p <= n,
                    p > 0,
            ;
            assert(m * p >= 1) by (nonlinear_arith)
                requires
                    m >= 1,
                    p >= 1,
            ;
        }
        m * p
    }
}

/// Append the double nearest to `a / b` with `k` decimals, as `{:.k}` prints it.
pub fn push_ratio_fixed_point(s: &mut String, a: u128, b: u128, k: u32)
    requires
        0 < b <= 0x4_0000_0000_0000_0000,
        a <= 0x400_0000_0000_0000_0000,
        1 <= k <= 3,
    ensures
        final(s)@ == old(s)@ + ratio_fixed_point(a as nat, b as nat, k as nat),
{
    let scale: u128 = if k == 1 {
        10
    } else if k == 2 {
        100
    } else {
        1000
    };
    proof {
        reveal_with_fuel(pow10, 4);
        assert(scale == pow10(k as nat));
    }
    let v: u128 = if a == 0 {
        0
    } else {
        let (m, t) = binary64_parts(a, b);
        if t >= 0 {
            let p = pow2_exec(t as u128);
            proof {
                lemma_pow2n_positive(t as nat);
                assert(m * scale <= 0x20_0000_0000_0000 * 1000) by (nonlinear_arith)
                    requires
                        m <= 0x20_0000_0000_0000,
                        scale <= 1000,
                ;
            }
            round_half_even_exec(m * scale, p)
        } else {
            let p = pow2_exec((-t) as u128);
            proof {
                lemma_pow2n_constants();
                lemma_pow2n_monotonic((-t) as nat, 22);
                assert(m * p * scale <= 0x20_0000_0000_0000 * 0x40_0000 * 1000) by (nonlinear_arith)
                    requires
                        m <= 0x20_0000_0000_0000,
                        p <= 0x40_0000,
                        scale <= 1000,
                ;
            }
            m * p * scale
        }
    };
    assert(v == scaled_binary64_ratio(a as nat, b as nat, k as nat));
    let whole: u128 = v / scale;
    let frac: u128 = v % scale;
    push_decimal_wide(s, whole);
    push_char(s, '.');
    push_zero_padded(s, frac as u64, k);
    assert(final(s)@ =~= old(s)@ + ratio_fixed_point(a as nat, b as nat, k as nat));
}

/// Append `n as f64 / d as f64` with `k` decimals, as `{:.k}` prints it.
pub fn push_fixed_point(s: &mut String, n: u64, d: u64, k: u32)
    requires
        d > 0,
        1 <= k <= 3,
    ensures
        final(s)@ == old(s)@ + fixed_point(n as nat, d as nat, k as nat),
{
    let a = binary64_of_int(n as u128);
    let b = binary64_of_int(d as u128);
    push_ratio_fixed_point(s, a, b, k);
}

/// `n as f64 / d as f64` with `k` decimals, as `{:.k}` prints it, as a new string.
pub fn fixed_point_string(n: u64, d: u64, k: u32) -> (r: String)
    requires
        d > 0,
        1 <= k <= 3,
    ensures
        r@ == fixed_point(n as nat, d as nat, k as nat),
{
    let mut s = String::new();
    push_fixed_point(&mut s, n, d, k);
    assert(s@ =~= fixed_point(n as nat, d as nat, k as nat));
    s
}

/// Append `part as f64 * 100.0 / whole as f64` with one decimal, as `{:.1}` prints it.
pub fn push_percent(s: &mut String, part: u64, whole: u64)
    requires
        whole > 0,
    ensures
        final(s)@ == old(s)@ + percent_figure(part as nat, whole as nat),
{
    let p = binary64_of_int(part as u128);
    let a = binary64_of_int(p * 100);
    let b = binary64_of_int(whole as u128);
    push_ratio_fixed_point(s, a, b, 1);
}

/// Append `count` spaces.
fn push_spaces(s: &mut String, count: usize)
    ensures
        final(s)@ == old(s)@ + Seq::new(count as nat, |i: int| ' '),
{
    let mut i: usize = 0;
    while i < count
        invariant
            i <= count,
            s@ == old(s)@ + Seq::new(i as nat, |j: int| ' '),
        decreases count - i,
    {
        push_char(s, ' ');
        i += 1;
        assert(s@ =~= old(s)@ + Seq::new(i as nat, |j: int| ' '));
    }
}

/// Append `piece` right-aligned in a column of `width` characters.
pub fn push_right_aligned(s: &mut String, piece: &str, width: usize)
    ensures
        final(s)@ == old(s)@ + right_aligned(piece@, width as nat),
{
    let len = piece.unicode_len();
    if len < width {
        push_spaces(s, width - len);
    }
    s.append(piece);
    assert(final(s)@ =~= old(s)@ + right_aligned(piece@, width as nat));
}

/// Append `piece` left-aligned in a column of `width` characters.
pub fn push_left_aligned(s: &mut String, piece: &str, width: usize)
    ensures
        final(s)@ == old(s)@ + left_aligned(piece@, width as nat),
{
    let len = piece.unicode_len();
    s.append(piece);
    if len < width {
        push_spaces(s, width - len);
    }
    assert(final(s)@ =~= old(s)@ + left_aligned(piece@, width as nat));
}

} // verus!
