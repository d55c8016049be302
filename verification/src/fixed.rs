//! Numbers as text and back: decimal and hexadecimal numerals, integer
//! parsing, and exact rounding of ratios to a given number of places.

use vstd::arithmetic::div_mod::lemma_fundamental_div_mod;
use vstd::prelude::*;

use crate::text::{cat3, chars_of, pad_left, padded_left};

verus! {

/// One, for quantities that are held in billionths.
pub const UNIT: u64 = 1_000_000_000;

// ------------------------------------------------------------ numerals

/// The digit that stands for `d`, with letters of the given case past nine.
pub open spec fn digit_of(d: nat, upper: bool) -> char {
    if d == 0 {
        '0'
    } else if d == 1 {
        '1'
    } else if d == 2 {
        '2'
    } else if d == 3 {
        '3'
    } else if d == 4 {
        '4'
    } else if d == 5 {
        '5'
    } else if d == 6 {
        '6'
    } else if d == 7 {
        '7'
    } else if d == 8 {
        '8'
    } else if d == 9 {
        '9'
    } else if d == 10 {
        if upper { 'A' } else { 'a' }
    } else if d == 11 {
        if upper { 'B' } else { 'b' }
    } else if d == 12 {
        if upper { 'C' } else { 'c' }
    } else if d == 13 {
        if upper { 'D' } else { 'd' }
    } else if d == 14 {
        if upper { 'E' } else { 'e' }
    } else {
        if upper { 'F' } else { 'f' }
    }
}

fn digit(d: u32, upper: bool) -> (c: char)
    requires
        d < 16,
    ensures
        c == digit_of(d as nat, upper),
{
    match d {
        0 => '0',
        1 => '1',
        2 => '2',
        3 => '3',
        4 => '4',
        5 => '5',
        6 => '6',
        7 => '7',
        8 => '8',
        9 => '9',
        10 => if upper { 'A' } else { 'a' },
        11 => if upper { 'B' } else { 'b' },
        12 => if upper { 'C' } else { 'c' },
        13 => if upper { 'D' } else { 'd' },
        14 => if upper { 'E' } else { 'e' },
        _ => if upper { 'F' } else { 'f' },
    }
}

/// The decimal numeral of `n`, without leading zeros.
pub open spec fn decimal(n: nat) -> Seq<char>
    decreases n,
{
    if n < 10 {
        seq![digit_of(n, false)]
    } else {
        decimal(n / 10).push(digit_of(n % 10, false))
    }
}

pub fn dec(n: u128) -> (r: String)
    ensures
        r@ == decimal(n as nat),
    decreases n,
{
    let mut s: String = if n < 10 {
        String::new()
    } else {
        dec(n / 10)
    };
    s.push(digit((n % 10) as u32, false));
    assert(s@ =~= decimal(n as nat));
    s
}

/// The decimal numeral of `n`.
pub fn dec64(n: u64) -> (r: String)
    ensures
        r@ == decimal(n as nat),
{
    dec(n as u128)
}

/// The decimal numeral of `n`, filled up with zeros to two digits.
pub open spec fn two_digits(n: nat) -> Seq<char> {
    padded_left(decimal(n), 2, '0')
}

pub fn dec2(n: u64) -> (r: String)
    ensures
        r@ == two_digits(n as nat),
{
    pad_left(dec64(n).as_str(), 2, '0')
}

/// The hexadecimal numeral of `n`, without leading zeros.
pub open spec fn hexadecimal(n: nat, upper: bool) -> Seq<char>
    decreases n,
{
    if n < 16 {
        seq![digit_of(n, upper)]
    } else {
        hexadecimal(n / 16, upper).push(digit_of(n % 16, upper))
    }
}

pub fn hex(n: u32, upper: bool) -> (r: String)
    ensures
        r@ == hexadecimal(n as nat, upper),
    decreases n,
{
    let mut s: String = if n < 16 {
        String::new()
    } else {
        hex(n / 16, upper)
    };
    s.push(digit(n % 16, upper));
    assert(s@ =~= hexadecimal(n as nat, upper));
    s
}

// ------------------------------------------------------------ parsing

/// What a digit of the given radix, ten or sixteen, stands for.
pub open spec fn digit_value(c: char, radix: nat) -> Option<nat> {
    if '0' <= c <= '9' {
        Some((c as nat - '0' as nat) as nat)
    } else if radix == 16 && 'a' <= c <= 'f' {
        Some((c as nat - 'a' as nat + 10) as nat)
    } else if radix == 16 && 'A' <= c <= 'F' {
        Some((c as nat - 'A' as nat + 10) as nat)
    } else {
        None
    }
}

/// Whether every character is a digit of the radix.
pub open spec fn all_digits(s: Seq<char>, radix: nat) -> bool {
    forall|i: int| 0 <= i < s.len() ==> digit_value(#[trigger] s[i], radix) is Some
}

/// The number that a sequence of digits stands for.
pub open spec fn digits_value(s: Seq<char>, radix: nat) -> nat
    decreases s.len(),
{
    if s.len() == 0 {
        0
    } else {
        digits_value(s.drop_last(), radix) * radix + digit_value(s.last(), radix).unwrap_or(0)
    }
}

/// The text without one plus sign at its start.
pub open spec fn without_plus(s: Seq<char>) -> Seq<char> {
    if s.len() > 0 && s[0] == '+' {
        s.drop_first()
    } else {
        s
    }
}

/// The number that a text denotes: an optional plus sign and at least one
/// digit, nothing else, and at most `max`.
pub open spec fn parsed(s: Seq<char>, radix: nat, max: nat) -> Option<nat> {
    let d = without_plus(s);
    if d.len() == 0 || !all_digits(d, radix) || digits_value(d, radix) > max {
        None
    } else {
        Some(digits_value(d, radix))
    }
}

/// The number that a text denotes where a minus sign is allowed too.
pub open spec fn parsed_signed(s: Seq<char>, max: nat) -> Option<int> {
    if s.len() > 0 && s[0] == '-' {
        let d = s.drop_first();
        if d.len() == 0 || !all_digits(d, 10) || digits_value(d, 10) > max + 1 {
            None
        } else {
            Some(-(digits_value(d, 10) as int))
        }
    } else {
        match parsed(s, 10, max) {
            Some(n) => Some(n as int),
            None => None,
        }
    }
}

proof fn lemma_prefix_value(s: Seq<char>, radix: nat, i: int)
    requires
        0 <= i <= s.len(),
        radix >= 1,
    ensures
        digits_value(s.take(i), radix) <= digits_value(s, radix),
    decreases s.len() - i,
{
    if i < s.len() {
        lemma_prefix_value(s, radix, i + 1);
        let t = s.take(i + 1);
        assert(t.drop_last() =~= s.take(i));
        let a = digits_value(s.take(i), radix);
        assert(a * radix >= a) by (nonlinear_arith)
            requires
                radix >= 1,
                a >= 0,
        ;
    } else {
        assert(s.take(i) =~= s);
    }
}

fn digit_val(c: char, radix: u32) -> (r: Option<u32>)
    ensures
        r is Some <==> digit_value(c, radix as nat) is Some,
        r is Some ==> r->0 == digit_value(c, radix as nat)->0,
        r is Some ==> r->0 < 16,
{
    if '0' <= c && c <= '9' {
        Some(c as u32 - '0' as u32)
    } else if radix == 16 && 'a' <= c && c <= 'f' {
        Some(c as u32 - 'a' as u32 + 10)
    } else if radix == 16 && 'A' <= c && c <= 'F' {
        Some(c as u32 - 'A' as u32 + 10)
    } else {
        None
    }
}

fn parse_digits(v: &Vec<char>, from: usize, radix: u32, max: u64) -> (r: Option<u64>)
    requires
        from <= v@.len(),
        radix == 10 || radix == 16,
    ensures
        ({
            let d = v@.skip(from as int);
            &&& r is Some <==> d.len() > 0 && all_digits(d, radix as nat) && digits_value(
                d,
                radix as nat,
            ) <= max
            &&& r is Some ==> r->0 == digits_value(d, radix as nat)
        }),
{
    let ghost d = v@.skip(from as int);
    if from >= v.len() {
        return None;
    }
    let mut acc: u128 = 0;
    let mut i: usize = from;
    assert(d.take(0) =~= Seq::<char>::empty());
    while i < v.len()
        invariant
            from <= i <= v@.len(),
            d == v@.skip(from as int),
            radix == 10 || radix == 16,
            acc == digits_value(d.take(i - from), radix as nat),
            acc <= max,
            forall|k: int| 0 <= k < i - from ==> digit_value(#[trigger] d[k], radix as nat) is Some,
        decreases v@.len() - i,
    {
        match digit_val(v[i], radix) {
            None => {
                assert(d[i - from] == v@[i as int]);
                return None;
            },
            Some(x) => {
                assert(acc * radix <= 0xFFFF_FFFF_FFFF_FFFF * 16) by (nonlinear_arith)
                    requires
                        acc <= 0xFFFF_FFFF_FFFF_FFFF,
                        radix <= 16,
                ;
                let next: u128 = acc * (radix as u128) + (x as u128);
                proof {
                    assert(d.take(i - from + 1).drop_last() =~= d.take(i - from));
                    assert(d.take(i - from + 1).last() == d[i - from]);
                    assert(d[i - from] == v@[i as int]);
                }
                if next > max as u128 {
                    proof {
                        lemma_prefix_value(d, radix as nat, i - from + 1);
                    }
                    return None;
                }
                acc = next;
                i = i + 1;
            },
        }
    }
    assert(d.take(i - from) =~= d);
    Some(acc as u64)
}

fn parse_radix(s: &str, radix: u32, max: u64) -> (r: Option<u64>)
    requires
        radix == 10 || radix == 16,
    ensures
        r is Some <==> parsed(s@, radix as nat, max as nat) is Some,
        r is Some ==> r->0 == parsed(s@, radix as nat, max as nat)->0,
{
    let v: Vec<char> = chars_of(s);
    let from: usize = if v.len() > 0 && v[0] == '+' {
        1
    } else {
        0
    };
    assert(v@.skip(from as int) =~= without_plus(s@));
    parse_digits(&v, from, radix, max)
}

pub fn parse_u64(s: &str) -> (r: Option<u64>)
    ensures
        r is Some <==> parsed(s@, 10, u64::MAX as nat) is Some,
        r is Some ==> r->0 == parsed(s@, 10, u64::MAX as nat)->0,
{
    parse_radix(s, 10, u64::MAX)
}

pub fn parse_u32(s: &str) -> (r: Option<u32>)
    ensures
        r is Some <==> parsed(s@, 10, u32::MAX as nat) is Some,
        r is Some ==> r->0 == parsed(s@, 10, u32::MAX as nat)->0,
{
    match parse_radix(s, 10, u32::MAX as u64) {
        Some(n) => Some(n as u32),
        None => None,
    }
}

/// The number that a text denotes, or `other` where it denotes none.
pub open spec fn number_or(s: Seq<char>, max: nat, other: nat) -> nat {
    match parsed(s, 10, max) {
        Some(n) => n,
        None => other,
    }
}

pub fn u64_or(s: &str, other: u64) -> (r: u64)
    ensures
        r == number_or(s@, u64::MAX as nat, other as nat),
{
    match parse_u64(s) {
        Some(n) => n,
        None => other,
    }
}

pub fn u32_or(s: &str, other: u32) -> (r: u32)
    ensures
        r == number_or(s@, u32::MAX as nat, other as nat),
{
    match parse_u32(s) {
        Some(n) => n,
        None => other,
    }
}

pub fn parse_hex(s: &str) -> (r: Option<u32>)
    ensures
        r is Some <==> parsed(s@, 16, u32::MAX as nat) is Some,
        r is Some ==> r->0 == parsed(s@, 16, u32::MAX as nat)->0,
{
    match parse_radix(s, 16, u32::MAX as u64) {
        Some(n) => Some(n as u32),
        None => None,
    }
}

pub fn parse_i32(s: &str) -> (r: Option<i32>)
    ensures
        r is Some <==> parsed_signed(s@, i32::MAX as nat) is Some,
        r is Some ==> r->0 as int == parsed_signed(s@, i32::MAX as nat)->0,
{
    let v: Vec<char> = chars_of(s);
    if v.len() > 0 && v[0] == '-' {
        assert(v@.skip(1) =~= s@.drop_first());
        match parse_digits(&v, 1, 10, 2147483648) {
            Some(n) => Some((-(n as i64)) as i32),
            None => None,
        }
    } else {
        match parse_radix(s, 10, 2147483647) {
            Some(n) => Some(n as i32),
            None => None,
        }
    }
}

/// A decimal numeral reads back as the number it was written from.
pub proof fn numeral_reads_back(n: nat, max: nat)
    requires
        n <= max,
    ensures
        parsed(decimal(n), 10, max) == Some(n),
{
    lemma_decimal(n);
    assert(decimal(n)[0] != '+') by {
        assert(digit_value(decimal(n)[0], 10) is Some);
    }
}

proof fn lemma_decimal(n: nat)
    ensures
        decimal(n).len() > 0,
        all_digits(decimal(n), 10),
        digits_value(decimal(n), 10) == n,
    decreases n,
{
    let s = decimal(n);
    if n < 10 {
        assert(s.drop_last() =~= Seq::<char>::empty());
        assert(digits_value(Seq::<char>::empty(), 10) == 0);
    } else {
        lemma_decimal(n / 10);
        assert(s.drop_last() =~= decimal(n / 10));
        lemma_fundamental_div_mod(n as int, 10);
        assert forall|i: int| 0 <= i < s.len() implies digit_value(#[trigger] s[i], 10) is Some by {
            if i < s.len() - 1 {
                assert(s[i] == decimal(n / 10)[i]);
            }
        }
    }
}

// ------------------------------------------------------------ rounding

/// `num / den` rounded to the nearest integer, a half to the even one.
pub open spec fn rounded(num: nat, den: nat) -> nat {
    let q = num / den;
    let r = num % den;
    if 2 * r > den || (2 * r == den && q % 2 == 1) {
        q + 1
    } else {
        q
    }
}

pub fn round(num: u128, den: u128) -> (r: u128)
    requires
        0 < den,
    ensures
        r == rounded(num as nat, den as nat),
        r <= num + 1,
{
    let q: u128 = num / den;
    let m: u128 = num % den;
    proof {
        lemma_fundamental_div_mod(num as int, den as int);
        assert(q <= num) by (nonlinear_arith)
            requires
                num == den * q + m,
                den >= 1,
                m >= 0,
                q >= 0,
        ;
        assert(m > 0 ==> q < num) by (nonlinear_arith)
            requires
                num == den * q + m,
                den >= 1,
                m >= 0,
                q >= 0,
        ;
    }
    // m is compared with den - m, as twice m need not fit
    let up: bool = m > den - m || (m == den - m && q % 2 == 1);
    if up {
        q + 1
    } else {
        q
    }
}

/// Ten to the power of `n`.
pub open spec fn ten_to(n: nat) -> nat
    decreases n,
{
    if n == 0 {
        1
    } else {
        10 * ten_to((n - 1) as nat)
    }
}

/// The decimal text of `num / den` with exactly `places` digits after the
/// point, the last of them rounded half to even, and no point without them.
pub open spec fn ratio_text(num: nat, den: nat, places: nat) -> Seq<char> {
    let scaled = rounded(num * ten_to(places), den);
    if places == 0 {
        decimal(scaled)
    } else {
        decimal(scaled / ten_to(places)) + "."@ + padded_left(
            decimal(scaled % ten_to(places)),
            places,
            '0',
        )
    }
}

/// Numerators up to this bound can be shown with up to four places.
pub const RATIO_MAX: u128 = 10_000_000_000_000_000_000_000_000_000_000_000;

pub fn ratio(num: u128, den: u128, places: u32) -> (r: String)
    requires
        0 < den,
        num <= RATIO_MAX,
        places <= 4,
    ensures
        r@ == ratio_text(num as nat, den as nat, places as nat),
{
    proof {
        reveal_with_fuel(ten_to, 5);
    }
    let scale: u128 = if places == 0 {
        1
    } else if places == 1 {
        10
    } else if places == 2 {
        100
    } else if places == 3 {
        1000
    } else {
        10000
    };
    assert(scale == ten_to(places as nat));
    assert(num * scale <= RATIO_MAX * 10000) by (nonlinear_arith)
        requires
            num <= RATIO_MAX,
            scale <= 10000,
    ;
    let scaled: u128 = round(num * scale, den);
    if places == 0 {
        dec(scaled)
    } else {
        cat3(
            dec(scaled / scale).as_str(),
            ".",
            pad_left(dec(scaled % scale).as_str(), places as usize, '0').as_str(),
        )
    }
}

// ------------------------------------------------------------ large counts

/// The power of two with exponent `e`.
pub open spec fn two_to(e: nat) -> nat
    decreases e,
{
    if e == 0 {
        1
    } else {
        2 * two_to((e - 1) as nat)
    }
}

/// `n` rounded half to even to the 53 binary digits that a double holds, at
/// least `e` digits of it cut off.
pub open spec fn double_from(n: nat, e: nat) -> nat
    decreases 64 - e,
{
    if e >= 64 || n / two_to(e) < 9_007_199_254_740_992 {
        rounded(n, two_to(e)) * two_to(e)
    } else {
        double_from(n, e + 1)
    }
}

/// `n` rounded half to even to the 53 binary digits that a double holds.
pub open spec fn double_of(n: nat) -> nat {
    double_from(n, 0)
}

proof fn lemma_round_one(n: nat)
    ensures
        rounded(n, 1) == n,
{
}

pub fn double(n: u64) -> (r: u128)
    ensures
        r == double_of(n as nat),
        r <= 20_000_000_000_000_000_000,
{
    if n < 9_007_199_254_740_992 {
        proof {
            lemma_round_one(n as nat);
            assert(two_to(0) == 1);
            assert(n as nat / 1 == n as nat);
        }
        return n as u128;
    }
    let mut e: u32 = 0;
    let mut unit: u128 = 1;
    while n as u128 / unit >= 9_007_199_254_740_992
        invariant
            e <= 11,
            unit == two_to(e as nat),
            1 <= unit <= 2048,
            e == 11 ==> unit == 2048,
            e < 11 ==> unit <= 1024,
            double_of(n as nat) == double_from(n as nat, e as nat),
        decreases 64 - e,
    {
        proof {
            assert(e < 11) by {
                if e == 11 {
                    assert(n as nat / 2048 < 9_007_199_254_740_992);
                }
            }
        }
        e = e + 1;
        unit = unit * 2;
        proof {
            reveal_with_fuel(two_to, 12);
        }
    }
    let k: u128 = round(n as u128, unit);
    proof {
        assert(k <= n as nat / unit as nat + 1);
        assert(k * unit <= 9_007_199_254_740_992 * 2048) by (nonlinear_arith)
            requires
                k <= 9_007_199_254_740_992,
                unit <= 2048,
        ;
    }
    k * unit
}

// ------------------------------------------------------------ roots

pub open spec fn is_root(r: nat, n: nat) -> bool {
    r * r <= n && n < (r + 1) * (r + 1)
}

/// The square root, rounded down.
pub open spec fn root(n: nat) -> nat {
    choose|r: nat| is_root(r, n)
}

proof fn lemma_root_unique(a: nat, b: nat, n: nat)
    requires
        is_root(a, n),
        is_root(b, n),
    ensures
        a == b,
{
    if a < b {
        assert((a + 1) * (a + 1) <= b * b) by (nonlinear_arith)
            requires
                a + 1 <= b,
        ;
    }
    if b < a {
        assert((b + 1) * (b + 1) <= a * a) by (nonlinear_arith)
            requires
                b + 1 <= a,
        ;
    }
}

pub proof fn lemma_root(r: nat, n: nat)
    requires
        is_root(r, n),
    ensures
        root(n) == r,
{
    lemma_root_unique(root(n), r, n);
}

pub fn isqrt(n: u128) -> (r: u64)
    requires
        n < 0x100_0000_0000_0000_0000_0000_0000_0000,
    ensures
        r == root(n as nat),
        is_root(r as nat, n as nat),
{
    let mut r: u128 = 0;
    let mut b: u128 = 0x1000_0000_0000_0000;
    let mut k: u32 = 61;
    proof {
        reveal_with_fuel(two_to, 61);
        assert(n < (2 * b) * (2 * b));
    }
    while b > 0
        invariant
            n < 0x100_0000_0000_0000_0000_0000_0000_0000,
            k <= 61,
            k == 61 ==> b == 0x1000_0000_0000_0000,
            b <= 0x1000_0000_0000_0000,
            b == 0 || r + 2 * b <= 0x2000_0000_0000_0000,
            r <= 0x2000_0000_0000_0000,
            r * r <= n,
            b > 0 ==> n < (r + 2 * b) * (r + 2 * b),
            b == 0 ==> n < (r + 1) * (r + 1),
            b > 0 ==> k > 0 && b == two_to((k - 1) as nat),
            b == 0 ==> k == 0,
        decreases b,
    {
        let t: u128 = r + b;
        assert(t * t <= 0x2000_0000_0000_0000 * 0x2000_0000_0000_0000) by (nonlinear_arith)
            requires
                t <= 0x2000_0000_0000_0000,
        ;
        if t * t <= n {
            r = t;
            assert((r + b) * (r + b) == (r - b + 2 * b) * (r - b + 2 * b));
        }
        assert(n < (r + b) * (r + b));
        let ghost whole = b;
        b = b / 2;
        k = k - 1;
        proof {
            if k > 0 {
                assert(whole == 2 * two_to((k - 1) as nat));
                assert(whole == 2 * b);
                assert(r + whole == r + 2 * b);
            } else {
                assert(whole == 1);
            }
        }
    }
    proof {
        lemma_root(r as nat, n as nat);
    }
    r as u64
}

// ------------------------------------------------------------ fractions

proof fn lemma_remainders(a: int, b: int, c: int, d: int)
    requires
        a >= 0,
        b > 0,
        c >= 0,
        d > 0,
    ensures
        a / b > c / d ==> a * d > c * b,
        a / b < c / d ==> a * d < c * b,
        a / b == c / d ==> (a * d > c * b <==> (a % b) * d > (c % d) * b),
{
    let (p, r) = (a / b, a % b);
    let (q, s) = (c / d, c % d);
    assert(a == p * b + r && 0 <= r < b) by (nonlinear_arith)
        requires
            b > 0,
            p == a / b,
            r == a % b,
    ;
    assert(c == q * d + s && 0 <= s < d) by (nonlinear_arith)
        requires
            d > 0,
            q == c / d,
            s == c % d,
    ;
    assert(a * d == p * (b * d) + r * d) by (nonlinear_arith)
        requires
            a == p * b + r,
    ;
    assert(c * b == q * (b * d) + s * b) by (nonlinear_arith)
        requires
            c == q * d + s,
    ;
    assert(0 <= r * d < b * d) by (nonlinear_arith)
        requires
            0 <= r < b,
            d > 0,
    ;
    assert(0 <= s * b < b * d) by (nonlinear_arith)
        requires
            0 <= s < d,
            b > 0,
    ;
    if p > q {
        assert(p * (b * d) >= q * (b * d) + b * d) by (nonlinear_arith)
            requires
                p >= q + 1,
                b * d > 0,
        ;
    } else if p < q {
        assert(q * (b * d) >= p * (b * d) + b * d) by (nonlinear_arith)
            requires
                q >= p + 1,
                b * d > 0,
        ;
    }
}

/// Whether the fraction `a / b` is above `c / d`, whose cross products need not
/// fit: the whole parts are compared, and then the remainders turned over.
pub fn exceeds(a: u128, b: u128, c: u128, d: u128) -> (r: bool)
    requires
        b > 0,
        d > 0,
    ensures
        r == (a * d > c * b),
    decreases b + d,
{
    proof {
        lemma_remainders(a as int, b as int, c as int, d as int);
    }
    let p: u128 = a / b;
    let q: u128 = c / d;
    if p != q {
        return p > q;
    }
    let x: u128 = a % b;
    let y: u128 = c % d;
    if x == 0 {
        assert(y * b >= 0) by (nonlinear_arith)
            requires
                y >= 0,
                b > 0,
        ;
        return false;
    }
    if y == 0 {
        assert(x * d > 0 && y * b == 0) by (nonlinear_arith)
            requires
                x > 0,
                d > 0,
                y == 0,
        ;
        return true;
    }
    assert(x * d == d * x && y * b == b * y) by (nonlinear_arith);
    exceeds(d, y, b, x)
}

/// A decimal numeral is made of digits, and of one at least.
pub proof fn numerals_are_digits(n: nat)
    ensures
        decimal(n).len() > 0,
        forall|i: int| 0 <= i < decimal(n).len() ==> '0' <= #[trigger] decimal(n)[i] <= '9',
    decreases n,
{
    if n >= 10 {
        numerals_are_digits(n / 10);
    }
}

/// What a row of decimal digits is worth, the last counting once and each
/// before it ten times as much as the next.
pub open spec fn worth(s: Seq<char>) -> int
    decreases s.len(),
{
    if s.len() == 0 {
        0
    } else {
        10 * worth(s.drop_last()) + (s.last() as int - '0' as int)
    }
}

/// A decimal numeral is worth its number and begins with no zero but for zero
/// itself.
pub proof fn numerals_are_worth_their_number(n: nat)
    ensures
        worth(decimal(n)) == n,
        n > 0 ==> decimal(n)[0] != '0',
        decimal(0) == seq!['0'],
    decreases n,
{
    if n >= 10 {
        numerals_are_worth_their_number(n / 10);
        numerals_are_digits(n / 10);
        assert(decimal(n).drop_last() =~= decimal(n / 10));
        assert(decimal(n)[0] == decimal(n / 10)[0]);
    } else {
        assert(decimal(n).drop_last() =~= Seq::<char>::empty());
        assert(worth(Seq::<char>::empty()) == 0);
    }
}

proof fn lemma_worth(s: Seq<char>)
    requires
        forall|i: int| 0 <= i < s.len() ==> '0' <= #[trigger] s[i] <= '9',
    ensures
        all_digits(s, 10),
        digits_value(s, 10) == worth(s),
    decreases s.len(),
{
    if s.len() > 0 {
        lemma_worth(s.drop_last());
        assert('0' <= s[s.len() - 1] <= '9');
        let v = digits_value(s.drop_last(), 10);
        assert(v * 10 == 10 * v);
    }
}

/// A text of digits denotes what they are worth, with a plus sign or without,
/// up to the limit; with a minus sign it denotes that below zero.
pub proof fn digits_denote_what_they_are_worth(s: Seq<char>, max: nat)
    requires
        s.len() > 0,
        forall|i: int| 0 <= i < s.len() ==> '0' <= #[trigger] s[i] <= '9',
    ensures
        worth(s) <= max ==> parsed(s, 10, max) == Some(worth(s) as nat),
        worth(s) <= max ==> parsed(seq!['+'] + s, 10, max) == Some(worth(s) as nat),
        worth(s) > max ==> parsed(s, 10, max) is None && parsed(seq!['+'] + s, 10, max) is None,
        worth(s) <= max ==> parsed_signed(s, max) == Some(worth(s)),
        worth(s) <= max + 1 ==> parsed_signed(seq!['-'] + s, max) == Some(-worth(s)),
        worth(s) > max + 1 ==> parsed_signed(seq!['-'] + s, max) is None,
{
    lemma_worth(s);
    assert('0' <= s[0] <= '9');
    assert((seq!['+'] + s).drop_first() =~= s);
    assert((seq!['-'] + s).drop_first() =~= s);
}

/// A text with anything but digits behind an optional sign denotes no number,
/// nor does one without digits.
pub proof fn other_texts_denote_no_number(s: Seq<char>, i: int, max: nat)
    requires
        1 <= i < s.len(),
        !('0' <= s[i] <= '9'),
    ensures
        parsed(s, 10, max) is None,
        parsed_signed(s, max) is None,
        parsed(Seq::empty(), 10, max) is None,
        parsed(seq!['+'], 10, max) is None,
{
    assert(digit_value(s[i], 10) is None);
    let tail = s.drop_first();
    assert(tail[i - 1] == s[i]);
    assert(!all_digits(s, 10));
    assert(!all_digits(tail, 10));
    assert(seq!['+'].drop_first() =~= Seq::<char>::empty());
}

/// A quotient is rounded to the nearest whole number, and to the even one of
/// two that are as near.
pub proof fn quotients_are_rounded_to_the_nearest(num: nat, den: nat)
    requires
        den > 0,
    ensures
        2 * (rounded(num, den) * den) <= 2 * num + den,
        2 * (rounded(num, den) * den) >= 2 * num - den,
        2 * (rounded(num, den) * den) == 2 * num + den || 2 * (rounded(num, den) * den) == 2 * num
            - den ==> rounded(num, den) % 2 == 0,
{
    let q = num / den;
    let r = num % den;
    assert(num == q * den + r && 0 <= r < den) by (nonlinear_arith)
        requires
            den > 0,
            q == num / den,
            r == num % den,
    ;
    assert((q + 1) * den == q * den + den) by (nonlinear_arith);
}

/// A ratio is written as the nearest decimal with so many places.
pub proof fn ratios_are_written_to_the_nearest_place(num: nat, den: nat, places: nat) -> (scaled:
    nat)
    requires
        den > 0,
        1 <= places <= 4,
    ensures
        ({
            let unit: nat = if places == 1 {
                10
            } else if places == 2 {
                100
            } else if places == 3 {
                1000
            } else {
                10_000
            };
            &&& 2 * (scaled * den) <= 2 * (num * unit) + den
            &&& 2 * (scaled * den) >= 2 * (num * unit) - den
            &&& ratio_text(num, den, places) == decimal(scaled / unit) + "."@ + padded_left(
                decimal(scaled % unit),
                places,
                '0',
            )
        }),
{
    reveal_with_fuel(ten_to, 5);
    let unit = ten_to(places);
    quotients_are_rounded_to_the_nearest(num * unit, den);
    rounded(num * unit, den)
}

/// Without places a ratio is written as the nearest whole number.
pub proof fn ratios_are_written_to_the_nearest_whole(num: nat, den: nat) -> (whole: nat)
    requires
        den > 0,
    ensures
        2 * (whole * den) <= 2 * num + den,
        2 * (whole * den) >= 2 * num - den,
        ratio_text(num, den, 0) == decimal(whole),
{
    quotients_are_rounded_to_the_nearest(num, den);
    assert(num * ten_to(0) == num) by (nonlinear_arith)
        requires
            ten_to(0) == 1,
    ;
    rounded(num, den)
}

/// A number of at most 53 binary digits is a double as it is.
pub proof fn small_numbers_are_doubles(n: nat)
    requires
        n < 9_007_199_254_740_992,
    ensures
        double_of(n) == n,
{
    assert(two_to(0) == 1);
    assert(n / 1 == n && n % 1 == 0);
}

/// Hexadecimal digits are those up to nine and six letters of the case asked
/// for.
pub proof fn hexadecimal_digits_are_sixteen(d: nat, upper: bool)
    requires
        d < 16,
    ensures
        d < 10 ==> digit_of(d, upper) as int == '0' as int + d,
        d >= 10 && upper ==> digit_of(d, upper) as int == 'A' as int + (d - 10),
        d >= 10 && !upper ==> digit_of(d, upper) as int == 'a' as int + (d - 10),
        hexadecimal(d, upper) == seq![digit_of(d, upper)],
        forall|n: nat|
            n > 0 ==> #[trigger] hexadecimal(n * 16 + d, upper) == hexadecimal(n, upper).push(
                digit_of(d, upper),
            ),
{
    assert forall|n: nat| n > 0 implies #[trigger] hexadecimal(n * 16 + d, upper) == hexadecimal(
        n,
        upper,
    ).push(digit_of(d, upper)) by {
        assert((n * 16 + d) / 16 == n);
        assert((n * 16 + d) % 16 == d);
    }
}

} // verus!
