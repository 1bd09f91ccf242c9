//! Exact numeric values.
//!
//! A value is a rational number held as a signed numerator and a positive
//! denominator; a literal `93.14` becomes `9314 / 100`.  The arithmetic the
//! evaluator needs is exact: a result whose numerator or denominator does not
//! fit the fixed-width fields is reported as out of range rather than
//! silently rounded.

use vstd::prelude::*;
use vstd::string::*;

use crate::tokenizer::NumberLiteral;
use crate::tokenizer::is_digit_char;
use crate::tokenizer::string_push;
use crate::tokenizer::wf_literal;

verus! {

/// A rational number, held exactly.  The denominator is always at least one;
/// the fraction is not reduced.
#[derive(Debug, PartialEq, Eq, Clone, Copy)]
pub struct Value {
    pub num: i64,
    pub den: u64,
}

/// The mathematical content of a [`Value`]: its numerator and denominator as
/// unbounded integers.
pub struct Rat {
    pub num: int,
    pub den: int,
}

impl View for Value {
    type V = Rat;

    open spec fn view(&self) -> Rat {
        Rat { num: self.num as int, den: self.den as int }
    }
}

pub open spec fn wf_value(v: Value) -> bool {
    v.den >= 1
}

/// Whether a rational result fits the fields of a [`Value`].
pub open spec fn in_bounds(q: Rat) -> bool {
    &&& i64::MIN as int <= q.num <= i64::MAX as int
    &&& 1 <= q.den <= u64::MAX as int
}

pub open spec fn rat_add(a: Rat, b: Rat) -> Rat {
    Rat { num: a.num * b.den + b.num * a.den, den: a.den * b.den }
}

pub open spec fn rat_sub(a: Rat, b: Rat) -> Rat {
    Rat { num: a.num * b.den - b.num * a.den, den: a.den * b.den }
}

pub open spec fn rat_mul(a: Rat, b: Rat) -> Rat {
    Rat { num: a.num * b.num, den: a.den * b.den }
}

/// Division of rationals; the divisor's sign moves into the numerator so the
/// denominator stays positive.  Only meaningful when `b.num != 0`.
pub open spec fn rat_div(a: Rat, b: Rat) -> Rat {
    if b.num < 0 {
        Rat { num: -(a.num * b.den), den: a.den * (-b.num) }
    } else {
        Rat { num: a.num * b.den, den: a.den * b.num }
    }
}

pub open spec fn rat_neg(a: Rat) -> Rat {
    Rat { num: -a.num, den: a.den }
}

/// The numeric value of a digit character.
pub open spec fn digit_val(c: char) -> int {
    c as u32 - 48
}

/// The integer a literal's digits form, read left to right with every dot
/// skipped: `"93.14"` gives `9314`.
pub open spec fn lit_num(s: Seq<char>) -> int
    decreases s.len(),
{
    if s.len() == 0 {
        0
    } else {
        let p = lit_num(s.drop_last());
        if is_digit_char(s.last()) {
            p * 10 + digit_val(s.last())
        } else {
            p
        }
    }
}

pub open spec fn has_dot(s: Seq<char>) -> bool
    decreases s.len(),
{
    if s.len() == 0 {
        false
    } else {
        has_dot(s.drop_last()) || s.last() == '.'
    }
}

/// How many characters follow the last dot: the length of a literal's
/// fractional part.
pub open spec fn frac_len(s: Seq<char>) -> nat
    decreases s.len(),
{
    if s.len() == 0 {
        0
    } else if s.last() == '.' {
        0
    } else if has_dot(s.drop_last()) {
        frac_len(s.drop_last()) + 1
    } else {
        0
    }
}

pub open spec fn pow10(k: nat) -> int
    decreases k,
{
    if k == 0 {
        1
    } else {
        10 * pow10((k - 1) as nat)
    }
}

/// The exact rational a numeric literal denotes, when its numerator and
/// denominator fit a [`Value`]: digits over ten to the length of the
/// fractional part.
pub open spec fn spec_literal(text: Seq<char>) -> Option<Rat> {
    let n = lit_num(text);
    let d = pow10(frac_len(text));
    if n <= i64::MAX as int && d <= u64::MAX as int {
        Some(Rat { num: n, den: d })
    } else {
        None
    }
}

pub proof fn lemma_lit_num_nonneg(s: Seq<char>)
    ensures
        lit_num(s) >= 0,
    decreases s.len(),
{
    if s.len() > 0 {
        lemma_lit_num_nonneg(s.drop_last());
    }
}

pub proof fn lemma_pow10_pos(k: nat)
    ensures
        pow10(k) >= 1,
    decreases k,
{
    if k > 0 {
        lemma_pow10_pos((k - 1) as nat);
    }
}

pub proof fn lemma_pow10_mono(j: nat, k: nat)
    requires
        j <= k,
    ensures
        pow10(j) <= pow10(k),
    decreases k,
{
    if j < k {
        lemma_pow10_mono(j, (k - 1) as nat);
        lemma_pow10_pos((k - 1) as nat);
    }
}

/// The product of an integer in `i64`'s range and one in `u64`'s range fits
/// an `i128`.
proof fn lemma_mul_i64_u64(x: int, y: int)
    requires
        i64::MIN as int <= x <= i64::MAX as int,
        0 <= y <= u64::MAX as int,
    ensures
        i128::MIN as int <= x * y <= i128::MAX as int,
{
    assert(i128::MIN as int <= x * y <= i128::MAX as int) by (nonlinear_arith)
        requires
            i64::MIN as int <= x <= i64::MAX as int,
            0 <= y <= u64::MAX as int,
    ;
}

/// The product of two integers in `i64`'s range fits an `i128`.
proof fn lemma_mul_i64_i64(x: int, y: int)
    requires
        i64::MIN as int <= x <= i64::MAX as int,
        i64::MIN as int <= y <= i64::MAX as int,
    ensures
        i128::MIN as int <= x * y <= i128::MAX as int,
{
    assert(i128::MIN as int <= x * y <= i128::MAX as int) by (nonlinear_arith)
        requires
            i64::MIN as int <= x <= i64::MAX as int,
            i64::MIN as int <= y <= i64::MAX as int,
    ;
}

/// The product of two integers in `u64`'s range fits a `u128`, and is
/// positive when both are.
proof fn lemma_mul_u64_u64(x: int, y: int)
    requires
        0 <= x <= u64::MAX as int,
        0 <= y <= u64::MAX as int,
    ensures
        0 <= x * y <= u128::MAX as int,
        x >= 1 && y >= 1 ==> x * y >= 1,
{
    assert(0 <= x * y <= u128::MAX as int && (x >= 1 && y >= 1 ==> x * y >= 1))
        by (nonlinear_arith)
        requires
            0 <= x <= u64::MAX as int,
            0 <= y <= u64::MAX as int,
    ;
}

/// One step of decimal long division: the next digit and remainder.
proof fn lemma_frac_step(rem: int, den: int)
    requires
        0 <= rem < den,
        den >= 1,
    ensures
        0 <= (rem * 10) / den < 10,
        0 <= (rem * 10) % den < den,
{
    assert(0 <= (rem * 10) / den < 10 && 0 <= (rem * 10) % den < den) by (nonlinear_arith)
        requires
            0 <= rem < den,
            den >= 1,
    ;
}

/// Subtracts two `i128` values, reporting a difference outside the type's
/// range instead of computing it.
fn checked_sub_i128(x: i128, y: i128) -> (r: Option<i128>)
    ensures
        match r {
            Some(v) => v == x - y,
            None => x - y > i128::MAX as int || x - y < i128::MIN as int,
        },
{
    if y < 0 && x > i128::MAX + y {
        None
    } else if y > 0 && x < i128::MIN + y {
        None
    } else {
        Some(x - y)
    }
}

/// Adds two `i128` values, reporting a sum outside the type's range instead
/// of computing it.
fn checked_add_i128(x: i128, y: i128) -> (r: Option<i128>)
    ensures
        match r {
            Some(v) => v == x + y,
            None => x + y > i128::MAX as int || x + y < i128::MIN as int,
        },
{
    if y > 0 && x > i128::MAX - y {
        None
    } else if y < 0 && x < i128::MIN - y {
        None
    } else {
        Some(x + y)
    }
}

/// Packs an exact numerator and denominator into a [`Value`] when they fit.
fn pack(num: i128, den: u128) -> (r: Option<Value>)
    requires
        den >= 1,
    ensures
        ({
            let q = Rat { num: num as int, den: den as int };
            if in_bounds(q) {
                r matches Some(v) && v@ == q && wf_value(v)
            } else {
                r is None
            }
        }),
{
    if num >= i64::MIN as i128 && num <= i64::MAX as i128 && den <= u64::MAX as u128 {
        Some(Value { num: num as i64, den: den as u64 })
    } else {
        None
    }
}

/// The exact sum, when it fits.
pub fn value_add(a: &Value, b: &Value) -> (r: Option<Value>)
    requires
        wf_value(*a),
        wf_value(*b),
    ensures
        ({
            let q = rat_add(a@, b@);
            if in_bounds(q) {
                r matches Some(v) && v@ == q && wf_value(v)
            } else {
                r is None
            }
        }),
{
    proof {
        lemma_mul_i64_u64(a.num as int, b.den as int);
        lemma_mul_i64_u64(b.num as int, a.den as int);
        lemma_mul_u64_u64(a.den as int, b.den as int);
    }
    let p1 = (a.num as i128) * (b.den as i128);
    let p2 = (b.num as i128) * (a.den as i128);
    let den = (a.den as u128) * (b.den as u128);
    match checked_add_i128(p1, p2) {
        Some(sum) => pack(sum, den),
        None => None,
    }
}

/// The exact difference, when it fits.
pub fn value_sub(a: &Value, b: &Value) -> (r: Option<Value>)
    requires
        wf_value(*a),
        wf_value(*b),
    ensures
        ({
            let q = rat_sub(a@, b@);
            if in_bounds(q) {
                r matches Some(v) && v@ == q && wf_value(v)
            } else {
                r is None
            }
        }),
{
    proof {
        lemma_mul_i64_u64(a.num as int, b.den as int);
        lemma_mul_i64_u64(b.num as int, a.den as int);
        lemma_mul_u64_u64(a.den as int, b.den as int);
    }
    let p1 = (a.num as i128) * (b.den as i128);
    let p2 = (b.num as i128) * (a.den as i128);
    let den = (a.den as u128) * (b.den as u128);
    match checked_sub_i128(p1, p2) {
        Some(diff) => pack(diff, den),
        None => None,
    }
}

/// The exact product, when it fits.
pub fn value_mul(a: &Value, b: &Value) -> (r: Option<Value>)
    requires
        wf_value(*a),
        wf_value(*b),
    ensures
        ({
            let q = rat_mul(a@, b@);
            if in_bounds(q) {
                r matches Some(v) && v@ == q && wf_value(v)
            } else {
                r is None
            }
        }),
{
    proof {
        lemma_mul_i64_i64(a.num as int, b.num as int);
        lemma_mul_u64_u64(a.den as int, b.den as int);
    }
    let p = (a.num as i128) * (b.num as i128);
    let den = (a.den as u128) * (b.den as u128);
    pack(p, den)
}

/// The exact quotient, when it fits.  The divisor must not be zero.
pub fn value_div(a: &Value, b: &Value) -> (r: Option<Value>)
    requires
        wf_value(*a),
        wf_value(*b),
        b.num != 0,
    ensures
        ({
            let q = rat_div(a@, b@);
            if in_bounds(q) {
                r matches Some(v) && v@ == q && wf_value(v)
            } else {
                r is None
            }
        }),
{
    proof {
        lemma_mul_i64_u64(a.num as int, b.den as int);
    }
    let p = (a.num as i128) * (b.den as i128);
    let b_abs: u64 = if b.num < 0 {
        (-(b.num as i128)) as u64
    } else {
        b.num as u64
    };
    proof {
        lemma_mul_u64_u64(a.den as int, b_abs as int);
    }
    let den = (a.den as u128) * (b_abs as u128);
    if b.num < 0 {
        if p == i128::MIN {
            // The true numerator would be `2^127`, beyond any `i64`.
            proof {
                assert(!in_bounds(rat_div(a@, b@)));
            }
            None
        } else {
            pack(-p, den)
        }
    } else {
        pack(p, den)
    }
}

/// The exact negation, when it fits.
pub fn value_neg(a: &Value) -> (r: Option<Value>)
    requires
        wf_value(*a),
    ensures
        ({
            let q = rat_neg(a@);
            if in_bounds(q) {
                r matches Some(v) && v@ == q && wf_value(v)
            } else {
                r is None
            }
        }),
{
    if a.num == i64::MIN {
        None
    } else {
        Some(Value { num: -a.num, den: a.den })
    }
}

/// The [`Value`] a well-formed literal denotes, when it fits.
pub fn literal_value(lit: &NumberLiteral) -> (r: Option<Value>)
    requires
        wf_literal(lit@),
    ensures
        match spec_literal(lit@) {
            Some(q) => r matches Some(v) && v@ == q && wf_value(v),
            None => r is None,
        },
{
    let text = lit.text.as_str();
    let n_chars = text.unicode_len();
    let mut i: usize = 0;
    let mut acc: u64 = 0;
    let mut too_big = false;
    let mut seen_dot = false;
    let mut frac: usize = 0;
    proof {
        assert(lit@.subrange(0, 0) =~= Seq::<char>::empty());
    }
    #[verifier::loop_isolation(false)]
    while i < n_chars
        invariant
            n_chars == lit@.len(),
            0 <= i <= n_chars,
            seen_dot == has_dot(lit@.subrange(0, i as int)),
            frac == frac_len(lit@.subrange(0, i as int)),
            frac <= i,
            !too_big ==> acc == lit_num(lit@.subrange(0, i as int)) && acc <= i64::MAX as u64,
            too_big ==> lit_num(lit@.subrange(0, i as int)) > i64::MAX as int,
        decreases n_chars - i,
    {
        let ghost prefix = lit@.subrange(0, i as int);
        let c = text.get_char(i);
        proof {
            assert(lit@.subrange(0, i + 1).drop_last() =~= prefix);
            assert(lit@.subrange(0, i + 1).last() == c);
            lemma_lit_num_nonneg(prefix);
        }
        if c == '.' {
            seen_dot = true;
            frac = 0;
        } else {
            let d: u64 = (c as u32 as u64) - 48;
            if !too_big {
                if acc <= (i64::MAX as u64 - d) / 10 {
                    acc = acc * 10 + d;
                } else {
                    proof {
                        assert(acc * 10 + d > i64::MAX as int) by (nonlinear_arith)
                            requires
                                acc > (i64::MAX as u64 - d) / 10,
                                0 <= d < 10,
                                acc >= 0,
                        ;
                    }
                    too_big = true;
                }
            } else {
                proof {
                    assert(lit_num(prefix) * 10 + d > i64::MAX as int) by (nonlinear_arith)
                        requires
                            lit_num(prefix) > i64::MAX as int,
                            d >= 0,
                    ;
                }
            }
            if seen_dot {
                frac = frac + 1;
            }
        }
        i = i + 1;
    }
    proof {
        assert(lit@.subrange(0, n_chars as int) =~= lit@);
    }
    if too_big {
        return None;
    }
    if frac >= 20 {
        proof {
            lemma_pow10_mono(20, frac as nat);
            assert(pow10(20) > u64::MAX as int) by {
                reveal_with_fuel(pow10, 21);
            }
        }
        return None;
    }
    proof {
        lemma_pow10_pos(frac as nat);
    }
    let mut den: u64 = 1;
    let mut j: usize = 0;
    proof {
        assert(pow10(frac as nat) <= u64::MAX as int) by {
            lemma_pow10_mono(frac as nat, 19);
            reveal_with_fuel(pow10, 20);
        }
    }
    #[verifier::loop_isolation(false)]
    while j < frac
        invariant
            0 <= j <= frac,
            den == pow10(j as nat),
        decreases frac - j,
    {
        proof {
            lemma_pow10_mono((j + 1) as nat, frac as nat);
            lemma_pow10_pos(j as nat);
        }
        den = den * 10;
        j = j + 1;
    }
    proof {
        assert(acc as int == lit_num(lit@));
        assert(den as int == pow10(frac_len(lit@)));
        assert(den >= 1);
    }
    Some(Value { num: acc as i64, den })
}

/// The character of one decimal digit.
pub open spec fn spec_digit_char(d: int) -> char {
    if d == 0 {
        '0'
    } else if d == 1 {
        '1'
    } else if d == 2 {
        '2'
    } else if d == 3 {
        '3'
    } else if d == 4 {
        '4'
    } else if d == 5 {
        '5'
    } else if d == 6 {
        '6'
    } else if d == 7 {
        '7'
    } else if d == 8 {
        '8'
    } else {
        '9'
    }
}

fn digit_char_of(d: u64) -> (c: char)
    requires
        d <= 9,
    ensures
        c == spec_digit_char(d as int),
{
    if d == 0 {
        '0'
    } else if d == 1 {
        '1'
    } else if d == 2 {
        '2'
    } else if d == 3 {
        '3'
    } else if d == 4 {
        '4'
    } else if d == 5 {
        '5'
    } else if d == 6 {
        '6'
    } else if d == 7 {
        '7'
    } else if d == 8 {
        '8'
    } else {
        '9'
    }
}

/// The decimal digits of a nonnegative integer, most significant first.
pub open spec fn spec_nat_digits(n: int) -> Seq<char>
    decreases n,
    when n >= 0
{
    if n < 10 {
        seq![spec_digit_char(n)]
    } else {
        spec_nat_digits(n / 10) + seq![spec_digit_char(n % 10)]
    }
}

/// How many fractional digits rendering produces at most.
pub const FRACTION_DIGIT_LIMIT: usize = 32;

/// The digits of the fractional expansion of `rem / den`, up to `fuel`
/// digits, stopping early when the remainder becomes zero.
pub open spec fn spec_frac_digits(rem: int, den: int, fuel: nat) -> Seq<char>
    decreases fuel,
{
    if fuel == 0 || rem <= 0 {
        Seq::empty()
    } else {
        seq![spec_digit_char((rem * 10) / den)] + spec_frac_digits(
            (rem * 10) % den,
            den,
            (fuel - 1) as nat,
        )
    }
}

/// The decimal text of a value: an optional sign, the integer part, and a
/// fractional part exactly when the value is not an integer, cut off after
/// [`FRACTION_DIGIT_LIMIT`] digits.
pub open spec fn spec_render(q: Rat) -> Seq<char> {
    let m = if q.num < 0 {
        -q.num
    } else {
        q.num
    };
    let ip = m / q.den;
    let rem = m % q.den;
    let sign: Seq<char> = if q.num < 0 {
        seq!['-']
    } else {
        Seq::empty()
    };
    let frac: Seq<char> = if rem == 0 {
        Seq::empty()
    } else {
        seq!['.'] + spec_frac_digits(rem, q.den, FRACTION_DIGIT_LIMIT as nat)
    };
    sign + spec_nat_digits(ip) + frac
}

/// Appends the decimal digits of `n`, most significant first.
fn push_nat_digits(out: &mut String, n: u64)
    ensures
        final(out)@ == old(out)@ + spec_nat_digits(n as int),
{
    let mut digs: Vec<char> = Vec::new();
    let mut m: u64 = n;
    #[verifier::loop_isolation(false)]
    loop
        invariant
            digs@.len() == 0 ==> m == n,
            digs@.len() > 0 ==> m > 0,
            digs@.len() > 0 ==> spec_nat_digits(n as int) == spec_nat_digits(m as int) + digs@,
        decreases m,
    {
        let d = m % 10;
        let ghost digs0 = digs@;
        let ghost m0 = m as int;
        digs.insert(0, digit_char_of(d));
        m = m / 10;
        proof {
            let dc = seq![spec_digit_char(m0 % 10)];
            assert(digs@ =~= dc + digs0);
            if m0 >= 10 {
                assert(spec_nat_digits(m0) == spec_nat_digits(m0 / 10) + dc);
                if digs0.len() > 0 {
                    assert(spec_nat_digits(m0 / 10) + (dc + digs0) =~= (spec_nat_digits(m0 / 10)
                        + dc) + digs0);
                } else {
                    assert(dc + digs0 =~= dc);
                }
                assert(spec_nat_digits(n as int) == spec_nat_digits(m as int) + digs@);
            } else {
                assert(m0 % 10 == m0 && m0 / 10 == 0);
                assert(spec_nat_digits(m0) =~= dc);
                if digs0.len() > 0 {
                    assert(spec_nat_digits(n as int) == spec_nat_digits(m0) + digs0);
                    assert(spec_nat_digits(m0) + digs0 =~= dc + digs0);
                } else {
                    assert(dc + digs0 =~= dc);
                }
                assert(spec_nat_digits(n as int) == digs@);
            }
        }
        if m == 0 {
            break;
        }
    }
    proof {
        assert(digs@.len() > 0);
        assert(spec_nat_digits(n as int) == digs@);
    }
    let ghost base = out@;
    let mut k: usize = 0;
    proof {
        assert(out@ =~= base + digs@.subrange(0, 0));
    }
    #[verifier::loop_isolation(false)]
    while k < digs.len()
        invariant
            0 <= k <= digs@.len(),
            out@ == base + digs@.subrange(0, k as int),
        decreases digs@.len() - k,
    {
        string_push(out, digs[k]);
        k = k + 1;
        proof {
            assert(base + digs@.subrange(0, k - 1) + seq![digs@[k - 1]] =~= base + digs@.subrange(
                0,
                k as int,
            ));
        }
    }
    proof {
        assert(digs@.subrange(0, digs@.len() as int) =~= digs@);
        assert(out@ =~= old(out)@ + spec_nat_digits(n as int));
    }
}

/// Appends the fractional expansion of `rem / den`, up to the digit limit.
fn push_frac_digits(out: &mut String, rem: u64, den: u64)
    requires
        0 < rem < den,
    ensures
        final(out)@ == old(out)@ + spec_frac_digits(
            rem as int,
            den as int,
            FRACTION_DIGIT_LIMIT as nat,
        ),
{
    let ghost head = out@;
    let ghost rem0 = rem as int;
    let ghost gden = den as int;
    let ghost whole = spec_frac_digits(rem0, gden, FRACTION_DIGIT_LIMIT as nat);
    let mut cur: u64 = rem;
    let mut fuel: usize = FRACTION_DIGIT_LIMIT;
    proof {
        assert(whole.subrange(0, 0) =~= Seq::<char>::empty());
        assert(out@ =~= head + whole.subrange(0, 0));
        assert(whole.subrange(0, 0) + whole =~= whole);
    }
    #[verifier::loop_isolation(false)]
    loop
        invariant
            0 <= fuel <= FRACTION_DIGIT_LIMIT,
            0 <= cur < den,
            FRACTION_DIGIT_LIMIT - fuel <= whole.len(),
            out@ == head + whole.subrange(0, (FRACTION_DIGIT_LIMIT - fuel) as int),
            whole == whole.subrange(0, (FRACTION_DIGIT_LIMIT - fuel) as int) + spec_frac_digits(
                cur as int,
                gden,
                fuel as nat,
            ),
        decreases fuel,
    {
        if fuel == 0 || cur == 0 {
            break;
        }
        let t: u128 = (cur as u128) * 10;
        let d: u64 = (t / (den as u128)) as u64;
        proof {
            lemma_frac_step(cur as int, gden);
        }
        string_push(out, digit_char_of(d));
        let ghost frest = spec_frac_digits(cur as int, gden, fuel as nat);
        cur = (t % (den as u128)) as u64;
        fuel = fuel - 1;
        proof {
            let subold = whole.subrange(0, (FRACTION_DIGIT_LIMIT - fuel - 1) as int);
            let subnew = whole.subrange(0, (FRACTION_DIGIT_LIMIT - fuel) as int);
            let rest = spec_frac_digits(cur as int, gden, fuel as nat);
            assert(frest == seq![frest[0]] + rest);
            assert(whole.len() == subold.len() + frest.len());
            assert(whole[(FRACTION_DIGIT_LIMIT - fuel - 1) as int] == frest[0]);
            assert(subold + seq![frest[0]] =~= subnew);
            assert(subold + (seq![frest[0]] + rest) =~= (subold + seq![frest[0]]) + rest);
            assert(out@ =~= head + subnew);
        }
    }
    proof {
        assert(spec_frac_digits(cur as int, gden, fuel as nat) =~= Seq::<char>::empty());
        assert(whole.subrange(0, (FRACTION_DIGIT_LIMIT - fuel) as int) + Seq::<char>::empty()
            =~= whole.subrange(0, (FRACTION_DIGIT_LIMIT - fuel) as int));
        assert(out@ =~= head + whole);
    }
}

/// Renders a value as its decimal text.
pub fn render_value(v: &Value) -> (r: String)
    requires
        wf_value(*v),
    ensures
        r@ == spec_render(v@),
{
    let neg = v.num < 0;
    let m: u64 = if neg {
        (-(v.num as i128)) as u64
    } else {
        v.num as u64
    };
    let ip: u64 = m / v.den;
    let rem: u64 = m % v.den;
    let ghost sign: Seq<char> = if neg {
        seq!['-']
    } else {
        Seq::empty()
    };
    let mut out = String::new();
    if neg {
        string_push(&mut out, '-');
    }
    proof {
        assert(out@ =~= sign);
    }
    push_nat_digits(&mut out, ip);
    if rem != 0 {
        string_push(&mut out, '.');
        let ghost mid = out@;
        push_frac_digits(&mut out, rem, v.den);
        proof {
            let frac = seq!['.'] + spec_frac_digits(
                rem as int,
                v.den as int,
                FRACTION_DIGIT_LIMIT as nat,
            );
            assert(mid =~= (sign + spec_nat_digits(ip as int)).push('.'));
            assert(out@ =~= sign + spec_nat_digits(ip as int) + frac);
            assert(out@ =~= spec_render(v@));
        }
    } else {
        proof {
            assert(sign + spec_nat_digits(ip as int) + Seq::<char>::empty() =~= sign
                + spec_nat_digits(ip as int));
            assert(out@ =~= spec_render(v@));
        }
    }
    out
}

} // verus!
