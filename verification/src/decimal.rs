//! Decimal numerals: the exact numeric model behind `Float` cells.
//!
//! A cell of kind `Float` carries its decimal text (`-12.5`). Two numerals
//! compare by their exact rational value: `a` relates to `b` as
//! `num(a)·10^scale(b)` relates to `num(b)·10^scale(a)`, where `num` is the
//! numeral read without its decimal point and `scale` its number of
//! fractional digits.
use vstd::prelude::*;

use crate::text::{all_digits, digit_val, digits_val, find_char, find_char_in, lemma_find_char};

verus! {

/// The outcome of a comparison.
#[derive(Clone, Copy, Debug, PartialEq, Eq, Structural)]
pub enum CellOrd {
    Less,
    Equal,
    Greater,
}

/// 10 to the `n`-th power.
pub open spec fn pow10(n: nat) -> nat
    decreases n,
{
    if n == 0 {
        1
    } else {
        10 * pow10((n - 1) as nat)
    }
}

/// Whether the numeral is negative (leading minus sign).
pub open spec fn dec_neg(s: Seq<char>) -> bool {
    s.len() > 0 && s[0] == '-'
}

/// The numeral without its sign.
pub open spec fn dec_body(s: Seq<char>) -> Seq<char> {
    if dec_neg(s) {
        s.drop_first()
    } else {
        s
    }
}

/// The digits before the decimal point.
pub open spec fn dec_int_part(s: Seq<char>) -> Seq<char> {
    let b = dec_body(s);
    let d = find_char(b, '.');
    if d == -1 {
        b
    } else {
        b.take(d)
    }
}

/// The digits after the decimal point (empty when there is no point).
pub open spec fn dec_frac_part(s: Seq<char>) -> Seq<char> {
    let b = dec_body(s);
    let d = find_char(b, '.');
    if d == -1 {
        Seq::empty()
    } else {
        b.skip(d + 1)
    }
}

/// A well-formed decimal numeral: an optional minus sign, at least one
/// integer digit, and, after an optional point, at least one fraction digit.
pub open spec fn is_decimal(s: Seq<char>) -> bool {
    let b = dec_body(s);
    let d = find_char(b, '.');
    &&& dec_int_part(s).len() > 0
    &&& all_digits(dec_int_part(s))
    &&& (d != -1 ==> dec_frac_part(s).len() > 0 && all_digits(dec_frac_part(s)))
}

/// The number of fractional digits.
pub open spec fn dec_scale(s: Seq<char>) -> nat {
    dec_frac_part(s).len()
}

/// The magnitude of the numeral read without its point: an integer scaled
/// by `10^scale`.
pub open spec fn dec_mag(s: Seq<char>) -> nat {
    digits_val(dec_int_part(s)) * pow10(dec_frac_part(s).len()) + digits_val(dec_frac_part(s))
}

/// The signed scaled value: the numeral's value times `10^scale`.
pub open spec fn dec_num(s: Seq<char>) -> int {
    if dec_neg(s) {
        -(dec_mag(s) as int)
    } else {
        dec_mag(s) as int
    }
}

/// How the values of two decimal numerals relate.
pub open spec fn dec_cmp_spec(a: Seq<char>, b: Seq<char>) -> CellOrd {
    let lhs = dec_num(a) * pow10(dec_scale(b)) as int;
    let rhs = dec_num(b) * pow10(dec_scale(a)) as int;
    if lhs < rhs {
        CellOrd::Less
    } else if lhs == rhs {
        CellOrd::Equal
    } else {
        CellOrd::Greater
    }
}

pub proof fn lemma_pow10_pos(n: nat)
    ensures
        pow10(n) >= 1,
    decreases n,
{
    if n > 0 {
        lemma_pow10_pos((n - 1) as nat);
    }
}

pub proof fn lemma_pow10_add(a: nat, b: nat)
    ensures
        pow10(a + b) == pow10(a) * pow10(b),
    decreases a,
{
    if a == 0 {
        assert(pow10(0nat) == 1);
        assert(a + b == b);
        assert(pow10(a + b) == pow10(a) * pow10(b));
    } else {
        let a1 = (a - 1) as nat;
        lemma_pow10_add(a1, b);
        let x = pow10(a1) as int;
        let y = pow10(b) as int;
        assert(pow10(a1 + b) == x * y);
        assert(pow10(a + b) == 10 * pow10(a1 + b));
        assert(pow10(a) == 10 * pow10(a1));
        assert(pow10(a) * pow10(b) == 10 * (x * y)) by (nonlinear_arith)
            requires
                pow10(a) == 10 * x,
                pow10(b) == y,
                x >= 0,
                y >= 0,
        ;
        assert(pow10(a + b) == pow10(a) * pow10(b));
    }
}

/// Reading a concatenation of digit strings: the left part is scaled by the
/// length of the right.
pub proof fn lemma_digits_val_concat(a: Seq<char>, b: Seq<char>)
    ensures
        digits_val(a + b) == digits_val(a) * pow10(b.len()) + digits_val(b),
    decreases b.len(),
{
    if b.len() == 0 {
        assert(a + b =~= a);
        assert(pow10(0nat) == 1);
        assert(digits_val(a) * 1 == digits_val(a));
    } else {
        lemma_digits_val_concat(a, b.drop_last());
        assert((a + b).drop_last() =~= a + b.drop_last());
        let d = digit_val(b.last()) as int;
        let va = digits_val(a) as int;
        let vdl = digits_val(b.drop_last()) as int;
        let p = pow10(b.drop_last().len()) as int;
        assert(digits_val(a + b) == (va * p + vdl) * 10 + d);
        assert(digits_val(b) == vdl * 10 + d);
        assert(pow10(b.len()) == 10 * p);
        assert(digits_val(a) * pow10(b.len()) + digits_val(b) == (va * p + vdl) * 10 + d)
            by (nonlinear_arith)
            requires
                digits_val(a) == va,
                pow10(b.len()) == 10 * p,
                digits_val(b) == vdl * 10 + d,
                va >= 0,
                p >= 0,
                vdl >= 0,
                d >= 0,
        ;
    }
}

/// A digit string's value is below ten to its length.
pub proof fn lemma_digits_val_bound(s: Seq<char>)
    requires
        all_digits(s),
    ensures
        digits_val(s) < pow10(s.len()),
    decreases s.len(),
{
    if s.len() == 0 {
    } else {
        lemma_digits_val_bound(s.drop_last());
        assert(digit_val(s.last()) <= 9);
        assert(digits_val(s.drop_last()) * 10 + 9 < pow10(s.len())) by (nonlinear_arith)
            requires
                digits_val(s.drop_last()) < pow10(s.drop_last().len()),
                pow10(s.len()) == 10 * pow10(s.drop_last().len()),
        ;
    }
}

/// A digit string is worth zero exactly when it is all zeroes.
pub proof fn lemma_digits_val_zero(s: Seq<char>)
    requires
        all_digits(s),
    ensures
        (digits_val(s) == 0) <==> (forall|i: int| 0 <= i < s.len() ==> s[i] == '0'),
    decreases s.len(),
{
    if s.len() > 0 {
        lemma_digits_val_zero(s.drop_last());
        assert(forall|i: int| 0 <= i < s.len() - 1 ==> s[i] == #[trigger] s.drop_last()[i]);
        if digits_val(s) == 0 {
            assert(digits_val(s.drop_last()) == 0);
            assert(digit_val(s.last()) == 0);
            assert(s.last() == '0');
            assert forall|i: int| 0 <= i < s.len() implies s[i] == '0' by {
                if i < s.len() - 1 {
                    assert(s[i] == s.drop_last()[i]);
                }
            }
        } else {
            if forall|i: int| 0 <= i < s.len() ==> s[i] == '0' {
                assert(s.last() == '0');
                assert(forall|i: int| 0 <= i < s.len() - 1 ==> s.drop_last()[i] == '0');
                assert(digits_val(s.drop_last()) == 0);
            }
        }
    }
}

/// Lexicographic order on equal-length digit strings is value order.
pub proof fn lemma_lex_lt(x: Seq<char>, y: Seq<char>, i: int)
    requires
        x.len() == y.len(),
        all_digits(x),
        all_digits(y),
        0 <= i < x.len(),
        x.take(i) == y.take(i),
        digit_val(x[i]) < digit_val(y[i]),
    ensures
        digits_val(x) < digits_val(y),
{
    let rest = (x.len() - i - 1) as nat;
    assert(x =~= x.take(i + 1) + x.skip(i + 1));
    assert(y =~= y.take(i + 1) + y.skip(i + 1));
    assert(all_digits(x.take(i + 1)) && all_digits(x.skip(i + 1))) by {
        assert(forall|j: int| 0 <= j < i + 1 ==> x.take(i + 1)[j] == #[trigger] x[j]);
        assert(forall|j: int| 0 <= j < rest ==> x.skip(i + 1)[j] == #[trigger] x[j + i + 1]);
    }
    assert(all_digits(y.take(i + 1)) && all_digits(y.skip(i + 1))) by {
        assert(forall|j: int| 0 <= j < i + 1 ==> y.take(i + 1)[j] == #[trigger] y[j]);
        assert(forall|j: int| 0 <= j < rest ==> y.skip(i + 1)[j] == #[trigger] y[j + i + 1]);
    }
    lemma_digits_val_concat(x.take(i + 1), x.skip(i + 1));
    lemma_digits_val_concat(y.take(i + 1), y.skip(i + 1));
    lemma_digits_val_bound(x.skip(i + 1));
    lemma_digits_val_bound(y.skip(i + 1));
    assert(x.skip(i + 1).len() == rest);
    assert(y.skip(i + 1).len() == rest);
    assert(x.take(i + 1).drop_last() =~= x.take(i));
    assert(y.take(i + 1).drop_last() =~= y.take(i));
    assert(digits_val(x.take(i + 1)) == digits_val(x.take(i)) * 10 + digit_val(x[i]));
    assert(digits_val(y.take(i + 1)) == digits_val(y.take(i)) * 10 + digit_val(y[i]));
    assert(digits_val(x.take(i + 1)) + 1 <= digits_val(y.take(i + 1)));
    lemma_pow10_pos(rest);
    assert(digits_val(x) < digits_val(y)) by (nonlinear_arith)
        requires
            digits_val(x) == digits_val(x.take(i + 1)) * pow10(rest) + digits_val(x.skip(i + 1)),
            digits_val(y) == digits_val(y.take(i + 1)) * pow10(rest) + digits_val(y.skip(i + 1)),
            digits_val(x.skip(i + 1)) < pow10(rest),
            digits_val(x.take(i + 1)) + 1 <= digits_val(y.take(i + 1)),
            pow10(rest) >= 1,
    ;
}

/// True iff every character of `s` is a decimal digit and there is at least
/// one of them.
pub fn check_digits(s: &str) -> (r: bool)
    ensures
        r == (s@.len() > 0 && all_digits(s@)),
{
    let n = s.unicode_len();
    if n == 0 {
        return false;
    }
    let mut i: usize = 0;
    while i < n
        invariant
            n == s@.len(),
            i <= n,
            forall|j: int| 0 <= j < i ==> '0' <= #[trigger] s@[j] <= '9',
        decreases n - i,
    {
        let c = s.get_char(i);
        if c < '0' || c > '9' {
            assert(!all_digits(s@)) by {
                assert(s@[i as int] == c);
            }
            return false;
        }
        i = i + 1;
    }
    true
}

/// Recognises a well-formed decimal numeral.
pub fn is_decimal_str(s: &str) -> (r: bool)
    ensures
        r == is_decimal(s@),
{
    let n = s.unicode_len();
    if n == 0 {
        return false;
    }
    let neg = s.get_char(0) == '-';
    let body = if neg {
        s.substring_char(1, n)
    } else {
        s
    };
    proof {
        assert(body@ =~= dec_body(s@));
    }
    let bn = body.unicode_len();
    match find_char_in(body, '.') {
        None => check_digits(body),
        Some(d) => {
            proof {
                lemma_find_char(body@, '.');
            }
            let int_part = body.substring_char(0, d);
            let frac = body.substring_char(d + 1, bn);
            proof {
                assert(int_part@ =~= dec_int_part(s@));
                assert(frac@ =~= dec_frac_part(s@));
            }
            if !check_digits(int_part) {
                return false;
            }
            check_digits(frac)
        },
    }
}

/// The sign, integer digits and fraction digits of a well-formed numeral.
pub fn split_decimal<'a>(s: &'a str) -> (r: (bool, &'a str, &'a str))
    requires
        is_decimal(s@),
    ensures
        r.0 == dec_neg(s@),
        r.1@ == dec_int_part(s@),
        r.2@ == dec_frac_part(s@),
{
    let n = s.unicode_len();
    assert(n > 0) by {
        assert(dec_int_part(s@).len() > 0);
    }
    let neg = s.get_char(0) == '-';
    let body = if neg {
        s.substring_char(1, n)
    } else {
        s
    };
    proof {
        assert(body@ =~= dec_body(s@));
    }
    let bn = body.unicode_len();
    match find_char_in(body, '.') {
        None => {
            let frac = s.substring_char(n, n);
            proof {
                assert(frac@ =~= dec_frac_part(s@));
            }
            (neg, body, frac)
        },
        Some(d) => {
            proof {
                lemma_find_char(body@, '.');
            }
            let int_part = body.substring_char(0, d);
            let frac = body.substring_char(d + 1, bn);
            proof {
                assert(int_part@ =~= dec_int_part(s@));
                assert(frac@ =~= dec_frac_part(s@));
            }
            (neg, int_part, frac)
        },
    }
}

/// The constant-`'0'` sequence.
pub open spec fn zeroes(n: nat) -> Seq<char> {
    Seq::new(n, |i: int| '0')
}

fn push_zeroes(v: &mut Vec<char>, n: usize)
    ensures
        final (v)@ == old(v)@ + zeroes(n as nat),
{
    let mut i: usize = 0;
    while i < n
        invariant
            i <= n,
            v@ == old(v)@ + zeroes(i as nat),
        decreases n - i,
    {
        v.push('0');
        i = i + 1;
        proof {
            assert(v@ =~= old(v)@ + zeroes(i as nat));
        }
    }
}

fn push_str_chars(v: &mut Vec<char>, s: &str)
    ensures
        final (v)@ == old(v)@ + s@,
{
    let n = s.unicode_len();
    let mut i: usize = 0;
    while i < n
        invariant
            n == s@.len(),
            i <= n,
            v@ == old(v)@ + s@.take(i as int),
        decreases n - i,
    {
        v.push(s.get_char(i));
        i = i + 1;
        proof {
            assert(v@ =~= old(v)@ + s@.take(i as int));
        }
    }
    proof {
        assert(v@ =~= old(v)@ + s@);
    }
}

/// The aligned digit string `0^ipad ++ int ++ frac ++ 0^fpad`.
fn aligned_digits(int_part: &str, frac: &str, ipad: usize, fpad: usize) -> (r: Vec<char>)
    requires
        int_part@.len() + frac@.len() + ipad + fpad <= usize::MAX,
    ensures
        r@ == zeroes(ipad as nat) + int_part@ + frac@ + zeroes(fpad as nat),
{
    let mut v: Vec<char> = Vec::new();
    push_zeroes(&mut v, ipad);
    push_str_chars(&mut v, int_part);
    push_str_chars(&mut v, frac);
    push_zeroes(&mut v, fpad);
    proof {
        assert(v@ =~= zeroes(ipad as nat) + int_part@ + frac@ + zeroes(fpad as nat));
    }
    v
}

proof fn lemma_zeroes(n: nat)
    ensures
        all_digits(zeroes(n)),
        digits_val(zeroes(n)) == 0,
    decreases n,
{
    if n > 0 {
        lemma_zeroes((n - 1) as nat);
        assert(zeroes(n).drop_last() =~= zeroes((n - 1) as nat));
        assert(zeroes(n).last() == '0');
    }
}

/// Numeric comparison of two equal-length digit strings.
fn cmp_digit_seq(x: &Vec<char>, y: &Vec<char>) -> (r: CellOrd)
    requires
        x@.len() == y@.len(),
        all_digits(x@),
        all_digits(y@),
    ensures
        r == CellOrd::Less <==> digits_val(x@) < digits_val(y@),
        r == CellOrd::Equal <==> digits_val(x@) == digits_val(y@),
        r == CellOrd::Greater <==> digits_val(x@) > digits_val(y@),
{
    let n = x.len();
    let mut i: usize = 0;
    while i < n
        invariant
            n == x@.len(),
            n == y@.len(),
            all_digits(x@),
            all_digits(y@),
            i <= n,
            x@.take(i as int) == y@.take(i as int),
        decreases n - i,
    {
        let cx = x[i];
        let cy = y[i];
        if cx != cy {
            if (cx as u32) < (cy as u32) {
                proof {
                    lemma_lex_lt(x@, y@, i as int);
                }
                return CellOrd::Less;
            } else {
                proof {
                    lemma_lex_lt(y@, x@, i as int);
                }
                return CellOrd::Greater;
            }
        }
        i = i + 1;
        proof {
            assert(x@.take(i as int) =~= y@.take(i as int));
        }
    }
    proof {
        assert(x@.take(n as int) =~= x@);
        assert(y@.take(n as int) =~= y@);
        assert(x@ =~= y@);
    }
    CellOrd::Equal
}

/// Whether the numeral's value is zero.
fn decimal_is_zero(int_part: &str, frac: &str) -> (r: bool)
    requires
        all_digits(int_part@),
        all_digits(frac@),
    ensures
        r == (digits_val(int_part@) == 0 && digits_val(frac@) == 0),
{
    proof {
        lemma_digits_val_zero(int_part@);
        lemma_digits_val_zero(frac@);
    }
    let a = all_zero(int_part);
    if !a {
        return false;
    }
    all_zero(frac)
}

fn all_zero(s: &str) -> (r: bool)
    ensures
        r == (forall|i: int| 0 <= i < s@.len() ==> s@[i] == '0'),
{
    let n = s.unicode_len();
    let mut i: usize = 0;
    while i < n
        invariant
            n == s@.len(),
            i <= n,
            forall|j: int| 0 <= j < i ==> s@[j] == '0',
        decreases n - i,
    {
        if s.get_char(i) != '0' {
            return false;
        }
        i = i + 1;
    }
    true
}

proof fn lemma_aligned_value(int_part: Seq<char>, frac: Seq<char>, ipad: nat, m: nat)
    requires
        all_digits(int_part),
        all_digits(frac),
        frac.len() <= m,
    ensures
        digits_val(zeroes(ipad) + int_part + frac + zeroes((m - frac.len()) as nat)) == (
        digits_val(int_part) * pow10(frac.len()) + digits_val(frac)) * pow10(
            (m - frac.len()) as nat,
        ),
{
    let fpad = (m - frac.len()) as nat;
    let whole = zeroes(ipad) + int_part + frac + zeroes(fpad);
    lemma_zeroes(ipad);
    lemma_zeroes(fpad);
    // Leading zeroes do not change the value.
    lemma_digits_val_concat(zeroes(ipad), int_part);
    assert(zeroes(ipad) + int_part + frac + zeroes(fpad) =~= (zeroes(ipad) + int_part) + (frac
        + zeroes(fpad)));
    lemma_digits_val_concat(zeroes(ipad) + int_part, frac + zeroes(fpad));
    lemma_digits_val_concat(frac, zeroes(fpad));
    assert(digits_val(zeroes(ipad) + int_part) == digits_val(int_part));
    assert((frac + zeroes(fpad)).len() == frac.len() + fpad);
    assert(digits_val(frac + zeroes(fpad)) == digits_val(frac) * pow10(fpad));
    lemma_pow10_add(frac.len(), fpad);
    assert(digits_val(whole) == digits_val(int_part) * (pow10(frac.len()) * pow10(fpad))
        + digits_val(frac) * pow10(fpad));
    assert(digits_val(int_part) * (pow10(frac.len()) * pow10(fpad)) + digits_val(frac) * pow10(
        fpad,
    ) == (digits_val(int_part) * pow10(frac.len()) + digits_val(frac)) * pow10(fpad))
        by (nonlinear_arith);
}

/// Compares two decimal numerals by their exact numeric value.
#[verifier::rlimit(50)]
pub fn compare_decimals(a: &str, b: &str) -> (r: CellOrd)
    requires
        is_decimal(a@),
        is_decimal(b@),
        a@.len() <= usize::MAX / 4,
        b@.len() <= usize::MAX / 4,
    ensures
        r == dec_cmp_spec(a@, b@),
{
    proof {
        lemma_dec_part_lens(a@);
        lemma_dec_part_lens(b@);
    }
    let (neg_a, int_a, frac_a) = split_decimal(a);
    let (neg_b, int_b, frac_b) = split_decimal(b);
    let zero_a = decimal_is_zero(int_a, frac_a);
    let zero_b = decimal_is_zero(int_b, frac_b);
    proof {
        lemma_pow10_pos(dec_scale(a@));
        lemma_pow10_pos(dec_scale(b@));
        lemma_mag_zero(a@);
        lemma_mag_zero(b@);
    }
    if zero_a && zero_b {
        return CellOrd::Equal;
    }
    if zero_a {
        // b is non-zero; its sign decides.
        if neg_b {
            proof {
                lemma_sign(a@, b@);
            }
            return CellOrd::Greater;
        } else {
            proof {
                lemma_sign(a@, b@);
            }
            return CellOrd::Less;
        }
    }
    if zero_b {
        if neg_a {
            proof {
                lemma_sign(a@, b@);
            }
            return CellOrd::Less;
        } else {
            proof {
                lemma_sign(a@, b@);
            }
            return CellOrd::Greater;
        }
    }
    if neg_a != neg_b {
        proof {
            lemma_sign(a@, b@);
        }
        if neg_a {
            return CellOrd::Less;
        } else {
            return CellOrd::Greater;
        }
    }
    // Same sign, both non-zero: align and compare digit strings.
    let la = int_a.unicode_len();
    let lb = int_b.unicode_len();
    let fa = frac_a.unicode_len();
    let fb = frac_b.unicode_len();
    let ipad_a = if la < lb {
        lb - la
    } else {
        0
    };
    let ipad_b = if lb < la {
        la - lb
    } else {
        0
    };
    let m = if fa < fb {
        fb
    } else {
        fa
    };
    let xa = aligned_digits(int_a, frac_a, ipad_a, m - fa);
    let xb = aligned_digits(int_b, frac_b, ipad_b, m - fb);
    proof {
        lemma_zeroes(ipad_a as nat);
        lemma_zeroes(ipad_b as nat);
        lemma_zeroes((m - fa) as nat);
        lemma_zeroes((m - fb) as nat);
        assert(all_digits(xa@)) by {
            assert(xa@ =~= zeroes(ipad_a as nat) + int_a@ + frac_a@ + zeroes((m - fa) as nat));
        }
        assert(all_digits(xb@)) by {
            assert(xb@ =~= zeroes(ipad_b as nat) + int_b@ + frac_b@ + zeroes((m - fb) as nat));
        }
        assert(xa@.len() == xb@.len());
        lemma_aligned_value(int_a@, frac_a@, ipad_a as nat, m as nat);
        lemma_aligned_value(int_b@, frac_b@, ipad_b as nat, m as nat);
    }
    let mag = cmp_digit_seq(&xa, &xb);
    proof {
        assert(digits_val(xa@) == dec_mag(a@) * pow10((m - fa) as nat));
        assert(digits_val(xb@) == dec_mag(b@) * pow10((m - fb) as nat));
        lemma_compare_glue(a@, b@, m as nat, digits_val(xa@), digits_val(xb@), neg_a);
    }
    if neg_a {
        match mag {
            CellOrd::Less => CellOrd::Greater,
            CellOrd::Equal => CellOrd::Equal,
            CellOrd::Greater => CellOrd::Less,
        }
    } else {
        mag
    }
}

proof fn lemma_compare_glue(a: Seq<char>, b: Seq<char>, m: nat, va: nat, vb: nat, neg: bool)
    requires
        is_decimal(a),
        is_decimal(b),
        dec_scale(a) <= m,
        dec_scale(b) <= m,
        dec_neg(a) == neg,
        dec_neg(b) == neg,
        va == dec_mag(a) * pow10((m - dec_scale(a)) as nat),
        vb == dec_mag(b) * pow10((m - dec_scale(b)) as nat),
    ensures
        va < vb ==> dec_cmp_spec(a, b) == (if neg {
            CellOrd::Greater
        } else {
            CellOrd::Less
        }),
        va == vb ==> dec_cmp_spec(a, b) == CellOrd::Equal,
        va > vb ==> dec_cmp_spec(a, b) == (if neg {
            CellOrd::Less
        } else {
            CellOrd::Greater
        }),
{
    lemma_scaled_compare(a, b, m);
    let x = dec_mag(a) * pow10(dec_scale(b));
    let y = dec_mag(b) * pow10(dec_scale(a));
    if neg {
        assert(dec_num(a) * pow10(dec_scale(b)) as int == -(x as int)) by (nonlinear_arith)
            requires
                dec_num(a) == -(dec_mag(a) as int),
                x == dec_mag(a) * pow10(dec_scale(b)),
        ;
        assert(dec_num(b) * pow10(dec_scale(a)) as int == -(y as int)) by (nonlinear_arith)
            requires
                dec_num(b) == -(dec_mag(b) as int),
                y == dec_mag(b) * pow10(dec_scale(a)),
        ;
    }
}

proof fn lemma_dec_part_lens(s: Seq<char>)
    ensures
        dec_int_part(s).len() <= s.len(),
        dec_frac_part(s).len() <= s.len(),
{
    lemma_find_char(dec_body(s), '.');
}

proof fn lemma_mag_zero(s: Seq<char>)
    requires
        is_decimal(s),
    ensures
        (dec_mag(s) == 0) <==> (digits_val(dec_int_part(s)) == 0 && digits_val(dec_frac_part(s))
            == 0),
        dec_num(s) == 0 <==> dec_mag(s) == 0,
{
    lemma_pow10_pos(dec_frac_part(s).len());
    assert(digits_val(dec_int_part(s)) * pow10(dec_frac_part(s).len()) >= digits_val(
        dec_int_part(s),
    )) by (nonlinear_arith)
        requires
            pow10(dec_frac_part(s).len()) >= 1,
    ;
    assert(digits_val(dec_int_part(s)) > 0 ==> dec_mag(s) > 0);
}

proof fn lemma_sign(a: Seq<char>, b: Seq<char>)
    requires
        is_decimal(a),
        is_decimal(b),
    ensures
        dec_mag(a) == 0 && dec_mag(b) > 0 && !dec_neg(b) ==> dec_cmp_spec(a, b) == CellOrd::Less,
        dec_mag(a) == 0 && dec_mag(b) > 0 && dec_neg(b) ==> dec_cmp_spec(a, b) == CellOrd::Greater,
        dec_mag(a) == 0 && dec_mag(b) == 0 ==> dec_cmp_spec(a, b) == CellOrd::Equal,
        dec_mag(b) == 0 && dec_mag(a) > 0 && !dec_neg(a) ==> dec_cmp_spec(a, b)
            == CellOrd::Greater,
        dec_mag(b) == 0 && dec_mag(a) > 0 && dec_neg(a) ==> dec_cmp_spec(a, b) == CellOrd::Less,
        dec_mag(a) > 0 && dec_mag(b) > 0 && dec_neg(a) && !dec_neg(b) ==> dec_cmp_spec(a, b)
            == CellOrd::Less,
        dec_mag(a) > 0 && dec_mag(b) > 0 && !dec_neg(a) && dec_neg(b) ==> dec_cmp_spec(a, b)
            == CellOrd::Greater,
{
    lemma_pow10_pos(dec_scale(a));
    lemma_pow10_pos(dec_scale(b));
    let pa = pow10(dec_scale(a)) as int;
    let pb = pow10(dec_scale(b)) as int;
    assert(dec_num(a) > 0 ==> dec_num(a) * pb > 0) by (nonlinear_arith)
        requires
            pb >= 1,
    ;
    assert(dec_num(a) < 0 ==> dec_num(a) * pb < 0) by (nonlinear_arith)
        requires
            pb >= 1,
    ;
    assert(dec_num(b) > 0 ==> dec_num(b) * pa > 0) by (nonlinear_arith)
        requires
            pa >= 1,
    ;
    assert(dec_num(b) < 0 ==> dec_num(b) * pa < 0) by (nonlinear_arith)
        requires
            pa >= 1,
    ;
    assert(dec_num(a) == 0 ==> dec_num(a) * pb == 0) by (nonlinear_arith);
    assert(dec_num(b) == 0 ==> dec_num(b) * pa == 0) by (nonlinear_arith);
}

proof fn lemma_scaled_compare(a: Seq<char>, b: Seq<char>, m: nat)
    requires
        is_decimal(a),
        is_decimal(b),
        dec_scale(a) <= m,
        dec_scale(b) <= m,
    ensures
        ({
            let ma = dec_mag(a) * pow10((m - dec_scale(a)) as nat);
            let mb = dec_mag(b) * pow10((m - dec_scale(b)) as nat);
            &&& (dec_mag(a) * pow10(dec_scale(b)) < dec_mag(b) * pow10(dec_scale(a)) <==> ma < mb)
            &&& (dec_mag(a) * pow10(dec_scale(b)) == dec_mag(b) * pow10(dec_scale(a)) <==> ma
                == mb)
        }),
{
    let fa = dec_scale(a);
    let fb = dec_scale(b);
    let ka = (m - fa) as nat;
    let kb = (m - fb) as nat;
    let ma = dec_mag(a) * pow10(ka);
    let mb = dec_mag(b) * pow10(kb);
    let x = dec_mag(a) * pow10(fb);
    let y = dec_mag(b) * pow10(fa);
    // Both comparisons agree because ma·10^(fa+fb) == x·10^m and
    // mb·10^(fa+fb) == y·10^m, and both factors are positive.
    let c = pow10(fa + fb);
    let d = pow10(m);
    lemma_pow10_pos(fa + fb);
    lemma_pow10_pos(m);
    lemma_pow10_add(ka, fa + fb);
    lemma_pow10_add(fb, m);
    assert(ka + fa + fb == m + fb);
    assert(pow10(ka) * c == pow10(fb) * d);
    assert(ma * c == x * d) by (nonlinear_arith)
        requires
            ma == dec_mag(a) * pow10(ka),
            x == dec_mag(a) * pow10(fb),
            pow10(ka) * c == pow10(fb) * d,
    ;
    lemma_pow10_add(kb, fa + fb);
    lemma_pow10_add(fa, m);
    assert(kb + fa + fb == m + fa);
    assert(pow10(kb) * c == pow10(fa) * d);
    assert(mb * c == y * d) by (nonlinear_arith)
        requires
            mb == dec_mag(b) * pow10(kb),
            y == dec_mag(b) * pow10(fa),
            pow10(kb) * c == pow10(fa) * d,
    ;
    assert((ma < mb <==> ma * c < mb * c) && (ma == mb <==> ma * c == mb * c))
        by (nonlinear_arith)
        requires
            c >= 1,
            ma >= 0,
            mb >= 0,
    ;
    assert((x < y <==> x * d < y * d) && (x == y <==> x * d == y * d)) by (nonlinear_arith)
        requires
            d >= 1,
            x >= 0,
            y >= 0,
    ;
}

} // verus!
