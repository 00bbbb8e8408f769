//! Decimal numbers as `str::parse` reads the finite floating-point ones: an optional sign,
//! digits with an optional point, and an optional exponent; read here exactly, as a whole
//! number of thousandths where they denote one.

use vstd::prelude::*;
use vstd::arithmetic::div_mod::lemma_fundamental_div_mod_converse;
use crate::text::{all_digits, digits_value, find_char, first_index, is_digit, pow10, pow10_exec, lemma_first_index_range, lemma_pow10_monotone};

verus! {

/// Index of the first exponent mark, `e` or `E`, in `s`, or -1.
pub open spec fn exponent_index(s: Seq<char>) -> int {
    let lower = first_index(s, 'e');
    let upper = first_index(s, 'E');
    if lower < 0 {
        upper
    } else if upper < 0 || lower <= upper {
        lower
    } else {
        upper
    }
}

/// `s` without one leading sign.
pub open spec fn unsigned_part(s: Seq<char>) -> Seq<char> {
    if s.len() > 0 && (s[0] == '+' || s[0] == '-') { s.drop_first() } else { s }
}

/// The parts of a decimal number: whether it is negative, its digits with the point taken
/// out, how many of them follow the point, whether the exponent is negative, and the
/// exponent's digits (none where there is no exponent). `None` when `s` is no such number.
pub open spec fn decimal_parts(s: Seq<char>) -> Option<(bool, Seq<char>, nat, bool, Seq<char>)> {
    let body = unsigned_part(s);
    let ei = exponent_index(body);
    let mantissa = if ei < 0 { body } else { body.subrange(0, ei) };
    let exponent = if ei < 0 { Seq::<char>::empty() } else { body.subrange(ei + 1, body.len() as int) };
    let d = first_index(mantissa, '.');
    let int_part = if d < 0 { mantissa } else { mantissa.subrange(0, d) };
    let frac = if d < 0 { Seq::<char>::empty() } else { mantissa.subrange(d + 1, mantissa.len() as int) };
    let exponent_digits = unsigned_part(exponent);
    if all_digits(int_part) && all_digits(frac) && int_part.len() + frac.len() >= 1 && all_digits(exponent_digits)
        && (ei < 0 || exponent_digits.len() >= 1) {
        Some((s.len() > 0 && s[0] == '-', int_part + frac, frac.len(), exponent.len() > 0 && exponent[0] == '-', exponent_digits))
    } else {
        None
    }
}

/// The power of ten that scales the digits of a number to thousandths.
pub open spec fn thousandths_shift(frac_len: nat, exponent_negative: bool, exponent_digits: Seq<char>) -> int {
    (if exponent_negative { -(digits_value(exponent_digits) as int) } else { digits_value(exponent_digits) as int }) - frac_len + 3
}

/// The whole number of thousandths that the digits `ds` scaled by `10^shift` make, if they
/// make one.
pub open spec fn scaled_thousandths(ds: Seq<char>, shift: int) -> Option<nat> {
    if shift >= 0 {
        Some(digits_value(ds) * pow10(shift as nat))
    } else if digits_value(ds) % pow10((-shift) as nat) == 0 {
        Some(digits_value(ds) / pow10((-shift) as nat))
    } else {
        None
    }
}

/// The number written in `s`, when it is a whole number of thousandths that is not
/// negative (`66.666`, `12.5`, `+100`, `.5`, `7.`, `1e2`, `2.50000`, `-0`).
#[verifier::opaque]
pub open spec fn decimal_thousandths(s: Seq<char>) -> Option<nat> {
    match decimal_parts(s) {
        None => None,
        Some(p) => parts_thousandths(p),
    }
}

/// The value of digits followed by more digits.
pub proof fn lemma_digits_value_concat(a: Seq<char>, b: Seq<char>)
    ensures
        digits_value(a + b) == digits_value(a) * pow10(b.len()) + digits_value(b),
    decreases b.len(),
{
    if b.len() == 0 {
        assert(a + b =~= a);
        assert(pow10(0) == 1);
        assert(digits_value(b) == 0);
    } else {
        let b2 = b.drop_last();
        lemma_digits_value_concat(a, b2);
        assert((a + b).drop_last() =~= a + b2);
        assert((a + b).last() == b.last());
        let x = digits_value(a);
        let p = pow10(b2.len());
        assert(pow10(b.len()) == 10 * p);
        let d = ((b.last() as u32) - 48) as nat;
        assert(digits_value(a + b) == digits_value(a + b2) * 10 + d);
        assert(digits_value(b) == digits_value(b2) * 10 + d);
        assert((x * p + digits_value(b2)) * 10 == x * (10 * p) + digits_value(b2) * 10) by (nonlinear_arith);
    }
}

/// Digits are worth less than ten to their number.
pub proof fn lemma_digits_value_below_power(s: Seq<char>)
    requires
        all_digits(s),
    ensures
        digits_value(s) < pow10(s.len()),
    decreases s.len(),
{
    if s.len() > 0 {
        assert(all_digits(s.drop_last()));
        lemma_digits_value_below_power(s.drop_last());
        assert(is_digit(s.last()));
    }
}

/// Digits are worth nothing exactly when they are all zeros.
pub proof fn lemma_digits_value_zero(s: Seq<char>)
    requires
        all_digits(s),
    ensures
        (digits_value(s) == 0) == (forall|i: int| 0 <= i < s.len() ==> #[trigger] s[i] == '0'),
    decreases s.len(),
{
    if s.len() > 0 {
        let t = s.drop_last();
        assert(all_digits(t));
        lemma_digits_value_zero(t);
        assert(is_digit(s.last()));
        if digits_value(s) == 0 {
            assert forall|i: int| 0 <= i < s.len() implies #[trigger] s[i] == '0' by {
                if i < t.len() {
                    assert(t[i] == s[i]);
                }
            }
        }
        if forall|i: int| 0 <= i < s.len() ==> #[trigger] s[i] == '0' {
            assert forall|i: int| 0 <= i < t.len() implies #[trigger] t[i] == '0' by {
                assert(s[i] == '0');
            }
            assert(s[s.len() - 1] == '0');
        }
    }
}

/// Powers of ten multiply by adding their exponents.
pub proof fn lemma_pow10_adds(a: nat, b: nat)
    ensures
        pow10(a + b) == pow10(a) * pow10(b),
    decreases b,
{
    if b == 0 {
        assert(pow10(0) == 1);
        assert(a + b == a);
    } else {
        lemma_pow10_adds(a, (b - 1) as nat);
        assert((a + b - 1) as nat == a + (b - 1) as nat);
        assert(pow10(a + b) == 10 * pow10((a + b - 1) as nat));
        assert(pow10(b) == 10 * pow10((b - 1) as nat));
        assert(pow10(a) * (10 * pow10((b - 1) as nat)) == 10 * (pow10(a) * pow10((b - 1) as nat))) by (nonlinear_arith);
    }
}

/// A character that `s` does not hold has no first index in it.
pub proof fn lemma_absent_char(s: Seq<char>, c: char)
    requires
        forall|i: int| 0 <= i < s.len() ==> #[trigger] s[i] != c,
    ensures
        first_index(s, c) == -1,
    decreases s.len(),
{
    if s.len() > 0 {
        let t = s.drop_last();
        assert forall|i: int| 0 <= i < t.len() implies #[trigger] t[i] != c by {
            assert(t[i] == s[i]);
        }
        lemma_absent_char(t, c);
        assert(s[s.len() - 1] != c);
    }
}

/// Digits alone read as that many whole units; digits, a point and at most three more
/// digits read as the units and the thousandths that the fraction makes.
pub proof fn lemma_plain_decimal(int_part: Seq<char>, frac: Seq<char>)
    requires
        int_part.len() >= 1,
        all_digits(int_part),
        all_digits(frac),
        frac.len() <= 3,
    ensures
        decimal_thousandths(int_part) == Some(digits_value(int_part) * 1000),
        frac.len() >= 1 ==> decimal_thousandths(int_part + seq!['.'] + frac) == Some(
            digits_value(int_part) * 1000 + digits_value(frac) * pow10((3 - frac.len()) as nat),
        ),
{
    reveal(decimal_thousandths);
    assert(pow10(3) == 1000) by {
        reveal_with_fuel(pow10, 4);
    }
    assert(is_digit(int_part[0]));
    assert forall|i: int| 0 <= i < int_part.len() implies #[trigger] int_part[i] != 'e' && int_part[i] != 'E' && int_part[i] != '.' by {
        assert(is_digit(int_part[i]));
    }
    lemma_absent_char(int_part, 'e');
    lemma_absent_char(int_part, 'E');
    lemma_absent_char(int_part, '.');
    assert(unsigned_part(int_part) == int_part);
    let e = Seq::<char>::empty();
    assert(unsigned_part(e) == e);
    assert(digits_value(e) == 0);
    assert(int_part + e =~= int_part);
    assert(decimal_parts(int_part) == Some((false, int_part, 0nat, false, e)));
    assert(thousandths_shift(0, false, e) == 3);
    if frac.len() >= 1 {
        let text = int_part + seq!['.'] + frac;
        let n = int_part.len() as int;
        assert(text[0] == int_part[0]);
        assert forall|i: int| 0 <= i < text.len() implies #[trigger] text[i] != 'e' && text[i] != 'E' by {
            if i < n {
                assert(text[i] == int_part[i]);
            } else if i > n {
                assert(text[i] == frac[i - n - 1]);
                assert(is_digit(frac[i - n - 1]));
            }
        }
        lemma_absent_char(text, 'e');
        lemma_absent_char(text, 'E');
        assert(unsigned_part(text) == text);
        assert(text.subrange(0, n) =~= int_part);
        assert(text[n] == '.');
        crate::text::lemma_first_index_prefix(text, '.', n + 1);
        assert(text.subrange(n + 1, text.len() as int) =~= frac);
        assert(decimal_parts(text) == Some((false, int_part + frac, frac.len(), false, e)));
        let f = frac.len();
        assert(thousandths_shift(f, false, e) == 3 - f);
        lemma_digits_value_concat(int_part, frac);
        lemma_pow10_adds(f, (3 - f) as nat);
        assert((f + (3 - f) as nat) as nat == 3);
        let a = digits_value(int_part);
        let b = digits_value(frac);
        let p = pow10(f);
        let q = pow10((3 - f) as nat);
        assert((a * p + b) * q == a * (p * q) + b * q) by (nonlinear_arith);
    }
}

/// The exponents that `parse_percentage_thousandths` tells apart; a larger one is read as
/// this one, which decides the same.
pub open spec fn exponent_cap() -> nat {
    100_000_000_000_000_000_000
}

fn copy_part(s: &[char], from: usize, to: usize) -> (v: Vec<char>)
    requires
        from <= to <= s@.len(),
    ensures
        v@ == s@.subrange(from as int, to as int),
{
    let mut v: Vec<char> = Vec::new();
    let mut k = from;
    while k < to
        invariant
            from <= k <= to <= s@.len(),
            v@ == s@.subrange(from as int, k as int),
        decreases to - k,
    {
        v.push(s[k]);
        k += 1;
    }
    v
}

fn joined(a: &[char], b: &[char]) -> (v: Vec<char>)
    ensures
        v@ == a@ + b@,
{
    let mut v = copy_part(a, 0, a.len());
    assert(v@ =~= a@);
    let mut k: usize = 0;
    while k < b.len()
        invariant
            k <= b@.len(),
            v@ == a@ + b@.subrange(0, k as int),
        decreases b@.len() - k,
    {
        v.push(b[k]);
        k += 1;
        assert(v@ =~= a@ + b@.subrange(0, k as int));
    }
    assert(b@.subrange(0, k as int) =~= b@);
    v
}

fn all_digit_chars(s: &[char]) -> (b: bool)
    ensures
        b == all_digits(s@),
{
    let mut k: usize = 0;
    while k < s.len()
        invariant
            k <= s@.len(),
            forall|i: int| 0 <= i < k ==> is_digit(#[trigger] s@[i]),
        decreases s@.len() - k,
    {
        if !('0' <= s[k] && s[k] <= '9') {
            assert(!is_digit(s@[k as int]));
            return false;
        }
        k += 1;
    }
    true
}

fn all_zero_chars(s: &[char]) -> (b: bool)
    ensures
        b == (forall|i: int| 0 <= i < s@.len() ==> #[trigger] s@[i] == '0'),
{
    let mut k: usize = 0;
    while k < s.len()
        invariant
            k <= s@.len(),
            forall|i: int| 0 <= i < k ==> #[trigger] s@[i] == '0',
        decreases s@.len() - k,
    {
        if s[k] != '0' {
            assert(s@[k as int] != '0');
            return false;
        }
        k += 1;
    }
    true
}

/// The value of the digits `s`, or `cap` where it is not below `cap`.
fn capped_value(s: &[char], cap: u128) -> (r: u128)
    requires
        all_digits(s@),
        cap <= exponent_cap(),
    ensures
        r == (if digits_value(s@) < cap { digits_value(s@) } else { cap as nat }),
{
    let mut r: u128 = 0;
    let mut k: usize = 0;
    while k < s.len()
        invariant
            k <= s@.len(),
            all_digits(s@),
            cap <= exponent_cap(),
            r == (if digits_value(s@.subrange(0, k as int)) < cap { digits_value(s@.subrange(0, k as int)) } else { cap as nat }),
        decreases s@.len() - k,
    {
        let ghost before = s@.subrange(0, k as int);
        let ghost after = s@.subrange(0, k + 1);
        assert(after.drop_last() =~= before);
        assert(after.last() == s@[k as int]);
        assert(is_digit(s@[k as int]));
        let d = ((s[k] as u32) - 48) as u128;
        assert(digits_value(after) == digits_value(before) * 10 + d);
        if r < cap {
            let t = r * 10 + d;
            r = if t < cap { t } else { cap };
        } else {
            assert(digits_value(before) * 10 + d >= cap) by (nonlinear_arith)
                requires digits_value(before) >= cap, d >= 0;
        }
        k += 1;
    }
    assert(s@.subrange(0, k as int) =~= s@);
    r
}

/// The thousandths that the parts of a number make: those that its digits and shift
/// make, where it is not negative or they are zero.
pub open spec fn parts_thousandths(p: (bool, Seq<char>, nat, bool, Seq<char>)) -> Option<nat> {
    let v = scaled_thousandths(p.1, thousandths_shift(p.2, p.3, p.4));
    if p.0 && v != Some(0nat) { None } else { v }
}

/// The parts of the number written in `s` (see `decimal_parts`).
#[verifier::rlimit(80)]
#[verifier::spinoff_prover]
fn split_decimal(s: &[char]) -> (r: Option<(bool, Vec<char>, usize, bool, Vec<char>)>)
    ensures
        match decimal_parts(s@) {
            None => r is None,
            Some(p) => r matches Some(q) && q.0 == p.0 && q.1@ == p.1 && q.2 == p.2 && q.3 == p.3 && q.4@ == p.4,
        },
{
    let negative = s.len() > 0 && s[0] == '-';
    let start: usize = if s.len() > 0 && (s[0] == '+' || s[0] == '-') { 1 } else { 0 };
    let body = copy_part(s, start, s.len());
    assert(body@ =~= unsigned_part(s@));
    let lower = find_char(&body, 'e');
    let upper = find_char(&body, 'E');
    proof {
        lemma_first_index_range(body@, 'e');
        lemma_first_index_range(body@, 'E');
    }
    let ei = if lower <= upper { lower } else { upper };
    let ghost eis = exponent_index(body@);
    assert(ei == (if eis < 0 { body@.len() as int } else { eis }));
    let mantissa = copy_part(&body, 0, ei);
    let exponent = if ei < body.len() { copy_part(&body, ei + 1, body.len()) } else { Vec::new() };
    assert(mantissa@ == (if eis < 0 { body@ } else { body@.subrange(0, eis) })) by {
        if eis < 0 {
            assert(body@.subrange(0, body@.len() as int) =~= body@);
        }
    }
    assert(exponent@ == (if eis < 0 { Seq::<char>::empty() } else { body@.subrange(eis + 1, body@.len() as int) }));
    let dot = find_char(&mantissa, '.');
    proof {
        lemma_first_index_range(mantissa@, '.');
    }
    let int_part = copy_part(&mantissa, 0, dot);
    let frac = if dot < mantissa.len() { copy_part(&mantissa, dot + 1, mantissa.len()) } else { Vec::new() };
    let ghost d = first_index(mantissa@, '.');
    assert(int_part@ == (if d < 0 { mantissa@ } else { mantissa@.subrange(0, d) })) by {
        if d < 0 {
            assert(mantissa@.subrange(0, mantissa@.len() as int) =~= mantissa@);
        }
    }
    assert(frac@ == (if d < 0 { Seq::<char>::empty() } else { mantissa@.subrange(d + 1, mantissa@.len() as int) }));
    let exponent_negative = exponent.len() > 0 && exponent[0] == '-';
    let es: usize = if exponent.len() > 0 && (exponent[0] == '+' || exponent[0] == '-') { 1 } else { 0 };
    let exponent_digits = copy_part(&exponent, es, exponent.len());
    assert(exponent_digits@ =~= unsigned_part(exponent@));
    let well_formed = all_digit_chars(&int_part) && all_digit_chars(&frac) && (int_part.len() > 0 || frac.len() > 0)
        && all_digit_chars(&exponent_digits) && (ei == body.len() || exponent_digits.len() >= 1);
    if !well_formed {
        return None;
    }
    let digits = joined(&int_part, &frac);
    Some((negative, digits, frac.len(), exponent_negative, exponent_digits))
}

/// The thousandths of a number with `digits` and an exponent over `shift` at least zero,
/// when at most `100000`.
fn thousandths_scaled_up(digits: &[char], shift: u32) -> (r: Option<u32>)
    requires
        all_digits(digits@),
        digits_value(digits@) > 0,
        shift <= 5,
    ensures
        r matches Some(v) ==> scaled_thousandths(digits@, shift as int) == Some(v as nat) && v <= 100000,
        r is None ==> !(scaled_thousandths(digits@, shift as int) matches Some(v) && v <= 100000),
{
    let ghost value = digits_value(digits@);
    let capped = capped_value(digits, 100_001);
    proof {
        lemma_pow10_monotone(0, shift as nat);
        lemma_pow10_monotone(shift as nat, 5);
        assert(pow10(5) == 100_000) by {
            reveal_with_fuel(pow10, 6);
        }
    }
    if capped > 100_000 {
        proof {
            assert(value * pow10(shift as nat) >= value) by (nonlinear_arith)
                requires value >= 1, pow10(shift as nat) >= 1;
        }
        return None;
    }
    let scale = pow10_exec(shift) as u128;
    assert(capped * scale <= 100_000 * 100_000) by (nonlinear_arith)
        requires capped <= 100_000, scale <= 100_000;
    let v = capped * scale;
    if v > 100_000 {
        return None;
    }
    Some(v as u32)
}

/// The thousandths of a number with `digits` and an exponent over `shift` that is `-k`,
/// when at most `100000`.
fn thousandths_scaled_down(digits: &[char], k: usize) -> (r: Option<u32>)
    requires
        all_digits(digits@),
        digits_value(digits@) > 0,
        1 <= k <= digits@.len(),
    ensures
        r matches Some(v) ==> scaled_thousandths(digits@, -(k as int)) == Some(v as nat) && v <= 100000,
        r is None ==> !(scaled_thousandths(digits@, -(k as int)) matches Some(v) && v <= 100000),
{
    let n = digits.len();
    let cut = n - k;
    let head = copy_part(digits, 0, cut);
    let tail = copy_part(digits, cut, n);
    let ghost value = digits_value(digits@);
    proof {
        assert(digits@ =~= head@ + tail@);
        lemma_digits_value_concat(head@, tail@);
        assert(all_digits(tail@)) by {
            assert forall|i: int| 0 <= i < tail@.len() implies is_digit(#[trigger] tail@[i]) by {
                assert(tail@[i] == digits@[cut + i]);
            }
        }
        assert(all_digits(head@)) by {
            assert forall|i: int| 0 <= i < head@.len() implies is_digit(#[trigger] head@[i]) by {
                assert(head@[i] == digits@[i]);
            }
        }
        lemma_digits_value_below_power(tail@);
        lemma_digits_value_zero(tail@);
        assert(tail@.len() == k);
        assert((-(-(k as int))) as nat == k as nat);
        lemma_fundamental_div_mod_converse(value as int, pow10(k as nat) as int, digits_value(head@) as int, digits_value(tail@) as int);
    }
    if !all_zero_chars(&tail) {
        return None;
    }
    let v = capped_value(&head, 100_001);
    if v > 100_000 {
        return None;
    }
    Some(v as u32)
}

/// The thousandths that the parts of a number make, when at most `100000`.
fn thousandths_of_parts(negative: bool, digits: &[char], frac_len: usize, exponent_negative: bool, exponent_digits: &[char]) -> (r: Option<u32>)
    requires
        all_digits(digits@),
        all_digits(exponent_digits@),
    ensures
        ({
            let t = parts_thousandths((negative, digits@, frac_len as nat, exponent_negative, exponent_digits@));
            &&& r matches Some(v) ==> t == Some(v as nat) && v <= 100000
            &&& r is None ==> !(t matches Some(v) && v <= 100000)
        }),
{
    let ghost value = digits_value(digits@);
    let ghost shift = thousandths_shift(frac_len as nat, exponent_negative, exponent_digits@);
    proof {
        lemma_digits_value_zero(digits@);
        lemma_digits_value_below_power(digits@);
    }
    if all_zero_chars(digits) {
        proof {
            if shift < 0 {
                lemma_pow10_monotone(0, (-shift) as nat);
                assert(0nat % pow10((-shift) as nat) == 0);
                assert(0nat / pow10((-shift) as nat) == 0);
            }
            assert(scaled_thousandths(digits@, shift) == Some(0nat));
        }
        return Some(0);
    }
    proof {
        if shift >= 0 {
            lemma_pow10_monotone(0, shift as nat);
            assert(value * pow10(shift as nat) > 0) by (nonlinear_arith)
                requires value > 0, pow10(shift as nat) >= 1;
        } else {
            let q = pow10((-shift) as nat);
            lemma_pow10_monotone(0, (-shift) as nat);
            if value % q == 0 {
                assert(value / q > 0) by (nonlinear_arith)
                    requires value > 0, value % q == 0, q >= 1;
            }
        }
    }
    if negative {
        return None;
    }
    let x = capped_value(exponent_digits, 100_000_000_000_000_000_000);
    let f = frac_len as i128;
    let n = digits.len();
    let sh: i128 = if exponent_negative { 3 - f - x as i128 } else { 3 - f + x as i128 };
    if sh > 5 {
        proof {
            assert(shift >= sh);
            lemma_pow10_monotone(6, shift as nat);
            assert(pow10(6) == 1_000_000) by {
                reveal_with_fuel(pow10, 7);
            }
            assert(value * pow10(shift as nat) >= pow10(shift as nat)) by (nonlinear_arith)
                requires value >= 1, pow10(shift as nat) >= 1;
        }
        return None;
    }
    if sh >= 0 {
        assert(shift == sh);
        return thousandths_scaled_up(digits, sh as u32);
    }
    if -sh > n as i128 {
        proof {
            let kk = (-shift) as nat;
            assert(kk >= -sh);
            lemma_pow10_monotone(n as nat, kk);
            vstd::arithmetic::div_mod::lemma_small_mod(value, pow10(kk));
        }
        return None;
    }
    assert(shift == sh);
    thousandths_scaled_down(digits, (-sh) as usize)
}

/// The number written in `s` in thousandths, when `decimal_thousandths` reads it as at
/// most `100000` (a hundred percent).
pub fn parse_percentage_thousandths(s: &[char]) -> (r: Option<u32>)
    ensures
        r matches Some(v) ==> decimal_thousandths(s@) == Some(v as nat) && v <= 100000,
        r is None ==> !(decimal_thousandths(s@) matches Some(v) && v <= 100000),
{
    reveal(decimal_thousandths);
    match split_decimal(s) {
        None => None,
        Some((negative, digits, frac_len, exponent_negative, exponent_digits)) => {
            proof {
                let p = decimal_parts(s@)->0;
                assert(all_digits(p.1)) by {
                    let body = unsigned_part(s@);
                    let ei = exponent_index(body);
                    let mantissa = if ei < 0 { body } else { body.subrange(0, ei) };
                    let d = first_index(mantissa, '.');
                    let int_part = if d < 0 { mantissa } else { mantissa.subrange(0, d) };
                    let frac = if d < 0 { Seq::<char>::empty() } else { mantissa.subrange(d + 1, mantissa.len() as int) };
                    assert(p.1 == int_part + frac);
                    assert forall|i: int| 0 <= i < p.1.len() implies is_digit(#[trigger] p.1[i]) by {
                        if i < int_part.len() {
                            assert(p.1[i] == int_part[i]);
                        } else {
                            assert(p.1[i] == frac[i - int_part.len()]);
                        }
                    }
                }
            }
            thousandths_of_parts(negative, &digits, frac_len, exponent_negative, &exponent_digits)
        },
    }
}

} // verus!
