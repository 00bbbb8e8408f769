//! Decimal text: formatting numbers the way Rust's `Display` prints them and
//! parsing unsigned integers the way `str::parse` does.

use vstd::prelude::*;

verus! {

/// The decimal digit character for `d < 10`.
pub open spec fn digit_char(d: nat) -> char {
    ((48 + d) as u32) as char
}

/// Decimal representation of `n` without leading zeros (`"0"` for zero).
pub open spec fn digits(n: nat) -> Seq<char>
    decreases n,
{
    if n < 10 {
        seq![digit_char(n)]
    } else {
        digits(n / 10).push(digit_char(n % 10))
    }
}

/// The last `k` decimal digits of `n`, with leading zeros.
pub open spec fn padded_digits(n: nat, k: nat) -> Seq<char>
    decreases k,
{
    if k == 0 {
        Seq::empty()
    } else {
        padded_digits(n / 10, (k - 1) as nat).push(digit_char(n % 10))
    }
}

/// `s` without its trailing `'0'` characters.
pub open spec fn strip_trailing_zeros(s: Seq<char>) -> Seq<char>
    decreases s.len(),
{
    if s.len() > 0 && s.last() == '0' {
        strip_trailing_zeros(s.drop_last())
    } else {
        s
    }
}

pub open spec fn pow10(k: nat) -> nat
    decreases k,
{
    if k == 0 {
        1
    } else {
        10 * pow10((k - 1) as nat)
    }
}

/// Shortest decimal text of the fixed-point number `v / 10^k`: the integer part,
/// then, when the fraction is not zero, a point and the fraction digits without
/// trailing zeros (so 66666 with `k == 3` reads `66.666`, 12500 reads `12.5`).
pub open spec fn fixed_point_text(v: nat, k: nat) -> Seq<char> {
    let int_part = v / pow10(k);
    let frac = v % pow10(k);
    if frac == 0 {
        digits(int_part)
    } else {
        digits(int_part) + seq!['.'] + strip_trailing_zeros(padded_digits(frac, k))
    }
}

pub open spec fn is_digit(c: char) -> bool {
    '0' <= c && c <= '9'
}

pub open spec fn all_digits(s: Seq<char>) -> bool {
    forall|i: int| 0 <= i < s.len() ==> is_digit(#[trigger] s[i])
}

/// Value of a string of decimal digits.
pub open spec fn digits_value(s: Seq<char>) -> nat
    decreases s.len(),
{
    if s.len() == 0 {
        0
    } else {
        digits_value(s.drop_last()) * 10 + ((s.last() as u32) - 48) as nat
    }
}

/// What `str::parse` makes of `s` as an unsigned integer of unbounded width:
/// an optional `'+'` followed by at least one decimal digit.
pub open spec fn unsigned_value(s: Seq<char>) -> Option<nat> {
    let body = if s.len() > 0 && s[0] == '+' { s.drop_first() } else { s };
    if body.len() > 0 && all_digits(body) {
        Some(digits_value(body))
    } else {
        None
    }
}

/// What `str::parse` into an unsigned type whose largest value is `max` gives.
pub open spec fn parsed_unsigned(s: Seq<char>, max: nat) -> Option<nat> {
    match unsigned_value(s) {
        Some(v) => if v <= max { Some(v) } else { None },
        None => None,
    }
}

pub proof fn lemma_digits_value_prefix(s: Seq<char>, i: int)
    requires
        all_digits(s),
        0 <= i <= s.len(),
    ensures
        digits_value(s.subrange(0, i)) <= digits_value(s),
    decreases s.len() - i,
{
    if i < s.len() {
        lemma_digits_value_prefix(s, i + 1);
        assert(s.subrange(0, i + 1).drop_last() == s.subrange(0, i));
        assert(is_digit(s[i]));
    } else {
        assert(s.subrange(0, i) == s);
    }
}

/// Appends the decimal digits of `n`.
pub fn push_digits(out: &mut Vec<char>, n: u64)
    ensures
        final(out)@ == old(out)@ + digits(n as nat),
    decreases n,
{
    if n >= 10 {
        push_digits(out, n / 10);
    }
    let d = (n % 10) as u32;
    let c = char_of_digit(d);
    out.push(c);
    proof {
        if n < 10 {
            assert(old(out)@ + digits(n as nat) == old(out)@.push(digit_char(n as nat)));
        } else {
            assert(old(out)@ + digits(n as nat) == (old(out)@ + digits((n / 10) as nat)).push(digit_char((n % 10) as nat)));
        }
    }
}

fn char_of_digit(d: u32) -> (c: char)
    requires
        d < 10,
    ensures
        c == digit_char(d as nat),
{
    match d {
        0 => '0',
        1 => '1',
        2 => '2',
        3 => '3',
        4 => '4',
        5 => '5',
        6 => '6',
        7 => '7',
        8 => '8',
        _ => '9',
    }
}

fn push_padded(out: &mut Vec<char>, n: u64, k: u32)
    ensures
        final(out)@ == old(out)@ + padded_digits(n as nat, k as nat),
    decreases k,
{
    if k > 0 {
        push_padded(out, n / 10, k - 1);
        let c = char_of_digit((n % 10) as u32);
        out.push(c);
        assert(old(out)@ + padded_digits(n as nat, k as nat) == (old(out)@ + padded_digits((n / 10) as nat, (k - 1) as nat)).push(
            digit_char((n % 10) as nat),
        ));
    } else {
        assert(old(out)@ + padded_digits(n as nat, k as nat) == old(out)@);
    }
}

pub fn pow10_exec(k: u32) -> (r: u64)
    requires
        k <= 19,
    ensures
        r == pow10(k as nat),
    decreases k,
{
    if k == 0 {
        1
    } else {
        let p = pow10_exec(k - 1);
        proof {
            lemma_pow10_bound((k - 1) as nat);
        }
        10 * p
    }
}

pub proof fn lemma_pow10_bound(k: nat)
    requires
        k <= 18,
    ensures
        1 <= pow10(k) <= 1_000_000_000_000_000_000,
{
    lemma_pow10_monotone(k, 18);
    assert(pow10(18) == 1_000_000_000_000_000_000) by {
        reveal_with_fuel(pow10, 19);
    }
}

pub proof fn lemma_pow10_monotone(j: nat, k: nat)
    requires
        j <= k,
    ensures
        1 <= pow10(j) <= pow10(k),
    decreases k,
{
    if k > j {
        lemma_pow10_monotone(j, (k - 1) as nat);
    } else if k > 0 {
        lemma_pow10_monotone((k - 1) as nat, (k - 1) as nat);
    }
}

/// The digits of `n` are a non-empty digit string whose value is `n`.
pub proof fn lemma_digits_read_back(n: nat)
    ensures
        digits(n).len() >= 1,
        all_digits(digits(n)),
        digits_value(digits(n)) == n,
    decreases n,
{
    if n < 10 {
        assert(digits(n) =~= seq![digit_char(n)]);
        assert(seq![digit_char(n)].drop_last() =~= Seq::<char>::empty());
        assert(digit_char(n) as u32 == 48 + n);
        assert(digits_value(Seq::<char>::empty()) == 0);
    } else {
        lemma_digits_read_back(n / 10);
        let d = digits(n / 10);
        assert(digits(n).drop_last() =~= d);
        assert forall|i: int| 0 <= i < digits(n).len() implies is_digit(#[trigger] digits(n)[i]) by {
            if i < d.len() {
                assert(digits(n)[i] == d[i]);
            }
        }
    }
}

/// `str::parse` reads back the digits of any `n` that fits.
pub proof fn lemma_parsed_digits(n: nat, max: nat)
    requires
        n <= max,
    ensures
        parsed_unsigned(digits(n), max) == Some(n),
{
    lemma_digits_read_back(n);
    assert(is_digit(digits(n)[0]));
}

/// `padded_digits(n, k)` is a digit string of length `k` whose value is `n mod 10^k`.
pub proof fn lemma_padded_digits_read_back(n: nat, k: nat)
    ensures
        padded_digits(n, k).len() == k,
        all_digits(padded_digits(n, k)),
        digits_value(padded_digits(n, k)) == n % pow10(k),
    decreases k,
{
    if k > 0 {
        let km = (k - 1) as nat;
        lemma_padded_digits_read_back(n / 10, km);
        let s = padded_digits(n / 10, km);
        assert(padded_digits(n, k).drop_last() =~= s);
        assert forall|i: int| 0 <= i < k implies is_digit(#[trigger] padded_digits(n, k)[i]) by {
            if i < km {
                assert(padded_digits(n, k)[i] == s[i]);
            }
        }
        lemma_pow10_monotone(0, km);
        vstd::arithmetic::div_mod::lemma_breakdown(n as int, 10, pow10(km) as int);
        assert(pow10(k) == 10 * pow10(km));
    }
}

/// Dropping trailing zeros from a digit string keeps a prefix and divides its value by
/// the power of ten that was dropped.
pub proof fn lemma_strip_trailing_zeros(s: Seq<char>)
    requires
        all_digits(s),
    ensures
        strip_trailing_zeros(s).len() <= s.len(),
        strip_trailing_zeros(s) == s.subrange(0, strip_trailing_zeros(s).len() as int),
        all_digits(strip_trailing_zeros(s)),
        digits_value(s) == digits_value(strip_trailing_zeros(s)) * pow10((s.len() - strip_trailing_zeros(s).len()) as nat),
    decreases s.len(),
{
    let t = strip_trailing_zeros(s);
    if s.len() > 0 && s.last() == '0' {
        let d = s.drop_last();
        assert(all_digits(d));
        lemma_strip_trailing_zeros(d);
        assert(t == strip_trailing_zeros(d));
        assert(t =~= s.subrange(0, t.len() as int));
        let e = (d.len() - t.len()) as nat;
        assert((s.len() - t.len()) as nat == e + 1);
        assert(pow10(e + 1) == 10 * pow10(e));
        assert(('0' as u32) == 48);
        assert(digits_value(s) == digits_value(d) * 10);
        assert(digits_value(d) == digits_value(t) * pow10(e));
        assert(digits_value(t) * pow10(e) * 10 == digits_value(t) * (10 * pow10(e))) by (nonlinear_arith);
        assert(digits_value(s) == digits_value(t) * pow10(e + 1));
        assert(digits_value(s) == digits_value(t) * pow10((s.len() - t.len()) as nat));
    } else {
        assert(t == s);
        assert(t =~= s.subrange(0, s.len() as int));
        assert(pow10(0) == 1);
        assert(digits_value(s) * pow10(0) == digits_value(s));
        assert(digits_value(s) == digits_value(t) * pow10((s.len() - t.len()) as nat));
    }
}

/// Appends the shortest decimal text of `v / 10^k`.
pub fn push_fixed_point(out: &mut Vec<char>, v: u64, k: u32)
    requires
        k <= 18,
    ensures
        final(out)@ == old(out)@ + fixed_point_text(v as nat, k as nat),
{
    proof {
        lemma_pow10_bound(k as nat);
    }
    let scale = pow10_exec(k);
    let int_part = v / scale;
    let frac = v % scale;
    push_digits(out, int_part);
    if frac != 0 {
        out.push('.');
        let mut fraction: Vec<char> = Vec::new();
        push_padded(&mut fraction, frac, k);
        let mut end = fraction.len();
        assert(fraction@.subrange(0, end as int) == fraction@);
        while end > 0 && fraction[end - 1] == '0'
            invariant
                end <= fraction@.len(),
                strip_trailing_zeros(fraction@) == strip_trailing_zeros(fraction@.subrange(0, end as int)),
            decreases end,
        {
            assert(fraction@.subrange(0, end as int).drop_last() == fraction@.subrange(0, end - 1));
            end -= 1;
        }
        let ghost kept = fraction@.subrange(0, end as int);
        assert(strip_trailing_zeros(kept) == kept);
        let ghost before = out@;
        let mut i: usize = 0;
        while i < end
            invariant
                i <= end,
                end <= fraction@.len(),
                kept == fraction@.subrange(0, end as int),
                out@ == before + kept.subrange(0, i as int),
            decreases end - i,
        {
            out.push(fraction[i]);
            assert(kept.subrange(0, i + 1) == kept.subrange(0, i as int).push(kept[i as int]));
            i += 1;
        }
        assert(kept.subrange(0, end as int) == kept);
        assert(out@ == old(out)@ + fixed_point_text(v as nat, k as nat));
    }
}

/// Parses `s` as `str::parse` parses an unsigned integer whose largest value is `max`.
pub fn parse_unsigned(s: &[char], max: u64) -> (r: Option<u64>)
    ensures
        r matches Some(v) ==> parsed_unsigned(s@, max as nat) == Some(v as nat),
        r is None ==> parsed_unsigned(s@, max as nat) is None,
{
    let start: usize = if s.len() > 0 && s[0] == '+' { 1 } else { 0 };
    let ghost body = if s@.len() > 0 && s@[0] == '+' { s@.drop_first() } else { s@ };
    assert(body == s@.subrange(start as int, s@.len() as int));
    if start >= s.len() {
        return None;
    }
    let mut acc: u64 = 0;
    let mut i: usize = start;
    while i < s.len()
        invariant
            start <= i <= s@.len(),
            start < s@.len(),
            body == s@.subrange(start as int, s@.len() as int),
            body == (if s@.len() > 0 && s@[0] == '+' { s@.drop_first() } else { s@ }),
            all_digits(body.subrange(0, i - start)),
            acc as nat == digits_value(body.subrange(0, i - start)),
            acc <= max,
        decreases s.len() - i,
    {
        let c = s[i];
        if !('0' <= c && c <= '9') {
            assert(body[i - start] == c);
            assert(!is_digit(body[i - start]));
            assert(!all_digits(body));
            assert(unsigned_value(s@) is None);
            return None;
        }
        let d = ((c as u32) - 48) as u64;
        assert(body.subrange(0, i + 1 - start).drop_last() == body.subrange(0, i - start));
        assert(all_digits(body.subrange(0, i + 1 - start)));
        if d > max || acc > (max - d) / 10 {
            proof {
                assert(acc * 10 + d > max) by (nonlinear_arith)
                    requires d > max || acc > (max - d) / 10, d <= 9, acc >= 0;
                let digits_so_far = body.subrange(0, i + 1 - start);
                assert(digits_so_far.last() == c);
                assert(digits_value(digits_so_far) == acc * 10 + d);
                if all_digits(body) {
                    lemma_digits_value_prefix(body, i + 1 - start);
                    assert(unsigned_value(s@) == Some(digits_value(body)));
                }
            }
            return None;
        }
        assert(acc * 10 + d <= max) by (nonlinear_arith)
            requires acc <= (max - d) / 10, d <= max;
        acc = acc * 10 + d;
        i += 1;
    }
    assert(body.subrange(0, body.len() as int) == body);
    Some(acc)
}

/// The characters of `s`, in order.
pub fn chars_of(s: &str) -> (v: Vec<char>)
    ensures
        v@ == s@,
{
    let mut v: Vec<char> = Vec::new();
    for c in it: s.chars()
        invariant
            it.seq() == s@,
            v@ == it.seq().take(it.index()),
    {
        v.push(c);
    }
    v
}

/// Builds a `String` from its characters: `FromIterator<char>` for `String`
/// (std) collects the characters in order, so the string's characters are `chars`.
#[verifier::external_body]
pub(crate) fn string_from_chars(chars: &[char]) -> (s: String)
    ensures
        s@ == chars@,
{
    String::from_iter(chars)
}

/// The parts of `s` between `sep` characters, as `str::split` gives them.
pub open spec fn split_on(s: Seq<char>, sep: char) -> Seq<Seq<char>>
    decreases s.len(),
{
    if s.len() == 0 {
        seq![Seq::empty()]
    } else {
        let prev = split_on(s.drop_last(), sep);
        if s.last() == sep {
            prev.push(Seq::empty())
        } else {
            prev.update(prev.len() - 1, prev.last().push(s.last()))
        }
    }
}

/// Index of the first `c` in `s`, or -1.
pub open spec fn first_index(s: Seq<char>, c: char) -> int
    decreases s.len(),
{
    if s.len() == 0 {
        -1
    } else {
        let i = first_index(s.drop_last(), c);
        if i >= 0 { i } else if s.last() == c { s.len() - 1 } else { -1 }
    }
}

pub open spec fn views(v: Seq<Vec<char>>) -> Seq<Seq<char>> {
    v.map_values(|t: Vec<char>| t@)
}

/// The parts of `s` between `sep` characters.
pub fn split_at_char(s: &[char], sep: char) -> (v: Vec<Vec<char>>)
    ensures
        views(v@) == split_on(s@, sep),
{
    let mut done: Vec<Vec<char>> = Vec::new();
    let mut current: Vec<char> = Vec::new();
    let mut i: usize = 0;
    assert(s@.subrange(0, 0) == Seq::<char>::empty());
    while i < s.len()
        invariant
            i <= s@.len(),
            split_on(s@.subrange(0, i as int), sep) == views(done@).push(current@),
        decreases s@.len() - i,
    {
        let c = s[i];
        let ghost pre = s@.subrange(0, i as int);
        let ghost next = s@.subrange(0, i + 1);
        assert(next.drop_last() == pre);
        assert(next.last() == c);
        if c == sep {
            let ghost d = views(done@);
            done.push(current);
            assert(views(done@) == d.push(current@));
            current = Vec::new();
        } else {
            current.push(c);
        }
        i += 1;
    }
    assert(s@.subrange(0, s@.len() as int) == s@);
    done.push(current);
    done
}

/// Index of the first `c` in `b`, or the length of `b` when there is none.
pub fn find_char(b: &[char], c: char) -> (r: usize)
    ensures
        r == (if first_index(b@, c) < 0 { b@.len() as int } else { first_index(b@, c) }),
{
    let mut at: usize = 0;
    while at < b.len() && b[at] != c
        invariant
            at <= b@.len(),
            first_index(b@.subrange(0, at as int), c) == -1,
        decreases b@.len() - at,
    {
        assert(b@.subrange(0, at + 1).drop_last() == b@.subrange(0, at as int));
        at += 1;
    }
    proof {
        if at < b@.len() {
            lemma_first_index_prefix(b@, c, at + 1);
        } else {
            assert(b@.subrange(0, at as int) == b@);
        }
    }
    at
}

pub proof fn lemma_first_index_range(s: Seq<char>, c: char)
    ensures
        -1 <= first_index(s, c) < s.len(),
    decreases s.len(),
{
    if s.len() > 0 {
        lemma_first_index_range(s.drop_last(), c);
    }
}

pub proof fn lemma_first_index_prefix(s: Seq<char>, c: char, n: int)
    requires
        0 < n <= s.len(),
        first_index(s.subrange(0, n - 1), c) == -1,
        s[n - 1] == c,
    ensures
        first_index(s, c) == n - 1,
    decreases s.len() - n,
{
    assert(s.subrange(0, n).drop_last() == s.subrange(0, n - 1));
    assert(first_index(s.subrange(0, n), c) == n - 1);
    lemma_first_index_stable(s, c, n);
}

pub proof fn lemma_first_index_stable(s: Seq<char>, c: char, n: int)
    requires
        0 <= n <= s.len(),
        first_index(s.subrange(0, n), c) >= 0,
    ensures
        first_index(s, c) == first_index(s.subrange(0, n), c),
    decreases s.len() - n,
{
    if n < s.len() {
        assert(s.subrange(0, n + 1).drop_last() == s.subrange(0, n));
        lemma_first_index_stable(s, c, n + 1);
    } else {
        assert(s.subrange(0, n) == s);
    }
}

pub proof fn lemma_split_len(s: Seq<char>, sep: char)
    ensures
        split_on(s, sep).len() >= 1,
    decreases s.len(),
{
    if s.len() > 0 {
        lemma_split_len(s.drop_last(), sep);
    }
}

/// Characters other than the separator extend the last part.
pub proof fn lemma_split_append(s: Seq<char>, w: Seq<char>, sep: char)
    requires
        forall|i: int| 0 <= i < w.len() ==> #[trigger] w[i] != sep,
    ensures
        split_on(s + w, sep) == split_on(s, sep).update(split_on(s, sep).len() - 1, split_on(s, sep).last() + w),
    decreases w.len(),
{
    lemma_split_len(s, sep);
    let parts = split_on(s, sep);
    if w.len() == 0 {
        assert(s + w =~= s);
        assert(parts.last() + w =~= parts.last());
        assert(parts.update(parts.len() - 1, parts.last()) =~= parts);
    } else {
        let v = w.drop_last();
        lemma_split_append(s, v, sep);
        assert((s + w).drop_last() =~= s + v);
        assert((s + w).last() == w.last());
        assert((parts.last() + v).push(w.last()) =~= parts.last() + w);
        assert(parts.update(parts.len() - 1, parts.last() + v).update(parts.len() - 1, parts.last() + w)
            =~= parts.update(parts.len() - 1, parts.last() + w));
    }
}

/// Whether two character sequences are the same.
pub fn chars_equal(a: &[char], b: &[char]) -> (r: bool)
    ensures
        r == (a@ == b@),
{
    if a.len() != b.len() {
        return false;
    }
    let mut i: usize = 0;
    while i < a.len()
        invariant
            i <= a@.len(),
            a@.len() == b@.len(),
            forall|j: int| 0 <= j < i ==> a@[j] == b@[j],
        decreases a.len() - i,
    {
        if a[i] != b[i] {
            return false;
        }
        i += 1;
    }
    assert(a@ == b@);
    true
}

/// Whether two strings hold the same characters.
pub fn text_equal(a: &str, b: &str) -> (r: bool)
    ensures
        r == (a@ == b@),
{
    let x = chars_of(a);
    let y = chars_of(b);
    chars_equal(&x, &y)
}

} // verus!
