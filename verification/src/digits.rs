//! Decimal digit strings: the predicates that recognise them, the numbers
//! they denote, and the text that denotes a number.

use std::cmp::Ordering;
use vstd::prelude::*;

verus! {

/// `c` is one of `'0'..='9'`.
pub open spec fn is_digit(c: char) -> bool {
    '0' <= c && c <= '9'
}

/// The number a decimal digit stands for.
pub open spec fn digit_value(c: char) -> int {
    c as int - 48
}

/// The decimal digit that stands for `d`, for `0 <= d <= 9`.
pub open spec fn digit_char(d: int) -> char {
    (d + 48) as char
}

/// Every character of `s` is a decimal digit.
pub open spec fn all_digits(s: Seq<char>) -> bool {
    forall|i: int| 0 <= i < s.len() ==> is_digit(#[trigger] s[i])
}

/// The number that a sequence of decimal digits denotes, most significant
/// digit first. The empty sequence denotes zero.
pub open spec fn digits_value(s: Seq<char>) -> nat
    decreases s.len(),
{
    if s.len() == 0 {
        0
    } else {
        (digits_value(s.drop_last()) * 10 + digit_value(s.last())) as nat
    }
}

/// `s` matches `[1-9][0-9]*`.
pub open spec fn is_positive_numeric(s: Seq<char>) -> bool {
    s.len() > 0 && s[0] != '0' && all_digits(s)
}

/// `s` is `"0"` or matches `-?[1-9][0-9]*`.
pub open spec fn is_numeric(s: Seq<char>) -> bool {
    ||| s =~= seq!['0']
    ||| is_positive_numeric(s)
    ||| (s.len() > 0 && s[0] == '-' && is_positive_numeric(s.skip(1)))
}

/// The integer that a numeric string denotes.
pub open spec fn numeric_value(s: Seq<char>) -> int {
    if s.len() > 0 && s[0] == '-' {
        -(digits_value(s.skip(1)) as int)
    } else {
        digits_value(s) as int
    }
}

/// What parsing `s` as a 64-bit signed integer yields: the number it
/// denotes when `s` is numeric and the number fits, and nothing otherwise.
pub open spec fn parse_i64(s: Seq<char>) -> Option<i64> {
    if is_numeric(s) && i64::MIN <= numeric_value(s) <= i64::MAX {
        Some(numeric_value(s) as i64)
    } else {
        None
    }
}

/// Tells whether `s` matches `[1-9][0-9]*`.
pub fn num_gtz(s: &str) -> (b: bool)
    ensures
        b == is_positive_numeric(s@),
{
    let mut seen: bool = false;
    let mut it = s.chars();
    for c in iter: it
        invariant
            iter.seq() == s@,
            seen == (iter.index() > 0),
            seen ==> s@[0] != '0',
            forall|j: int| 0 <= j < iter.index() ==> is_digit(#[trigger] s@[j]),
    {
        if !(c >= '0' && c <= '9') {
            return false;
        }
        if !seen && c == '0' {
            return false;
        }
        seen = true;
    }
    seen
}

/// Tells whether `s` is `"0"` or matches `-?[1-9][0-9]*`.
pub fn is_num(s: &str) -> (b: bool)
    ensures
        b == is_numeric(s@),
{
    let mut neg: bool = false;
    let mut zero: bool = false;
    let mut seen: bool = false;
    let mut it = s.chars();
    for c in iter: it
        invariant
            iter.seq() == s@,
            neg ==> iter.index() >= 1 && s@[0] == '-',
            zero ==> iter.index() == 1 && s@[0] == '0' && !neg && !seen,
            seen ==> !zero && iter.index() >= 1 && s@[if neg { 1int } else { 0int }] != '0',
            seen ==> iter.index() >= (if neg { 2int } else { 1int }),
            !neg && iter.index() >= 1 ==> s@[0] != '-',
            !seen && !zero ==> iter.index() == (if neg { 1int } else { 0int }),
            forall|j: int|
                (if neg { 1int } else { 0int }) <= j < iter.index() ==> is_digit(#[trigger] s@[j]),
    {
        if zero {
            return false;
        }
        if c == '-' {
            if neg || seen {
                assert(!is_digit(s@[iter.index()]));
                assert(neg ==> s@.skip(1)[iter.index() - 1] == s@[iter.index()]);
                return false;
            }
            neg = true;
        } else if c >= '0' && c <= '9' {
            if c == '0' && !seen {
                if neg {
                    assert(s@.skip(1)[0] == '0');
                    return false;
                }
                zero = true;
            } else {
                seen = true;
            }
        } else {
            assert(!is_digit(s@[iter.index()]));
            assert(neg ==> s@.skip(1)[iter.index() - 1] == s@[iter.index()]);
            return false;
        }
    }
    proof {
        if seen && neg {
            assert forall|j: int| 0 <= j < s@.skip(1).len() implies is_digit(
                #[trigger] s@.skip(1)[j],
            ) by {
                assert(s@.skip(1)[j] == s@[j + 1]);
            }
        }
    }
    seen || zero
}

/// The value of a prefix of a digit string is at most the value of the
/// whole string.
pub proof fn lemma_digits_value_prefix(s: Seq<char>, k: int)
    requires
        all_digits(s),
        0 <= k <= s.len(),
    ensures
        digits_value(s.take(k)) <= digits_value(s),
    decreases s.len() - k,
{
    if k < s.len() {
        lemma_digits_value_prefix(s, k + 1);
        assert(s.take(k + 1).drop_last() =~= s.take(k));
        assert(is_digit(s[k]));
        assert(s.take(k + 1).last() == s[k]);
    } else {
        assert(s.take(k) =~= s);
    }
}

/// Parses `s` as a 64-bit signed integer written as `"0"` or as
/// `-?[1-9][0-9]*`. Gives `None` for any other text and for a number that
/// does not fit.
pub fn i64_parse(s: &str) -> (r: Option<i64>)
    ensures
        r == parse_i64(s@),
{
    let mut neg: bool = false;
    let mut zero: bool = false;
    let mut seen: bool = false;
    let mut val: u64 = 0;
    let mut it = s.chars();
    for c in iter: it
        invariant
            iter.seq() == s@,
            neg ==> iter.index() >= 1 && s@[0] == '-',
            zero ==> iter.index() == 1 && s@[0] == '0' && !neg && !seen,
            seen ==> !zero && iter.index() >= 1 && s@[if neg { 1int } else { 0int }] != '0',
            seen ==> iter.index() >= (if neg { 2int } else { 1int }),
            !neg && iter.index() >= 1 ==> s@[0] != '-',
            !seen && !zero ==> iter.index() == (if neg { 1int } else { 0int }),
            forall|j: int|
                (if neg { 1int } else { 0int }) <= j < iter.index() ==> is_digit(#[trigger] s@[j]),
            !zero ==> val == digits_value(
                s@.subrange(if neg { 1int } else { 0int }, iter.index() as int),
            ),
    {
        if zero {
            return None;
        }
        if c == '-' {
            if neg || seen {
                assert(!is_digit(s@[iter.index()]));
                assert(neg ==> s@.skip(1)[iter.index() - 1] == s@[iter.index()]);
                return None;
            }
            neg = true;
            assert(s@.subrange(1, 1).len() == 0);
        } else if c >= '0' && c <= '9' {
            if c == '0' && !seen {
                if neg {
                    assert(s@.skip(1)[0] == '0');
                    return None;
                }
                zero = true;
            } else {
                let d: u64 = (c as u32 - '0' as u32) as u64;
                let ghost start = if neg { 1int } else { 0int };
                let ghost k = iter.index() as int;
                proof {
                    assert(s@.subrange(start, k + 1).drop_last() =~= s@.subrange(start, k));
                    assert(s@.subrange(start, k + 1).last() == c);
                    if is_numeric(s@) {
                        let t = s@.skip(start);
                        assert forall|j: int| 0 <= j < t.len() implies is_digit(#[trigger] t[j]) by {
                            assert(t[j] == s@[j + start]);
                        }
                        lemma_digits_value_prefix(t, k + 1 - start);
                        assert(t.take(k + 1 - start) =~= s@.subrange(start, k + 1));
                        assert(s@.skip(0) =~= s@);
                    }
                }
                let next = match val.checked_mul(10) {
                    Some(v10) => v10.checked_add(d),
                    None => None,
                };
                match next {
                    Some(v) => {
                        val = v;
                    },
                    None => {
                        return None;
                    },
                }
                seen = true;
            }
        } else {
            assert(!is_digit(s@[iter.index()]));
            assert(neg ==> s@.skip(1)[iter.index() - 1] == s@[iter.index()]);
            return None;
        }
    }
    proof {
        if seen && neg {
            assert forall|j: int| 0 <= j < s@.skip(1).len() implies is_digit(
                #[trigger] s@.skip(1)[j],
            ) by {
                assert(s@.skip(1)[j] == s@[j + 1]);
            }
            assert(s@.subrange(1, s@.len() as int) =~= s@.skip(1));
        }
        if seen && !neg {
            assert(s@.subrange(0, s@.len() as int) =~= s@);
        }
        if zero {
            assert(s@ =~= seq!['0']);
            assert(s@.drop_last() =~= Seq::<char>::empty());
            assert(digits_value(s@) == 0) by {
                reveal_with_fuel(digits_value, 2);
            }
        }
    }
    if zero {
        Some(0)
    } else if !seen {
        None
    } else if neg {
        if val > 0x8000_0000_0000_0000 {
            None
        } else if val == 0x8000_0000_0000_0000 {
            Some(i64::MIN)
        } else {
            Some(-(val as i64))
        }
    } else if val > 0x7fff_ffff_ffff_ffff {
        None
    } else {
        Some(val as i64)
    }
}

/// Ten to the power `n`.
pub open spec fn pow10(n: nat) -> nat
    decreases n,
{
    if n == 0 {
        1
    } else {
        10 * pow10((n - 1) as nat)
    }
}

/// The decimal text of a natural number, without leading zeros.
pub open spec fn nat_text(n: nat) -> Seq<char>
    decreases n,
{
    if n < 10 {
        seq![digit_char(n as int)]
    } else {
        nat_text(n / 10).push(digit_char((n % 10) as int))
    }
}

/// The decimal text of an integer: `'-'` before the text of its magnitude
/// when it is negative.
pub open spec fn int_text(n: int) -> Seq<char> {
    if n < 0 {
        seq!['-'] + nat_text((-n) as nat)
    } else {
        nat_text(n as nat)
    }
}

/// `s` is the decimal text of some natural number: `"0"`, or digits that do
/// not start with `'0'`.
pub open spec fn is_nat_text(s: Seq<char>) -> bool {
    s.len() > 0 && all_digits(s) && (s[0] == '0' ==> s.len() == 1)
}

/// A digit and its value determine each other.
pub proof fn lemma_digit_char(d: int)
    requires
        0 <= d <= 9,
    ensures
        is_digit(digit_char(d)),
        digit_value(digit_char(d)) == d,
        (digit_char(d) == '0') == (d == 0),
{
}

/// The value of one digit is the digit's own value.
pub proof fn lemma_digits_value_single(c: char)
    ensures
        digits_value(seq![c]) == digit_value(c) as nat,
{
    assert(seq![c].drop_last() =~= Seq::<char>::empty());
    reveal_with_fuel(digits_value, 2);
}

/// The value of a concatenation: the left part is shifted by as many
/// decimal places as the right part has digits.
pub proof fn lemma_digits_value_concat(u: Seq<char>, w: Seq<char>)
    requires
        all_digits(u),
        all_digits(w),
    ensures
        digits_value(u + w) == digits_value(u) * pow10(w.len()) + digits_value(w),
    decreases w.len(),
{
    if w.len() == 0 {
        assert(u + w =~= u);
        assert(pow10(0) == 1);
        assert(digits_value(w) == 0);
        assert(digits_value(u) * 1 == digits_value(u)) by (nonlinear_arith);
    } else {
        let w1 = w.drop_last();
        lemma_digits_value_concat(u, w1);
        assert((u + w).drop_last() =~= u + w1);
        assert((u + w).last() == w.last());
        assert(is_digit(w[w.len() - 1]));
        let a = digits_value(u) as int;
        let p = pow10(w1.len()) as int;
        let b = digits_value(w1) as int;
        let d = digit_value(w.last());
        assert(pow10(w.len()) == 10 * p);
        assert(digits_value(u + w) == (a * p + b) * 10 + d);
        assert(digits_value(w) == b * 10 + d);
        assert((a * p + b) * 10 + d == a * (10 * p) + (b * 10 + d)) by (nonlinear_arith);
    }
}

/// A string of `k` digits denotes a number below ten to the `k`; one that
/// does not start with `'0'` denotes at least ten to the `k - 1`.
pub proof fn lemma_digits_value_bounds(s: Seq<char>)
    requires
        all_digits(s),
    ensures
        digits_value(s) < pow10(s.len()),
        s.len() > 0 && s[0] != '0' ==> digits_value(s) >= pow10((s.len() - 1) as nat),
    decreases s.len(),
{
    if s.len() > 0 {
        let t = s.drop_last();
        lemma_digits_value_bounds(t);
        assert(is_digit(s[s.len() - 1]));
        if s.len() == 1 {
            lemma_digits_value_single(s[0]);
            assert(s =~= seq![s[0]]);
            assert(pow10(0) == 1);
        } else {
            assert(t[0] == s[0]);
            assert(pow10((s.len() - 1) as nat) == 10 * pow10((t.len() - 1) as nat));
        }
    }
}

/// The decimal text of `n` is a well-formed digit string that denotes `n`.
pub proof fn lemma_nat_text(n: nat)
    ensures
        is_nat_text(nat_text(n)),
        digits_value(nat_text(n)) == n,
        (nat_text(n)[0] == '0') == (n == 0),
        (nat_text(n).len() == 1) == (n < 10),
    decreases n,
{
    if n < 10 {
        lemma_digit_char(n as int);
        lemma_digits_value_single(digit_char(n as int));
    } else {
        let t = nat_text(n / 10);
        let c = digit_char((n % 10) as int);
        lemma_nat_text(n / 10);
        lemma_digit_char((n % 10) as int);
        assert(t.push(c).drop_last() =~= t);
        assert(t.push(c)[0] == t[0]);
        assert forall|i: int| 0 <= i < t.push(c).len() implies is_digit(#[trigger] t.push(c)[i]) by {
            if i < t.len() {
                assert(t.push(c)[i] == t[i]);
            }
        }
    }
}

/// A well-formed digit string is the decimal text of the number it denotes.
pub proof fn lemma_nat_text_unique(s: Seq<char>)
    requires
        is_nat_text(s),
    ensures
        nat_text(digits_value(s)) == s,
    decreases s.len(),
{
    assert(is_digit(s[s.len() - 1]));
    if s.len() == 1 {
        lemma_digits_value_single(s[0]);
        assert(s =~= seq![s[0]]);
        assert(digit_char(digit_value(s[0])) == s[0]);
    } else {
        let t = s.drop_last();
        assert(t[0] == s[0]);
        lemma_nat_text_unique(t);
        lemma_digits_value_bounds(t);
        assert(pow10((t.len() - 1) as nat) >= 1) by {
            lemma_pow10_positive((t.len() - 1) as nat);
        }
        let v = digits_value(s);
        assert(v == digits_value(t) * 10 + digit_value(s.last()));
        assert(v / 10 == digits_value(t));
        assert(v % 10 == digit_value(s.last()));
        assert(digit_char(digit_value(s.last())) == s.last());
        assert(t.push(s.last()) =~= s);
    }
}

/// Powers of ten are positive and grow with the exponent.
pub proof fn lemma_pow10_positive(n: nat)
    ensures
        pow10(n) >= 1,
    decreases n,
{
    if n > 0 {
        lemma_pow10_positive((n - 1) as nat);
    }
}

/// Powers of ten grow with the exponent.
pub proof fn lemma_pow10_monotone(a: nat, b: nat)
    requires
        a <= b,
    ensures
        pow10(a) <= pow10(b),
    decreases b,
{
    if a < b {
        lemma_pow10_monotone(a, (b - 1) as nat);
        lemma_pow10_positive((b - 1) as nat);
    }
}

/// The decimal text of an integer is numeric and denotes that integer.
pub proof fn lemma_int_text(n: int)
    ensures
        is_numeric(int_text(n)),
        numeric_value(int_text(n)) == n,
        int_text(n).len() >= 1,
        (int_text(n).len() == 1) == (0 <= n < 10),
{
    if n < 0 {
        let m = (-n) as nat;
        lemma_nat_text(m);
        assert(int_text(n).skip(1) =~= nat_text(m));
        assert(int_text(n)[0] == '-');
    } else {
        lemma_nat_text(n as nat);
        let t = nat_text(n as nat);
        assert(t[0] != '-');
        if n == 0 {
            lemma_digit_char(0);
            assert(t =~= seq!['0']);
        }
    }
}

/// A numeric string is the decimal text of the integer it denotes.
pub proof fn lemma_int_text_unique(s: Seq<char>)
    requires
        is_numeric(s),
    ensures
        int_text(numeric_value(s)) == s,
{
    if s =~= seq!['0'] {
        lemma_nat_text_unique(s);
    } else if is_positive_numeric(s) {
        lemma_nat_text_unique(s);
    } else {
        let t = s.skip(1);
        lemma_nat_text_unique(t);
        lemma_digits_value_bounds(t);
        lemma_pow10_positive((t.len() - 1) as nat);
        assert(seq!['-'] + t =~= s);
    }
}

/// The value of a digit string, split at its first digit.
pub proof fn lemma_digits_value_cons(c: char, w: Seq<char>)
    requires
        is_digit(c),
        all_digits(w),
    ensures
        all_digits(seq![c] + w),
        digits_value(seq![c] + w) == digit_value(c) * pow10(w.len()) + digits_value(w),
{
    lemma_digits_value_single(c);
    lemma_digits_value_concat(seq![c], w);
}

/// Every character of `s` from position `lo` on is a decimal digit.
pub open spec fn digits_from(s: Seq<char>, lo: int) -> bool {
    forall|j: int| lo <= j < s.len() ==> is_digit(#[trigger] s[j])
}

/// The characters from `lo` on are digits exactly when what is left after
/// skipping `lo` characters is a digit string.
pub proof fn lemma_digits_from_skip(s: Seq<char>, lo: int)
    requires
        0 <= lo <= s.len(),
    ensures
        digits_from(s, lo) == all_digits(s.skip(lo)),
{
    let t = s.skip(lo);
    if digits_from(s, lo) {
        assert forall|i: int| 0 <= i < t.len() implies is_digit(#[trigger] t[i]) by {
            assert(t[i] == s[i + lo]);
        }
    }
    if all_digits(t) {
        assert forall|j: int| lo <= j < s.len() implies is_digit(#[trigger] s[j]) by {
            assert(t[j - lo] == s[j]);
        }
    }
}

/// The value of the digits from position `i` on, split at the digit at `i`.
pub proof fn lemma_digits_value_skip_first(s: Seq<char>, i: int)
    requires
        0 <= i < s.len(),
        digits_from(s, i),
    ensures
        digits_value(s.skip(i)) == digit_value(s[i]) * pow10((s.len() - i - 1) as nat)
            + digits_value(s.skip(i + 1)),
{
    assert(digits_from(s, i + 1));
    lemma_digits_from_skip(s, i + 1);
    assert(is_digit(s[i]));
    assert(s.skip(i) =~= seq![s[i]] + s.skip(i + 1));
    lemma_digits_value_cons(s[i], s.skip(i + 1));
}

/// Two digit strings of one length that agree from `start` up to `i`
/// differ in value, from `start` on, by as much as they differ from `i` on.
pub proof fn lemma_digits_value_same_prefix(s: Seq<char>, t: Seq<char>, start: int, i: int)
    requires
        0 <= start <= i <= s.len(),
        s.len() == t.len(),
        forall|j: int| start <= j < i ==> s[j] == t[j],
        digits_from(s, start),
        digits_from(t, start),
    ensures
        digits_value(t.skip(start)) - digits_value(s.skip(start)) == digits_value(t.skip(i))
            - digits_value(s.skip(i)),
{
    let a = s.subrange(start, i);
    assert(a =~= t.subrange(start, i));
    assert(digits_from(s, i));
    assert(digits_from(t, i));
    lemma_digits_from_skip(s, i);
    lemma_digits_from_skip(t, i);
    assert(all_digits(a)) by {
        assert forall|j: int| 0 <= j < a.len() implies is_digit(#[trigger] a[j]) by {
            assert(a[j] == s[j + start]);
        }
    }
    assert(s.skip(start) =~= a + s.skip(i));
    assert(t.skip(start) =~= a + t.skip(i));
    lemma_digits_value_concat(a, s.skip(i));
    lemma_digits_value_concat(a, t.skip(i));
}

/// Adds one to the decimal number that `s` holds from position `start` on.
/// What stands before `start` (a sign, say) is kept.
pub fn num_incr_core(s: &mut Vec<char>, start: usize)
    requires
        start <= old(s).len(),
        is_nat_text(old(s)@.skip(start as int)),
    ensures
        final(s)@ == old(s)@.take(start as int) + nat_text(
            digits_value(old(s)@.skip(start as int)) + 1,
        ),
{
    let ghost s0 = s@;
    let n = s.len();
    let mut i = n;
    proof {
        lemma_digits_from_skip(s0, start as int);
        assert(s0.skip(n as int) =~= Seq::<char>::empty());
    }
    while i > start
        invariant
            start <= i <= n,
            n == s0.len(),
            s@.len() == n,
            s0 == old(s)@,
            is_nat_text(s0.skip(start as int)),
            digits_from(s0, start as int),
            digits_from(s@, i as int),
            forall|j: int| 0 <= j < i ==> s@[j] == s0[j],
            digits_value(s@.skip(i as int)) == 0,
            digits_value(s0.skip(i as int)) + 1 == pow10((n - i) as nat),
        decreases i,
    {
        i -= 1;
        let c = s[i];
        let ghost before = s@;
        let ghost k = (n - i - 1) as nat;
        proof {
            assert(c == s0[i as int]);
            assert(is_digit(s0[i as int]));
            lemma_digits_value_skip_first(s0, i as int);
        }
        if c == '9' {
            s.set(i, '0');
            proof {
                assert(s@.skip(i + 1) =~= before.skip(i + 1));
                assert(digits_from(s@, i as int)) by {
                    assert forall|j: int| i <= j < s@.len() implies is_digit(#[trigger] s@[j]) by {
                        if j > i {
                            assert(s@[j] == before[j]);
                        }
                    }
                }
                lemma_digits_value_skip_first(s@, i as int);
                assert(digit_value('9') * pow10(k) == 9 * pow10(k));
                assert(digit_value('0') * pow10(k) == 0);
            }
        } else {
            let c1 = ((c as u8) + 1) as char;
            s.set(i, c1);
            proof {
                assert(s@.skip(i + 1) =~= before.skip(i + 1));
                assert(digits_from(s@, start as int)) by {
                    assert forall|j: int| start <= j < s@.len() implies is_digit(
                        #[trigger] s@[j],
                    ) by {
                        if j > i {
                            assert(s@[j] == before[j]);
                        } else if j < i {
                            assert(s@[j] == s0[j]);
                        }
                    }
                }
                lemma_digits_value_skip_first(s@, i as int);
                assert(digit_value(c1) * pow10(k) == digit_value(c) * pow10(k) + pow10(k))
                    by (nonlinear_arith)
                    requires
                        digit_value(c1) == digit_value(c) + 1,
                ;
                lemma_digits_value_same_prefix(s0, s@, start as int, i as int);
                let r = s@.skip(start as int);
                lemma_digits_from_skip(s@, start as int);
                assert(r[0] != '0') by {
                    if i > start {
                        assert(r[0] == s0.skip(start as int)[0]);
                    }
                }
                lemma_nat_text_unique(r);
                assert(s@ =~= s0.take(start as int) + r);
            }
            return ;
        }
    }
    let ghost before = s@;
    s.insert(start, '1');
    proof {
        let z = before.skip(start as int);
        lemma_digits_from_skip(before, start as int);
        assert(s@.skip(start as int) =~= seq!['1'] + z);
        lemma_digits_value_cons('1', z);
        assert(digit_value('1') * pow10(z.len()) == pow10(z.len()));
        let r = s@.skip(start as int);
        lemma_nat_text_unique(r);
        assert(s@ =~= s0.take(start as int) + r);
    }
}

/// Takes one from the decimal number that `s` holds from position `start`
/// on, which is at least one. What stands before `start` is kept.
pub fn num_decr_core(s: &mut Vec<char>, start: usize)
    requires
        start < old(s).len(),
        is_positive_numeric(old(s)@.skip(start as int)),
    ensures
        final(s)@ == old(s)@.take(start as int) + nat_text(
            (digits_value(old(s)@.skip(start as int)) - 1) as nat,
        ),
{
    let ghost s0 = s@;
    let n = s.len();
    let mut i = n;
    let mut done = false;
    proof {
        lemma_digits_from_skip(s0, start as int);
        assert(s0.skip(n as int) =~= Seq::<char>::empty());
        assert(s0[start as int] == s0.skip(start as int)[0]);
    }
    while i > start && !done
        invariant
            start <= i <= n,
            n == s0.len(),
            s@.len() == n,
            s0 == old(s)@,
            s0[start as int] != '0',
            digits_from(s0, start as int),
            digits_from(s@, start as int),
            forall|j: int| 0 <= j < i ==> s@[j] == s0[j],
            !done ==> forall|j: int| i <= j < n ==> s@[j] == '9',
            !done ==> digits_value(s0.skip(i as int)) == 0,
            !done ==> digits_value(s@.skip(i as int)) + 1 == pow10((n - i) as nat),
            done ==> digits_value(s@.skip(start as int)) + 1 == digits_value(
                s0.skip(start as int),
            ),
            done ==> s@[start as int] != '0' || (forall|j: int| start < j < n ==> s@[j] == '9'),
        decreases i,
    {
        i -= 1;
        let c = s[i];
        let ghost before = s@;
        let ghost k = (n - i - 1) as nat;
        proof {
            assert(c == s0[i as int]);
            assert(is_digit(s0[i as int]));
            assert(digits_from(s0, i as int));
            lemma_digits_value_skip_first(s0, i as int);
        }
        if c == '0' {
            s.set(i, '9');
            proof {
                assert(s@.skip(i + 1) =~= before.skip(i + 1));
                assert(digits_from(s@, start as int)) by {
                    assert forall|j: int| start <= j < s@.len() implies is_digit(
                        #[trigger] s@[j],
                    ) by {
                        if j != i {
                            assert(s@[j] == before[j]);
                        }
                    }
                }
                assert(digits_from(s@, i as int));
                lemma_digits_value_skip_first(s@, i as int);
                assert(digit_value('9') * pow10(k) == 9 * pow10(k)) by (nonlinear_arith)
                    requires
                        digit_value('9') == 9,
                ;
                assert(digit_value('0') * pow10(k) == 0) by (nonlinear_arith)
                    requires
                        digit_value('0') == 0,
                ;
            }
        } else {
            let c1 = ((c as u8) - 1) as char;
            s.set(i, c1);
            done = true;
            proof {
                assert(s@.skip(i + 1) =~= before.skip(i + 1));
                assert(digits_from(s@, start as int)) by {
                    assert forall|j: int| start <= j < s@.len() implies is_digit(
                        #[trigger] s@[j],
                    ) by {
                        if j != i {
                            assert(s@[j] == before[j]);
                        }
                    }
                }
                assert(digits_from(s@, i as int));
                lemma_digits_value_skip_first(s@, i as int);
                assert(digit_value(c1) * pow10(k) + pow10(k) == digit_value(c) * pow10(k))
                    by (nonlinear_arith)
                    requires
                        digit_value(c1) + 1 == digit_value(c),
                ;
                lemma_digits_value_same_prefix(s0, s@, start as int, i as int);
                if s@[start as int] == '0' {
                    assert(i == start);
                    assert forall|j: int| start < j < n implies s@[j] == '9' by {
                        assert(s@[j] == before[j]);
                    }
                }
            }
        }
    }
    proof {
        if !done {
            lemma_digits_from_skip(s0, start as int);
            lemma_digits_value_bounds(s0.skip(start as int));
            lemma_pow10_positive((n - start - 1) as nat);
        }
    }
    let ghost mid = s@;
    if s[start] == '0' && n - start > 1 {
        s.remove(start);
        proof {
            lemma_digits_value_skip_first(mid, start as int);
            assert(digit_value('0') * pow10((n - start - 1) as nat) == 0);
            assert(s@.skip(start as int) =~= mid.skip(start + 1));
            assert(s@.take(start as int) =~= s0.take(start as int));
            assert(s@.skip(start as int)[0] == mid[start + 1]);
        }
    } else {
        proof {
            assert(s@.take(start as int) =~= s0.take(start as int));
        }
    }
    proof {
        let r = s@.skip(start as int);
        assert(digits_from(s@, start as int)) by {
            assert forall|j: int| start <= j < s@.len() implies is_digit(#[trigger] s@[j]) by {
                if s@.len() == n {
                    assert(s@[j] == mid[j]);
                } else {
                    assert(s@[j] == mid[j + 1]);
                }
            }
        }
        lemma_digits_from_skip(s@, start as int);
        lemma_nat_text_unique(r);
        assert(s@ =~= s@.take(start as int) + r);
    }
}

/// Where two digit strings of one length first differ, the smaller digit
/// belongs to the smaller number.
pub proof fn lemma_first_difference(a: Seq<char>, b: Seq<char>, i: int)
    requires
        a.len() == b.len(),
        all_digits(a),
        all_digits(b),
        0 <= i < a.len(),
        forall|j: int| 0 <= j < i ==> a[j] == b[j],
        a[i] < b[i],
    ensures
        digits_value(a) < digits_value(b),
{
    assert(a.skip(0) =~= a);
    assert(b.skip(0) =~= b);
    lemma_digits_from_skip(a, 0);
    lemma_digits_from_skip(b, 0);
    lemma_digits_value_same_prefix(a, b, 0, i);
    assert(digits_from(a, i));
    assert(digits_from(b, i));
    lemma_digits_value_skip_first(a, i);
    lemma_digits_value_skip_first(b, i);
    assert(digits_from(a, i + 1));
    assert(digits_from(b, i + 1));
    lemma_digits_from_skip(a, i + 1);
    lemma_digits_from_skip(b, i + 1);
    lemma_digits_value_bounds(a.skip(i + 1));
    let k = (a.len() - i - 1) as nat;
    assert(is_digit(a[i]) && is_digit(b[i]));
    assert(digit_value(a[i]) * pow10(k) + pow10(k) <= digit_value(b[i]) * pow10(k))
        by (nonlinear_arith)
        requires
            digit_value(a[i]) + 1 <= digit_value(b[i]),
    ;
}

/// The position at which two digit strings of one length first differ,
/// their length if they are equal.
pub fn first_difference(a: &[char], b: &[char]) -> (i: usize)
    requires
        a@.len() == b@.len(),
        all_digits(a@),
        all_digits(b@),
    ensures
        i <= a@.len(),
        forall|j: int| 0 <= j < i ==> a@[j] == b@[j],
        i == a@.len() ==> a@ == b@,
        i < a@.len() ==> a@[i as int] != b@[i as int],
        i < a@.len() ==> (a@[i as int] < b@[i as int]) == (digits_value(a@) < digits_value(b@)),
        i < a@.len() ==> (b@[i as int] < a@[i as int]) == (digits_value(b@) < digits_value(a@)),
{
    let n = a.len();
    let mut i: usize = 0;
    while i < n
        invariant
            i <= n,
            n == a@.len(),
            n == b@.len(),
            all_digits(a@),
            all_digits(b@),
            forall|j: int| 0 <= j < i ==> a@[j] == b@[j],
        decreases n - i,
    {
        if a[i] != b[i] {
            proof {
                if a@[i as int] < b@[i as int] {
                    lemma_first_difference(a@, b@, i as int);
                } else {
                    lemma_first_difference(b@, a@, i as int);
                }
            }
            return i;
        }
        i += 1;
    }
    assert(a@ =~= b@);
    i
}

/// The order of two digit strings by length first and by value among
/// those of one length.
pub open spec fn unum_less(a: Seq<char>, b: Seq<char>) -> bool {
    a.len() < b.len() || (a.len() == b.len() && digits_value(a) < digits_value(b))
}

/// Among decimal texts without leading zeros, the longer denotes the
/// larger number: there the order by length and value is the order by value.
pub proof fn lemma_unum_less_by_value(a: Seq<char>, b: Seq<char>)
    requires
        is_nat_text(a),
        is_nat_text(b),
    ensures
        unum_less(a, b) == (digits_value(a) < digits_value(b)),
{
    lemma_digits_value_bounds(a);
    lemma_digits_value_bounds(b);
    if a.len() < b.len() {
        lemma_pow10_monotone(a.len(), (b.len() - 1) as nat);
    }
    if b.len() < a.len() {
        lemma_pow10_monotone(b.len(), (a.len() - 1) as nat);
    }
}

/// Compares two digit strings: the longer is the greater, and of two of
/// one length the one that denotes the greater number.
pub fn unum_cmp(a: &[char], b: &[char]) -> (r: Ordering)
    requires
        all_digits(a@),
        all_digits(b@),
    ensures
        (r == Ordering::Less) == unum_less(a@, b@),
        (r == Ordering::Greater) == unum_less(b@, a@),
        (r == Ordering::Equal) == (a@ == b@),
{
    let alen = a.len();
    let blen = b.len();
    if alen > blen {
        Ordering::Greater
    } else if blen > alen {
        Ordering::Less
    } else {
        let i = first_difference(a, b);
        if i == alen {
            Ordering::Equal
        } else if a[i] < b[i] {
            Ordering::Less
        } else {
            Ordering::Greater
        }
    }
}

} // verus!
