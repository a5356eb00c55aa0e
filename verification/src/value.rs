//! The values that cells hold: an integer, a character or a text, chosen
//! canonically whenever a value is made from text.

use crate::digits::{
    all_digits, digit_value, digits_from, digits_value, i64_parse, int_text, is_digit, is_nat_text,
    is_num, is_numeric, lemma_digit_char, lemma_digits_from_skip,
    lemma_digits_value_bounds, lemma_digits_value_cons, lemma_digits_value_single,
    lemma_digits_value_skip_first,
    lemma_int_text, lemma_int_text_unique, lemma_nat_text, lemma_nat_text_unique,
    lemma_pow10_monotone, lemma_pow10_positive, lemma_unum_less_by_value, nat_text, num_decr_core, num_incr_core,
    numeric_value, parse_i64, pow10, unum_cmp,
};
use std::cmp::Ordering;
use std::rc::Rc;
use vstd::prelude::*;
use vstd::std_specs::cmp::PartialEqSpecImpl;
use vstd::std_specs::convert::FromSpecImpl;

verus! {

/// A value on the tape.
#[derive(Debug, Hash)]
pub enum Value {
    /// A text, shared by reference count.
    S(Rc<String>),
    /// A 64-bit signed integer.
    I(i64),
    /// A single Unicode scalar.
    C(char),
}

/// What a `Value` stands for in contracts.
pub enum ValueView {
    S(Seq<char>),
    I(int),
    C(char),
}

impl View for Value {
    type V = ValueView;

    open spec fn view(&self) -> ValueView {
        match *self {
            Value::S(s) => ValueView::S(s@),
            Value::I(x) => ValueView::I(x as int),
            Value::C(c) => ValueView::C(c),
        }
    }
}

/// The canonical value of an integer: `I` where it fits in 64 bits, else
/// the text of its decimal digits.
pub open spec fn of_int(n: int) -> ValueView {
    if i64::MIN <= n <= i64::MAX {
        ValueView::I(n)
    } else {
        ValueView::S(int_text(n))
    }
}

/// The value that a text is read as: an integer where the text is numeric
/// and fits, a character where it is one character long, else the text.
pub open spec fn from_text(s: Seq<char>) -> ValueView {
    match parse_i64(s) {
        Some(x) => ValueView::I(x as int),
        None => if s.len() == 1 {
            ValueView::C(s[0])
        } else {
            ValueView::S(s)
        },
    }
}

/// The value that a character is read as: a digit gives its number.
pub open spec fn from_char(c: char) -> ValueView {
    if is_digit(c) {
        ValueView::I(digit_value(c))
    } else {
        ValueView::C(c)
    }
}

/// The text that a value is shown as.
pub open spec fn display_text(v: ValueView) -> Seq<char> {
    match v {
        ValueView::S(s) => s,
        ValueView::I(x) => int_text(x),
        ValueView::C(c) => seq![c],
    }
}

/// `v` is in the form that reading its own text would give.
pub open spec fn is_canonical(v: ValueView) -> bool {
    match v {
        ValueView::S(s) => parse_i64(s) is None && s.len() != 1,
        ValueView::I(x) => i64::MIN <= x <= i64::MAX,
        ValueView::C(c) => !is_digit(c),
    }
}

/// `v` is a number: an integer, or a text that is numeric.
pub open spec fn is_number(v: ValueView) -> bool {
    match v {
        ValueView::S(s) => is_numeric(s),
        ValueView::I(_) => true,
        ValueView::C(_) => false,
    }
}

/// The number that `v` stands for; zero where it is no number.
pub open spec fn number(v: ValueView) -> int {
    match v {
        ValueView::S(s) => if is_numeric(s) {
            numeric_value(s)
        } else {
            0
        },
        ValueView::I(x) => x,
        ValueView::C(_) => 0,
    }
}

impl Clone for Value {
    /// The same value; a text is shared, not copied.
    fn clone(&self) -> (res: Value)
        ensures
            res@ == self@,
    {
        match self {
            Value::S(s) => Value::S(s.clone()),
            Value::I(x) => Value::I(*x),
            Value::C(c) => Value::C(*c),
        }
    }
}

impl PartialEq for Value {
    /// Two values are equal when they are of one variant and hold the
    /// same: `I(7)`, `C('7')` and `S("7")` are three values.
    fn eq(&self, other: &Value) -> (r: bool) {
        match (self, other) {
            (Value::S(a), Value::S(b)) => {
                let x: &String = &**a;
                let y: &String = &**b;
                x.eq(y)
            },
            (Value::I(a), Value::I(b)) => *a == *b,
            (Value::C(a), Value::C(b)) => *a == *b,
            _ => false,
        }
    }
}

impl Eq for Value {

}

impl PartialEqSpecImpl for Value {
    open spec fn obeys_eq_spec() -> bool {
        true
    }

    open spec fn eq_spec(&self, other: &Value) -> bool {
        self@ == other@
    }
}

/// `String::push`: the character is appended to the text.
#[verifier::external_body]
pub(crate) fn string_push(s: &mut String, c: char)
    ensures
        final(s)@ == old(s)@.push(c),
{
    s.push(c)
}

/// The characters of `s`, in order.
pub fn chars_of(s: &str) -> (v: Vec<char>)
    ensures
        v@ == s@,
{
    let mut v: Vec<char> = Vec::new();
    let mut it = s.chars();
    for c in iter: it
        invariant
            iter.seq() == s@,
            v@ == s@.take(iter.index() as int),
    {
        v.push(c);
        assert(s@.take(iter.index() + 1) =~= s@.take(iter.index() as int).push(c));
    }
    assert(s@.take(s@.len() as int) =~= s@);
    v
}

/// The text made of the characters of `v`, in order.
pub fn string_of(v: &[char]) -> (s: String)
    ensures
        s@ == v@,
{
    let mut s = String::new();
    let mut i: usize = 0;
    while i < v.len()
        invariant
            i <= v@.len(),
            s@ == v@.take(i as int),
        decreases v@.len() - i,
    {
        string_push(&mut s, v[i]);
        assert(v@.take(i + 1) =~= v@.take(i as int).push(v@[i as int]));
        i += 1;
    }
    assert(v@.take(v@.len() as int) =~= v@);
    s
}

/// The characters of a value's text, handed out one at a time.
pub enum ValueAsChars {
    /// The characters of a text and the position of the next one.
    S(Vec<char>, usize),
    /// The digits of an integer: slot 0 counts the characters that are
    /// left, and they stand in slots 1 up to that count, last one first.
    I([u8; 21]),
    /// One character.
    C(char),
    /// Nothing is left.
    Done,
}

/// The characters that a digit buffer still holds, next one first.
pub open spec fn buffer_text(buf: Seq<u8>) -> Seq<char> {
    if buf.len() == 21 && buf[0] <= 20 {
        Seq::new(buf[0] as nat, |k: int| buf[buf[0] - k] as char)
    } else {
        Seq::empty()
    }
}

/// The characters in slots `n` down to 1 of a digit buffer.
pub open spec fn top_text(buf: Seq<u8>, n: nat) -> Seq<char> {
    Seq::new(n, |k: int| buf[n - k] as char)
}

proof fn lemma_top_text_push(buf: Seq<u8>, n: nat, d: u8)
    requires
        buf.len() == 21,
        n < 20,
    ensures
        top_text(buf.update(n as int + 1, d), n + 1) == seq![d as char] + top_text(buf, n),
{
    assert(top_text(buf.update(n as int + 1, d), n + 1) =~= seq![d as char] + top_text(buf, n));
}

proof fn lemma_pow10_19()
    ensures
        pow10(19) == 10_000_000_000_000_000_000,
{
    reveal_with_fuel(pow10, 20);
}

impl ValueAsChars {
    /// The characters that are still to come, next one first.
    pub open spec fn remaining(&self) -> Seq<char> {
        match *self {
            ValueAsChars::S(v, pos) => if pos <= v@.len() {
                v@.skip(pos as int)
            } else {
                Seq::empty()
            },
            ValueAsChars::I(buf) => buffer_text(buf@),
            ValueAsChars::C(c) => seq![c],
            ValueAsChars::Done => Seq::empty(),
        }
    }

    /// The characters of the text of `val`, together with their number.
    pub fn new(val: &Value) -> (r: (ValueAsChars, usize))
        ensures
            r.0.remaining() == display_text(val@),
            r.1 == r.0.remaining().len(),
    {
        match val {
            Value::S(s) => {
                let v = chars_of(s.as_str());
                let n = v.len();
                (ValueAsChars::S(v, 0), n)
            },
            Value::C(c) => (ValueAsChars::C(*c), 1),
            Value::I(x) => {
                let x: i64 = *x;
                if x == 0 {
                    proof {
                        lemma_digit_char(0);
                    }
                    return (ValueAsChars::C('0'), 1);
                }
                let mut buf = [0u8;21];
                let neg = x < 0;
                let mut m: u64 = if neg {
                    (-(x + 1)) as u64 + 1
                } else {
                    x as u64
                };
                let ghost m0 = m;
                let mut xlen: usize = 0;
                assert(top_text(buf@, 0) =~= Seq::<char>::empty());
                while m != 0
                    invariant
                        xlen <= 19,
                        buf@.len() == 21,
                        0 < m0 <= 0x8000_0000_0000_0000,
                        m * pow10(xlen as nat) + digits_value(top_text(buf@, xlen as nat)) == m0,
                        all_digits(top_text(buf@, xlen as nat)),
                        m == 0 ==> xlen > 0 && buf@[xlen as int] != 48,
                    decreases m,
                {
                    let d: u8 = 48 + (m % 10) as u8;
                    proof {
                        lemma_pow10_19();
                        if xlen >= 19 {
                            lemma_pow10_monotone(19, xlen as nat);
                        }
                        assert(m * pow10(xlen as nat) >= pow10(xlen as nat)) by (nonlinear_arith)
                            requires
                                m >= 1,
                        ;
                        lemma_top_text_push(buf@, xlen as nat, d);
                        lemma_digits_value_cons(d as char, top_text(buf@, xlen as nat));
                        assert(digit_value(d as char) == m % 10);
                        assert((m / 10) * pow10((xlen + 1) as nat) + (m % 10) * pow10(xlen as nat)
                            == m * pow10(xlen as nat)) by (nonlinear_arith)
                            requires
                                pow10((xlen + 1) as nat) == 10 * pow10(xlen as nat),
                        ;
                    }
                    xlen += 1;
                    buf[xlen] = d;
                    m = m / 10;
                }
                let ghost digits = top_text(buf@, xlen as nat);
                proof {
                    assert(digits[0] == buf@[xlen as int] as char);
                    lemma_nat_text_unique(digits);
                }
                if neg {
                    xlen += 1;
                    buf[xlen] = 45;
                    assert(top_text(buf@, xlen as nat) =~= seq!['-'] + digits);
                }
                let ghost text = top_text(buf@, xlen as nat);
                buf[0] = xlen as u8;
                assert(buffer_text(buf@) =~= text);
                (ValueAsChars::I(buf), xlen)
            },
        }
    }

    /// Hands out the next character, if one is left.
    pub fn next(&mut self) -> (r: Option<char>)
        ensures
            old(self).remaining().len() == 0 ==> r is None && final(self).remaining().len() == 0,
            old(self).remaining().len() > 0 ==> r == Some(old(self).remaining()[0])
                && final(self).remaining() == old(self).remaining().drop_first(),
    {
        match self {
            ValueAsChars::S(v, pos) => {
                if *pos < v.len() {
                    let c = v[*pos];
                    assert(v@.skip(*pos + 1) =~= v@.skip(*pos as int).drop_first());
                    *pos = *pos + 1;
                    Some(c)
                } else {
                    None
                }
            },
            ValueAsChars::I(buf) => {
                let idx = buf[0];
                if idx == 0 || idx > 20 {
                    None
                } else {
                    let ghost before = buf@;
                    let x = buf[idx as usize];
                    buf[0] = idx - 1;
                    assert(buffer_text(buf@) =~= buffer_text(before).drop_first());
                    Some(x as char)
                }
            },
            ValueAsChars::C(c) => {
                let r = *c;
                *self = ValueAsChars::Done;
                assert(seq![r].drop_first() =~= Seq::<char>::empty());
                Some(r)
            },
            ValueAsChars::Done => None,
        }
    }
}

/// The characters of the text of `v`: what `display_text` says.
pub fn text_chars(v: &Value) -> (t: Vec<char>)
    ensures
        t@ == display_text(v@),
{
    let (mut it, _) = ValueAsChars::new(v);
    let mut t: Vec<char> = Vec::new();
    let ghost all = it.remaining();
    loop
        invariant
            it.remaining().len() <= all.len(),
            t@ == all.take(all.len() - it.remaining().len()),
            it.remaining() == all.skip(all.len() - it.remaining().len()),
        ensures
            t@ == all,
        decreases it.remaining().len(),
    {
        let ghost k = all.len() - it.remaining().len();
        match it.next() {
            Some(c) => {
                t.push(c);
                assert(all.take(k + 1) =~= all.take(k).push(all[k]));
                assert(all.skip(k).drop_first() =~= all.skip(k + 1));
            },
            None => {
                assert(all.take(k) =~= all);
                break ;
            },
        }
    }
    t
}

impl Value {
    /// The text that the value is shown as: an integer in decimal, a
    /// character as itself, a text as it is.
    pub fn to_string(&self) -> (s: String)
        ensures
            s@ == display_text(self@),
    {
        match self {
            Value::S(x) => {
                let r: &String = &**x;
                r.clone()
            },
            _ => {
                let t = text_chars(self);
                string_of(t.as_slice())
            },
        }
    }

    /// Reads a text as a value, in canonical form.
    pub fn from_string(s: String) -> (v: Value)
        ensures
            v@ == from_text(s@),
    {
        match i64_parse(s.as_str()) {
            Some(x) => Value::I(x),
            None => {
                let mut it = s.as_str().chars();
                match it.next() {
                    Some(c) => match it.next() {
                        Some(_) => Value::S(Rc::new(s)),
                        None => Value::C(c),
                    },
                    None => Value::S(Rc::new(s)),
                }
            },
        }
    }
}

impl<'a> From<&'a str> for Value {
    /// Reads a text as a value, in canonical form.
    fn from(s: &'a str) -> (v: Value)
        ensures
            v@ == from_text(s@),
    {
        match i64_parse(s) {
            Some(x) => Value::I(x),
            None => {
                let mut it = s.chars();
                match it.next() {
                    Some(c) => match it.next() {
                        Some(_) => Value::S(Rc::new(s.to_owned())),
                        None => Value::C(c),
                    },
                    None => Value::S(Rc::new(s.to_owned())),
                }
            },
        }
    }
}

/// What `from` gives for a text is stated on `from` itself, over the view
/// of the text.
impl<'a> FromSpecImpl<&'a str> for Value {
    open spec fn obeys_from_spec() -> bool {
        false
    }

    open spec fn from_spec(s: &'a str) -> Value {
        arbitrary()
    }
}

impl From<String> for Value {
    /// Reads a text as a value, in canonical form.
    fn from(s: String) -> (v: Value)
        ensures
            v@ == from_text(s@),
    {
        Value::from_string(s)
    }
}

/// What `from` gives for a text is stated on `from` itself, over the view
/// of the text.
impl FromSpecImpl<String> for Value {
    open spec fn obeys_from_spec() -> bool {
        false
    }

    open spec fn from_spec(s: String) -> Value {
        arbitrary()
    }
}

impl From<char> for Value {
    /// Reads a character as a value: a digit gives its number.
    fn from(c: char) -> (v: Value)
        ensures
            v@ == from_char(c),
    {
        if c >= '0' && c <= '9' {
            Value::I((c as u32 - '0' as u32) as i64)
        } else {
            Value::C(c)
        }
    }
}

impl FromSpecImpl<char> for Value {
    open spec fn obeys_from_spec() -> bool {
        true
    }

    open spec fn from_spec(c: char) -> Value {
        if is_digit(c) {
            Value::I((c as int - 48) as i64)
        } else {
            Value::C(c)
        }
    }
}

/// Reading the decimal text of an integer gives its canonical value.
pub proof fn lemma_from_int_text(n: int)
    ensures
        from_text(int_text(n)) == of_int(n),
        display_text(of_int(n)) == int_text(n),
        is_number(of_int(n)),
        number(of_int(n)) == n,
{
    lemma_int_text(n);
}

/// The value one above `v`. What is no number counts as zero.
pub open spec fn incr_spec(v: ValueView) -> ValueView {
    if is_number(v) {
        of_int(number(v) + 1)
    } else {
        ValueView::I(1)
    }
}

/// The value one below `v`. What is no number counts as zero.
pub open spec fn decr_spec(v: ValueView) -> ValueView {
    if is_number(v) {
        of_int(number(v) - 1)
    } else {
        ValueView::I(-1)
    }
}

/// One step of a cursor: up when `direction` holds, else down.
pub open spec fn advance_spec(v: ValueView, direction: bool) -> ValueView {
    if direction {
        incr_spec(v)
    } else {
        decr_spec(v)
    }
}

/// The negative of `v`; zero where `v` is no number.
pub open spec fn negate_spec(v: ValueView) -> ValueView {
    if is_number(v) {
        of_int(-number(v))
    } else {
        ValueView::I(0)
    }
}

/// `v` is a text that is not numeric.
pub open spec fn is_plain_text(v: ValueView) -> bool {
    v is S && !is_number(v)
}

/// The sum of two values. Two numbers give their sum in canonical form.
/// A text that is no number leaves the other operand as it is, and so
/// does a character.
pub open spec fn add_spec(a: ValueView, b: ValueView) -> ValueView {
    if is_plain_text(b) {
        a
    } else if is_plain_text(a) {
        b
    } else if b is C {
        a
    } else if a is C {
        if b == ValueView::I(0) {
            a
        } else {
            b
        }
    } else {
        of_int(number(a) + number(b))
    }
}

/// The difference of two values. Two numbers give their difference in
/// canonical form. A right operand that is a text and no number, or a
/// character, leaves the left one as it is; such a left operand gives the
/// negative of the right one.
pub open spec fn sub_spec(a: ValueView, b: ValueView) -> ValueView {
    if is_plain_text(b) {
        a
    } else if is_plain_text(a) {
        negate_spec(b)
    } else if b is C {
        a
    } else if a is C {
        if b == ValueView::I(0) {
            a
        } else {
            negate_spec(b)
        }
    } else {
        of_int(number(a) - number(b))
    }
}

/// `m`, made negative where `n` holds.
pub open spec fn signed(n: bool, m: int) -> int {
    if n {
        -m
    } else {
        m
    }
}

/// The number that digits denote when the least significant stands first.
pub open spec fn le_value(z: Seq<char>) -> nat {
    digits_value(z.reverse())
}

/// The value of the last `i` digits of `x`, of all of them where `x` has
/// fewer.
pub open spec fn low_value(x: Seq<char>, i: nat) -> nat {
    if i >= x.len() {
        digits_value(x)
    } else {
        digits_value(x.skip(x.len() - i))
    }
}

/// The value of the digit of `x` that stands `i` places from its end;
/// zero beyond its first digit.
pub open spec fn digit_at(x: Seq<char>, i: nat) -> int {
    if i < x.len() {
        digit_value(x[x.len() - 1 - i])
    } else {
        0
    }
}

proof fn lemma_le_value_push(z: Seq<char>, d: char)
    requires
        all_digits(z),
        is_digit(d),
    ensures
        all_digits(z.push(d)),
        le_value(z.push(d)) == digit_value(d) * pow10(z.len()) + le_value(z),
{
    assert(z.push(d).reverse() =~= seq![d] + z.reverse());
    assert(all_digits(z.reverse())) by {
        assert forall|i: int| 0 <= i < z.reverse().len() implies is_digit(
            #[trigger] z.reverse()[i],
        ) by {
            assert(z.reverse()[i] == z[z.len() - 1 - i]);
        }
    }
    lemma_digits_value_cons(d, z.reverse());
    assert forall|i: int| 0 <= i < z.push(d).len() implies is_digit(#[trigger] z.push(d)[i]) by {
        if i < z.len() {
            assert(z.push(d)[i] == z[i]);
        }
    }
}

proof fn lemma_low_value_step(x: Seq<char>, i: nat)
    requires
        all_digits(x),
    ensures
        low_value(x, i + 1) == low_value(x, i) + digit_at(x, i) * pow10(i),
        low_value(x, 0) == 0,
{
    assert(x.skip(x.len() as int) =~= Seq::<char>::empty());
    if i < x.len() {
        let j = x.len() - 1 - i;
        assert(x.skip(0) =~= x);
        lemma_digits_from_skip(x, 0);
        assert(digits_from(x, j));
        lemma_digits_value_skip_first(x, j);
    } else {
        assert(0 * pow10(i) == 0);
    }
}

proof fn lemma_add_step(zv: int, c: int, xl: int, yl: int, xc: int, yc: int, p: int, d: int, c2: int)
    requires
        zv + c * p == xl + yl,
        xc + yc + c == d + 10 * c2,
    ensures
        (d * p + zv) + c2 * (10 * p) == (xl + xc * p) + (yl + yc * p),
{
    assert((d + 10 * c2) * p == d * p + c2 * (10 * p)) by (nonlinear_arith);
    assert((xc + yc + c) * p == xc * p + yc * p + c * p) by (nonlinear_arith);
}

proof fn lemma_sub_step(zv: int, b: int, xl: int, yl: int, xc: int, yc: int, p: int, d: int, b2: int)
    requires
        zv + yl == xl + b * p,
        d + yc + b == xc + 10 * b2,
    ensures
        (d * p + zv) + (yl + yc * p) == (xl + xc * p) + b2 * (10 * p),
{
    assert((xc + 10 * b2) * p == xc * p + b2 * (10 * p)) by (nonlinear_arith);
    assert((d + yc + b) * p == d * p + yc * p + b * p) by (nonlinear_arith);
}

/// The canonical value of the number that a digit string denotes.
pub open spec fn of_digits(s: Seq<char>) -> ValueView {
    of_int(digits_value(s) as int)
}

/// The canonical value of the number whose digits `z` holds, the least
/// significant first, negative where `n` holds.
fn value_of_magnitude(z: Vec<char>, n: bool) -> (r: Value)
    requires
        all_digits(z@),
    ensures
        r@ == of_int(signed(n, le_value(z@) as int)),
{
    let mut z = z;
    let ghost z0 = z@;
    if z.len() == 0 {
        z.push('0');
        proof {
            lemma_le_value_push(z0, '0');
            assert(0 * pow10(0) == 0);
        }
    }
    while z.len() > 1 && z[z.len() - 1] == '0'
        invariant
            z@.len() >= 1,
            all_digits(z@),
            le_value(z@) == le_value(z0),
        decreases z@.len(),
    {
        let ghost before = z@;
        z.pop();
        proof {
            assert(before =~= z@.push('0'));
            assert forall|i: int| 0 <= i < z@.len() implies is_digit(#[trigger] z@[i]) by {
                assert(z@[i] == before[i]);
            }
            lemma_le_value_push(z@, '0');
            assert(0 * pow10(z@.len()) == 0);
        }
    }
    let ghost digits = z@.reverse();
    let ghost m = le_value(z0);
    proof {
        assert forall|i: int| 0 <= i < digits.len() implies is_digit(#[trigger] digits[i]) by {
            assert(digits[i] == z@[z@.len() - 1 - i]);
        }
        assert(digits[0] == z@[z@.len() - 1]);
        lemma_nat_text_unique(digits);
        lemma_nat_text(m);
    }
    let mut s: Vec<char> = Vec::new();
    let zero = z.len() == 1 && z[0] == '0';
    if n && !zero {
        s.push('-');
    }
    let ghost sign = s@;
    let mut i = z.len();
    while i > 0
        invariant
            i <= z@.len(),
            digits == z@.reverse(),
            s@ == sign + digits.take(z@.len() - i),
        decreases i,
    {
        i -= 1;
        s.push(z[i]);
        proof {
            let k = z@.len() - i - 1;
            assert(digits[k] == z@[i as int]);
            assert(digits.take(k + 1) =~= digits.take(k).push(digits[k]));
            assert(s@ =~= sign + digits.take(k + 1));
        }
    }
    proof {
        assert(digits.take(z@.len() as int) =~= digits);
        let v = signed(n, m as int);
        assert(zero == (m == 0));
        assert(s@ =~= int_text(if zero {
            0
        } else {
            v
        })) by {
            assert(Seq::<char>::empty() + digits =~= digits);
        }
        lemma_from_int_text(if zero {
            0
        } else {
            v
        });
    }
    Value::from_string(string_of(s.as_slice()))
}

/// The sum of the numbers that two digit strings denote, made negative
/// where `n` holds, as a canonical value.
pub fn num_incr_by_core(x: &[char], y: &[char], n: bool) -> (r: Value)
    requires
        all_digits(x@),
        all_digits(y@),
    ensures
        r@ == of_int(signed(n, (digits_value(x@) + digits_value(y@)) as int)),
{
    let xlen = x.len();
    let ylen = y.len();
    let xylen = if xlen > ylen {
        xlen
    } else {
        ylen
    };
    let mut z: Vec<char> = Vec::new();
    let mut carry: u8 = 0;
    let mut i: usize = 0;
    proof {
        lemma_low_value_step(x@, 0);
        lemma_low_value_step(y@, 0);
        assert(z@.reverse() =~= Seq::<char>::empty());
        assert(0 * pow10(0) == 0);
    }
    while i < xylen
        invariant
            i <= xylen,
            xlen == x@.len(),
            ylen == y@.len(),
            xylen >= xlen && xylen >= ylen,
            all_digits(x@),
            all_digits(y@),
            z@.len() == i,
            all_digits(z@),
            carry <= 1,
            le_value(z@) + carry * pow10(i as nat) == low_value(x@, i as nat) + low_value(
                y@,
                i as nat,
            ),
        decreases xylen - i,
    {
        let xc: u8 = if i >= xlen {
            0
        } else {
            (x[xlen - i - 1] as u8) - 48
        };
        let yc: u8 = if i >= ylen {
            0
        } else {
            (y[ylen - i - 1] as u8) - 48
        };
        let sum: u8 = xc + yc + carry;
        let (d, c2): (u8, u8) = if sum >= 10 {
            (sum - 10, 1)
        } else {
            (sum, 0)
        };
        let dc = (48 + d) as char;
        proof {
            lemma_low_value_step(x@, i as nat);
            lemma_low_value_step(y@, i as nat);
            lemma_le_value_push(z@, dc);
            assert(pow10((i + 1) as nat) == 10 * pow10(i as nat));
            lemma_add_step(
                le_value(z@) as int,
                carry as int,
                low_value(x@, i as nat) as int,
                low_value(y@, i as nat) as int,
                xc as int,
                yc as int,
                pow10(i as nat) as int,
                d as int,
                c2 as int,
            );
        }
        z.push(dc);
        carry = c2;
        i += 1;
    }
    if carry == 1 {
        proof {
            lemma_le_value_push(z@, '1');
            assert(1 * pow10(i as nat) == pow10(i as nat));
        }
        z.push('1');
    } else {
        assert(0 * pow10(i as nat) == 0);
    }
    value_of_magnitude(z, n)
}

/// The difference of the numbers that two digit strings denote, the
/// first being at least the second, made negative where `n` holds, as a
/// canonical value.
pub fn num_decr_by_core(x: &[char], y: &[char], n: bool) -> (r: Value)
    requires
        all_digits(x@),
        all_digits(y@),
        digits_value(x@) >= digits_value(y@),
    ensures
        r@ == of_int(signed(n, digits_value(x@) - digits_value(y@))),
{
    let xlen = x.len();
    let ylen = y.len();
    let xylen = if xlen > ylen {
        xlen
    } else {
        ylen
    };
    let mut z: Vec<char> = Vec::new();
    let mut borrow: u8 = 0;
    let mut i: usize = 0;
    proof {
        lemma_low_value_step(x@, 0);
        lemma_low_value_step(y@, 0);
        assert(z@.reverse() =~= Seq::<char>::empty());
        assert(0 * pow10(0) == 0);
    }
    while i < xylen
        invariant
            i <= xylen,
            xlen == x@.len(),
            ylen == y@.len(),
            xylen >= xlen && xylen >= ylen,
            all_digits(x@),
            all_digits(y@),
            z@.len() == i,
            all_digits(z@),
            borrow <= 1,
            le_value(z@) + low_value(y@, i as nat) == low_value(x@, i as nat) + borrow * pow10(
                i as nat,
            ),
        decreases xylen - i,
    {
        let xc: u8 = if i >= xlen {
            0
        } else {
            (x[xlen - i - 1] as u8) - 48
        };
        let yc: u8 = if i >= ylen {
            0
        } else {
            (y[ylen - i - 1] as u8) - 48
        };
        let t: u8 = yc + borrow;
        let (d, b2): (u8, u8) = if t > xc {
            (10 + xc - t, 1)
        } else {
            (xc - t, 0)
        };
        let dc = (48 + d) as char;
        proof {
            lemma_low_value_step(x@, i as nat);
            lemma_low_value_step(y@, i as nat);
            lemma_le_value_push(z@, dc);
            assert(pow10((i + 1) as nat) == 10 * pow10(i as nat));
            lemma_sub_step(
                le_value(z@) as int,
                borrow as int,
                low_value(x@, i as nat) as int,
                low_value(y@, i as nat) as int,
                xc as int,
                yc as int,
                pow10(i as nat) as int,
                d as int,
                b2 as int,
            );
        }
        z.push(dc);
        borrow = b2;
        i += 1;
    }
    proof {
        assert forall|k: int| 0 <= k < z@.reverse().len() implies is_digit(
            #[trigger] z@.reverse()[k],
        ) by {
            assert(z@.reverse()[k] == z@[z@.len() - 1 - k]);
        }
        lemma_digits_value_bounds(z@.reverse());
        assert(borrow == 0) by {
            if borrow == 1 {
                assert(1 * pow10(i as nat) == pow10(i as nat));
            }
        }
        assert(0 * pow10(i as nat) == 0);
    }
    value_of_magnitude(z, n)
}

/// The canonical value of the number that the digits `d` denote, the
/// most significant first.
pub fn value_of_digits(d: &[char]) -> (r: Value)
    requires
        all_digits(d@),
    ensures
        r@ == of_digits(d@),
{
    let mut z: Vec<char> = Vec::new();
    let mut i = d.len();
    while i > 0
        invariant
            i <= d@.len(),
            z@ == d@.skip(i as int).reverse(),
        decreases i,
    {
        i -= 1;
        z.push(d[i]);
        assert(z@ =~= d@.skip(i as int).reverse());
    }
    proof {
        assert(d@.skip(0) =~= d@);
        assert(z@.reverse() =~= d@);
        assert forall|k: int| 0 <= k < z@.len() implies is_digit(#[trigger] z@[k]) by {
            assert(z@[k] == d@[d@.len() - 1 - k]);
        }
    }
    value_of_magnitude(z, false)
}

/// The sign and the digits of a number: whether it is negative, and the
/// decimal text of its magnitude.
pub fn sign_magnitude(v: &Value) -> (r: (bool, Vec<char>))
    requires
        is_number(v@),
    ensures
        r.0 == (number(v@) < 0),
        is_nat_text(r.1@),
        number(v@) == signed(r.0, digits_value(r.1@) as int),
{
    let mut t = text_chars(v);
    proof {
        lemma_int_text(number(v@));
        if v@ is S {
            lemma_int_text_unique(v@->S_0);
        }
        assert(t@ == int_text(number(v@)));
        lemma_nat_text((-number(v@)) as nat);
        lemma_nat_text(number(v@) as nat);
    }
    if t[0] == '-' {
        let ghost before = t@;
        t.remove(0);
        assert(t@ =~= before.skip(1));
        assert(t@ =~= nat_text((-number(v@)) as nat));
        (true, t)
    } else {
        (false, t)
    }
}

impl Value {
    /// `self` is a text that is not numeric.
    fn is_plain(&self) -> (b: bool)
        ensures
            b == is_plain_text(self@),
    {
        match self {
            Value::S(s) => !is_num(s.as_str()),
            _ => false,
        }
    }

    /// Moves a cursor one step: up when `direction` holds, else down.
    pub fn advance(&mut self, direction: bool)
        ensures
            final(self)@ == advance_spec(old(self)@, direction),
    {
        if direction {
            self.incr()
        } else {
            self.decr()
        }
    }

    /// Adds one. An integer at the top of the 64-bit range becomes the
    /// text of the next number, and a numeric text that comes into range
    /// becomes an integer. What is no number becomes 1.
    pub fn incr(&mut self)
        ensures
            final(self)@ == incr_spec(old(self)@),
    {
        if let Value::I(x) = self {
            if *x < i64::MAX {
                *self = Value::I(*x + 1);
                return ;
            }
        } else if let Value::C(_) = self {
            *self = Value::I(1);
            return ;
        } else if self.is_plain() {
            *self = Value::I(1);
            return ;
        }
        let ghost n = number(self@);
        let (neg, mut m) = sign_magnitude(self);
        proof {
            lemma_from_int_text(n + 1);
            lemma_digits_value_bounds(m@);
            lemma_pow10_positive((m@.len() - 1) as nat);
            assert(m@.skip(0) =~= m@);
        }
        if !neg {
            num_incr_core(&mut m, 0);
            assert(m@ =~= int_text(n + 1));
            *self = Value::from_string(string_of(m.as_slice()));
        } else if m.len() == 1 && m[0] == '1' {
            proof {
                lemma_digits_value_single('1');
                assert(m@ =~= seq!['1']);
            }
            *self = Value::I(0);
        } else {
            proof {
                if m@.len() == 1 {
                    lemma_digits_value_single(m@[0]);
                    assert(m@ =~= seq![m@[0]]);
                }
            }
            num_decr_core(&mut m, 0);
            m.insert(0, '-');
            assert(m@ =~= int_text(n + 1));
            *self = Value::from_string(string_of(m.as_slice()));
        }
    }

    /// Takes one away. An integer at the bottom of the 64-bit range
    /// becomes the text of the number below, and a numeric text that comes
    /// into range becomes an integer. What is no number becomes -1.
    pub fn decr(&mut self)
        ensures
            final(self)@ == decr_spec(old(self)@),
    {
        if let Value::I(x) = self {
            if *x > i64::MIN {
                *self = Value::I(*x - 1);
                return ;
            }
        } else if let Value::C(_) = self {
            *self = Value::I(-1);
            return ;
        } else if self.is_plain() {
            *self = Value::I(-1);
            return ;
        }
        let ghost n = number(self@);
        let (neg, mut m) = sign_magnitude(self);
        proof {
            lemma_from_int_text(n - 1);
            lemma_digits_value_bounds(m@);
            lemma_pow10_positive((m@.len() - 1) as nat);
            assert(m@.skip(0) =~= m@);
        }
        if neg {
            num_incr_core(&mut m, 0);
            m.insert(0, '-');
            assert(m@ =~= int_text(n - 1));
            *self = Value::from_string(string_of(m.as_slice()));
        } else if m.len() == 1 && m[0] == '0' {
            proof {
                lemma_digits_value_single('0');
                assert(m@ =~= seq!['0']);
            }
            *self = Value::I(-1);
        } else {
            proof {
                if m@.len() == 1 {
                    lemma_digits_value_single(m@[0]);
                    assert(m@ =~= seq![m@[0]]);
                }
            }
            num_decr_core(&mut m, 0);
            assert(m@ =~= int_text(n - 1));
            *self = Value::from_string(string_of(m.as_slice()));
        }
    }

    /// The negative of a number, in canonical form; zero for what is no
    /// number.
    pub fn as_negative_unchecked(&self) -> (r: Value)
        ensures
            r@ == negate_spec(self@),
    {
        if let Value::I(x) = self {
            if *x > i64::MIN {
                return Value::I(-*x);
            }
        } else if let Value::C(_) = self {
            return Value::I(0);
        } else if self.is_plain() {
            return Value::I(0);
        }
        let ghost n = number(self@);
        let (neg, mut m) = sign_magnitude(self);
        proof {
            lemma_from_int_text(-n);
        }
        if m.len() == 1 && m[0] == '0' {
            proof {
                lemma_digits_value_single('0');
                assert(m@ =~= seq!['0']);
            }
            return Value::I(0);
        }
        proof {
            lemma_nat_text_unique(m@);
            lemma_digit_char(0);
        }
        if !neg {
            m.insert(0, '-');
            assert(m@ =~= int_text(-n));
        } else {
            assert(m@ =~= int_text(-n));
        }
        Value::from_string(string_of(m.as_slice()))
    }

    /// The sum of `self` and `rhs`.
    pub fn incr_by(&self, rhs: &Value) -> (r: Value)
        ensures
            r@ == add_spec(self@, rhs@),
    {
        if rhs.is_plain() {
            return self.clone();
        }
        if self.is_plain() {
            return rhs.clone();
        }
        match (self, rhs) {
            (_, Value::C(_)) => {
                return self.clone();
            },
            (Value::C(_), Value::I(0)) => {
                return self.clone();
            },
            (Value::C(_), _) => {
                return rhs.clone();
            },
            (Value::I(x), Value::I(y)) => {
                if let Some(z) = x.checked_add(*y) {
                    return Value::I(z);
                }
            },
            _ => (),
        }
        let (xn, x) = sign_magnitude(self);
        let (yn, y) = sign_magnitude(rhs);
        if xn == yn {
            num_incr_by_core(x.as_slice(), y.as_slice(), xn)
        } else {
            proof {
                lemma_unum_less_by_value(x@, y@);
                lemma_unum_less_by_value(y@, x@);
            }
            match unum_cmp(x.as_slice(), y.as_slice()) {
                Ordering::Equal => Value::I(0),
                Ordering::Less => num_decr_by_core(y.as_slice(), x.as_slice(), yn),
                Ordering::Greater => num_decr_by_core(x.as_slice(), y.as_slice(), xn),
            }
        }
    }

    /// The difference of `self` and `rhs`.
    pub fn decr_by(&self, rhs: &Value) -> (r: Value)
        ensures
            r@ == sub_spec(self@, rhs@),
    {
        if rhs.is_plain() {
            return self.clone();
        }
        if self.is_plain() {
            return rhs.as_negative_unchecked();
        }
        match (self, rhs) {
            (_, Value::C(_)) => {
                return self.clone();
            },
            (Value::C(_), Value::I(0)) => {
                return self.clone();
            },
            (Value::C(_), _) => {
                return rhs.as_negative_unchecked();
            },
            (Value::I(x), Value::I(y)) => {
                if let Some(z) = x.checked_sub(*y) {
                    return Value::I(z);
                }
            },
            _ => (),
        }
        let (xn, x) = sign_magnitude(self);
        let (yn, y) = sign_magnitude(rhs);
        if xn != yn {
            num_incr_by_core(x.as_slice(), y.as_slice(), xn)
        } else {
            proof {
                lemma_unum_less_by_value(x@, y@);
                lemma_unum_less_by_value(y@, x@);
            }
            match unum_cmp(x.as_slice(), y.as_slice()) {
                Ordering::Equal => Value::I(0),
                Ordering::Less => num_decr_by_core(y.as_slice(), x.as_slice(), !xn),
                Ordering::Greater => num_decr_by_core(x.as_slice(), y.as_slice(), xn),
            }
        }
    }
}

/// Showing a value and reading the text back gives the same value exactly
/// when the value is in canonical form.
pub proof fn lemma_display_round_trip(v: ValueView)
    ensures
        (from_text(display_text(v)) == v) <==> is_canonical(v),
{
    match v {
        ValueView::S(s) => {},
        ValueView::I(x) => {
            lemma_from_int_text(x);
        },
        ValueView::C(c) => {
            lemma_digits_value_single(c);
            let s = seq![c];
            assert(s[0] == c);
            if is_digit(c) {
                assert(all_digits(s));
                assert(is_numeric(s)) by {
                    if c == '0' {
                        assert(s =~= seq!['0']);
                    }
                }
            } else {
                assert(!all_digits(s));
                assert(s.skip(1).len() == 0);
            }
        },
    }
}

/// Every value made by reading a text or a character is in canonical
/// form.
pub proof fn lemma_read_is_canonical(s: Seq<char>, c: char)
    ensures
        is_canonical(from_text(s)),
        is_canonical(from_char(c)),
        is_canonical(of_int(numeric_value(s))),
{
    let n = numeric_value(s);
    lemma_int_text(n);
    if s.len() == 1 && is_digit(s[0]) {
        lemma_digits_value_single(s[0]);
        assert(s =~= seq![s[0]]);
        assert(all_digits(s));
        assert(is_numeric(s)) by {
            if s[0] == '0' {
                assert(s =~= seq!['0']);
            }
        }
    }
}

/// Arithmetic keeps values canonical: one more, one less and the
/// negative are canonical whatever they are taken of, and so are the sum
/// and the difference of canonical values.
pub proof fn lemma_arithmetic_is_canonical(a: ValueView, b: ValueView)
    ensures
        is_canonical(incr_spec(a)),
        is_canonical(decr_spec(a)),
        is_canonical(negate_spec(a)),
        is_canonical(a) && is_canonical(b) ==> is_canonical(add_spec(a, b)) && is_canonical(
            sub_spec(a, b),
        ),
{
    lemma_int_text(number(a) + 1);
    lemma_int_text(number(a) - 1);
    lemma_int_text(-number(a));
    lemma_int_text(-number(b));
    lemma_int_text(number(a) + number(b));
    lemma_int_text(number(a) - number(b));
}

/// On an integer, adding one and taking one away undo each other, in
/// either order, also across the ends of the 64-bit range.
pub proof fn lemma_incr_decr_inverse(x: int)
    requires
        i64::MIN <= x <= i64::MAX,
    ensures
        decr_spec(incr_spec(ValueView::I(x))) == ValueView::I(x),
        incr_spec(decr_spec(ValueView::I(x))) == ValueView::I(x),
{
    lemma_from_int_text(x + 1);
    lemma_from_int_text(x - 1);
}

/// The negative of the canonical value of `n` is the canonical value of
/// `-n`.
pub proof fn lemma_negate_of_int(n: int)
    ensures
        negate_spec(of_int(n)) == of_int(-n),
{
    lemma_from_int_text(n);
}

/// The sum of two numbers does not depend on their order, and swapping
/// the operands of a difference gives its negative.
pub proof fn lemma_add_sub_symmetry(a: ValueView, b: ValueView)
    requires
        is_number(a),
        is_number(b),
    ensures
        add_spec(a, b) == add_spec(b, a),
        sub_spec(a, b) == negate_spec(sub_spec(b, a)),
{
    lemma_negate_of_int(number(b) - number(a));
}

} // verus!
