//! Random replacement of a number by one between zero and itself.

use crate::digits::{all_digits, digits_value, is_digit, is_nat_text, is_num, unum_cmp};
use crate::value::{
    is_number, number, of_digits, of_int, sign_magnitude, value_of_digits, Value, ValueView,
};
use rand::distributions::{Distribution, Uniform};
use rand::Rng;
use std::cmp::Ordering;
use vstd::prelude::*;

verus! {

/// `Rng::gen_range` on the thread's generator, over `0..=x`: some
/// integer from zero up to `x`.
#[verifier::external_body]
fn rand_upto(x: i64) -> (r: i64)
    requires
        0 <= x,
    ensures
        0 <= r <= x,
{
    rand::thread_rng().gen_range(0..=x)
}

/// `Uniform::new_inclusive(b'0', b'9')` sampled on the thread's
/// generator: some decimal digit.
#[verifier::external_body]
fn rand_digit() -> (d: char)
    ensures
        is_digit(d),
{
    char::from(Uniform::new_inclusive(b'0', b'9').sample(&mut rand::thread_rng()))
}

/// `n` decimal digits drawn at random.
fn draw_digits(n: usize) -> (v: Vec<char>)
    ensures
        v@.len() == n,
        all_digits(v@),
{
    let mut v: Vec<char> = Vec::new();
    while v.len() < n
        invariant
            v@.len() <= n,
            all_digits(v@),
        decreases n - v@.len(),
    {
        let d = rand_digit();
        let ghost before = v@;
        v.push(d);
        assert forall|i: int| 0 <= i < v@.len() implies is_digit(#[trigger] v@[i]) by {
            if i < before.len() {
                assert(v@[i] == before[i]);
            }
        }
    }
    v
}

/// Judges one draw of digits against the digits of a bound of the same
/// length: a draw that does not exceed the bound gives its number as a
/// canonical value, and one that does is turned down.
pub fn pick_within(sample: &[char], bound: &[char]) -> (r: Option<Value>)
    requires
        all_digits(sample@),
        all_digits(bound@),
        sample@.len() == bound@.len(),
    ensures
        match r {
            Some(w) => digits_value(sample@) <= digits_value(bound@) && w@ == of_digits(sample@),
            None => digits_value(sample@) > digits_value(bound@),
        },
{
    match unum_cmp(sample, bound) {
        Ordering::Greater => None,
        _ => Some(value_of_digits(sample)),
    }
}

/// The largest number that a random replacement of `v` may give: `v`
/// itself where it is a positive number, else zero.
pub open spec fn rand_bound(v: ValueView) -> int {
    if is_number(v) && number(v) > 0 {
        number(v)
    } else {
        0
    }
}

/// A random replacement for `v`: for a number, some number from zero up
/// to it, zero where it is not positive; nothing for what is no number.
pub fn rand_value(v: &Value) -> (r: Option<Value>)
    ensures
        !is_number(v@) ==> r is None,
        is_number(v@) ==> r is Some,
        r matches Some(w) ==> exists|k: int| 0 <= k <= rand_bound(v@) && w@ == #[trigger] of_int(k),
{
    match v {
        Value::I(x) => {
            if *x > 0 {
                let k = rand_upto(*x);
                let w = Value::I(k);
                assert(w@ == of_int(k as int));
                Some(w)
            } else {
                let w = Value::I(0);
                assert(w@ == of_int(0));
                Some(w)
            }
        },
        Value::C(_) => None,
        Value::S(s) => {
            if !is_num(s.as_str()) {
                return None;
            }
            let (neg, m) = sign_magnitude(v);
            if neg || (m.len() == 1 && m[0] == '0') {
                let w = Value::I(0);
                assert(w@ == of_int(0));
                return Some(w);
            }
            let mut attempts: u64 = u64::MAX;
            while attempts > 0
                invariant
                    is_nat_text(m@),
                    number(v@) == digits_value(m@),
                    is_number(v@),
                decreases attempts,
            {
                attempts -= 1;
                let sample = draw_digits(m.len());
                if let Some(w) = pick_within(sample.as_slice(), m.as_slice()) {
                    assert(w@ == of_int(digits_value(sample@) as int));
                    return Some(w);
                }
            }
            let w = value_of_digits(m.as_slice());
            assert(w@ == of_int(digits_value(m@) as int));
            Some(w)
        },
    }
}

} // verus!
