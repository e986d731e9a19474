//! Natural numbers of any size, held as their decimal digits with the
//! lowest digit first.

use vstd::prelude::*;
use vstd::string::*;
use crate::text::{decimal, digit_char, digit_str};

verus! {

/// Whether every item of `d` is a decimal digit.
pub open spec fn is_digits(d: Seq<u8>) -> bool {
    forall|i: int| 0 <= i < d.len() ==> d[i] < 10
}

/// Whether `d` writes a positive number without a leading zero.
pub open spec fn is_numeral(d: Seq<u8>) -> bool {
    is_digits(d) && d.len() > 0 && d.last() != 0
}

/// The number that the digits `d` write, lowest digit first.
pub open spec fn number(d: Seq<u8>) -> nat
    decreases d.len(),
{
    if d.len() == 0 {
        0
    } else {
        d[0] as nat + 10 * number(d.drop_first())
    }
}

/// The digit of `d` at position `i`, which is 0 beyond the last digit.
pub open spec fn digit_at(d: Seq<u8>, i: int) -> nat {
    if 0 <= i < d.len() {
        d[i] as nat
    } else {
        0
    }
}

/// The number that the digits of `d` from position `i` on write.
pub open spec fn above(d: Seq<u8>, i: int) -> nat {
    if 0 <= i < d.len() {
        number(d.skip(i))
    } else {
        0
    }
}

/// The digits from a position on are the digit there and ten times the
/// digits above it.
pub(crate) proof fn lemma_above(d: Seq<u8>, i: int)
    requires
        0 <= i,
    ensures
        above(d, i) == digit_at(d, i) + 10 * above(d, i + 1),
        above(d, 0) == number(d),
{
    reveal_with_fuel(number, 2);
    if i < d.len() {
        assert(d.skip(i).drop_first() =~= d.skip(i + 1));
        assert(d.skip(i)[0] == d[i]);
    }
    if 0 < d.len() {
        assert(d.skip(0) =~= d);
    }
}

/// A numeral writes a positive number.
pub(crate) proof fn lemma_numeral_is_positive(d: Seq<u8>)
    requires
        is_numeral(d),
    ensures
        number(d) > 0,
    decreases d.len(),
{
    if d.len() > 1 {
        assert(d.drop_first().last() == d.last());
        lemma_numeral_is_positive(d.drop_first());
    }
}

/// A zero above the last digit does not change the number.
pub(crate) proof fn lemma_leading_zero(d: Seq<u8>)
    ensures
        number(d.push(0)) == number(d),
    decreases d.len(),
{
    reveal_with_fuel(number, 2);
    if d.len() == 0 {
        assert(d.push(0).drop_first() =~= Seq::<u8>::empty());
    } else {
        assert(d.push(0).drop_first() =~= d.drop_first().push(0));
        lemma_leading_zero(d.drop_first());
    }
}

/// The digits of `d` times `factor`, plus `carry`, as the written
/// multiplication gives them.
pub open spec fn multiplied(d: Seq<u8>, factor: nat, carry: nat) -> Seq<u8>
    decreases d.len(),
{
    if d.len() == 0 {
        if carry == 0 {
            Seq::empty()
        } else {
            seq![carry as u8]
        }
    } else {
        let t = d[0] as nat * factor + carry;
        seq![(t % 10) as u8] + multiplied(d.drop_first(), factor, t / 10)
    }
}

/// The written multiplication multiplies.
pub(crate) proof fn lemma_multiplied(d: Seq<u8>, factor: nat, carry: nat)
    requires
        is_digits(d),
        1 <= factor <= 9,
        carry <= 9,
    ensures
        is_digits(multiplied(d, factor, carry)),
        number(multiplied(d, factor, carry)) == factor * number(d) + carry,
        multiplied(d, factor, carry).len() >= d.len(),
        is_numeral(d) ==> is_numeral(multiplied(d, factor, carry)),
    decreases d.len(),
{
    reveal_with_fuel(number, 2);
    let r = multiplied(d, factor, carry);
    if d.len() == 0 {
        assert(factor * 0 == 0);
        if carry != 0 {
            assert(r.drop_first() =~= Seq::<u8>::empty());
        }
    } else {
        let x = d[0] as nat;
        let upper = number(d.drop_first());
        let t = x * factor + carry;
        assert(t <= 90 && (x >= 1 ==> t >= 1)) by (nonlinear_arith)
            requires
                t == x * factor + carry,
                x <= 9,
                1 <= factor <= 9,
                carry <= 9,
        ;
        let rest = multiplied(d.drop_first(), factor, t / 10);
        lemma_multiplied(d.drop_first(), factor, t / 10);
        assert(r.drop_first() =~= rest);
        assert(r[0] as nat == t % 10);
        assert(number(r) == t % 10 + 10 * number(rest));
        assert(number(rest) == factor * upper + t / 10);
        assert(t % 10 + 10 * (factor * upper + t / 10) == factor * (x + 10 * upper) + carry)
            by (nonlinear_arith)
            requires
                t == x * factor + carry,
        ;
        if is_numeral(d) {
            if d.len() == 1 {
                assert(d.drop_first() =~= Seq::<u8>::empty());
            } else {
                assert(d.drop_first().last() == d.last());
                assert(r.last() == rest.last());
            }
        }
    }
}

/// The digits of `n`.
pub(crate) fn digits_of(n: u64) -> (d: Vec<u8>)
    ensures
        is_digits(d@),
        number(d@) == n,
        d@.len() > 0,
        n > 0 ==> is_numeral(d@),
    decreases n,
{
    if n < 10 {
        let d = vec![n as u8];
        proof {
            reveal_with_fuel(number, 2);
            assert(d@.drop_first() =~= Seq::<u8>::empty());
        }
        d
    } else {
        let mut d = digits_of(n / 10);
        let ghost upper = d@;
        d.insert(0, (n % 10) as u8);
        assert(d@.drop_first() =~= upper);
        assert(d@.last() == upper.last());
        d
    }
}

/// The digits of `factor` times the number of `d`.
pub(crate) fn times(d: &Vec<u8>, factor: u8) -> (r: Vec<u8>)
    requires
        is_digits(d@),
        1 <= factor <= 9,
    ensures
        is_digits(r@),
        number(r@) == factor * number(d@),
        is_numeral(d@) ==> is_numeral(r@),
{
    let mut r: Vec<u8> = Vec::new();
    let mut carry: u8 = 0;
    let mut i: usize = 0;
    assert(d@.skip(0) =~= d@);
    while i < d.len()
        invariant
            i <= d.len(),
            carry <= 9,
            1 <= factor <= 9,
            is_digits(d@),
            r@ + multiplied(d@.skip(i as int), factor as nat, carry as nat) == multiplied(
                d@,
                factor as nat,
                0,
            ),
        decreases d.len() - i,
    {
        assert(d[i as int] as nat * factor as nat <= 81) by (nonlinear_arith)
            requires
                d[i as int] <= 9,
                factor <= 9,
        ;
        let t: u8 = d[i] * factor + carry;
        proof {
            let rest = d@.skip(i as int);
            assert(rest.drop_first() =~= d@.skip(i + 1));
            let tail = multiplied(d@.skip(i + 1), factor as nat, (t / 10) as nat);
            assert((r@ + seq![(t % 10) as u8]) + tail =~= r@ + (seq![(t % 10) as u8] + tail));
            assert(r@.push(t % 10) =~= r@ + seq![(t % 10) as u8]);
        }
        r.push(t % 10);
        carry = t / 10;
        i += 1;
    }
    proof {
        assert(d@.skip(i as int) =~= Seq::<u8>::empty());
        lemma_multiplied(d@, factor as nat, 0);
    }
    if carry > 0 {
        assert(r@.push(carry) =~= r@ + seq![carry]);
        r.push(carry);
    } else {
        assert(r@ + Seq::<u8>::empty() =~= r@);
    }
    r
}

/// When the digits of two numbers from some position on write a smaller
/// and a larger number, so do all their digits.
pub(crate) proof fn lemma_higher_digits_decide(a: Seq<u8>, b: Seq<u8>, i: int)
    requires
        is_digits(a),
        is_digits(b),
        0 <= i,
        above(a, i) < above(b, i),
    ensures
        number(a) < number(b),
    decreases i,
{
    if i == 0 {
        lemma_above(a, 0);
        lemma_above(b, 0);
    } else {
        lemma_above(a, i - 1);
        lemma_above(b, i - 1);
        lemma_higher_digits_decide(a, b, i - 1);
    }
}

/// One digit of `d`, which is 0 beyond the last.
fn digit(d: &Vec<u8>, i: usize) -> (x: u8)
    ensures
        x == digit_at(d@, i as int),
{
    if i < d.len() {
        d[i]
    } else {
        0
    }
}

/// Whether the number of `a` is less than the number of `b`.
pub(crate) fn less(a: &Vec<u8>, b: &Vec<u8>) -> (smaller: bool)
    requires
        is_digits(a@),
        is_digits(b@),
    ensures
        smaller == (number(a@) < number(b@)),
{
    let mut i: usize = if a.len() > b.len() {
        a.len()
    } else {
        b.len()
    };
    while i > 0
        invariant
            is_digits(a@),
            is_digits(b@),
            above(a@, i as int) == above(b@, i as int),
        decreases i,
    {
        i -= 1;
        let x = digit(a, i);
        let y = digit(b, i);
        proof {
            lemma_above(a@, i as int);
            lemma_above(b@, i as int);
        }
        if x < y {
            proof {
                lemma_higher_digits_decide(a@, b@, i as int);
            }
            return true;
        }
        if y < x {
            proof {
                lemma_higher_digits_decide(b@, a@, i as int);
            }
            return false;
        }
    }
    proof {
        lemma_above(a@, 0);
        lemma_above(b@, 0);
    }
    false
}

/// The greatest multiple of ten to the `places` that is at most `n`.
pub open spec fn round_down(n: nat, places: nat) -> nat
    decreases places,
{
    if places == 0 {
        n
    } else {
        round_down(n / 10, (places - 1) as nat) * 10
    }
}

/// The least multiple of ten to the `places` that is more than `n`.
pub open spec fn round_up(n: nat, places: nat) -> nat
    decreases places,
{
    if places == 0 {
        n + 1
    } else {
        round_up(n / 10, (places - 1) as nat) * 10
    }
}

/// Ten to the `places`.
pub open spec fn unit(places: nat) -> nat
    decreases places,
{
    if places == 0 {
        1
    } else {
        10 * unit((places - 1) as nat)
    }
}

/// The digit of `n` at position `place`, the lowest being at 0.
pub open spec fn digit_of(n: nat, place: nat) -> nat
    decreases place,
{
    if place == 0 {
        n % 10
    } else {
        digit_of(n / 10, (place - 1) as nat)
    }
}

/// The number of digits of `n`.
pub open spec fn places_of(n: nat) -> nat
    decreases n,
{
    if n < 10 {
        1
    } else {
        1 + places_of(n / 10)
    }
}

/// A number lies between its two roundings, which are one unit apart.
pub(crate) proof fn lemma_roundings(n: nat, places: nat)
    ensures
        round_down(n, places) <= n < round_up(n, places),
        round_up(n, places) == round_down(n, places) + unit(places),
    decreases places,
{
    if places > 0 {
        lemma_roundings(n / 10, (places - 1) as nat);
    }
}

/// Of the two roundings of a number, the upper one is at least as near
/// exactly when the first digit that the rounding drops is 5 or more.
pub(crate) proof fn lemma_nearer(n: nat, places: nat)
    requires
        places >= 1,
    ensures
        (round_up(n, places) - n <= n - round_down(n, places)) <==> digit_of(
            n,
            (places - 1) as nat,
        ) >= 5,
    decreases places,
{
    reveal_with_fuel(round_down, 2);
    reveal_with_fuel(round_up, 2);
    reveal_with_fuel(digit_of, 2);
    if places > 1 {
        let upper = n / 10;
        lemma_nearer(upper, (places - 1) as nat);
        lemma_roundings(upper, (places - 1) as nat);
        let a = round_up(upper, (places - 1) as nat) - upper;
        let b = upper - round_down(upper, (places - 1) as nat);
        assert(a + b == 10 * unit((places - 2) as nat));
        assert(round_up(n, places) - n == 10 * a - n % 10);
        assert(n - round_down(n, places) == 10 * b + n % 10);
    }
}

/// A number rounded down is a multiple of ten to every place up to the
/// one it was rounded to, and so is a number rounded up.
pub(crate) proof fn lemma_rounded_stays(n: nat, places: nat, fewer: nat)
    requires
        fewer <= places,
    ensures
        round_down(round_down(n, places), fewer) == round_down(n, places),
        round_down(round_up(n, places), fewer) == round_up(n, places),
    decreases places,
{
    if fewer > 0 {
        lemma_rounded_stays(n / 10, (places - 1) as nat, (fewer - 1) as nat);
    }
}

/// Rounding down keeps the order of two numbers.
pub(crate) proof fn lemma_round_down_keeps_order(a: nat, b: nat, places: nat)
    requires
        a <= b,
    ensures
        round_down(a, places) <= round_down(b, places),
    decreases places,
{
    if places > 0 {
        lemma_round_down_keeps_order(a / 10, b / 10, (places - 1) as nat);
    }
}

/// Two multiples of ten to the `places` are at least that far apart.
pub(crate) proof fn lemma_multiples_apart(a: nat, b: nat, places: nat)
    requires
        round_down(a, places) == a,
        round_down(b, places) == b,
        a < b,
    ensures
        a + unit(places) <= b,
    decreases places,
{
    if places > 0 {
        lemma_multiples_apart(a / 10, b / 10, (places - 1) as nat);
    }
}

/// A multiple of ten to the `places` beside a number is no nearer to it
/// than its rounding on that side.
pub(crate) proof fn lemma_roundings_are_nearest(n: nat, c: nat, places: nat)
    requires
        round_down(c, places) == c,
    ensures
        c <= n ==> c <= round_down(n, places),
        c > n ==> round_up(n, places) <= c,
{
    lemma_roundings(n, places);
    if c <= n {
        lemma_round_down_keeps_order(c, n, places);
    } else {
        lemma_rounded_stays(n, places, places);
        lemma_multiples_apart(round_down(n, places), c, places);
    }
}

/// A number is less than ten to the number of its digits.
pub(crate) proof fn lemma_below_unit(n: nat)
    ensures
        n < unit(places_of(n)),
    decreases n,
{
    reveal_with_fuel(unit, 2);
    if n >= 10 {
        lemma_below_unit(n / 10);
    }
}

/// Ten to more places is not less than ten to fewer.
pub(crate) proof fn lemma_unit_grows(fewer: nat, places: nat)
    requires
        fewer <= places,
    ensures
        unit(fewer) <= unit(places),
    decreases places,
{
    if fewer < places {
        lemma_unit_grows(fewer, (places - 1) as nat);
    }
}

/// The only multiple of ten to the `places` below it is zero.
pub(crate) proof fn lemma_small_multiple(c: nat, places: nat)
    requires
        round_down(c, places) == c,
        c < unit(places),
    ensures
        c == 0,
    decreases places,
{
    if places > 0 {
        lemma_small_multiple(c / 10, (places - 1) as nat);
    }
}

/// The digits of a number are the digits that write it.
pub(crate) proof fn lemma_digit_of(d: Seq<u8>, place: int)
    requires
        is_digits(d),
        0 <= place < d.len(),
    ensures
        digit_of(number(d), place as nat) == d[place],
    decreases place,
{
    if place > 0 {
        assert(d.drop_first()[place - 1] == d[place]);
        lemma_digit_of(d.drop_first(), place - 1);
    }
}

/// A numeral has as many digits as its number has.
pub(crate) proof fn lemma_places_of(d: Seq<u8>)
    requires
        is_numeral(d),
    ensures
        places_of(number(d)) == d.len(),
    decreases d.len(),
{
    reveal_with_fuel(number, 2);
    if d.len() == 1 {
        assert(d.drop_first() =~= Seq::<u8>::empty());
    } else {
        assert(d.drop_first().last() == d.last());
        lemma_numeral_is_positive(d.drop_first());
        lemma_places_of(d.drop_first());
    }
}

/// The digits of `d` with the lowest `places` of them set to zero.
pub open spec fn lowered(d: Seq<u8>, places: nat) -> Seq<u8>
    decreases d.len(),
{
    if d.len() == 0 || places == 0 {
        d
    } else {
        seq![0u8] + lowered(d.drop_first(), (places - 1) as nat)
    }
}

/// The digits of the number after that of `d`.
pub open spec fn incremented(d: Seq<u8>) -> Seq<u8>
    decreases d.len(),
{
    if d.len() == 0 {
        seq![1u8]
    } else if d[0] < 9 {
        seq![(d[0] + 1) as u8] + d.drop_first()
    } else {
        seq![0u8] + incremented(d.drop_first())
    }
}

/// The digits of `d` with the lowest `places` of them set to zero and the
/// number above them raised by one.
pub open spec fn raised(d: Seq<u8>, places: nat) -> Seq<u8>
    decreases places,
{
    if places == 0 {
        incremented(d)
    } else if d.len() == 0 {
        seq![0u8] + raised(d, (places - 1) as nat)
    } else {
        seq![0u8] + raised(d.drop_first(), (places - 1) as nat)
    }
}

/// Setting the lowest digits to zero rounds down.
pub(crate) proof fn lemma_lowered(d: Seq<u8>, places: nat)
    requires
        is_digits(d),
    ensures
        is_digits(lowered(d, places)),
        lowered(d, places).len() == d.len(),
        number(lowered(d, places)) == round_down(number(d), places),
    decreases d.len(),
{
    if d.len() == 0 {
        lemma_round_down_zero(places);
    } else if places > 0 {
        lemma_lowered(d.drop_first(), (places - 1) as nat);
        assert(lowered(d, places).drop_first() =~= lowered(d.drop_first(), (places - 1) as nat));
    }
}

/// Zero rounds down to zero.
pub(crate) proof fn lemma_round_down_zero(places: nat)
    ensures
        round_down(0, places) == 0,
    decreases places,
{
    if places > 0 {
        lemma_round_down_zero((places - 1) as nat);
    }
}

/// The incremented digits write the next number.
pub(crate) proof fn lemma_incremented(d: Seq<u8>)
    requires
        is_digits(d),
    ensures
        is_digits(incremented(d)),
        number(incremented(d)) == number(d) + 1,
    decreases d.len(),
{
    reveal_with_fuel(number, 2);
    let r = incremented(d);
    if d.len() == 0 {
        assert(r.drop_first() =~= Seq::<u8>::empty());
    } else if d[0] < 9 {
        assert(r.drop_first() =~= d.drop_first());
    } else {
        lemma_incremented(d.drop_first());
        assert(r.drop_first() =~= incremented(d.drop_first()));
    }
}

/// Raising the number above the lowest digits rounds up.
pub(crate) proof fn lemma_raised(d: Seq<u8>, places: nat)
    requires
        is_digits(d),
    ensures
        is_digits(raised(d, places)),
        number(raised(d, places)) == round_up(number(d), places),
    decreases places,
{
    let r = raised(d, places);
    if places == 0 {
        lemma_incremented(d);
    } else if d.len() == 0 {
        lemma_raised(d, (places - 1) as nat);
        assert(r.drop_first() =~= raised(d, (places - 1) as nat));
    } else {
        lemma_raised(d.drop_first(), (places - 1) as nat);
        assert(r.drop_first() =~= raised(d.drop_first(), (places - 1) as nat));
    }
}

/// The digits of the number of `d` rounded down to a multiple of ten to
/// the `places`.
pub(crate) fn rounded_down(d: &Vec<u8>, places: usize) -> (r: Vec<u8>)
    requires
        is_digits(d@),
    ensures
        is_digits(r@),
        r@.len() == d@.len(),
        number(r@) == round_down(number(d@), places as nat),
{
    let mut r: Vec<u8> = Vec::new();
    let mut i: usize = 0;
    assert(d@.skip(0) =~= d@);
    while i < d.len()
        invariant
            i <= d.len(),
            r@.len() == i,
            r@ + lowered(
                d@.skip(i as int),
                if i <= places {
                    (places - i) as nat
                } else {
                    0
                },
            ) == lowered(d@, places as nat),
        decreases d.len() - i,
    {
        let x: u8 = if i < places {
            0
        } else {
            d[i]
        };
        proof {
            let rest = d@.skip(i as int);
            assert(rest.drop_first() =~= d@.skip(i + 1));
            let left: nat = if i + 1 <= places {
                (places - i - 1) as nat
            } else {
                0
            };
            let tail = lowered(d@.skip(i + 1), left);
            if i < places {
                assert(lowered(rest, (places - i) as nat) == seq![0u8] + tail);
            } else {
                assert(lowered(rest, 0) == rest);
                assert(tail == d@.skip(i + 1));
                assert(rest =~= seq![x] + tail);
            }
            assert(r@.push(x) + tail =~= r@ + (seq![x] + tail));
        }
        r.push(x);
        i += 1;
    }
    proof {
        assert(d@.skip(i as int) =~= Seq::<u8>::empty());
        assert(r@ + Seq::<u8>::empty() =~= r@);
        lemma_lowered(d@, places as nat);
    }
    r
}

/// The digits of the number of `d` rounded up to the next multiple of ten
/// to the `places`.
pub(crate) fn rounded_up(d: &Vec<u8>, places: usize) -> (r: Vec<u8>)
    requires
        is_digits(d@),
        places <= d@.len(),
    ensures
        is_digits(r@),
        number(r@) == round_up(number(d@), places as nat),
{
    let mut r: Vec<u8> = Vec::new();
    let mut i: usize = 0;
    assert(d@.skip(0) =~= d@);
    while i < places
        invariant
            i <= places <= d.len(),
            r@ + raised(d@.skip(i as int), (places - i) as nat) == raised(d@, places as nat),
        decreases places - i,
    {
        proof {
            let rest = d@.skip(i as int);
            assert(rest.drop_first() =~= d@.skip(i + 1));
            let tail = raised(d@.skip(i + 1), (places - i - 1) as nat);
            assert(raised(rest, (places - i) as nat) == seq![0u8] + tail);
            assert(r@.push(0u8) + tail =~= r@ + (seq![0u8] + tail));
        }
        r.push(0);
        i += 1;
    }
    let mut carry = true;
    while i < d.len()
        invariant
            places <= i <= d.len(),
            is_digits(d@),
            r@ + (if carry {
                incremented(d@.skip(i as int))
            } else {
                d@.skip(i as int)
            }) == raised(d@, places as nat),
        decreases d.len() - i,
    {
        let x: u8 = if !carry {
            d[i]
        } else if d[i] < 9 {
            d[i] + 1
        } else {
            0
        };
        let ghost before = carry;
        carry = carry && d[i] == 9;
        proof {
            let rest = d@.skip(i as int);
            assert(rest.drop_first() =~= d@.skip(i + 1));
            let tail = if carry {
                incremented(d@.skip(i + 1))
            } else {
                d@.skip(i + 1)
            };
            if before {
                assert(incremented(rest) == seq![x] + tail);
            } else {
                assert(rest =~= seq![x] + tail);
            }
            assert(r@.push(x) + tail =~= r@ + (seq![x] + tail));
        }
        r.push(x);
        i += 1;
    }
    proof {
        assert(d@.skip(i as int) =~= Seq::<u8>::empty());
    }
    if carry {
        assert(r@.push(1u8) =~= r@ + seq![1u8]);
        r.push(1);
    } else {
        assert(r@ + Seq::<u8>::empty() =~= r@);
    }
    proof {
        lemma_raised(d@, places as nat);
    }
    r
}

/// Whether the number of `d` is at least as near to its rounding up as to
/// its rounding down.
pub(crate) fn nearer_up(d: &Vec<u8>, places: usize) -> (up: bool)
    requires
        is_digits(d@),
        1 <= places <= d@.len(),
    ensures
        up == (round_up(number(d@), places as nat) - number(d@) <= number(d@) - round_down(
            number(d@),
            places as nat,
        )),
{
    proof {
        lemma_nearer(number(d@), places as nat);
        lemma_digit_of(d@, places - 1);
    }
    d[places - 1] >= 5
}

/// The digits of `d` with zeros above them to make `length` digits.
pub(crate) fn padded(d: &Vec<u8>, length: usize) -> (r: Vec<u8>)
    requires
        is_digits(d@),
    ensures
        is_digits(r@),
        number(r@) == number(d@),
        r@.len() >= length,
        r@.len() >= d@.len(),
{
    let mut r: Vec<u8> = Vec::new();
    let mut i: usize = 0;
    while i < d.len()
        invariant
            i <= d.len(),
            r@ == d@.take(i as int),
        decreases d.len() - i,
    {
        r.push(d[i]);
        assert(d@.take(i as int).push(d@[i as int]) =~= d@.take(i + 1));
        i += 1;
    }
    assert(d@.take(i as int) =~= d@);
    while r.len() < length
        invariant
            is_digits(r@),
            number(r@) == number(d@),
            r@.len() >= d@.len(),
        decreases length - r.len(),
    {
        proof {
            lemma_leading_zero(r@);
        }
        r.push(0);
    }
    r
}

/// The number `n` without its lowest `places` digits.
pub open spec fn shifted(n: nat, places: nat) -> nat
    decreases places,
{
    if places == 0 {
        n
    } else {
        shifted(n / 10, (places - 1) as nat)
    }
}

/// The lowest `places` digits of `n`, highest first, zeros included.
pub open spec fn low_digits(n: nat, places: nat) -> Seq<char>
    decreases places,
{
    if places == 0 {
        Seq::empty()
    } else {
        low_digits(n / 10, (places - 1) as nat).push(digit_char((n % 10) as int))
    }
}

/// The lowest `places` digits of `n`, highest first, without the zeros at
/// their end.
pub open spec fn fraction(n: nat, places: nat) -> Seq<char>
    decreases places,
{
    if places == 0 {
        Seq::empty()
    } else if n % 10 == 0 {
        fraction(n / 10, (places - 1) as nat)
    } else {
        low_digits(n, places)
    }
}

/// The decimal numeral of `n` divided by ten to the `places`: the whole
/// part, and behind a point the fraction, where it is not zero.
pub open spec fn fixed_point(n: nat, places: nat) -> Seq<char> {
    if fraction(n, places).len() == 0 {
        decimal(shifted(n, places))
    } else {
        decimal(shifted(n, places)) + "."@ + fraction(n, places)
    }
}

/// Without its lowest digits a number is what its higher digits write.
pub(crate) proof fn lemma_shifted(d: Seq<u8>, places: nat)
    requires
        is_digits(d),
    ensures
        shifted(number(d), places) == above(d, places as int),
    decreases places,
{
    lemma_above(d, 0);
    if places > 0 {
        if d.len() == 0 {
            lemma_shifted(d, (places - 1) as nat);
        } else {
            lemma_shifted(d.drop_first(), (places - 1) as nat);
            if places < d.len() {
                assert(d.drop_first().skip(places - 1) =~= d.skip(places as int));
            }
        }
    }
}

/// Writes the whole part of the number of `d` divided by ten to the
/// `places`.
fn whole_text(d: &Vec<u8>, places: usize) -> (text: String)
    requires
        is_digits(d@),
        places <= d@.len(),
    ensures
        text@ == decimal(shifted(number(d@), places as nat)),
{
    let mut text = String::new();
    let mut started = false;
    let mut i: usize = d.len();
    while i > places
        invariant
            places <= i <= d.len(),
            is_digits(d@),
            started == (above(d@, i as int) != 0),
            started ==> text@ == decimal(above(d@, i as int)),
            !started ==> text@ == Seq::<char>::empty(),
        decreases i,
    {
        i -= 1;
        proof {
            lemma_above(d@, i as int);
        }
        if started || d[i] != 0 {
            text.append(digit_str(d[i] as u64));
            proof {
                let n = above(d@, i as int);
                if started {
                    assert(n / 10 == above(d@, i + 1));
                    assert(n % 10 == d@[i as int]);
                } else {
                    assert(n == d@[i as int]);
                    assert(Seq::<char>::empty() + seq![digit_char(n as int)] =~= seq![
                        digit_char(n as int),
                    ]);
                }
                assert(text@ =~= decimal(n));
            }
            started = true;
        }
    }
    proof {
        lemma_shifted(d@, places as nat);
    }
    if !started {
        proof {
            reveal_strlit("0");
            assert("0"@ =~= decimal(0));
        }
        text.append("0");
        assert(text@ =~= "0"@);
    }
    text
}

/// Writes the fraction of the number of `d` divided by ten to the
/// `places`.
fn fraction_text(d: &Vec<u8>, places: usize) -> (text: String)
    requires
        is_digits(d@),
        places <= d@.len(),
    ensures
        text@ == fraction(number(d@), places as nat),
{
    let mut first: usize = 0;
    proof {
        lemma_above(d@, 0);
    }
    while first < places && d[first] == 0
        invariant
            first <= places <= d.len(),
            is_digits(d@),
            fraction(number(d@), places as nat) == fraction(
                above(d@, first as int),
                (places - first) as nat,
            ),
        decreases places - first,
    {
        proof {
            lemma_above(d@, first as int);
        }
        first += 1;
    }
    let mut text = String::new();
    let mut i: usize = places;
    while i > first
        invariant
            first <= i <= places <= d.len(),
            is_digits(d@),
            text@ == low_digits(above(d@, i as int), (places - i) as nat),
        decreases i,
    {
        i -= 1;
        proof {
            lemma_above(d@, i as int);
        }
        text.append(digit_str(d[i] as u64));
        proof {
            let n = above(d@, i as int);
            assert(n / 10 == above(d@, i + 1));
            assert(n % 10 == d@[i as int]);
            assert(text@ =~= low_digits(n, (places - i) as nat));
        }
    }
    proof {
        if first < places {
            lemma_above(d@, first as int);
        }
    }
    text
}

/// Writes the number of `d` divided by ten to the `places`.
pub(crate) fn fixed_point_text(d: &Vec<u8>, places: usize) -> (text: String)
    requires
        is_digits(d@),
        places <= d@.len(),
    ensures
        text@ == fixed_point(number(d@), places as nat),
{
    let mut text = whole_text(d, places);
    let part = fraction_text(d, places);
    if !part.as_str().is_empty() {
        text.append(".");
        text.append(part.as_str());
    }
    text
}

} // verus!
