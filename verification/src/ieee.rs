//! Text for floating-point constants, which the pool holds as IEEE 754 bit
//! patterns: the shortest decimal numeral that names the value, written
//! without an exponent.

use vstd::prelude::*;
use vstd::string::*;
use crate::digits::{
    digits_of, fixed_point, fixed_point_text, is_digits, is_numeral, lemma_below_unit,
    lemma_places_of, lemma_rounded_stays, lemma_roundings, lemma_roundings_are_nearest,
    lemma_small_multiple, lemma_unit_grows, less, nearer_up, number, padded, places_of,
    round_down, round_up, rounded_down, rounded_up, times,
};

verus! {

/// `n` doubled `count` times.
pub open spec fn doubled(n: nat, count: nat) -> nat
    decreases count,
{
    if count == 0 {
        n
    } else {
        doubled(2 * n, (count - 1) as nat)
    }
}

/// `n` multiplied by five `count` times.
pub open spec fn quintupled(n: nat, count: nat) -> nat
    decreases count,
{
    if count == 0 {
        n
    } else {
        quintupled(5 * n, (count - 1) as nat)
    }
}

/// The number `n` times two to the `exponent`, as a whole number: for a
/// negative exponent it is counted in units of ten to the `exponent`,
/// which makes it `n` times five to the exponent's size.
pub open spec fn scaled(n: nat, exponent: int) -> nat {
    if exponent >= 0 {
        doubled(n, exponent as nat)
    } else {
        quintupled(n, (-exponent) as nat)
    }
}

/// Whether `c` lies between `low` and `high`, the two included where
/// `inclusive` says so.
pub open spec fn admits(low: nat, high: nat, inclusive: bool, c: nat) -> bool {
    if inclusive {
        low <= c && c <= high
    } else {
        low < c && c < high
    }
}

/// The number between `low` and `high` with the most zeros at its end and
/// at most `places` of them, and of the two such numbers around `w` the
/// one nearer to `w`, the upper one where they are as near; `w` itself
/// where no rounding of it lies between the bounds.
pub open spec fn coarsest(w: nat, low: nat, high: nat, inclusive: bool, places: nat) -> nat
    decreases places,
{
    let down = round_down(w, places);
    let up = round_up(w, places);
    if places == 0 {
        w
    } else if admits(low, high, inclusive, down) && admits(low, high, inclusive, up) {
        if up - w <= w - down {
            up
        } else {
            down
        }
    } else if admits(low, high, inclusive, down) {
        down
    } else if admits(low, high, inclusive, up) {
        up
    } else {
        coarsest(w, low, high, inclusive, (places - 1) as nat)
    }
}

/// The number between `low` and `high` that takes the fewest digits to
/// write, zeros at the end not counted, and is nearest to `w`.
pub open spec fn shortest(w: nat, low: nat, high: nat, inclusive: bool) -> nat {
    coarsest(w, low, high, inclusive, places_of(high))
}

/// Whatever the places to start from, the coarsest rounding lies between
/// the bounds, as the number itself does.
proof fn lemma_coarsest_is_within(w: nat, low: nat, high: nat, inclusive: bool, places: nat)
    requires
        low < w < high,
    ensures
        admits(low, high, inclusive, coarsest(w, low, high, inclusive, places)),
    decreases places,
{
    if places > 0 {
        lemma_coarsest_is_within(w, low, high, inclusive, (places - 1) as nat);
    }
}

/// Starting from at least `places`, the coarsest rounding is a multiple of
/// ten to the `places` where any number between the bounds is.
proof fn lemma_coarsest_is_coarse(
    w: nat,
    low: nat,
    high: nat,
    inclusive: bool,
    other: nat,
    places: nat,
    from: nat,
)
    requires
        low < w < high,
        admits(low, high, inclusive, other),
        round_down(other, places) == other,
        places <= from,
    ensures
        round_down(coarsest(w, low, high, inclusive, from), places) == coarsest(
            w,
            low,
            high,
            inclusive,
            from,
        ),
    decreases from,
{
    lemma_rounded_stays(w, from, places);
    if from == places {
        lemma_roundings(w, places);
        lemma_roundings_are_nearest(w, other, places);
    } else {
        lemma_coarsest_is_coarse(w, low, high, inclusive, other, places, (from - 1) as nat);
    }
}

/// Doubling keeps the order of two numbers.
proof fn lemma_doubled_keeps_order(a: nat, b: nat, count: nat)
    requires
        a < b,
    ensures
        doubled(a, count) < doubled(b, count),
    decreases count,
{
    if count > 0 {
        lemma_doubled_keeps_order(2 * a, 2 * b, (count - 1) as nat);
    }
}

/// Multiplying by five keeps the order of two numbers.
proof fn lemma_quintupled_keeps_order(a: nat, b: nat, count: nat)
    requires
        a < b,
    ensures
        quintupled(a, count) < quintupled(b, count),
    decreases count,
{
    if count > 0 {
        lemma_quintupled_keeps_order(5 * a, 5 * b, (count - 1) as nat);
    }
}

/// Scaling keeps the order of two numbers.
proof fn lemma_scaled_keeps_order(a: nat, b: nat, exponent: int)
    requires
        a < b,
    ensures
        scaled(a, exponent) < scaled(b, exponent),
{
    if exponent >= 0 {
        lemma_doubled_keeps_order(a, b, exponent as nat);
    } else {
        lemma_quintupled_keeps_order(a, b, (-exponent) as nat);
    }
}

/// The number `mantissa` times two to the `exponent`, counted in quarters
/// of the unit of the mantissa and scaled to a whole number.
pub open spec fn centre(mantissa: nat, exponent: int) -> nat {
    scaled(4 * mantissa, exponent - 2)
}

/// The midpoint between the number and its lower neighbour, counted as
/// `centre` counts. The lower neighbour is half as far away as the upper
/// one where `boundary` holds, the mantissa being the least of its
/// exponent.
pub open spec fn low_bound(mantissa: nat, exponent: int, boundary: bool) -> nat {
    scaled(
        (4 * mantissa - if boundary {
            1int
        } else {
            2int
        }) as nat,
        exponent - 2,
    )
}

/// The midpoint between the number and its upper neighbour, counted as
/// `centre` counts.
pub open spec fn high_bound(mantissa: nat, exponent: int) -> nat {
    scaled(4 * mantissa + 2, exponent - 2)
}

/// The number that is written for `mantissa` times two to the `exponent`,
/// counted as `centre` counts. Every number between the two midpoints names
/// the number, since it is nearer to it than to either neighbour, and so do
/// the midpoints themselves where the mantissa is even; of these the
/// shortest is written.
pub open spec fn chosen(mantissa: nat, exponent: int, boundary: bool) -> nat {
    shortest(
        centre(mantissa, exponent),
        low_bound(mantissa, exponent, boundary),
        high_bound(mantissa, exponent),
        mantissa % 2 == 0,
    )
}

/// The number that is written lies between the two midpoints, and so
/// names the number it is written for.
pub proof fn lemma_chosen_is_within(mantissa: nat, exponent: int, boundary: bool)
    requires
        mantissa >= 1,
    ensures
        admits(
            low_bound(mantissa, exponent, boundary),
            high_bound(mantissa, exponent),
            mantissa % 2 == 0,
            chosen(mantissa, exponent, boundary),
        ),
{
    let below: int = if boundary {
        1
    } else {
        2
    };
    lemma_scaled_keeps_order((4 * mantissa - below) as nat, 4 * mantissa, exponent - 2);
    lemma_scaled_keeps_order(4 * mantissa, 4 * mantissa + 2, exponent - 2);
    lemma_coarsest_is_within(
        centre(mantissa, exponent),
        low_bound(mantissa, exponent, boundary),
        high_bound(mantissa, exponent),
        mantissa % 2 == 0,
        places_of(high_bound(mantissa, exponent)),
    );
}

/// No number between the two midpoints is shorter than the one that is
/// written: where a number between them is a multiple of ten to the
/// `places`, the one that is written is one too.
pub proof fn lemma_chosen_is_shortest(
    mantissa: nat,
    exponent: int,
    boundary: bool,
    other: nat,
    places: nat,
)
    requires
        mantissa >= 1,
        admits(
            low_bound(mantissa, exponent, boundary),
            high_bound(mantissa, exponent),
            mantissa % 2 == 0,
            other,
        ),
        round_down(other, places) == other,
    ensures
        round_down(chosen(mantissa, exponent, boundary), places) == chosen(
            mantissa,
            exponent,
            boundary,
        ),
{
    let w = centre(mantissa, exponent);
    let low = low_bound(mantissa, exponent, boundary);
    let high = high_bound(mantissa, exponent);
    let below: int = if boundary {
        1
    } else {
        2
    };
    lemma_scaled_keeps_order(0, (4 * mantissa - below) as nat, exponent - 2);
    lemma_scaled_keeps_order((4 * mantissa - below) as nat, 4 * mantissa, exponent - 2);
    lemma_scaled_keeps_order(4 * mantissa, 4 * mantissa + 2, exponent - 2);
    let top = places_of(high);
    if places > top {
        lemma_below_unit(high);
        lemma_unit_grows(top, places);
        lemma_small_multiple(other, places);
    } else {
        lemma_coarsest_is_coarse(w, low, high, mantissa % 2 == 0, other, places, top);
    }
}

/// The text of the number `mantissa` times two to the `exponent`: the
/// number that is written for it, with the decimal point where the scaling
/// has put it.
pub open spec fn finite_text(mantissa: nat, exponent: int, boundary: bool) -> Seq<char> {
    fixed_point(
        chosen(mantissa, exponent, boundary),
        if exponent < 2 {
            (2 - exponent) as nat
        } else {
            0
        },
    )
}

/// The text of the floating-point number with the sign `negative`, the
/// exponent field `field` and the fraction field `fraction`, in a format
/// whose largest exponent field is `field_max` and whose fraction has
/// `fraction_bits` bits, `hidden` being two to the `fraction_bits`: `NaN`,
/// `inf` or `-inf` for the largest exponent field, and otherwise a minus
/// sign for a negative number and the text of its size, which is `0` for
/// both zeros.
pub open spec fn float_text(
    negative: bool,
    field: nat,
    fraction: nat,
    hidden: nat,
    field_max: nat,
    fraction_bits: nat,
) -> Seq<char> {
    if field == field_max {
        if fraction != 0 {
            "NaN"@
        } else if negative {
            "-inf"@
        } else {
            "inf"@
        }
    } else {
        (if negative {
            "-"@
        } else {
            ""@
        }) + (if field == 0 && fraction == 0 {
            "0"@
        } else if field == 0 {
            finite_text(fraction, 1 - field_max / 2 - fraction_bits, false)
        } else {
            finite_text(
                hidden + fraction,
                field - field_max / 2 - fraction_bits,
                fraction == 0 && field > 1,
            )
        })
    }
}

/// The text of the single-precision number with the bit pattern `bits`:
/// one bit of sign, eight of exponent and twenty-three of fraction.
pub open spec fn single_text(bits: u32) -> Seq<char> {
    float_text(
        bits >= 0x8000_0000,
        ((bits / 0x80_0000) % 0x100) as nat,
        (bits % 0x80_0000) as nat,
        0x80_0000,
        0xFF,
        23,
    )
}

/// The text of the double-precision number with the bit pattern `bits`:
/// one bit of sign, eleven of exponent and fifty-two of fraction.
pub open spec fn double_text(bits: u64) -> Seq<char> {
    float_text(
        bits >= 0x8000_0000_0000_0000,
        ((bits / 0x10_0000_0000_0000) % 0x800) as nat,
        (bits % 0x10_0000_0000_0000) as nat,
        0x10_0000_0000_0000,
        0x7FF,
        52,
    )
}

/// The digits of `n` times two to the `exponent`, counted as `scaled`
/// counts it.
fn scaled_digits(n: u64, exponent: i32) -> (d: Vec<u8>)
    requires
        n >= 1,
        -2000 <= exponent <= 2000,
    ensures
        is_numeral(d@),
        number(d@) == scaled(n as nat, exponent as int),
{
    let factor: u8 = if exponent >= 0 {
        2
    } else {
        5
    };
    let count: u32 = if exponent >= 0 {
        exponent as u32
    } else {
        (-exponent) as u32
    };
    let mut d = digits_of(n);
    let mut k: u32 = 0;
    while k < count
        invariant
            k <= count,
            is_numeral(d@),
            factor == if exponent >= 0 {
                2u8
            } else {
                5u8
            },
            exponent >= 0 ==> doubled(number(d@), (count - k) as nat) == doubled(
                n as nat,
                count as nat,
            ),
            exponent < 0 ==> quintupled(number(d@), (count - k) as nat) == quintupled(
                n as nat,
                count as nat,
            ),
        decreases count - k,
    {
        d = times(&d, factor);
        k += 1;
    }
    d
}

/// Whether the number of `c` lies between those of `low` and `high`.
fn admitted(low: &Vec<u8>, high: &Vec<u8>, inclusive: bool, c: &Vec<u8>) -> (within: bool)
    requires
        is_digits(low@),
        is_digits(high@),
        is_digits(c@),
    ensures
        within == admits(number(low@), number(high@), inclusive, number(c@)),
{
    if inclusive {
        !less(c, low) && !less(high, c)
    } else {
        less(low, c) && less(c, high)
    }
}

/// The digits of the shortest number between `low` and `high`, nearest to
/// `w`.
fn shortest_digits(w: &Vec<u8>, low: &Vec<u8>, high: &Vec<u8>, inclusive: bool) -> (d: Vec<u8>)
    requires
        is_digits(w@),
        is_digits(low@),
        is_numeral(high@),
    ensures
        is_digits(d@),
        number(d@) == shortest(number(w@), number(low@), number(high@), inclusive),
{
    let top = high.len();
    let wide = padded(w, top);
    proof {
        lemma_places_of(high@);
    }
    let mut places: usize = top;
    while places > 0
        invariant
            places <= top <= wide@.len(),
            is_digits(wide@),
            is_digits(low@),
            is_digits(high@),
            number(wide@) == number(w@),
            top == places_of(number(high@)),
            coarsest(number(w@), number(low@), number(high@), inclusive, places as nat)
                == coarsest(number(w@), number(low@), number(high@), inclusive, top as nat),
        decreases places,
    {
        let down = rounded_down(&wide, places);
        let up = rounded_up(&wide, places);
        let down_in = admitted(low, high, inclusive, &down);
        let up_in = admitted(low, high, inclusive, &up);
        if down_in && up_in {
            if nearer_up(&wide, places) {
                return up;
            } else {
                return down;
            }
        }
        if down_in {
            return down;
        }
        if up_in {
            return up;
        }
        places -= 1;
    }
    wide
}

/// Writes the number `mantissa` times two to the `exponent`.
fn finite_string(mantissa: u64, exponent: i32, boundary: bool) -> (text: String)
    requires
        1 <= mantissa < 0x20_0000_0000_0000,
        -1500 <= exponent <= 1500,
    ensures
        text@ == finite_text(mantissa as nat, exponent as int, boundary),
{
    let centre: u64 = 4 * mantissa;
    let below: u64 = if boundary {
        1
    } else {
        2
    };
    let quarter: i32 = exponent - 2;
    let w = scaled_digits(centre, quarter);
    let low = scaled_digits(centre - below, quarter);
    let high = scaled_digits(centre + 2, quarter);
    let chosen = shortest_digits(&w, &low, &high, mantissa % 2 == 0);
    let places: usize = if quarter < 0 {
        (-quarter) as usize
    } else {
        0
    };
    let wide = padded(&chosen, places);
    fixed_point_text(&wide, places)
}

/// Writes a floating-point number from its fields.
fn float_string(
    negative: bool,
    field: u32,
    fraction: u64,
    hidden: u64,
    field_max: u32,
    fraction_bits: u32,
) -> (text: String)
    requires
        fraction < hidden <= 0x10_0000_0000_0000,
        field <= field_max <= 0x7FF,
        fraction_bits <= 52,
    ensures
        text@ == float_text(
            negative,
            field as nat,
            fraction as nat,
            hidden as nat,
            field_max as nat,
            fraction_bits as nat,
        ),
{
    if field == field_max {
        if fraction != 0 {
            String::from_str("NaN")
        } else if negative {
            String::from_str("-inf")
        } else {
            String::from_str("inf")
        }
    } else {
        let mut text = if negative {
            String::from_str("-")
        } else {
            String::from_str("")
        };
        let bias: i32 = (field_max / 2) as i32;
        if field == 0 && fraction == 0 {
            text.append("0");
        } else if field == 0 {
            let size = finite_string(fraction, 1 - bias - fraction_bits as i32, false);
            text.append(size.as_str());
        } else {
            let size = finite_string(
                hidden + fraction,
                field as i32 - bias - fraction_bits as i32,
                fraction == 0 && field > 1,
            );
            text.append(size.as_str());
        }
        text
    }
}

/// Writes a single-precision constant.
pub fn single_string(bits: u32) -> (s: String)
    ensures
        s@ == single_text(bits),
{
    float_string(
        bits >= 0x8000_0000,
        (bits / 0x80_0000) % 0x100,
        (bits % 0x80_0000) as u64,
        0x80_0000,
        0xFF,
        23,
    )
}

/// Writes a double-precision constant.
pub fn double_string(bits: u64) -> (s: String)
    ensures
        s@ == double_text(bits),
{
    float_string(
        bits >= 0x8000_0000_0000_0000,
        ((bits / 0x10_0000_0000_0000) % 0x800) as u32,
        bits % 0x10_0000_0000_0000,
        0x10_0000_0000_0000,
        0x7FF,
        52,
    )
}

} // verus!
