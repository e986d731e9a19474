//! Decimal rendering of integers, shared by every message and dump.

use vstd::prelude::*;
use vstd::string::*;

verus! {

/// The character that writes the digit `d`, for `d` from 0 to 9.
pub open spec fn digit_char(d: int) -> char {
    (48 + d) as char
}

/// The decimal numeral of `n`, without leading zeros.
pub open spec fn decimal(n: nat) -> Seq<char>
    decreases n,
{
    if n < 10 {
        seq![digit_char(n as int)]
    } else {
        decimal(n / 10).push(digit_char((n % 10) as int))
    }
}

/// The decimal numeral of `n`, with a leading minus sign when it is negative.
pub open spec fn signed_decimal(n: int) -> Seq<char> {
    if n < 0 {
        seq!['-'] + decimal((-n) as nat)
    } else {
        decimal(n as nat)
    }
}

/// The one-character string of a digit.
pub(crate) fn digit_str(d: u64) -> (s: &'static str)
    requires
        d < 10,
    ensures
        s@ == seq![digit_char(d as int)],
{
    proof {
        reveal_strlit("0");
        reveal_strlit("1");
        reveal_strlit("2");
        reveal_strlit("3");
        reveal_strlit("4");
        reveal_strlit("5");
        reveal_strlit("6");
        reveal_strlit("7");
        reveal_strlit("8");
        reveal_strlit("9");
    }
    let s = if d == 0 {
        "0"
    } else if d == 1 {
        "1"
    } else if d == 2 {
        "2"
    } else if d == 3 {
        "3"
    } else if d == 4 {
        "4"
    } else if d == 5 {
        "5"
    } else if d == 6 {
        "6"
    } else if d == 7 {
        "7"
    } else if d == 8 {
        "8"
    } else {
        "9"
    };
    assert(s@ =~= seq![digit_char(d as int)]);
    s
}

/// Writes `n` in decimal.
pub fn decimal_text(n: u64) -> (s: String)
    ensures
        s@ == decimal(n as nat),
    decreases n,
{
    if n < 10 {
        String::from_str(digit_str(n))
    } else {
        let mut s = decimal_text(n / 10);
        s.append(digit_str(n % 10));
        assert(s@ =~= decimal(n as nat));
        s
    }
}

/// Writes `n` in decimal, with a minus sign when it is negative.
pub fn signed_decimal_text(n: i64) -> (s: String)
    ensures
        s@ == signed_decimal(n as int),
{
    if n < 0 {
        let magnitude: u64 = ((-(n + 1)) as u64) + 1;
        let digits = decimal_text(magnitude);
        let mut s = String::from_str("-");
        s.append(digits.as_str());
        proof {
            reveal_strlit("-");
            assert("-"@ =~= seq!['-']);
        }
        s
    } else {
        decimal_text(n as u64)
    }
}

/// The character that writes the hexadecimal digit `d`, for `d` from 0 to 15.
pub open spec fn hex_digit_char(d: int) -> char {
    if d < 10 {
        (48 + d) as char
    } else {
        (55 + d) as char
    }
}

/// The last `digits` hexadecimal digits of `n`, upper case, zeros included.
pub open spec fn hex(n: nat, digits: nat) -> Seq<char>
    decreases digits,
{
    if digits == 0 {
        Seq::empty()
    } else {
        hex(n / 16, (digits - 1) as nat).push(hex_digit_char((n % 16) as int))
    }
}

/// The one-character string of a hexadecimal digit.
pub(crate) fn hex_digit_str(d: u64) -> (s: &'static str)
    requires
        d < 16,
    ensures
        s@ == seq![hex_digit_char(d as int)],
{
    if d < 10 {
        digit_str(d)
    } else {
        proof {
            reveal_strlit("A");
            reveal_strlit("B");
            reveal_strlit("C");
            reveal_strlit("D");
            reveal_strlit("E");
            reveal_strlit("F");
        }
        let s = if d == 10 {
            "A"
        } else if d == 11 {
            "B"
        } else if d == 12 {
            "C"
        } else if d == 13 {
            "D"
        } else if d == 14 {
            "E"
        } else {
            "F"
        };
        assert(s@ =~= seq![hex_digit_char(d as int)]);
        s
    }
}

/// Writes the last `digits` hexadecimal digits of `n`.
pub fn hex_text(n: u64, digits: u32) -> (s: String)
    ensures
        s@ == hex(n as nat, digits as nat),
    decreases digits,
{
    if digits == 0 {
        String::new()
    } else {
        let mut s = hex_text(n / 16, digits - 1);
        s.append(hex_digit_str(n % 16));
        assert(s@ =~= hex(n as nat, digits as nat));
        s
    }
}

/// The texts of `parts` in order, with `separator` between them.
pub open spec fn joined(parts: Seq<Seq<char>>, separator: Seq<char>) -> Seq<char>
    decreases parts.len(),
{
    if parts.len() == 0 {
        Seq::empty()
    } else if parts.len() == 1 {
        parts[0]
    } else {
        joined(parts.drop_last(), separator) + separator + parts.last()
    }
}

/// The views of the items of a sequence.
pub open spec fn views<T: View>(items: Seq<T>) -> Seq<T::V> {
    Seq::new(items.len(), |i: int| items[i]@)
}

/// The views after a push are the views before it and the view of the new
/// item.
pub(crate) proof fn lemma_views_push<T: View>(items: Seq<T>, item: T)
    ensures
        views(items.push(item)) == views(items).push(item@),
{
    assert(views(items.push(item)) =~= views(items).push(item@));
}

/// The lines of `lines`, each behind two spaces, a dash and a space, and
/// each ended by a line feed.
pub open spec fn bulleted(lines: Seq<Seq<char>>) -> Seq<char>
    decreases lines.len(),
{
    if lines.len() == 0 {
        Seq::empty()
    } else {
        bulleted(lines.drop_last()) + "  - "@ + lines.last() + "\n"@
    }
}

/// Each of `texts` between double quotes.
pub open spec fn quoted(texts: Seq<Seq<char>>) -> Seq<Seq<char>> {
    Seq::new(texts.len(), |i: int| "\""@ + texts[i] + "\""@)
}

/// Writes `parts` with `separator` between them.
pub fn join(parts: &Vec<String>, separator: &str) -> (text: String)
    ensures
        text@ == joined(views(parts@), separator@),
{
    let ghost texts = views(parts@);
    let mut text = String::new();
    let mut k: usize = 0;
    assert(texts.take(0) =~= Seq::empty());
    while k < parts.len()
        invariant
            k <= parts.len(),
            texts == views(parts@),
            text@ == joined(texts.take(k as int), separator@),
        decreases parts.len() - k,
    {
        if k > 0 {
            text.append(separator);
        }
        text.append(parts[k].as_str());
        assert(texts.take(k + 1).drop_last() =~= texts.take(k as int));
        assert(Seq::<char>::empty() + texts[k as int] =~= texts[k as int]);
        k += 1;
    }
    assert(texts.take(k as int) =~= texts);
    text
}

/// Writes `lines` as a bulleted list.
pub fn bullets(lines: &Vec<String>) -> (text: String)
    ensures
        text@ == bulleted(views(lines@)),
{
    let ghost texts = views(lines@);
    let mut text = String::new();
    let mut k: usize = 0;
    assert(texts.take(0) =~= Seq::empty());
    while k < lines.len()
        invariant
            k <= lines.len(),
            texts == views(lines@),
            text@ == bulleted(texts.take(k as int)),
        decreases lines.len() - k,
    {
        text.append("  - ");
        text.append(lines[k].as_str());
        text.append("\n");
        assert(texts.take(k + 1).drop_last() =~= texts.take(k as int));
        k += 1;
    }
    assert(texts.take(k as int) =~= texts);
    text
}

/// Puts each of `texts` between double quotes.
pub fn quote_all(texts: &Vec<String>) -> (quotes: Vec<String>)
    ensures
        views(quotes@) == quoted(views(texts@)),
{
    let mut quotes: Vec<String> = Vec::new();
    let mut k: usize = 0;
    while k < texts.len()
        invariant
            k <= texts.len(),
            quotes@.len() == k,
            forall|i: int| 0 <= i < k ==> (#[trigger] quotes@[i])@ == "\""@ + texts@[i]@ + "\""@,
        decreases texts.len() - k,
    {
        let mut quote = String::from_str("\"");
        quote.append(texts[k].as_str());
        quote.append("\"");
        quotes.push(quote);
        k += 1;
    }
    assert(views(quotes@) =~= quoted(views(texts@)));
    quotes
}

} // verus!
