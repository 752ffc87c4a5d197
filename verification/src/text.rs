//! Text building: decimal numerals and substring replacement.

use vstd::prelude::*;
use vstd::string::{StrSliceExecFns, StringExecFns};

verus! {

/// The numeral of a single decimal digit.
pub open spec fn digit_char(d: int) -> char
    recommends
        0 <= d < 10,
{
    if d == 0 {
        '0'
    } else if d == 1 {
        '1'
    } else if d == 2 {
        '2'
    } else if d == 3 {
        '3'
    } else if d == 4 {
        '4'
    } else if d == 5 {
        '5'
    } else if d == 6 {
        '6'
    } else if d == 7 {
        '7'
    } else if d == 8 {
        '8'
    } else {
        '9'
    }
}

/// The decimal numeral of a natural number, without leading zeros.
pub open spec fn natural_digits(n: nat) -> Seq<char>
    decreases n,
{
    if n < 10 {
        seq![digit_char(n as int)]
    } else {
        natural_digits(n / 10).push(digit_char((n % 10) as int))
    }
}

/// The decimal numeral of an integer: a minus sign in front of the numeral
/// of a negative number's magnitude.
pub open spec fn decimal_digits(n: int) -> Seq<char> {
    if n < 0 {
        seq!['-'] + natural_digits((-n) as nat)
    } else {
        natural_digits(n as nat)
    }
}

/// `text` with every occurrence of `from` replaced by `to`, the occurrences
/// taken from left to right and without overlap. An empty `from` occurs
/// nowhere.
pub open spec fn replaced(text: Seq<char>, from: Seq<char>, to: Seq<char>) -> Seq<char>
    decreases text.len(),
{
    if from.len() == 0 || text.len() < from.len() {
        text
    } else if text.subrange(0, from.len() as int) == from {
        to + replaced(text.subrange(from.len() as int, text.len() as int), from, to)
    } else {
        seq![text[0]] + replaced(text.subrange(1, text.len() as int), from, to)
    }
}

/// The character is a decimal digit.
pub open spec fn is_digit(c: char) -> bool {
    c == '0' || c == '1' || c == '2' || c == '3' || c == '4' || c == '5' || c == '6' || c == '7'
        || c == '8' || c == '9'
}

/// The number that a decimal digit stands for.
pub open spec fn digit_value(c: char) -> int {
    if c == '0' {
        0
    } else if c == '1' {
        1
    } else if c == '2' {
        2
    } else if c == '3' {
        3
    } else if c == '4' {
        4
    } else if c == '5' {
        5
    } else if c == '6' {
        6
    } else if c == '7' {
        7
    } else if c == '8' {
        8
    } else {
        9
    }
}

/// The number that a sequence of decimal digits stands for.
pub open spec fn numeral_value(digits: Seq<char>) -> int
    decreases digits.len(),
{
    if digits.len() == 0 {
        0
    } else {
        numeral_value(digits.drop_last()) * 10 + digit_value(digits.last())
    }
}

/// A numeral is made of digits, has at least one of them, and stands for
/// its number.
pub proof fn lemma_natural_digits(n: nat)
    ensures
        natural_digits(n).len() >= 1,
        forall|i: int| 0 <= i < natural_digits(n).len() ==> is_digit(#[trigger] natural_digits(n)[i]),
        numeral_value(natural_digits(n)) == n,
    decreases n,
{
    if n < 10 {
        let digits = natural_digits(n);
        assert(digits.drop_last() =~= Seq::<char>::empty());
        assert(numeral_value(digits.drop_last()) == 0);
    } else {
        lemma_natural_digits(n / 10);
        let shorter = natural_digits(n / 10);
        let digits = natural_digits(n);
        assert(digits.drop_last() =~= shorter);
        assert(digits.last() == digit_char((n % 10) as int));
        assert forall|i: int| 0 <= i < digits.len() implies is_digit(#[trigger] digits[i]) by {
            if i < shorter.len() {
                assert(digits[i] == shorter[i]);
            }
        }
    }
}

/// Numbers with the same numeral are equal.
pub proof fn lemma_decimal_digits_injective(a: int, b: int)
    requires
        decimal_digits(a) == decimal_digits(b),
    ensures
        a == b,
{
    let magnitude_a = (if a < 0 {
        -a
    } else {
        a
    }) as nat;
    let magnitude_b = (if b < 0 {
        -b
    } else {
        b
    }) as nat;
    lemma_natural_digits(magnitude_a);
    lemma_natural_digits(magnitude_b);
    if a < 0 && b < 0 {
        let left = seq!['-'] + natural_digits(magnitude_a);
        let right = seq!['-'] + natural_digits(magnitude_b);
        assert(left.subrange(1, left.len() as int) =~= natural_digits(magnitude_a));
        assert(right.subrange(1, right.len() as int) =~= natural_digits(magnitude_b));
    } else if a < 0 {
        assert(decimal_digits(a)[0] == '-');
        assert(is_digit(natural_digits(magnitude_b)[0]));
    } else if b < 0 {
        assert(decimal_digits(b)[0] == '-');
        assert(is_digit(natural_digits(magnitude_a)[0]));
    }
}

/// A numeral holds nothing but digits and, in front, a minus sign.
pub proof fn lemma_decimal_digits_alphabet(n: int)
    ensures
        forall|i: int|
            0 <= i < decimal_digits(n).len() ==> is_digit(#[trigger] decimal_digits(n)[i])
                || decimal_digits(n)[i] == '-',
{
    if n < 0 {
        lemma_natural_digits((-n) as nat);
        let digits = natural_digits((-n) as nat);
        assert forall|i: int| 0 <= i < decimal_digits(n).len() implies is_digit(
            #[trigger] decimal_digits(n)[i],
        ) || decimal_digits(n)[i] == '-' by {
            if i > 0 {
                assert(decimal_digits(n)[i] == digits[i - 1]);
            }
        }
    } else {
        lemma_natural_digits(n as nat);
    }
}

/// The one-character text of a decimal digit.
fn digit_text(d: u64) -> (text: &'static str)
    requires
        d < 10,
    ensures
        text@ == seq![digit_char(d as int)],
{
    proof {
        reveal_strlit("0");
        reveal_strlit("1");
        reveal_strlit("2");
        reveal_strlit("3");
        reveal_strlit("4");
        reveal_strlit("5");
        reveal_strlit("6");
        reveal_strlit("7");
        reveal_strlit("8");
        reveal_strlit("9");
    }
    let text: &'static str = if d == 0 {
        "0"
    } else if d == 1 {
        "1"
    } else if d == 2 {
        "2"
    } else if d == 3 {
        "3"
    } else if d == 4 {
        "4"
    } else if d == 5 {
        "5"
    } else if d == 6 {
        "6"
    } else if d == 7 {
        "7"
    } else if d == 8 {
        "8"
    } else {
        "9"
    };
    assert(text@ =~= seq![digit_char(d as int)]);
    text
}

/// Appends the decimal numeral of `n` to `out`.
pub fn push_natural(out: &mut String, n: u64)
    ensures
        final(out)@ == old(out)@ + natural_digits(n as nat),
    decreases n,
{
    if n >= 10 {
        push_natural(out, n / 10);
    }
    out.append(digit_text(n % 10));
    assert(out@ =~= old(out)@ + natural_digits(n as nat));
}

/// Appends the decimal numeral of `n` to `out`.
pub fn push_decimal(out: &mut String, n: i64)
    ensures
        final(out)@ == old(out)@ + decimal_digits(n as int),
{
    if n < 0 {
        proof {
            reveal_strlit("-");
        }
        out.append("-");
        let magnitude: u64 = (-(n as i128)) as u64;
        push_natural(out, magnitude);
        assert(out@ =~= old(out)@ + decimal_digits(n as int));
    } else {
        push_natural(out, n as u64);
    }
}

/// The decimal numeral of `n`.
pub fn decimal(n: i64) -> (text: String)
    ensures
        text@ == decimal_digits(n as int),
{
    let mut text = String::new();
    push_decimal(&mut text, n);
    assert(text@ =~= decimal_digits(n as int));
    text
}

/// The characters of a text.
pub fn chars_of(text: &str) -> (chars: Vec<char>)
    ensures
        chars@ == text@,
{
    let mut chars: Vec<char> = Vec::new();
    for c in it: text.chars()
        invariant
            it.seq() == text@,
            chars@ == it.seq().take(it.index() as int),
    {
        chars.push(c);
        assert(it.seq().take(it.index() + 1) =~= it.seq().take(it.index() as int).push(c));
    }
    assert(chars@ =~= text@);
    chars
}

/// Tells whether `needle` stands in `hay` at position `at`.
fn occurs_at(hay: &Vec<char>, at: usize, needle: &Vec<char>) -> (found: bool)
    requires
        at + needle.len() <= hay.len(),
    ensures
        found == (hay@.subrange(at as int, at + needle.len()) == needle@),
{
    let mut k: usize = 0;
    while k < needle.len()
        invariant
            k <= needle.len(),
            at + needle.len() <= hay.len(),
            forall|j: int| 0 <= j < k ==> hay@[at + j] == needle@[j],
        decreases needle.len() - k,
    {
        if hay[at + k] != needle[k] {
            assert(hay@.subrange(at as int, at + needle.len())[k as int] != needle@[k as int]);
            return false;
        }
        k = k + 1;
    }
    assert(hay@.subrange(at as int, at + needle.len()) =~= needle@);
    true
}

/// What is left to replace behind position `at`: a step of [`replaced`].
proof fn lemma_replaced_step(text: Seq<char>, from: Seq<char>, to: Seq<char>, at: int)
    requires
        from.len() > 0,
        0 <= at <= text.len(),
    ensures
        at + from.len() > text.len() ==> replaced(text.subrange(at, text.len() as int), from, to)
            == text.subrange(at, text.len() as int),
        at + from.len() <= text.len() && text.subrange(at, at + from.len()) == from ==> replaced(
            text.subrange(at, text.len() as int),
            from,
            to,
        ) == to + replaced(text.subrange(at + from.len(), text.len() as int), from, to),
        at + from.len() <= text.len() && text.subrange(at, at + from.len()) != from ==> replaced(
            text.subrange(at, text.len() as int),
            from,
            to,
        ) == seq![text[at]] + replaced(text.subrange(at + 1, text.len() as int), from, to),
{
    let rest = text.subrange(at, text.len() as int);
    if at + from.len() <= text.len() {
        assert(rest.subrange(0, from.len() as int) =~= text.subrange(at, at + from.len()));
        assert(rest.subrange(from.len() as int, rest.len() as int) =~= text.subrange(
            at + from.len(),
            text.len() as int,
        ));
        assert(rest.subrange(1, rest.len() as int) =~= text.subrange(at + 1, text.len() as int));
        assert(rest[0] == text[at]);
    }
}

/// Replaces every occurrence of `from` in `text` by `to`, the occurrences
/// taken from left to right and without overlap. An empty `from` occurs
/// nowhere.
pub fn replace(text: &str, from: &str, to: &str) -> (result: String)
    ensures
        result@ == replaced(text@, from@, to@),
{
    let hay = chars_of(text);
    let needle = chars_of(from);
    let n: usize = hay.len();
    let m: usize = needle.len();
    if m == 0 || n < m {
        return String::from_str(text);
    }
    let mut out = String::new();
    let mut start: usize = 0;
    let mut i: usize = 0;
    assert(out@ + text@.subrange(0, 0) + replaced(text@.subrange(0, n as int), from@, to@)
        =~= replaced(text@, from@, to@)) by {
        assert(text@.subrange(0, n as int) =~= text@);
    }
    while i <= n - m
        invariant
            0 < m <= n,
            n == text@.len(),
            m == from@.len(),
            hay@ == text@,
            needle@ == from@,
            start <= i <= n,
            out@ + text@.subrange(start as int, i as int) + replaced(
                text@.subrange(i as int, n as int),
                from@,
                to@,
            ) == replaced(text@, from@, to@),
        decreases n - i,
    {
        proof {
            lemma_replaced_step(text@, from@, to@, i as int);
        }
        if occurs_at(&hay, i, &needle) {
            let ghost before = out@;
            out.append(text.substring_char(start, i));
            out.append(to);
            assert(out@ + text@.subrange(i + m, i + m) + replaced(
                text@.subrange(i + m, n as int),
                from@,
                to@,
            ) =~= before + text@.subrange(start as int, i as int) + (to@ + replaced(
                text@.subrange(i + m, n as int),
                from@,
                to@,
            )));
            i = i + m;
            start = i;
        } else {
            assert(out@ + text@.subrange(start as int, i + 1) + replaced(
                text@.subrange(i + 1, n as int),
                from@,
                to@,
            ) =~= out@ + text@.subrange(start as int, i as int) + (seq![text@[i as int]]
                + replaced(text@.subrange(i + 1, n as int), from@, to@)));
            i = i + 1;
        }
    }
    proof {
        lemma_replaced_step(text@, from@, to@, i as int);
        assert(text@.subrange(start as int, i as int) + text@.subrange(i as int, n as int)
            =~= text@.subrange(start as int, n as int));
    }
    let ghost before = out@;
    out.append(text.substring_char(start, n));
    assert(out@ =~= before + text@.subrange(start as int, i as int) + text@.subrange(
        i as int,
        n as int,
    ));
    out
}

} // verus!
