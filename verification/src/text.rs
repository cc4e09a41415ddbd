//! Character classes, runs of characters, and decimal notation.

use vstd::prelude::*;

verus! {

/// A set of characters that a token is made of.
#[derive(Debug, Clone, Copy, PartialEq, Eq)]
pub enum CharClass {
    /// `0` to `9`.
    Digit,
    /// `a` to `z` and `A` to `Z`.
    Letter,
    /// Space, tab, carriage return and line feed.
    Space,
    /// Every character but the double quote.
    Unquoted,
}

/// Whether `c` belongs to `class`.
pub open spec fn in_class(class: CharClass, c: char) -> bool {
    match class {
        CharClass::Digit => '0' <= c <= '9',
        CharClass::Letter => ('a' <= c <= 'z') || ('A' <= c <= 'Z'),
        CharClass::Space => c == ' ' || c == '\t' || c == '\r' || c == '\n',
        CharClass::Unquoted => c != '"',
    }
}

/// Whether every character of `s` belongs to `class`.
pub open spec fn all_in_class(s: Seq<char>, class: CharClass) -> bool {
    forall|i: int| 0 <= i < s.len() ==> in_class(class, #[trigger] s[i])
}

/// The length of the longest prefix of `s` whose characters all belong to `class`.
pub open spec fn run_length(s: Seq<char>, class: CharClass) -> nat
    decreases s.len(),
{
    if s.len() > 0 && in_class(class, s[0]) {
        1 + run_length(s.skip(1), class)
    } else {
        0
    }
}

/// A run is a prefix, lies within the class, and ends at the first character
/// outside the class or at the end of the text.
pub proof fn lemma_run_length(s: Seq<char>, class: CharClass)
    ensures
        run_length(s, class) <= s.len(),
        all_in_class(s.take(run_length(s, class) as int), class),
        run_length(s, class) < s.len() ==> !in_class(class, s[run_length(s, class) as int]),
    decreases s.len(),
{
    if s.len() > 0 && in_class(class, s[0]) {
        let tail = s.skip(1);
        lemma_run_length(tail, class);
        let n: int = run_length(s, class) as int;
        assert forall|i: int| 0 <= i < n implies in_class(class, #[trigger] s.take(n)[i]) by {
            if i > 0 {
                assert(s.take(n)[i] == tail.take(n - 1)[i - 1]);
            }
        }
    }
}

/// The run is the only prefix length with those properties.
pub proof fn lemma_run_length_unique(s: Seq<char>, class: CharClass, n: int)
    requires
        0 <= n <= s.len(),
        all_in_class(s.take(n), class),
        n < s.len() ==> !in_class(class, s[n]),
    ensures
        run_length(s, class) == n,
    decreases s.len(),
{
    if n == 0 {
    } else {
        assert(s.take(n)[0] == s[0]);
        let tail = s.skip(1);
        assert forall|i: int| 0 <= i < n - 1 implies in_class(class, #[trigger] tail.take(n - 1)[i]) by {
            assert(tail.take(n - 1)[i] == s.take(n)[i + 1]);
        }
        lemma_run_length_unique(tail, class, n - 1);
    }
}

/// A text of the class, followed by a text that does not start with a character
/// of the class, has the first text as its run.
pub proof fn lemma_run_of_concat(word: Seq<char>, rest: Seq<char>, class: CharClass)
    requires
        all_in_class(word, class),
        rest.len() > 0 ==> !in_class(class, rest[0]),
    ensures
        run_length(word + rest, class) == word.len(),
        (word + rest).take(word.len() as int) == word,
        (word + rest).skip(word.len() as int) == rest,
{
    let s = word + rest;
    let n: int = word.len() as int;
    assert(s.take(n) =~= word);
    if n < s.len() {
        assert(s[n] == rest[0]);
    }
    lemma_run_length_unique(s, class, n);
}

/// The value of a decimal digit.
pub open spec fn digit_value(c: char) -> nat {
    (c as int - '0' as int) as nat
}

/// The decimal digit of a value below ten.
pub open spec fn digit_char(d: nat) -> char {
    ('0' as int + d) as char
}

/// The number that a sequence of decimal digits denotes.
pub open spec fn decimal_value(digits: Seq<char>) -> nat
    decreases digits.len(),
{
    if digits.len() == 0 {
        0
    } else {
        10 * decimal_value(digits.drop_last()) + digit_value(digits.last())
    }
}

/// The decimal digits of a natural number, without leading zeros.
pub open spec fn decimal_digits(n: nat) -> Seq<char>
    decreases n,
{
    if n < 10 {
        seq![digit_char(n)]
    } else {
        decimal_digits(n / 10).push(digit_char(n % 10))
    }
}

/// An integer in decimal notation: a minus sign where it is negative, then the
/// digits of its magnitude.
pub open spec fn decimal_text(n: int) -> Seq<char> {
    if n < 0 {
        seq!['-'] + decimal_digits((-n) as nat)
    } else {
        decimal_digits(n as nat)
    }
}

/// The digits of a number are digits, at least one of them, and denote the number.
pub proof fn lemma_decimal_digits(n: nat)
    ensures
        decimal_digits(n).len() > 0,
        all_in_class(decimal_digits(n), CharClass::Digit),
        decimal_value(decimal_digits(n)) == n,
    decreases n,
{
    if n < 10 {
        let s = decimal_digits(n);
        assert(decimal_value(s.drop_last()) == 0);
    } else {
        lemma_decimal_digits(n / 10);
        let s = decimal_digits(n);
        assert(s.drop_last() =~= decimal_digits(n / 10));
    }
}

/// A prefix of a digit sequence denotes no more than the whole.
pub proof fn lemma_decimal_value_prefix(digits: Seq<char>, k: int)
    requires
        0 <= k <= digits.len(),
    ensures
        decimal_value(digits.take(k)) <= decimal_value(digits),
    decreases digits.len() - k,
{
    if k == digits.len() {
        assert(digits.take(k) =~= digits);
    } else {
        lemma_decimal_value_prefix(digits, k + 1);
        assert(digits.take(k + 1).drop_last() =~= digits.take(k));
    }
}

/// The digit of a value below ten, as a string of one character.
fn digit_str(d: u32) -> (s: &'static str)
    requires
        d < 10,
    ensures
        s@ == seq![digit_char(d as nat)],
{
    proof {
        reveal_strlit("0");
        reveal_strlit("1");
        reveal_strlit("2");
        reveal_strlit("3");
        reveal_strlit("4");
        reveal_strlit("5");
        reveal_strlit("6");
        reveal_strlit("7");
        reveal_strlit("8");
        reveal_strlit("9");
    }
    let s = match d {
        0 => "0",
        1 => "1",
        2 => "2",
        3 => "3",
        4 => "4",
        5 => "5",
        6 => "6",
        7 => "7",
        8 => "8",
        _ => "9",
    };
    s
}

/// Appends the decimal digits of `n` to `out`.
fn push_decimal(out: &mut String, n: u32)
    ensures
        final(out)@ == old(out)@ + decimal_digits(n as nat),
    decreases n,
{
    if n >= 10 {
        push_decimal(out, n / 10);
    }
    out.append(digit_str(n % 10));
}

/// `n` in decimal notation.
pub fn decimal_string(n: i32) -> (s: String)
    ensures
        s@ == decimal_text(n as int),
{
    let mut s = String::new();
    if n < 0 {
        proof {
            reveal_strlit("-");
        }
        s.append("-");
        let magnitude: i64 = -(n as i64);
        push_decimal(&mut s, magnitude as u32);
    } else {
        push_decimal(&mut s, n as u32);
    }
    s
}

} // verus!
