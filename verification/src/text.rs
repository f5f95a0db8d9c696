//! Text primitives: the characters of a string, whitespace, words and
//! decimal numbers.

use vstd::prelude::*;

verus! {

/// Whether `c` has the Unicode property `White_Space`.
pub open spec fn is_space(c: char) -> bool {
    let n = c as u32;
    ||| 0x09 <= n <= 0x0D
    ||| n == 0x20
    ||| n == 0x85
    ||| n == 0xA0
    ||| n == 0x1680
    ||| 0x2000 <= n <= 0x200A
    ||| n == 0x2028
    ||| n == 0x2029
    ||| n == 0x202F
    ||| n == 0x205F
    ||| n == 0x3000
}

/// Tells whether `c` is a whitespace character.
pub fn is_whitespace(c: char) -> (b: bool)
    ensures
        b == is_space(c),
{
    let n: u32 = c as u32;
    (0x09 <= n && n <= 0x0D) || n == 0x20 || n == 0x85 || n == 0xA0 || n == 0x1680 || (0x2000 <= n
        && n <= 0x200A) || n == 0x2028 || n == 0x2029 || n == 0x202F || n == 0x205F || n == 0x3000
}

/// The characters of `s`, in order.
pub fn chars_of(s: &str) -> (chars: Vec<char>)
    ensures
        chars@ == s@,
{
    let mut chars: Vec<char> = Vec::new();
    for c in it: s.chars()
        invariant
            chars@ == it.seq().take(it.index()),
            it.seq() == s@,
    {
        chars.push(c);
    }
    chars
}

/// The length of the longest prefix of `s` that holds no whitespace.
pub open spec fn word_len(s: Seq<char>) -> nat
    decreases s.len(),
{
    if s.len() == 0 || is_space(s[0]) {
        0
    } else {
        1 + word_len(s.drop_first())
    }
}

/// A word is never longer than the text it starts, and is not empty where
/// the text starts with something other than whitespace.
pub proof fn lemma_word_len_bounds(s: Seq<char>)
    ensures
        word_len(s) <= s.len(),
        s.len() > 0 && !is_space(s[0]) ==> word_len(s) >= 1,
    decreases s.len(),
{
    if s.len() > 0 && !is_space(s[0]) {
        lemma_word_len_bounds(s.drop_first());
    }
}

/// The words of `s`: its maximal runs of characters other than whitespace,
/// from left to right.
pub open spec fn words(s: Seq<char>) -> Seq<Seq<char>>
    decreases s.len(),
{
    if s.len() == 0 {
        Seq::empty()
    } else if is_space(s[0]) {
        words(s.drop_first())
    } else {
        let n = word_len(s) as int;
        proof {
            lemma_word_len_bounds(s);
        }
        seq![s.take(n)] + words(s.skip(n))
    }
}

/// What each string of `v` holds.
pub open spec fn views(v: Seq<&str>) -> Seq<Seq<char>> {
    v.map_values(|w: &str| w@)
}

/// Splits `line` at whitespace into its words.
pub fn split_words<'a>(line: &'a str) -> (out: Vec<&'a str>)
    ensures
        views(out@) == words(line@),
{
    let chars = chars_of(line);
    let n = chars.len();
    let mut out: Vec<&'a str> = Vec::new();
    let mut i: usize = 0;
    assert(line@.skip(0) == line@);
    assert(views(out@) + words(line@) == words(line@));
    while i < n
        invariant
            n == chars@.len(),
            chars@ == line@,
            i <= n,
            words(line@) == views(out@) + words(line@.skip(i as int)),
        decreases n - i,
    {
        if is_whitespace(chars[i]) {
            assert(line@.skip(i as int).drop_first() == line@.skip(i + 1));
            i += 1;
        } else {
            let start = i;
            while i < n && !is_whitespace(chars[i])
                invariant
                    n == chars@.len(),
                    chars@ == line@,
                    start <= i <= n,
                    word_len(line@.skip(start as int)) == (i - start) + word_len(
                        line@.skip(i as int),
                    ),
                decreases n - i,
            {
                assert(line@.skip(i as int).drop_first() == line@.skip(i + 1));
                i += 1;
            }
            let word = line.substring_char(start, i);
            proof {
                let rest = line@.skip(start as int);
                assert(rest.take(i - start) == word@);
                assert(rest.skip(i - start) == line@.skip(i as int));
                assert(views(out@.push(word)) == views(out@) + seq![word@]);
            }
            out.push(word);
        }
    }
    out
}

/// The length of the longest prefix of `s` that does not hold `sep`.
pub open spec fn field_len(s: Seq<char>, sep: char) -> nat
    decreases s.len(),
{
    if s.len() == 0 || s[0] == sep {
        0
    } else {
        1 + field_len(s.drop_first(), sep)
    }
}

/// The fields of `s`: the pieces between its occurrences of `sep`, from
/// left to right. A text without `sep` is one field, and two neighbouring
/// separators hold an empty field between them.
pub open spec fn fields(s: Seq<char>, sep: char) -> Seq<Seq<char>>
    decreases s.len(),
{
    let n = field_len(s, sep) as int;
    if n >= s.len() {
        seq![s]
    } else {
        seq![s.take(n)] + fields(s.skip(n + 1), sep)
    }
}

/// Splits `text` at each `sep` into its fields.
pub fn split_fields<'a>(text: &'a str, sep: char) -> (out: Vec<&'a str>)
    ensures
        views(out@) == fields(text@, sep),
{
    let chars = chars_of(text);
    let n = chars.len();
    let mut out: Vec<&'a str> = Vec::new();
    let mut start: usize = 0;
    let mut i: usize = 0;
    assert(text@.skip(0) == text@);
    assert(views(out@) + fields(text@, sep) == fields(text@, sep));
    while i < n
        invariant
            n == chars@.len(),
            chars@ == text@,
            start <= i <= n,
            fields(text@, sep) == views(out@) + fields(text@.skip(start as int), sep),
            field_len(text@.skip(start as int), sep) == (i - start) + field_len(
                text@.skip(i as int),
                sep,
            ),
        decreases n - i,
    {
        if chars[i] == sep {
            let field = text.substring_char(start, i);
            proof {
                let rest = text@.skip(start as int);
                assert(rest.take(i - start) == field@);
                assert(rest.skip(i - start + 1) == text@.skip(i + 1));
                assert(views(out@.push(field)) == views(out@) + seq![field@]);
            }
            out.push(field);
            start = i + 1;
        } else {
            assert(text@.skip(i as int).drop_first() == text@.skip(i + 1));
        }
        i += 1;
    }
    let field = text.substring_char(start, n);
    proof {
        assert(text@.skip(start as int) == field@);
        assert(views(out@.push(field)) == views(out@) + seq![field@]);
    }
    out.push(field);
    out
}

/// Tells whether `a` and `b` hold the same characters.
pub fn same_text(a: &str, b: &str) -> (same: bool)
    ensures
        same == (a@ == b@),
{
    let left = chars_of(a);
    let right = chars_of(b);
    if left.len() != right.len() {
        return false;
    }
    let mut i: usize = 0;
    while i < left.len()
        invariant
            left@ == a@,
            right@ == b@,
            left.len() == right.len(),
            i <= left.len(),
            a@.take(i as int) == b@.take(i as int),
        decreases left.len() - i,
    {
        if left[i] != right[i] {
            return false;
        }
        assert(a@.take(i + 1) == a@.take(i as int).push(a@[i as int]));
        assert(b@.take(i + 1) == b@.take(i as int).push(b@[i as int]));
        i += 1;
    }
    assert(a@.take(i as int) == a@);
    assert(b@.take(i as int) == b@);
    true
}

/// Whether `c` is one of the ten decimal digits.
pub open spec fn is_digit(c: char) -> bool {
    0x30 <= c as u32 <= 0x39
}

/// The value of the decimal digit `c`.
pub open spec fn digit_value(c: char) -> nat {
    (c as u32 - 0x30) as nat
}

/// Whether `s` holds decimal digits only.
pub open spec fn all_digits(s: Seq<char>) -> bool {
    forall|i: int| 0 <= i < s.len() ==> is_digit(#[trigger] s[i])
}

/// The number that the decimal digits `s` write; zero for no digits.
pub open spec fn decimal_value(s: Seq<char>) -> nat
    decreases s.len(),
{
    if s.len() == 0 {
        0
    } else {
        10 * decimal_value(s.drop_last()) + digit_value(s.last())
    }
}

/// The number that `s` denotes: an optional `+`, then one decimal digit or
/// more, with a value that fits `usize`. `None` for any other text.
pub open spec fn number(s: Seq<char>) -> Option<usize> {
    let digits = if s.len() > 0 && s[0] == '+' {
        s.drop_first()
    } else {
        s
    };
    if digits.len() > 0 && all_digits(digits) && decimal_value(digits) <= usize::MAX {
        Some(decimal_value(digits) as usize)
    } else {
        None
    }
}

/// A number is at least as large as the number written by any prefix of
/// its digits.
pub proof fn lemma_decimal_value_prefix(s: Seq<char>, k: int)
    requires
        0 <= k <= s.len(),
    ensures
        decimal_value(s.take(k)) <= decimal_value(s),
    decreases s.len(),
{
    if k == s.len() {
        assert(s.take(k) == s);
    } else {
        assert(s.drop_last().take(k) == s.take(k));
        lemma_decimal_value_prefix(s.drop_last(), k);
    }
}

/// Reads `field` as a decimal number.
pub fn parse_number(field: &str) -> (value: Option<usize>)
    ensures
        value == number(field@),
{
    let chars = chars_of(field);
    let n = chars.len();
    let start: usize = if n > 0 && chars[0] == '+' {
        1
    } else {
        0
    };
    if start == n {
        return None;
    }
    let ghost digits = chars@.skip(start as int);
    assert(digits == if start == 1 {
        field@.drop_first()
    } else {
        field@
    });
    assert(digits.take(0).len() == 0);
    let mut acc: usize = 0;
    let mut i: usize = start;
    while i < n
        invariant
            n == chars@.len(),
            chars@ == field@,
            start <= i <= n,
            start == 1 <==> field@.len() > 0 && field@[0] == '+',
            digits == chars@.skip(start as int),
            digits == if start == 1 {
                field@.drop_first()
            } else {
                field@
            },
            all_digits(digits.take(i - start)),
            acc == decimal_value(digits.take(i - start)),
        decreases n - i,
    {
        let c = chars[i];
        let code: u32 = c as u32;
        if code < 0x30 || code > 0x39 {
            assert(!is_digit(digits[i - start]));
            return None;
        }
        let digit: usize = (code - 0x30) as usize;
        proof {
            assert(digits.take(i + 1 - start).drop_last() == digits.take(i - start));
            assert(digits.take(i + 1 - start).last() == c);
            lemma_decimal_value_prefix(digits, i + 1 - start);
        }
        match acc.checked_mul(10) {
            None => {
                return None;
            },
            Some(tens) => match tens.checked_add(digit) {
                None => {
                    return None;
                },
                Some(sum) => {
                    acc = sum;
                },
            },
        }
        i += 1;
    }
    assert(digits.take(n - start) == digits);
    Some(acc)
}

/// The character that writes the digit `d`.
pub open spec fn digit_char(d: nat) -> char {
    ((d + 0x30) as u8) as char
}

/// How `n` is written in decimal digits, without leading zeros.
pub open spec fn decimal(n: nat) -> Seq<char>
    decreases n,
{
    if n < 10 {
        seq![digit_char(n)]
    } else {
        decimal(n / 10).push(digit_char(n % 10))
    }
}

/// A number that is written in decimal digits and read again is the same
/// number.
pub proof fn law_decimal_round_trip(n: nat)
    ensures
        decimal(n).len() >= 1,
        all_digits(decimal(n)),
        decimal_value(decimal(n)) == n,
        n <= usize::MAX ==> number(decimal(n)) == Some(n as usize),
    decreases n,
{
    let text = decimal(n);
    assert(is_digit(digit_char(n % 10)) && digit_value(digit_char(n % 10)) == n % 10);
    assert(text.last() == digit_char(n % 10));
    if n < 10 {
        assert(text.drop_last() =~= Seq::<char>::empty());
        assert(decimal_value(text.drop_last()) == 0);
    } else {
        law_decimal_round_trip(n / 10);
        assert(text.drop_last() =~= decimal(n / 10));
    }
    assert(decimal_value(text) == 10 * decimal_value(text.drop_last()) + digit_value(text.last()));
    assert(is_digit(text[0]) && text[0] != '+');
}

/// The text of one digit.
fn digit_text(d: u8) -> (text: &'static str)
    requires
        d < 10,
    ensures
        text@ == seq![digit_char(d as nat)],
{
    proof {
        reveal_strlit("0");
        reveal_strlit("1");
        reveal_strlit("2");
        reveal_strlit("3");
        reveal_strlit("4");
        reveal_strlit("5");
        reveal_strlit("6");
        reveal_strlit("7");
        reveal_strlit("8");
        reveal_strlit("9");
    }
    let text = match d {
        0 => "0",
        1 => "1",
        2 => "2",
        3 => "3",
        4 => "4",
        5 => "5",
        6 => "6",
        7 => "7",
        8 => "8",
        _ => "9",
    };
    assert(text@ =~= seq![digit_char(d as nat)]);
    text
}

/// Writes `n` in decimal digits.
pub fn to_decimal(n: u128) -> (text: String)
    ensures
        text@ == decimal(n as nat),
    decreases n,
{
    if n < 10 {
        digit_text(n as u8).to_owned()
    } else {
        let mut text = to_decimal(n / 10);
        let last = digit_text((n % 10) as u8);
        assert(text@ + last@ =~= text@.push(digit_char((n % 10) as nat)));
        text.append(last);
        text
    }
}

} // verus!
