//! Small pieces of text: numbers, words and lines.

use vstd::prelude::*;
use vstd::string::{StrSliceExecFns, StringExecFns};

use crate::ip::{octet, octets, Ipv4Addr};

verus! {

/// Whether two strings hold the same characters.
pub fn str_eq(a: &str, b: &str) -> (same: bool)
    ensures
        same == (a@ == b@),
{
    a.to_owned() == b.to_owned()
}

pub open spec fn is_digit(c: char) -> bool {
    '0' <= c && c <= '9'
}

pub open spec fn all_digits(s: Seq<char>) -> bool {
    forall|i: int| 0 <= i < s.len() ==> is_digit(#[trigger] s[i])
}

/// The number that a string of decimal digits stands for.
pub open spec fn digits_value(s: Seq<char>) -> int
    decreases s.len(),
{
    if s.len() == 0 {
        0
    } else {
        digits_value(s.drop_last()) * 10 + (s.last() as int - '0' as int)
    }
}

/// The number that a string stands for: decimal digits after an optional plus sign. None for
/// anything else and for a number above `max`.
pub open spec fn decimal(s: Seq<char>, max: int) -> Option<int> {
    let digits = if s.len() > 0 && s[0] == '+' {
        s.skip(1)
    } else {
        s
    };
    if digits.len() > 0 && all_digits(digits) && digits_value(digits) <= max {
        Some(digits_value(digits))
    } else {
        None
    }
}

proof fn lemma_digits_value_grows(s: Seq<char>, n: int)
    requires
        0 <= n <= s.len(),
        all_digits(s),
    ensures
        0 <= digits_value(s.take(n)) <= digits_value(s),
    decreases s.len(),
{
    if n == s.len() {
        assert(s.take(n) =~= s);
        if n > 0 {
            let short = s.drop_last();
            assert forall|i: int| 0 <= i < short.len() implies is_digit(#[trigger] short[i]) by {
                assert(is_digit(s[i]));
            }
            lemma_digits_value_grows(short, short.len() as int);
            assert(short.take(short.len() as int) =~= short);
            assert(is_digit(s[s.len() - 1]));
        }
    } else {
        let short = s.drop_last();
        assert forall|i: int| 0 <= i < short.len() implies is_digit(#[trigger] short[i]) by {
            assert(is_digit(s[i]));
        }
        lemma_digits_value_grows(short, n);
        assert(short.take(n) =~= s.take(n));
        assert(is_digit(s[s.len() - 1]));
    }
}

/// Reads a decimal number of at most `max`.
pub fn parse_decimal(s: &str, max: u64) -> (n: Option<u64>)
    ensures
        match n {
            Some(n) => decimal(s@, max as int) == Some(n as int),
            None => decimal(s@, max as int) is None,
        },
{
    let len: usize = s.unicode_len();
    let start: usize = if len > 0 && s.get_char(0) == '+' {
        1
    } else {
        0
    };
    if start == len {
        return None;
    }
    let ghost digits = s@.skip(start as int);
    assert(s@.skip(0) =~= s@);
    let mut value: u64 = 0;
    let mut i: usize = start;
    while i < len
        invariant
            start <= i <= len,
            len == s@.len(),
            start < len,
            start <= 1,
            digits == s@.skip(start as int),
            digits == if s@.len() > 0 && s@[0] == '+' {
                s@.skip(1)
            } else {
                s@
            },
            forall|k: int| 0 <= k < i - start ==> is_digit(#[trigger] digits[k]),
            value == digits_value(digits.take(i - start)),
            value <= max,
        decreases len - i,
    {
        let c: char = s.get_char(i);
        assert(digits[i - start] == c);
        if c < '0' || c > '9' {
            assert(!is_digit(digits[i - start]));
            return None;
        }
        let digit: u64 = (c as u32 - '0' as u32) as u64;
        let ghost next = digits.take(i - start + 1);
        proof {
            assert(next.drop_last() =~= digits.take(i - start));
            assert(digits_value(next) == value * 10 + digit);
        }
        if value > (u64::MAX - digit) / 10 || value * 10 + digit > max {
            proof {
                if all_digits(digits) {
                    lemma_digits_value_grows(digits, i - start + 1);
                }
            }
            return None;
        }
        value = value * 10 + digit;
        i += 1;
    }
    assert(digits.take(len - start) =~= digits);
    Some(value)
}

/// The digit for a number below ten.
pub open spec fn digit_char(d: int) -> char {
    (d + '0' as int) as char
}

/// A number in decimal notation, without leading zeros.
pub open spec fn decimal_text(n: int) -> Seq<char>
    decreases n,
{
    if n < 10 {
        seq![digit_char(n)]
    } else {
        decimal_text(n / 10).push(digit_char(n % 10))
    }
}

fn digit_str(d: u64) -> (s: &'static str)
    requires
        d < 10,
    ensures
        s@ == seq![digit_char(d as int)],
{
    proof {
        reveal_strlit("0");
        reveal_strlit("1");
        reveal_strlit("2");
        reveal_strlit("3");
        reveal_strlit("4");
        reveal_strlit("5");
        reveal_strlit("6");
        reveal_strlit("7");
        reveal_strlit("8");
        reveal_strlit("9");
    }
    let s = match d {
        0 => "0",
        1 => "1",
        2 => "2",
        3 => "3",
        4 => "4",
        5 => "5",
        6 => "6",
        7 => "7",
        8 => "8",
        _ => "9",
    };
    assert(s@ =~= seq![digit_char(d as int)]);
    s
}

/// Writes a number in decimal notation.
pub fn decimal_string(n: u64) -> (s: String)
    ensures
        s@ == decimal_text(n as int),
    decreases n,
{
    if n < 10 {
        digit_str(n).to_owned()
    } else {
        let mut s = decimal_string(n / 10);
        s.append(digit_str(n % 10));
        assert(s@ =~= decimal_text(n as int));
        s
    }
}

/// A number is read back from its decimal notation.
pub proof fn law_decimal_round_trip(n: int, max: int)
    requires
        0 <= n <= max,
    ensures
        decimal(decimal_text(n), max) == Some(n),
{
    lemma_decimal_text(n);
    let s = decimal_text(n);
    assert(is_digit(s[0]));
}

proof fn lemma_decimal_text(n: int)
    requires
        0 <= n,
    ensures
        decimal_text(n).len() > 0,
        all_digits(decimal_text(n)),
        digits_value(decimal_text(n)) == n,
    decreases n,
{
    let s = decimal_text(n);
    if n < 10 {
        reveal_with_fuel(digits_value, 2);
        assert(s.drop_last() =~= Seq::<char>::empty());
    } else {
        lemma_decimal_text(n / 10);
        let short = decimal_text(n / 10);
        assert(s.drop_last() =~= short);
        assert forall|i: int| 0 <= i < s.len() implies is_digit(#[trigger] s[i]) by {
            if i < short.len() {
                assert(is_digit(short[i]));
            }
        }
    }
}

/// An address in dotted notation.
pub open spec fn addr_text(addr: Ipv4Addr) -> Seq<char> {
    decimal_text(octet(addr, 0) as int) + "."@ + decimal_text(octet(addr, 1) as int) + "."@
        + decimal_text(octet(addr, 2) as int) + "."@ + decimal_text(octet(addr, 3) as int)
}

/// Writes an address in dotted notation.
pub fn addr_string(addr: Ipv4Addr) -> (s: String)
    ensures
        s@ == addr_text(addr),
{
    let bytes: [u8; 4] = octets(addr);
    let mut s = decimal_string(bytes[0] as u64);
    s.append(".");
    s.append(decimal_string(bytes[1] as u64).as_str());
    s.append(".");
    s.append(decimal_string(bytes[2] as u64).as_str());
    s.append(".");
    s.append(decimal_string(bytes[3] as u64).as_str());
    s
}

/// The parts of `s` between spaces. There is always at least one, and two spaces in a row have an
/// empty one between them.
pub open spec fn split_on_space(s: Seq<char>) -> Seq<Seq<char>>
    decreases s.len(),
{
    if s.len() == 0 {
        seq![Seq::empty()]
    } else {
        let parts = split_on_space(s.drop_last());
        if s.last() == ' ' {
            parts.push(Seq::empty())
        } else {
            parts.drop_last().push(parts.last().push(s.last()))
        }
    }
}

pub open spec fn words_view(words: Seq<String>) -> Seq<Seq<char>> {
    words.map_values(|word: String| word@)
}

/// Splits a line on spaces.
pub fn split_spaces(s: &str) -> (words: Vec<String>)
    ensures
        words_view(words@) == split_on_space(s@),
{
    let len: usize = s.unicode_len();
    let mut words: Vec<String> = Vec::new();
    let mut start: usize = 0;
    let mut i: usize = 0;
    assert(s@.subrange(0, 0) =~= Seq::<char>::empty());
    assert(words_view(words@).push(s@.subrange(0, 0)) =~= split_on_space(s@.take(0)));
    while i < len
        invariant
            start <= i <= len,
            len == s@.len(),
            words_view(words@).push(s@.subrange(start as int, i as int)) == split_on_space(
                s@.take(i as int),
            ),
        decreases len - i,
    {
        proof {
            assert(s@.take(i + 1).drop_last() =~= s@.take(i as int));
        }
        let ghost parts = split_on_space(s@.take(i as int));
        let ghost before = words@;
        assert(parts.drop_last() =~= words_view(before));
        if s.get_char(i) == ' ' {
            let word = s.substring_char(start, i).to_owned();
            words.push(word);
            proof {
                assert(words_view(words@) =~= parts);
                assert(s@.subrange(i + 1, i + 1) =~= Seq::<char>::empty());
            }
            start = i + 1;
        } else {
            proof {
                assert(s@.subrange(start as int, i + 1) =~= s@.subrange(
                    start as int,
                    i as int,
                ).push(s@[i as int]));
            }
        }
        i += 1;
    }
    let ghost before = words@;
    let word = s.substring_char(start, len).to_owned();
    words.push(word);
    proof {
        assert(s@.take(len as int) =~= s@);
        assert(words_view(words@) =~= words_view(before).push(
            s@.subrange(start as int, len as int),
        ));
    }
    words
}

/// Another digit at the end of a number makes ten times the number and the digit of it, and nothing
/// but digits makes a number.
pub proof fn law_decimal_digits(s: Seq<char>, c: char, max: int)
    requires
        s.len() > 0,
        s[0] != '+',
    ensures
        '0' <= c <= '9' && decimal(s, max) is Some && 10 * decimal(s, max)->0 + (c as int
            - '0' as int) <= max ==> decimal(s.push(c), max) == Some(
            10 * decimal(s, max)->0 + (c as int - '0' as int),
        ),
        !('0' <= c <= '9') ==> decimal(s.push(c), max) is None,
        !all_digits(s) ==> decimal(s.push(c), max) is None,
        '0' <= c <= '9' && decimal(s, max) is Some && 10 * decimal(s, max)->0 + (c as int
            - '0' as int) > max ==> decimal(s.push(c), max) is None,
        decimal(Seq::<char>::empty(), max) is None,
        '0' <= c <= '9' && c as int - '0' as int <= max ==> decimal(seq![c], max) == Some(
            c as int - '0' as int,
        ),
        decimal(seq!['+'] + s, max) == decimal(s, max),
{
    let longer = s.push(c);
    assert(longer.drop_last() =~= s);
    assert(longer[s.len() as int] == c);
    assert(longer[0] == s[0]);
    if all_digits(s) && is_digit(c) {
        assert forall|i: int| 0 <= i < longer.len() implies is_digit(#[trigger] longer[i]) by {
            if i < s.len() {
                assert(is_digit(s[i]));
            }
        }
    }
    if !all_digits(s) {
        let i = choose|i: int| 0 <= i < s.len() && !is_digit(#[trigger] s[i]);
        assert(longer[i] == s[i]);
        assert(!is_digit(longer[i]));
    }
    let one = seq![c];
    reveal_with_fuel(digits_value, 2);
    assert(one.drop_last() =~= Seq::<char>::empty());
    if is_digit(c) {
        assert(all_digits(one));
    }
    let signed = seq!['+'] + s;
    assert(signed.skip(1) =~= s);
}

/// The last digit of a number in decimal notation is its remainder by ten, and the ones before it
/// are the notation of a tenth of it.
pub proof fn law_decimal_notation(n: int)
    requires
        0 <= n,
    ensures
        n < 10 ==> decimal_text(n) == seq![(n + '0' as int) as char],
        n >= 10 ==> decimal_text(n) == decimal_text(n / 10).push((n % 10 + '0' as int) as char),
{
}

/// The parts of a line, put together again with a space between each two, are the line.
pub open spec fn joined(words: Seq<Seq<char>>) -> Seq<char>
    decreases words.len(),
{
    if words.len() == 0 {
        Seq::empty()
    } else if words.len() == 1 {
        words[0]
    } else {
        joined(words.drop_last()) + seq![' '] + words.last()
    }
}

/// Splitting a line loses nothing but the spaces: the words have none, and put together again with
/// a space between each two they are the line.
pub proof fn law_split_words_join(s: Seq<char>)
    ensures
        split_on_space(s).len() > 0,
        joined(split_on_space(s)) == s,
        forall|i: int, j: int|
            0 <= i < split_on_space(s).len() && 0 <= j < split_on_space(s)[i].len()
                ==> #[trigger] split_on_space(s)[i][j] != ' ',
    decreases s.len(),
{
    let words = split_on_space(s);
    if s.len() == 0 {
        assert(words[0] =~= s);
        assert forall|i: int, j: int|
            0 <= i < words.len() && 0 <= j < words[i].len() implies #[trigger] words[i][j] != ' ' by {
            assert(words[i].len() == 0);
        }
    } else {
        let parts = split_on_space(s.drop_last());
        law_split_words_join(s.drop_last());
        if s.last() == ' ' {
            assert(words.drop_last() =~= parts);
            assert(joined(words) =~= s);
            assert forall|i: int, j: int|
                0 <= i < words.len() && 0 <= j < words[i].len() implies #[trigger] words[i][j]
                != ' ' by {
                if i < parts.len() {
                    assert(words[i] == parts[i]);
                    assert(parts[i][j] != ' ');
                }
            }
        } else {
            assert(words.drop_last() =~= parts.drop_last());
            assert(words.len() == parts.len());
            assert(words.last() == parts.last().push(s.last()));
            assert(s =~= s.drop_last().push(s.last()));
            if words.len() > 1 {
                assert(joined(parts) == joined(parts.drop_last()) + seq![' '] + parts.last());
                assert(joined(words) == joined(parts.drop_last()) + seq![' '] + words.last());
                assert(joined(words) =~= joined(parts).push(s.last()));
            } else {
                assert(joined(parts) == parts[0]);
                assert(joined(words) == words[0]);
            }
            assert forall|i: int, j: int|
                0 <= i < words.len() && 0 <= j < words[i].len() implies #[trigger] words[i][j]
                != ' ' by {
                if i < parts.len() - 1 {
                    assert(words[i] == parts[i]);
                    assert(parts[i][j] != ' ');
                } else if j < parts.last().len() {
                    assert(parts[parts.len() - 1][j] != ' ');
                }
            }
        }
    }
}

/// A number above the largest one that is taken is refused.
pub proof fn law_large_numbers_are_refused(n: int, max: int)
    requires
        0 <= n,
        max < n,
    ensures
        decimal(decimal_text(n), max) is None,
{
    lemma_decimal_text(n);
    let s = decimal_text(n);
    assert(is_digit(s[0]));
}

} // verus!
