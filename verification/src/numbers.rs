//! Numbers in decimal notation.
use vstd::prelude::*;

use crate::text::chars_of;

verus! {

/// The digit for a number below ten.
pub open spec fn digit(d: nat) -> char {
    if d == 0 {
        '0'
    } else if d == 1 {
        '1'
    } else if d == 2 {
        '2'
    } else if d == 3 {
        '3'
    } else if d == 4 {
        '4'
    } else if d == 5 {
        '5'
    } else if d == 6 {
        '6'
    } else if d == 7 {
        '7'
    } else if d == 8 {
        '8'
    } else {
        '9'
    }
}

/// A number in decimal notation.
pub open spec fn decimal(n: nat) -> Seq<char>
    decreases n,
{
    if n < 10 {
        seq![digit(n)]
    } else {
        decimal(n / 10).push(digit(n % 10))
    }
}

/// Whether `c` is a digit.
pub open spec fn is_digit(c: char) -> bool {
    '0' <= c <= '9'
}

/// The number that a digit stands for.
pub open spec fn digit_value(c: char) -> nat {
    (c as int - '0' as int) as nat
}

/// The number that a sequence of digits stands for.
pub open spec fn digits_value(s: Seq<char>) -> nat
    decreases s.len(),
{
    if s.len() == 0 {
        0
    } else {
        digits_value(s.drop_last()) * 10 + digit_value(s.last())
    }
}

/// Whether `s` consists of digits, and has at least one.
pub open spec fn all_digits(s: Seq<char>) -> bool {
    s.len() > 0 && forall|i: int| 0 <= i < s.len() ==> is_digit(#[trigger] s[i])
}

/// `s` without a `+` at its beginning.
pub open spec fn unsigned(s: Seq<char>) -> Seq<char> {
    if s.len() > 0 && s[0] == '+' {
        s.skip(1)
    } else {
        s
    }
}

/// The count that `s` stands for: digits, with or without a `+` before them, for a number
/// that a `usize` can hold.
pub open spec fn counted(s: Seq<char>) -> Option<usize> {
    let digits = unsigned(s);
    if all_digits(digits) && digits_value(digits) <= usize::MAX {
        Some(digits_value(digits) as usize)
    } else {
        None
    }
}

/// The digit for a number below ten.
fn digit_char(d: usize) -> (r: char)
    requires
        d < 10,
    ensures
        r == digit(d as nat),
{
    match d {
        0 => '0',
        1 => '1',
        2 => '2',
        3 => '3',
        4 => '4',
        5 => '5',
        6 => '6',
        7 => '7',
        8 => '8',
        _ => '9',
    }
}

/// Appends a number in decimal notation.
pub fn push_decimal(out: &mut String, n: usize)
    ensures
        final(out)@ == old(out)@ + decimal(n as nat),
    decreases n,
{
    if n >= 10 {
        push_decimal(out, n / 10);
    } else {
        assert(out@ + Seq::<char>::empty() =~= out@);
    }
    let ghost before = out@;
    out.push(digit_char(n % 10));
    assert(out@ =~= old(out)@ + decimal(n as nat));
}

proof fn lemma_digits_value_grows(s: Seq<char>, k: int)
    requires
        0 <= k <= s.len(),
    ensures
        digits_value(s.take(k)) <= digits_value(s),
    decreases s.len() - k,
{
    if k < s.len() {
        let longer = s.take(k + 1);
        assert(longer.drop_last() =~= s.take(k));
        lemma_digits_value_grows(s, k + 1);
    } else {
        assert(s.take(k) =~= s);
    }
}

/// The count that `s` stands for.
pub fn parse_count(s: &str) -> (r: Option<usize>)
    ensures
        r == counted(s@),
{
    let chars: Vec<char> = chars_of(s);
    let start: usize = if chars.len() > 0 && chars[0] == '+' {
        1
    } else {
        0
    };
    let ghost digits = unsigned(s@);
    assert(digits =~= chars@.skip(start as int));
    if start == chars.len() {
        return None;
    }
    let mut value: usize = 0;
    let mut i: usize = start;
    assert(digits.take(0) =~= Seq::empty());
    while i < chars.len()
        invariant
            start <= i <= chars@.len(),
            chars@ == s@,
            digits == unsigned(s@),
            digits == chars@.skip(start as int),
            digits.len() > 0,
            forall|j: int| 0 <= j < i - start ==> is_digit(#[trigger] digits[j]),
            value == digits_value(digits.take(i - start)),
        decreases chars@.len() - i,
    {
        let c: char = chars[i];
        assert(digits[i - start] == c);
        if !('0' <= c && c <= '9') {
            return None;
        }
        proof {
            assert(digits.take(i + 1 - start).drop_last() =~= digits.take(i - start));
            lemma_digits_value_grows(digits, i + 1 - start);
        }
        let d: usize = c as usize - '0' as usize;
        match value.checked_mul(10) {
            None => {
                return None;
            },
            Some(tens) => match tens.checked_add(d) {
                None => {
                    return None;
                },
                Some(sum) => {
                    value = sum;
                },
            },
        }
        i += 1;
    }
    assert(digits.take(i - start) =~= digits);
    Some(value)
}

/// Reading a number back from its decimal notation gives the number.
pub proof fn law_decimal_is_read_back(n: usize)
    ensures
        counted(decimal(n as nat)) == Some(n),
{
    lemma_decimal(n as nat);
}

proof fn lemma_decimal(n: nat)
    ensures
        all_digits(decimal(n)),
        digits_value(decimal(n)) == n,
    decreases n,
{
    if n < 10 {
        let s = seq![digit(n)];
        assert(s.drop_last() =~= Seq::empty());
        assert(digits_value(s.drop_last()) == 0);
    } else {
        lemma_decimal(n / 10);
        let s = decimal(n);
        assert(s.drop_last() =~= decimal(n / 10));
    }
}

/// A number below ten is written as its digit, and any other as its tens and then its last
/// digit.
pub proof fn law_decimal_digits(n: nat)
    ensures
        n < 10 ==> decimal(n).len() == 1 && decimal(n)[0] as int == '0' as int + n,
        n >= 10 ==> decimal(n) == decimal(n / 10) + decimal(n % 10),
{
    if n >= 10 {
        assert(decimal(n % 10) == seq![digit(n % 10)]);
        assert(decimal(n / 10).push(digit(n % 10)) =~= decimal(n / 10) + decimal(n % 10));
    }
}

/// A count is made of digits, with or without a `+` before them: a digit alone stands for
/// itself, a digit more makes it ten times as much and that digit, as far as that can be held,
/// and with any other character it is no count.
pub proof fn law_counts(s: Seq<char>, c: char)
    ensures
        counted(Seq::empty()) is None,
        counted(seq!['+']) is None,
        counted(seq![c]) == (if '0' <= c && c <= '9' {
            Some((c as int - '0' as int) as usize)
        } else {
            None
        }),
        s.len() > 0 && s[0] != '+' ==> counted(seq!['+'] + s) == counted(s),
        counted(s) matches Some(n) ==> counted(s.push(c)) == (if '0' <= c && c <= '9' && n * 10 + (
        c as int - '0' as int) <= usize::MAX {
            Some((n * 10 + (c as int - '0' as int)) as usize)
        } else {
            None
        }),
        s.len() > 0 && s != seq!['+'] && counted(s) is None ==> counted(s.push(c)) is None,
{
    let one = seq![c];
    assert(one.skip(1) =~= Seq::empty());
    assert(one.drop_last() =~= Seq::empty());
    assert(digits_value(one.drop_last()) == 0);
    assert(one[0] == c);
    assert(seq!['+'].skip(1) =~= Seq::empty());
    assert((seq!['+'] + s).skip(1) =~= s);
    if s.len() > 0 {
        let more = s.push(c);
        let digits = unsigned(s);
        assert(more[0] == s[0]);
        assert(unsigned(more) =~= digits.push(c));
        assert(digits.push(c).drop_last() =~= digits);
        assert(digits.push(c)[digits.len() as int] == c);
        assert(forall|i: int| 0 <= i < digits.len() ==> digits.push(c)[i] == digits[i]);
        if all_digits(digits.push(c)) && digits.len() > 0 {
            assert forall|i: int| 0 <= i < digits.len() implies is_digit(#[trigger] digits[i]) by {
                assert(is_digit(digits.push(c)[i]));
            }
        }
        if digits.len() == 0 {
            assert(s =~= seq!['+']);
        }
    }
}

} // verus!
