//! Decimal numerals: the text of a natural number, and the number of a text.
use vstd::prelude::*;
use vstd::string::*;

verus! {

/// `c` is one of the characters `0` to `9`.
pub open spec fn is_digit(c: char) -> bool {
    48 <= c as u32 <= 57
}

/// The number that the digit `c` stands for; 0 for any other character.
pub open spec fn digit_value(c: char) -> nat {
    if is_digit(c) {
        (c as u32 - 48) as nat
    } else {
        0
    }
}

/// The character that writes the digit `d`.
pub open spec fn digit_char(d: nat) -> char
    recommends
        d < 10,
{
    (48 + d) as char
}

/// Every character of `s` is a digit.
pub open spec fn all_digits(s: Seq<char>) -> bool {
    forall|i: int| 0 <= i < s.len() ==> is_digit(#[trigger] s[i])
}

/// The number that `s` writes in base ten, most significant digit first.
pub open spec fn value(s: Seq<char>) -> nat
    decreases s.len(),
{
    if s.len() == 0 {
        0
    } else {
        10 * value(s.drop_last()) + digit_value(s.last())
    }
}

/// `s` is the one way to write its number: digits only, at least one, and no
/// leading zero but in `0` itself.
pub open spec fn is_numeral(s: Seq<char>) -> bool {
    &&& s.len() > 0
    &&& all_digits(s)
    &&& s.len() > 1 ==> s[0] != '0'
}

/// The numeral of `n`.
pub open spec fn numeral(n: nat) -> Seq<char>
    decreases n,
{
    if n < 10 {
        seq![digit_char(n)]
    } else {
        numeral(n / 10).push(digit_char(n % 10))
    }
}

/// The number that `s` writes, where `s` is a numeral of a number that a
/// `usize` holds.
pub open spec fn number_of(s: Seq<char>) -> Option<usize> {
    if is_numeral(s) && value(s) <= usize::MAX {
        Some(value(s) as usize)
    } else {
        None
    }
}

/// A digit's value is below ten, writes back to the digit, and is zero only
/// for `0`.
pub proof fn lemma_digit(c: char)
    requires
        is_digit(c),
    ensures
        digit_value(c) < 10,
        digit_char(digit_value(c)) == c,
        c != '0' ==> digit_value(c) >= 1,
{
}

/// A numeral that does not start with `0` writes a number of at least 1.
pub proof fn lemma_value_positive(s: Seq<char>)
    requires
        is_numeral(s),
        s[0] != '0',
    ensures
        value(s) >= 1,
    decreases s.len(),
{
    let init = s.drop_last();
    if s.len() > 1 {
        assert(forall|i: int| 0 <= i < init.len() ==> init[i] == s[i]);
        assert(init[0] == s[0]);
        lemma_value_positive(init);
    } else {
        assert(value(init) == 0);
        assert(is_digit(s[0]));
        lemma_digit(s[0]);
    }
}

/// The numeral of a number is a numeral, and writes that number.
pub proof fn lemma_numeral_value(n: nat)
    ensures
        is_numeral(numeral(n)),
        value(numeral(n)) == n,
        n > 0 ==> numeral(n)[0] != '0',
    decreases n,
{
    if n < 10 {
        let s = numeral(n);
        assert(s.drop_last() =~= Seq::<char>::empty());
        assert(value(s.drop_last()) == 0);
    } else {
        let init = numeral(n / 10);
        let s = init.push(digit_char(n % 10));
        lemma_numeral_value(n / 10);
        assert(s.drop_last() =~= init);
        assert(s[0] == init[0]);
    }
}

/// A numeral is the numeral of the number it writes.
pub proof fn lemma_value_numeral(s: Seq<char>)
    requires
        is_numeral(s),
    ensures
        numeral(value(s)) == s,
    decreases s.len(),
{
    let init = s.drop_last();
    if s.len() == 1 {
        assert(value(init) == 0);
        assert(is_digit(s[0]));
        lemma_digit(s[0]);
        assert(value(s) == digit_value(s[0]));
        assert(numeral(value(s)) =~= s);
    } else {
        assert(forall|i: int| 0 <= i < init.len() ==> init[i] == s[i]);
        assert(init[0] == s[0]);
        assert(is_digit(s[s.len() - 1]));
        lemma_value_positive(init);
        lemma_value_numeral(init);
        let d = digit_value(s.last());
        lemma_digit(s.last());
        assert(value(s) == 10 * value(init) + d);
        assert(value(s) / 10 == value(init));
        assert(value(s) % 10 == d);
        assert(digit_char(d) == s.last());
        assert(numeral(value(s)) == numeral(value(init)).push(digit_char(d)));
        assert(numeral(value(s)) =~= s);
    }
}

/// The number written by the first `k` characters is no more than the number
/// written by all of them.
pub proof fn lemma_value_grows(s: Seq<char>, k: int)
    requires
        0 <= k <= s.len(),
    ensures
        value(s.take(k)) <= value(s),
    decreases s.len() - k,
{
    if k < s.len() {
        lemma_value_grows(s, k + 1);
        assert(s.take(k + 1).drop_last() =~= s.take(k));
    } else {
        assert(s.take(k) =~= s);
    }
}

/// The digit that `c` stands for, if it is one.
pub fn digit_of(c: char) -> (r: Option<u8>)
    ensures
        r is Some <==> is_digit(c),
        r matches Some(d) ==> d as nat == digit_value(c) && d < 10,
{
    let code: u32 = c as u32;
    if 48 <= code && code <= 57 {
        Some((code - 48) as u8)
    } else {
        None
    }
}

/// Reads the characters of `s` from `from` up to `to` as a numeral.
pub fn parse_number(s: &Vec<char>, from: usize, to: usize) -> (r: Option<usize>)
    requires
        from <= to <= s.len(),
    ensures
        r == number_of(s@.subrange(from as int, to as int)),
{
    let ghost text = s@.subrange(from as int, to as int);
    if from == to {
        return None;
    }
    if to - from > 1 && s[from] == '0' {
        assert(text[0] == s@[from as int]);
        return None;
    }
    let mut acc: usize = 0;
    let mut i: usize = from;
    while i < to
        invariant
            from <= i <= to <= s.len(),
            text == s@.subrange(from as int, to as int),
            all_digits(text.take(i - from)),
            acc as nat == value(text.take(i - from)),
        decreases to - i,
    {
        let ghost k = i - from;
        proof {
            assert(text.take(k + 1).drop_last() =~= text.take(k));
            assert(text.take(k + 1).last() == s@[i as int]);
            lemma_value_grows(text, k + 1);
        }
        let digit = match digit_of(s[i]) {
            Some(d) => d,
            None => {
                assert(!is_digit(text[k]));
                return None;
            },
        };
        let tens = match acc.checked_mul(10) {
            Some(t) => t,
            None => {
                return None;
            },
        };
        acc = match tens.checked_add(digit as usize) {
            Some(t) => t,
            None => {
                return None;
            },
        };
        proof {
            assert forall|j: int| 0 <= j < k + 1 implies is_digit(#[trigger] text.take(k + 1)[j]) by {
                if j < k {
                    assert(text.take(k)[j] == text.take(k + 1)[j]);
                }
            }
        }
        i = i + 1;
    }
    proof {
        assert(text.take(to - from) =~= text);
        assert(text[0] == s@[from as int]);
    }
    Some(acc)
}

/// The text of one decimal digit.
pub fn digit_text(d: usize) -> (s: &'static str)
    requires
        d < 10,
    ensures
        s@ == seq![digit_char(d as nat)],
{
    proof {
        reveal_strlit("0");
        reveal_strlit("1");
        reveal_strlit("2");
        reveal_strlit("3");
        reveal_strlit("4");
        reveal_strlit("5");
        reveal_strlit("6");
        reveal_strlit("7");
        reveal_strlit("8");
        reveal_strlit("9");
    }
    let s = match d {
        0 => "0",
        1 => "1",
        2 => "2",
        3 => "3",
        4 => "4",
        5 => "5",
        6 => "6",
        7 => "7",
        8 => "8",
        _ => "9",
    };
    assert(s@ =~= seq![digit_char(d as nat)]);
    s
}

/// Appends the numeral of `n` to `out`.
pub fn push_number(out: &mut String, n: usize)
    ensures
        final(out)@ == old(out)@ + numeral(n as nat),
    decreases n,
{
    if n >= 10 {
        push_number(out, n / 10);
    }
    out.append(digit_text(n % 10));
    proof {
        if n >= 10 {
            assert(final(out)@ =~= old(out)@ + numeral(n as nat));
        }
    }
}

/// The numeral of `n` as a string.
pub fn number_text(n: usize) -> (s: String)
    ensures
        s@ == numeral(n as nat),
{
    let mut s = String::new();
    push_number(&mut s, n);
    assert(s@ =~= numeral(n as nat));
    s
}

} // verus!
