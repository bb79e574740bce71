//! Numbers written in decimal digits.

use vstd::prelude::*;
use vstd::string::*;

verus! {

/// The character for a digit below ten.
pub open spec fn digit(d: nat) -> char {
    if d == 0 {
        '0'
    } else if d == 1 {
        '1'
    } else if d == 2 {
        '2'
    } else if d == 3 {
        '3'
    } else if d == 4 {
        '4'
    } else if d == 5 {
        '5'
    } else if d == 6 {
        '6'
    } else if d == 7 {
        '7'
    } else if d == 8 {
        '8'
    } else {
        '9'
    }
}

/// The number that a digit stands for, or ten for any other character.
pub open spec fn digit_value(c: char) -> nat {
    if c == '0' {
        0
    } else if c == '1' {
        1
    } else if c == '2' {
        2
    } else if c == '3' {
        3
    } else if c == '4' {
        4
    } else if c == '5' {
        5
    } else if c == '6' {
        6
    } else if c == '7' {
        7
    } else if c == '8' {
        8
    } else if c == '9' {
        9
    } else {
        10
    }
}

/// The decimal digits of `n`, most significant first, without leading
/// zeros; zero is written `0`.
pub open spec fn decimal(n: nat) -> Seq<char>
    decreases n,
{
    if n < 10 {
        seq![digit(n)]
    } else {
        decimal(n / 10).push(digit(n % 10))
    }
}

/// The number that a sequence of digits stands for.
pub open spec fn number(s: Seq<char>) -> nat
    decreases s.len(),
{
    if s.len() == 0 {
        0
    } else {
        number(s.drop_last()) * 10 + digit_value(s.last())
    }
}

/// Whether `s` is written as `decimal` writes a number: one digit at
/// least, digits only, and no leading zero before another digit.
pub open spec fn well_written(s: Seq<char>) -> bool {
    &&& s.len() >= 1
    &&& forall|i: int| 0 <= i < s.len() ==> digit_value(#[trigger] s[i]) < 10
    &&& s.len() > 1 ==> s[0] != '0'
}

/// What `decimal` writes is well written and stands for the number written.
pub proof fn lemma_decimal_reads_back(n: nat)
    ensures
        well_written(decimal(n)),
        number(decimal(n)) == n,
        n >= 1 ==> decimal(n)[0] != '0',
    decreases n,
{
    if n < 10 {
        let s = decimal(n);
        assert(s.drop_last() =~= Seq::<char>::empty());
        assert(number(s.drop_last()) == 0);
    } else {
        lemma_decimal_reads_back(n / 10);
        let t = decimal(n / 10);
        let s = decimal(n);
        assert(s.drop_last() =~= t);
        assert(s[0] == t[0]);
    }
}

/// A well written text that begins with another digit than zero stands for
/// a number above zero.
proof fn lemma_number_positive(s: Seq<char>)
    requires
        well_written(s),
        s[0] != '0',
    ensures
        number(s) >= 1,
    decreases s.len(),
{
    if s.len() > 1 {
        let t = s.drop_last();
        assert(t[0] == s[0]);
        assert forall|i: int| 0 <= i < t.len() implies digit_value(#[trigger] t[i]) < 10 by {
            assert(t[i] == s[i]);
        }
        lemma_number_positive(t);
    } else {
        assert(s.drop_last() =~= Seq::<char>::empty());
        assert(number(s.drop_last()) == 0);
    }
}

/// A well written text is what `decimal` writes for the number it stands
/// for.
pub proof fn lemma_well_written_is_decimal(s: Seq<char>)
    requires
        well_written(s),
    ensures
        decimal(number(s)) == s,
    decreases s.len(),
{
    let t = s.drop_last();
    let c = s.last();
    assert(digit(digit_value(c)) == c);
    if s.len() == 1 {
        assert(t =~= Seq::<char>::empty());
        assert(number(t) == 0);
        assert(s =~= seq![c]);
    } else {
        assert(t[0] == s[0]);
        assert forall|i: int| 0 <= i < t.len() implies digit_value(#[trigger] t[i]) < 10 by {
            assert(t[i] == s[i]);
        }
        lemma_well_written_is_decimal(t);
        lemma_number_positive(t);
        let n = number(s);
        assert(n / 10 == number(t) && n % 10 == digit_value(c)) by {
            assert(n == number(t) * 10 + digit_value(c));
        }
        assert(s =~= t.push(c));
    }
}

/// The number of a text does not fall when digits are added behind it.
pub proof fn lemma_number_grows(s: Seq<char>, k: int)
    requires
        0 <= k <= s.len(),
    ensures
        number(s.take(k)) <= number(s),
    decreases s.len() - k,
{
    if k < s.len() {
        lemma_number_grows(s, k + 1);
        assert(s.take(k + 1).drop_last() == s.take(k));
    } else {
        assert(s.take(k) == s);
    }
}

/// Appends one digit to `text`.
fn push_digit(text: &mut String, d: u64)
    requires
        d < 10,
    ensures
        final(text)@ == old(text)@.push(digit(d as nat)),
{
    proof {
        reveal_strlit("0");
        reveal_strlit("1");
        reveal_strlit("2");
        reveal_strlit("3");
        reveal_strlit("4");
        reveal_strlit("5");
        reveal_strlit("6");
        reveal_strlit("7");
        reveal_strlit("8");
        reveal_strlit("9");
    }
    let ghost before = text@;
    if d == 0 {
        text.append("0");
    } else if d == 1 {
        text.append("1");
    } else if d == 2 {
        text.append("2");
    } else if d == 3 {
        text.append("3");
    } else if d == 4 {
        text.append("4");
    } else if d == 5 {
        text.append("5");
    } else if d == 6 {
        text.append("6");
    } else if d == 7 {
        text.append("7");
    } else if d == 8 {
        text.append("8");
    } else {
        text.append("9");
    }
    assert(text@ =~= before.push(digit(d as nat)));
}

/// Appends the decimal digits of `n` to `text`.
pub fn push_decimal(text: &mut String, n: u64)
    ensures
        final(text)@ == old(text)@ + decimal(n as nat),
    decreases n,
{
    let ghost before = text@;
    if n >= 10 {
        push_decimal(text, n / 10);
    }
    push_digit(text, n % 10);
    assert(text@ =~= before + decimal(n as nat));
}

/// The decimal digits of `n` as a string.
pub fn to_decimal(n: u64) -> (text: String)
    ensures
        text@ == decimal(n as nat),
{
    let mut text = String::new();
    push_decimal(&mut text, n);
    assert(text@ =~= decimal(n as nat));
    text
}

/// The number that a digit stands for, or ten for any other character.
fn value_of(c: char) -> (v: u64)
    ensures
        v == digit_value(c),
{
    if c == '0' {
        0
    } else if c == '1' {
        1
    } else if c == '2' {
        2
    } else if c == '3' {
        3
    } else if c == '4' {
        4
    } else if c == '5' {
        5
    } else if c == '6' {
        6
    } else if c == '7' {
        7
    } else if c == '8' {
        8
    } else if c == '9' {
        9
    } else {
        10
    }
}

/// What a text stands for where it is a well written number that fits 32
/// bits.
pub open spec fn parsed(s: Seq<char>) -> Option<u32> {
    if well_written(s) && number(s) <= u32::MAX {
        Some(number(s) as u32)
    } else {
        None
    }
}

/// Reads the characters of `chars` from `from` on as a number.
pub fn parse_decimal(chars: &Vec<char>, from: usize) -> (n: Option<u32>)
    requires
        from <= chars.len(),
    ensures
        n == parsed(chars@.skip(from as int)),
{
    let ghost s = chars@.skip(from as int);
    if from == chars.len() {
        return None;
    }
    if chars.len() - from > 1 && chars[from] == '0' {
        assert(s[0] == '0');
        return None;
    }
    let mut value: u64 = 0;
    let mut i: usize = from;
    while i < chars.len()
        invariant
            from <= i <= chars.len(),
            s == chars@.skip(from as int),
            value == number(s.take(i - from)),
            value <= u32::MAX,
            forall|k: int| 0 <= k < i - from ==> digit_value(#[trigger] s[k]) < 10,
        decreases chars.len() - i,
    {
        let v = value_of(chars[i]);
        if v >= 10 {
            assert(digit_value(s[i - from]) >= 10);
            return None;
        }
        proof {
            assert(s.take(i - from + 1).drop_last() == s.take(i - from));
            assert(s.take(i - from + 1).last() == chars@[i as int]);
        }
        value = value * 10 + v;
        if value > 0xffff_ffff {
            proof {
                lemma_number_grows(s, i - from + 1);
            }
            return None;
        }
        i = i + 1;
    }
    proof {
        assert(s.take(i - from) == s);
    }
    Some(value as u32)
}

} // verus!
