//! Text helpers: characters of a string, decimal rendering and decimal parsing.

use vstd::prelude::*;
use vstd::std_specs::iter::IteratorSpec;

verus! {

/// Taken on trust from the standard library's documentation, not proved:
/// `String::push` appends the character to the end of the string and changes
/// nothing else of it.
pub assume_specification[ std::string::String::push ](s: &mut std::string::String, c: char)
    ensures
        final(s)@ == old(s)@.push(c),
;

/// The form in which the standard library's `Debug` shows a string: between
/// double quotes, with quotes, backslashes and unprintable characters escaped.
/// The escaping rules are the standard library's and are not restated here.
pub uninterp spec fn debug_quoted(s: Seq<char>) -> Seq<char>;

/// Taken on trust, not proved: `format!("{:?}", s)` on a string slice gives a
/// text that depends on the characters of the slice alone, which is the text
/// that `debug_quoted` names. Nothing more is claimed of it.
#[verifier::external_body]
pub(crate) fn debug_string(s: &str) -> (r: String)
    ensures
        r@ == debug_quoted(s@),
{
    format!("{:?}", s)
}

/// The decimal digit character for a value below ten.
pub open spec fn digit_char(d: int) -> char {
    if d == 0 {
        '0'
    } else if d == 1 {
        '1'
    } else if d == 2 {
        '2'
    } else if d == 3 {
        '3'
    } else if d == 4 {
        '4'
    } else if d == 5 {
        '5'
    } else if d == 6 {
        '6'
    } else if d == 7 {
        '7'
    } else if d == 8 {
        '8'
    } else {
        '9'
    }
}

/// The value of a decimal digit character, if it is one.
pub open spec fn digit_value(c: char) -> Option<int> {
    if c == '0' {
        Some(0)
    } else if c == '1' {
        Some(1)
    } else if c == '2' {
        Some(2)
    } else if c == '3' {
        Some(3)
    } else if c == '4' {
        Some(4)
    } else if c == '5' {
        Some(5)
    } else if c == '6' {
        Some(6)
    } else if c == '7' {
        Some(7)
    } else if c == '8' {
        Some(8)
    } else if c == '9' {
        Some(9)
    } else {
        None
    }
}

/// Decimal digits of a natural number, most significant first, without leading zeros.
pub open spec fn nat_text(n: nat) -> Seq<char>
    decreases n,
{
    if n < 10 {
        seq![digit_char(n as int)]
    } else {
        nat_text(n / 10).push(digit_char((n % 10) as int))
    }
}

/// Decimal text of an integer: a minus sign for negative numbers, then the digits.
pub open spec fn int_text(i: int) -> Seq<char> {
    if i < 0 {
        seq!['-'] + nat_text((-i) as nat)
    } else {
        nat_text(i as nat)
    }
}

/// The number that a run of decimal digits denotes; `None` if a character is no digit.
/// The empty run denotes zero.
pub open spec fn digits_value(s: Seq<char>) -> Option<nat>
    decreases s.len(),
{
    if s.len() == 0 {
        Some(0)
    } else {
        match (digits_value(s.drop_last()), digit_value(s.last())) {
            (Some(high), Some(d)) => Some((high * 10 + d) as nat),
            _ => None,
        }
    }
}

/// What a word denotes as a signed 64-bit integer in base ten: an optional `+` or `-`,
/// then at least one digit and nothing else, the value within the range of `i64`.
pub open spec fn parse_int(s: Seq<char>) -> Option<i64> {
    if s.len() == 0 {
        None
    } else {
        let negative = s[0] == '-';
        let body = if s[0] == '-' || s[0] == '+' {
            s.drop_first()
        } else {
            s
        };
        if body.len() == 0 {
            None
        } else {
            match digits_value(body) {
                Some(m) => {
                    let v = if negative {
                        -(m as int)
                    } else {
                        m as int
                    };
                    if i64::MIN <= v <= i64::MAX {
                        Some(v as i64)
                    } else {
                        None
                    }
                },
                None => None,
            }
        }
    }
}

/// The characters of a string slice, in order.
pub fn chars_of(s: &str) -> (v: Vec<char>)
    ensures
        v@ == s@,
{
    let mut v: Vec<char> = Vec::new();
    for c in it: s.chars()
        invariant
            v@ == it.seq().take(it.index() as int),
            it.seq() == s@,
    {
        v.push(c);
    }
    v
}

/// The string made of `v[from..to]`.
pub fn text_of(v: &Vec<char>, from: usize, to: usize) -> (s: String)
    requires
        from <= to <= v.len(),
    ensures
        s@ == v@.subrange(from as int, to as int),
{
    let mut s = String::new();
    let mut i: usize = from;
    while i < to
        invariant
            from <= i <= to <= v.len(),
            s@ == v@.subrange(from as int, i as int),
        decreases to - i,
    {
        s.push(v[i]);
        i += 1;
    }
    s
}

/// Whether two string slices hold the same characters.
pub fn same_text(a: &str, b: &str) -> (r: bool)
    ensures
        r == (a@ == b@),
{
    let mut rest = b.chars();
    for c in it: a.chars()
        invariant
            it.seq() == a@,
            it.index() <= b@.len(),
            rest.remaining() == b@.skip(it.index() as int),
            a@.take(it.index() as int) == b@.take(it.index() as int),
    {
        let ghost i = it.index() as int;
        match rest.next() {
            None => {
                assert(b@.len() == i);
                assert(a@.len() > b@.len());
                return false;
            },
            Some(d) => {
                assert(c == a@[i]);
                assert(d == b@[i]);
                if c != d {
                    assert(a@[i] != b@[i]);
                    return false;
                }
                assert(b@.skip(i).drop_first() =~= b@.skip(i + 1));
                assert(a@.take(i + 1) =~= a@.take(i).push(c));
                assert(b@.take(i + 1) =~= b@.take(i).push(d));
            },
        }
    }
    let ghost n = a@.len() as int;
    assert(a@.take(n) =~= a@);
    match rest.next() {
        None => {
            assert(b@.len() == n);
            assert(b@.take(n) =~= b@);
            true
        },
        Some(_) => {
            assert(b@.len() > n);
            false
        },
    }
}

/// The digit character of a value below ten.
pub fn digit_to_char(d: u64) -> (c: char)
    requires
        d < 10,
    ensures
        c == digit_char(d as int),
{
    if d == 0 {
        '0'
    } else if d == 1 {
        '1'
    } else if d == 2 {
        '2'
    } else if d == 3 {
        '3'
    } else if d == 4 {
        '4'
    } else if d == 5 {
        '5'
    } else if d == 6 {
        '6'
    } else if d == 7 {
        '7'
    } else if d == 8 {
        '8'
    } else {
        '9'
    }
}

/// The value of a digit character, or `None` for any other character.
pub fn char_to_digit(c: char) -> (d: Option<u64>)
    ensures
        match d {
            Some(x) => digit_value(c) == Some(x as int) && x < 10,
            None => digit_value(c) is None,
        },
{
    if c == '0' {
        Some(0)
    } else if c == '1' {
        Some(1)
    } else if c == '2' {
        Some(2)
    } else if c == '3' {
        Some(3)
    } else if c == '4' {
        Some(4)
    } else if c == '5' {
        Some(5)
    } else if c == '6' {
        Some(6)
    } else if c == '7' {
        Some(7)
    } else if c == '8' {
        Some(8)
    } else if c == '9' {
        Some(9)
    } else {
        None
    }
}

/// Appends the decimal digits of `n` to `out`.
pub fn push_nat(n: u64, out: &mut String)
    ensures
        final(out)@ == old(out)@ + nat_text(n as nat),
    decreases n,
{
    if n >= 10 {
        push_nat(n / 10, out);
    }
    out.push(digit_to_char(n % 10));
}

/// Appends the decimal text of `i` to `out`.
pub fn push_int(i: i64, out: &mut String)
    ensures
        final(out)@ == old(out)@ + int_text(i as int),
{
    if i < 0 {
        out.push('-');
        let magnitude: u64 = (-(i + 1)) as u64 + 1;
        push_nat(magnitude, out);
    } else {
        push_nat(i as u64, out);
    }
}

/// The decimal text of a signed integer.
pub fn int_to_string(i: i64) -> (s: String)
    ensures
        s@ == int_text(i as int),
{
    let mut s = String::new();
    push_int(i, &mut s);
    s
}

/// A run of digits has a value exactly when each of its prefixes has one, and a
/// prefix never denotes more than the whole run.
pub proof fn lemma_digits_prefix(s: Seq<char>, k: int)
    requires
        0 <= k <= s.len(),
    ensures
        digits_value(s) is Some ==> digits_value(s.take(k)) is Some && digits_value(
            s.take(k),
        )->0 <= digits_value(s)->0,
    decreases s.len(),
{
    if k == s.len() {
        assert(s.take(k) =~= s);
    } else {
        lemma_digits_prefix(s.drop_last(), k);
        assert(s.drop_last().take(k) =~= s.take(k));
    }
}

/// A run of digits with one more digit has ten times the value, plus the digit.
pub proof fn lemma_digits_push(s: Seq<char>, c: char)
    ensures
        digits_value(s.push(c)) == match (digits_value(s), digit_value(c)) {
            (Some(high), Some(d)) => Some((high * 10 + d) as nat),
            _ => None,
        },
{
    assert(s.push(c).drop_last() =~= s);
}

/// The decimal digits of a number are at least one, are digits, and denote it.
pub proof fn lemma_nat_text(n: nat)
    ensures
        nat_text(n).len() >= 1,
        digits_value(nat_text(n)) == Some(n),
        forall|i: int| 0 <= i < nat_text(n).len() ==> digit_value(#[trigger] nat_text(n)[i]) is Some,
    decreases n,
{
    if n < 10 {
        lemma_digits_push(Seq::empty(), digit_char(n as int));
    } else {
        lemma_nat_text(n / 10);
        lemma_digits_push(nat_text(n / 10), digit_char((n % 10) as int));
    }
}

/// Reading back the decimal text of a signed 64-bit integer gives the integer.
pub proof fn law_parse_int_text(i: i64)
    ensures
        parse_int(int_text(i as int)) == Some(i),
{
    if i < 0 {
        let digits = nat_text((-i) as nat);
        lemma_nat_text((-i) as nat);
        assert(int_text(i as int).drop_first() =~= digits);
    } else {
        lemma_nat_text(i as nat);
        let digits = nat_text(i as nat);
    }
}

/// The integer that `v[from..to]` denotes in base ten, if it denotes one.
pub fn parse_int_chars(v: &Vec<char>, from: usize, to: usize) -> (r: Option<i64>)
    requires
        from <= to <= v.len(),
    ensures
        r == parse_int(v@.subrange(from as int, to as int)),
{
    let ghost word = v@.subrange(from as int, to as int);
    if from == to {
        return None;
    }
    let first = v[from];
    let negative = first == '-';
    let start: usize = if first == '-' || first == '+' {
        from + 1
    } else {
        from
    };
    let ghost body = v@.subrange(start as int, to as int);
    assert(body =~= if word[0] == '-' || word[0] == '+' {
        word.drop_first()
    } else {
        word
    });
    if start == to {
        return None;
    }
    let limit: u64 = if negative {
        9223372036854775808
    } else {
        9223372036854775807
    };
    let mut acc: u64 = 0;
    let mut i: usize = start;
    while i < to
        invariant
            start <= i <= to <= v.len(),
            body == v@.subrange(start as int, to as int),
            digits_value(body.take(i - start)) == Some(acc as nat),
            acc <= limit,
            9223372036854775807 <= limit <= 9223372036854775808,
            body.len() > 0,
            word == v@.subrange(from as int, to as int),
            parse_int(word) == match digits_value(body) {
                Some(m) => if m <= limit {
                    Some(
                        (if negative {
                            -(m as int)
                        } else {
                            m as int
                        }) as i64,
                    )
                } else {
                    None
                },
                None => None,
            },
            negative ==> limit == 9223372036854775808,
            !negative ==> limit == 9223372036854775807,
        decreases to - i,
    {
        let ghost next = body.take(i - start + 1);
        assert(next.drop_last() =~= body.take(i - start));
        proof {
            lemma_digits_prefix(body, i - start + 1);
        }
        match char_to_digit(v[i]) {
            None => {
                return None;
            },
            Some(d) => {
                if acc > (limit - d) / 10 {
                    return None;
                }
                acc = acc * 10 + d;
            },
        }
        i += 1;
    }
    assert(body.take(to - start) =~= body);
    if negative {
        if acc == 9223372036854775808 {
            Some(i64::MIN)
        } else {
            Some(-(acc as i64))
        }
    } else {
        Some(acc as i64)
    }
}

} // verus!
