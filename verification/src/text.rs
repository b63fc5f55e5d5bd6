//! Text of numbers: writing them in a given base, and reading them back.

use vstd::prelude::*;
use vstd::string::*;

verus! {

/// The character that stands for the digit `d` (lower case above nine).
pub open spec fn digit_char(d: nat) -> char {
    if d < 10 {
        (48 + d) as char
    } else {
        (87 + d) as char
    }
}

/// `n` written in base `base`, most significant digit first, without leading zeros.
pub open spec fn digits(n: nat, base: nat) -> Seq<char>
    decreases n,
{
    if base < 2 || n < base {
        seq![digit_char(n)]
    } else {
        proof {
            lemma_quotient_shrinks(n, base);
        }
        digits(n / base, base).push(digit_char(n % base))
    }
}

pub proof fn lemma_quotient_shrinks(n: nat, base: nat)
    requires
        base >= 2,
        n >= base,
    ensures
        n / base < n,
{
    assert(n / base < n) by (nonlinear_arith)
        requires
            n >= base,
            base >= 2,
    ;
}

/// `n` written in decimal, with a minus sign where it is negative.
pub open spec fn decimal(n: int) -> Seq<char> {
    if n < 0 {
        seq!['-'] + digits((-n) as nat, 10)
    } else {
        digits(n as nat, 10)
    }
}

/// `width` zeros less the length of `s`, then `s`.
pub open spec fn zero_padded(s: Seq<char>, width: nat) -> Seq<char> {
    if s.len() < width {
        Seq::new((width - s.len()) as nat, |i: int| '0') + s
    } else {
        s
    }
}

/// `s` moved to the right end of a field of `width` characters.
pub open spec fn right_aligned(s: Seq<char>, width: nat) -> Seq<char> {
    if s.len() < width {
        Seq::new((width - s.len()) as nat, |i: int| ' ') + s
    } else {
        s
    }
}

/// Whether `c` is a decimal digit.
pub open spec fn is_digit(c: char) -> bool {
    48 <= c as int <= 57
}

/// Whether `s` is a non-empty run of decimal digits.
pub open spec fn all_digits(s: Seq<char>) -> bool {
    s.len() > 0 && forall|i: int| 0 <= i < s.len() ==> is_digit(#[trigger] s[i])
}

/// The number that a run of decimal digits denotes.
pub open spec fn digits_value(s: Seq<char>) -> int
    decreases s.len(),
{
    if s.len() == 0 {
        0
    } else {
        digits_value(s.drop_last()) * 10 + (s.last() as int - 48)
    }
}

/// `s` without a leading plus sign.
pub open spec fn without_plus(s: Seq<char>) -> Seq<char> {
    if s.len() > 0 && s[0] == '+' {
        s.skip(1)
    } else {
        s
    }
}

/// The unsigned number up to `max` that `s` denotes: decimal digits, with an optional plus sign.
pub open spec fn unsigned_of(s: Seq<char>, max: int) -> Option<int> {
    let body = without_plus(s);
    if all_digits(body) && digits_value(body) <= max {
        Some(digits_value(body))
    } else {
        None
    }
}

/// The `i64` that `s` denotes: decimal digits, with an optional sign.
pub open spec fn signed_of(s: Seq<char>) -> Option<int> {
    if s.len() > 0 && s[0] == '-' {
        let body = s.skip(1);
        if all_digits(body) && -digits_value(body) >= i64::MIN {
            Some(-digits_value(body))
        } else {
            None
        }
    } else {
        unsigned_of(s, i64::MAX as int)
    }
}

/// Whether two texts are equal.
pub fn same_text(a: &str, b: &str) -> (r: bool)
    ensures
        r == (a@ == b@),
{
    a.to_owned() == b.to_owned()
}

/// The characters of a text.
pub fn chars_of(s: &str) -> (r: Vec<char>)
    ensures
        r@ == s@,
{
    let mut r: Vec<char> = Vec::new();
    for c in it: s.chars()
        invariant
            it.seq() == s@,
            r@ == s@.take(it.index()),
    {
        assert(s@.take(it.index() + 1) == s@.take(it.index()).push(c));
        r.push(c);
    }
    assert(s@.take(s@.len() as int) == s@);
    r
}

fn digit_text(d: u64) -> (s: &'static str)
    requires
        d < 16,
    ensures
        s@ == seq![digit_char(d as nat)],
{
    proof {
        reveal_strlit("0");
        reveal_strlit("1");
        reveal_strlit("2");
        reveal_strlit("3");
        reveal_strlit("4");
        reveal_strlit("5");
        reveal_strlit("6");
        reveal_strlit("7");
        reveal_strlit("8");
        reveal_strlit("9");
        reveal_strlit("a");
        reveal_strlit("b");
        reveal_strlit("c");
        reveal_strlit("d");
        reveal_strlit("e");
        reveal_strlit("f");
    }
    match d {
        0 => "0",
        1 => "1",
        2 => "2",
        3 => "3",
        4 => "4",
        5 => "5",
        6 => "6",
        7 => "7",
        8 => "8",
        9 => "9",
        10 => "a",
        11 => "b",
        12 => "c",
        13 => "d",
        14 => "e",
        _ => "f",
    }
}

/// Appends `n` in base `base`.
pub fn push_digits(out: &mut String, n: u64, base: u64)
    requires
        2 <= base <= 16,
    ensures
        final(out)@ == old(out)@ + digits(n as nat, base as nat),
    decreases n,
{
    if n >= base {
        proof {
            lemma_quotient_shrinks(n as nat, base as nat);
        }
        push_digits(out, n / base, base);
        out.append(digit_text(n % base));
        assert(out@ =~= old(out)@ + digits(n as nat, base as nat));
    } else {
        out.append(digit_text(n));
    }
}

/// How many digits `n` has in base `base`.
fn digit_count(n: u64, base: u64) -> (k: u64)
    requires
        2 <= base <= 16,
    ensures
        k == digits(n as nat, base as nat).len(),
        1 <= k <= n / 2 + 1,
    decreases n,
{
    if n >= base {
        proof {
            lemma_quotient_shrinks(n as nat, base as nat);
            assert(n / base <= n / 2) by (nonlinear_arith)
                requires
                    base >= 2,
            ;
        }
        digit_count(n / base, base) + 1
    } else {
        1
    }
}

/// Appends `n` in base `base`, filled up with zeros on the left to `width` digits.
pub fn push_zero_padded(out: &mut String, n: u64, base: u64, width: u64)
    requires
        2 <= base <= 16,
    ensures
        final(out)@ == old(out)@ + zero_padded(digits(n as nat, base as nat), width as nat),
{
    let count: u64 = digit_count(n, base);
    let ghost body = digits(n as nat, base as nat);
    let mut k: u64 = count;
    proof {
        reveal_strlit("0");
    }
    while k < width
        invariant
            count == body.len(),
            count <= k,
            k <= width || k == count,
            out@ == old(out)@ + Seq::new((k - count) as nat, |i: int| '0'),
            "0"@ == seq!['0'],
        decreases width - k,
    {
        out.append("0");
        k = k + 1;
        assert(out@ =~= old(out)@ + Seq::new((k - count) as nat, |i: int| '0'));
    }
    push_digits(out, n, base);
    assert(out@ =~= old(out)@ + zero_padded(body, width as nat));
}

/// How many characters `n` has in decimal.
fn decimal_len(n: i64) -> (k: u64)
    ensures
        k == decimal(n as int).len(),
{
    if n < 0 {
        let magnitude: u64 = (-(n + 1)) as u64 + 1;
        digit_count(magnitude, 10) + 1
    } else {
        digit_count(n as u64, 10)
    }
}

/// Appends as many spaces as a text of `count` characters lacks to fill `width`.
fn push_filler(out: &mut String, count: u64, width: u64)
    ensures
        final(out)@ == old(out)@ + Seq::new(
            (if count < width {
                width - count
            } else {
                0
            }) as nat,
            |i: int| ' ',
        ),
{
    let mut k: u64 = count;
    proof {
        reveal_strlit(" ");
    }
    assert(out@ =~= old(out)@ + Seq::new(0, |i: int| ' '));
    while k < width
        invariant
            count <= k,
            k <= width || k == count,
            out@ == old(out)@ + Seq::new((k - count) as nat, |i: int| ' '),
            " "@ == seq![' '],
        decreases width - k,
    {
        out.append(" ");
        k = k + 1;
        assert(out@ =~= old(out)@ + Seq::new((k - count) as nat, |i: int| ' '));
    }
}

/// Appends `n` in decimal, moved to the right end of a field of `width` characters.
pub fn push_right_aligned(out: &mut String, n: i64, width: u64)
    ensures
        final(out)@ == old(out)@ + right_aligned(decimal(n as int), width as nat),
{
    push_filler(out, decimal_len(n), width);
    push_i64(out, n);
    assert(out@ =~= old(out)@ + right_aligned(decimal(n as int), width as nat));
}

/// Appends `n` in decimal, moved to the right end of a field of `width` characters.
pub fn push_right_aligned_u64(out: &mut String, n: u64, width: u64)
    ensures
        final(out)@ == old(out)@ + right_aligned(decimal(n as int), width as nat),
{
    push_filler(out, digit_count(n, 10), width);
    push_u64(out, n);
    assert(out@ =~= old(out)@ + right_aligned(decimal(n as int), width as nat));
}

/// Appends `n` in decimal.
pub fn push_u64(out: &mut String, n: u64)
    ensures
        final(out)@ == old(out)@ + decimal(n as int),
{
    push_digits(out, n, 10);
}

/// Appends `n` in decimal.
pub fn push_i64(out: &mut String, n: i64)
    ensures
        final(out)@ == old(out)@ + decimal(n as int),
{
    if n < 0 {
        proof {
            reveal_strlit("-");
        }
        out.append("-");
        let magnitude: u64 = (-(n + 1)) as u64 + 1;
        push_digits(out, magnitude, 10);
        assert(old(out)@ + seq!['-'] + digits(magnitude as nat, 10) =~= old(out)@ + (seq!['-']
            + digits(magnitude as nat, 10)));
    } else {
        push_digits(out, n as u64, 10);
    }
}

/// A longer run of digits never denotes less.
proof fn lemma_value_grows(s: Seq<char>, k: int)
    requires
        0 <= k <= s.len(),
        forall|i: int| 0 <= i < s.len() ==> is_digit(#[trigger] s[i]),
    ensures
        0 <= digits_value(s.take(k)) <= digits_value(s),
    decreases s.len(),
{
    if s.len() > 0 {
        assert forall|i: int| 0 <= i < s.len() - 1 implies is_digit(#[trigger] s.drop_last()[i]) by {
            assert(s.drop_last()[i] == s[i]);
        }
        if k == s.len() {
            assert(s.take(k) =~= s);
            lemma_value_grows(s.drop_last(), 0);
        } else {
            assert(s.take(k) =~= s.drop_last().take(k));
            lemma_value_grows(s.drop_last(), k);
        }
        assert(is_digit(s[s.len() - 1]));
    } else {
        assert(s.take(k) =~= s);
    }
}

/// The code point of a character.
fn code_of(c: char) -> (r: u32)
    ensures
        r == c as int,
{
    c as u32
}

/// The number up to `max` that the characters from `from` on denote, as a run of digits.
fn parse_run(s: &Vec<char>, from: usize, max: u64) -> (r: Option<u64>)
    requires
        from <= s@.len(),
    ensures
        r == (if all_digits(s@.skip(from as int)) && digits_value(s@.skip(from as int)) <= max {
            Some(digits_value(s@.skip(from as int)) as u64)
        } else {
            None
        }),
{
    let ghost body = s@.skip(from as int);
    if from == s.len() {
        return None;
    }
    let mut acc: u64 = 0;
    let mut i: usize = from;
    while i < s.len()
        invariant
            from <= i <= s@.len(),
            body == s@.skip(from as int),
            forall|j: int| 0 <= j < i - from ==> is_digit(#[trigger] body[j]),
            acc == digits_value(body.take(i - from)),
            acc <= max,
        decreases s@.len() - i,
    {
        let c: u32 = code_of(s[i]);
        assert(body[i - from] == s@[i as int]);
        if c < 48 || c > 57 {
            assert(!all_digits(body)) by {
                assert(!is_digit(body[i - from]));
            }
            return None;
        }
        let next: u128 = acc as u128 * 10 + (c as u128 - 48);
        proof {
            let longer = body.take(i - from + 1);
            assert(longer.drop_last() =~= body.take(i - from));
            assert(longer.last() == body[i - from]);
            assert(next == digits_value(longer));
        }
        if next > max as u128 {
            proof {
                if all_digits(body) {
                    lemma_value_grows(body, i - from + 1);
                }
            }
            return None;
        }
        acc = next as u64;
        i = i + 1;
    }
    assert(body.take(i - from) =~= body);
    Some(acc)
}

/// Reads an unsigned number up to `max`.
pub fn parse_unsigned(s: &Vec<char>, max: u64) -> (r: Option<u64>)
    ensures
        r.is_some() == unsigned_of(s@, max as int).is_some(),
        r.is_some() ==> r.unwrap() == unsigned_of(s@, max as int).unwrap(),
{
    let from: usize = if s.len() > 0 && s[0] == '+' {
        1
    } else {
        0
    };
    assert(s@.skip(from as int) =~= without_plus(s@));
    proof {
        if all_digits(without_plus(s@)) {
            lemma_value_grows(without_plus(s@), 0);
        }
    }
    parse_run(s, from, max)
}

/// Reads an `i64`.
pub fn parse_signed(s: &Vec<char>) -> (r: Option<i64>)
    ensures
        r.is_some() == signed_of(s@).is_some(),
        r.is_some() ==> r.unwrap() == signed_of(s@).unwrap(),
{
    if s.len() > 0 && s[0] == '-' {
        proof {
            if all_digits(s@.skip(1)) {
                lemma_value_grows(s@.skip(1), 0);
            }
        }
        match parse_run(s, 1, 0x8000_0000_0000_0000) {
            Some(0) => Some(0),
            Some(v) => Some(-((v - 1) as i64) - 1),
            None => None,
        }
    } else {
        match parse_unsigned(s, 0x7fff_ffff_ffff_ffff) {
            Some(v) => Some(v as i64),
            None => None,
        }
    }
}

/// Digits written in decimal are digits, and denote the number written.
pub proof fn law_digits_round_trip(n: nat)
    ensures
        all_digits(digits(n, 10)),
        digits_value(digits(n, 10)) == n,
    decreases n,
{
    if n < 10 {
        assert(digits(n, 10).drop_last() =~= Seq::empty());
        assert(digits_value(digits(n, 10)) == digits_value(digits(n, 10).drop_last()) * 10 + n);
    } else {
        law_digits_round_trip(n / 10);
        let rest = digits(n / 10, 10);
        assert(digits(n, 10).drop_last() =~= rest);
    }
}

/// What is written as an `i64` is read back as the same number.
pub proof fn law_signed_round_trip(n: i64)
    ensures
        signed_of(decimal(n as int)) == Some(n as int),
{
    if n < 0 {
        law_digits_round_trip((-n) as nat);
        assert(decimal(n as int).skip(1) =~= digits((-n) as nat, 10));
    } else {
        law_digits_round_trip(n as nat);
        assert(is_digit(digits(n as nat, 10)[0]));
        assert(without_plus(decimal(n as int)) =~= digits(n as nat, 10));
    }
}

/// What is written as an unsigned number is read back as the same number.
pub proof fn law_unsigned_round_trip(n: nat, max: int)
    requires
        n <= max,
    ensures
        unsigned_of(decimal(n as int), max) == Some(n as int),
{
    law_digits_round_trip(n);
    assert(is_digit(digits(n, 10)[0]));
    assert(without_plus(decimal(n as int)) =~= digits(n, 10));
}

/// A number read is one that fits: a run of digits denotes no negative number, and what a signed
/// text denotes is in the range of the type.
pub proof fn lemma_signed_fits(s: Seq<char>)
    requires
        signed_of(s).is_some(),
    ensures
        i64::MIN <= signed_of(s).unwrap() <= i64::MAX,
{
    if s.len() > 0 && s[0] == '-' {
        lemma_value_not_negative(s.skip(1));
    } else {
        lemma_value_not_negative(without_plus(s));
    }
}

proof fn lemma_value_not_negative(s: Seq<char>)
    requires
        forall|i: int| 0 <= i < s.len() ==> is_digit(#[trigger] s[i]),
    ensures
        digits_value(s) >= 0,
    decreases s.len(),
{
    if s.len() > 0 {
        let rest = s.drop_last();
        assert forall|i: int| 0 <= i < rest.len() implies is_digit(#[trigger] rest[i]) by {
            assert(rest[i] == s[i]);
        }
        lemma_value_not_negative(rest);
        assert(is_digit(s[s.len() - 1]));
    }
}

/// The digits of a number in any base of at least two: those of a larger number are those of its
/// quotient by the base, then that of the remainder; the first of several is no zero. The
/// characters are `0` to `9`, then `a` on.
pub proof fn law_digits_of_a_number(n: nat, d: nat, base: nat)
    requires
        base >= 2,
        d < base,
    ensures
        n > 0 ==> digits(n * base + d, base) == digits(n, base).push(digit_char(d)),
        digits(d, base) == seq![digit_char(d)],
        d < 10 ==> digit_char(d) as int == '0' as int + d,
        10 <= d < 16 ==> digit_char(d) as int == 'a' as int + d - 10,
{
    if n > 0 {
        let m = n * base + d;
        assert(m >= base && m / base == n && m % base == d) by (nonlinear_arith)
            requires
                n >= 1,
                base >= 2,
                d < base,
                m == n * base + d,
        ;
    }
}

/// No number is written with a zero in front, but zero itself.
pub proof fn law_no_leading_zero(n: nat, base: nat)
    requires
        2 <= base <= 16,
        n > 0,
    ensures
        digits(n, base).len() > 0,
        digits(n, base)[0] != '0',
    decreases n,
{
    if n >= base {
        lemma_quotient_shrinks(n, base);
        assert(n / base > 0) by (nonlinear_arith)
            requires
                n >= base,
                base >= 2,
        ;
        law_no_leading_zero(n / base, base);
    } else if n < 10 {
        assert(digit_char(n) as int == 48 + n);
    } else {
        assert(digit_char(n) as int == 87 + n);
    }
}

/// A further digit makes ten times the number and the digit.
pub proof fn law_value_of_digits(s: Seq<char>, c: char)
    ensures
        digits_value(Seq::empty()) == 0,
        digits_value(s.push(c)) == 10 * digits_value(s) + (c as int - '0' as int),
{
    assert(s.push(c).drop_last() =~= s);
}

/// Which texts are unsigned numbers. Digits alone are, where their value is at most the bound, and
/// a plus sign in front changes nothing. With a character other than a digit anywhere behind the
/// first place, or in the first place and no plus sign, or with no digit at all, a text is none.
pub proof fn law_unsigned_texts(s: Seq<char>, max: int, i: int)
    ensures
        s.len() > 0 && (forall|k: int| 0 <= k < s.len() ==> '0' <= #[trigger] s[k] <= '9')
            ==> unsigned_of(s, max) == (if digits_value(s) <= max {
            Some(digits_value(s))
        } else {
            None
        }) && unsigned_of(seq!['+'] + s, max) == unsigned_of(s, max),
        0 <= i < s.len() && (s[i] < '0' || s[i] > '9') && (i > 0 || s[i] != '+') ==> unsigned_of(
            s,
            max,
        ).is_none(),
        unsigned_of(Seq::empty(), max).is_none(),
        unsigned_of(seq!['+'], max).is_none(),
{
    if s.len() > 0 && (forall|k: int| 0 <= k < s.len() ==> '0' <= #[trigger] s[k] <= '9') {
        assert('0' <= s[0] <= '9');
        assert(without_plus(s) == s);
        assert(all_digits(s));
        assert((seq!['+'] + s).skip(1) =~= s);
    }
    if 0 <= i < s.len() && (s[i] < '0' || s[i] > '9') && (i > 0 || s[i] != '+') {
        let body = without_plus(s);
        if s[0] == '+' {
            assert(body[i - 1] == s[i]);
        } else {
            assert(body[i] == s[i]);
        }
        assert(!all_digits(body));
    }
    assert(!all_digits(without_plus(Seq::empty())));
    assert(seq!['+'].skip(1) =~= Seq::<char>::empty());
}

/// Which texts are signed numbers: the unsigned ones up to `2^63 - 1`, and a minus sign with digits
/// whose value is at most `2^63`.
pub proof fn law_signed_texts(s: Seq<char>)
    ensures
        s.len() == 0 || s[0] != '-' ==> signed_of(s) == unsigned_of(s, 0x7fff_ffff_ffff_ffff),
        s.len() > 0 && (forall|k: int| 0 <= k < s.len() ==> '0' <= #[trigger] s[k] <= '9')
            ==> signed_of(seq!['-'] + s) == (if digits_value(s) <= 0x8000_0000_0000_0000 {
            Some(-digits_value(s))
        } else {
            None
        }),
        !(s.len() > 0 && (forall|k: int| 0 <= k < s.len() ==> '0' <= #[trigger] s[k] <= '9'))
            ==> signed_of(seq!['-'] + s).is_none(),
{
    let m = seq!['-'] + s;
    assert(m.skip(1) =~= s);
    assert(m[0] == '-');
    if s.len() > 0 && (forall|k: int| 0 <= k < s.len() ==> '0' <= #[trigger] s[k] <= '9') {
        assert(all_digits(s));
    } else if s.len() > 0 {
        let k = choose|k: int| 0 <= k < s.len() && !('0' <= #[trigger] s[k] <= '9');
        assert(!is_digit(s[k]));
        assert(!all_digits(s));
    }
}

/// A number is written with a minus sign exactly where it is negative, in front of the digits of
/// its size.
pub proof fn law_decimal_sign(n: nat)
    ensures
        decimal(n as int) == digits(n, 10),
        n > 0 ==> decimal(-n) == seq!['-'] + digits(n, 10),
{
}

/// A field is at least as wide as asked for, ends in the text, and is filled in front of it with
/// zeros or blanks and nothing else.
pub proof fn law_fields_are_filled(s: Seq<char>, width: nat, i: int)
    ensures
        zero_padded(s, width).len() == (if s.len() < width {
            width
        } else {
            s.len()
        }),
        right_aligned(s, width).len() == zero_padded(s, width).len(),
        zero_padded(s, width).skip(zero_padded(s, width).len() - s.len()) == s,
        right_aligned(s, width).skip(right_aligned(s, width).len() - s.len()) == s,
        0 <= i < zero_padded(s, width).len() - s.len() ==> zero_padded(s, width)[i] == '0'
            && right_aligned(s, width)[i] == ' ',
{
    let z = zero_padded(s, width);
    let r = right_aligned(s, width);
    assert(z.skip(z.len() - s.len()) =~= s);
    assert(r.skip(r.len() - s.len()) =~= s);
}

} // verus!
