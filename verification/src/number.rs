//! Numbers written in text: decimal and hexadecimal.

use vstd::prelude::*;

verus! {

/// The decimal digit of value `d`.
pub open spec fn digit(d: nat) -> char {
    (48 + d) as char
}

/// `n` in decimal, without leading zeros.
pub open spec fn decimal(n: nat) -> Seq<char>
    decreases n,
{
    if n < 10 {
        seq![digit(n)]
    } else {
        decimal(n / 10).push(digit(n % 10))
    }
}

/// Writes `n` in decimal behind `out`.
pub fn push_decimal(out: &mut String, n: u64)
    ensures
        final(out)@ == old(out)@ + decimal(n as nat),
{
    push_wide_decimal(out, n as u128);
}

/// Writes `n` in decimal behind `out`.
pub fn push_wide_decimal(out: &mut String, n: u128)
    ensures
        final(out)@ == old(out)@ + decimal(n as nat),
    decreases n,
{
    if n >= 10 {
        push_wide_decimal(out, n / 10);
    }
    let d: u8 = (n % 10) as u8;
    out.push((48 + d) as char);
    assert(out@ =~= old(out)@ + decimal(n as nat));
}

/// `n` in decimal, with a zero in front where it has one digit only.
pub open spec fn two_digits(n: nat) -> Seq<char> {
    if n < 10 {
        seq!['0'] + decimal(n)
    } else {
        decimal(n)
    }
}

/// Writes `n` in decimal behind `out`, with at least two digits.
pub fn push_two_digits(out: &mut String, n: u64)
    ensures
        final(out)@ == old(out)@ + two_digits(n as nat),
{
    if n < 10 {
        out.push('0');
    }
    push_decimal(out, n);
    assert(out@ =~= old(out)@ + two_digits(n as nat));
}

/// `c` is a decimal digit.
pub open spec fn is_digit(c: char) -> bool {
    '0' <= c <= '9'
}

/// `s` holds decimal digits only.
pub open spec fn all_digits(s: Seq<char>) -> bool {
    forall|i: int| 0 <= i < s.len() ==> is_digit(#[trigger] s[i])
}

/// The number that the decimal digits `s` write.
pub open spec fn digits_value(s: Seq<char>) -> nat
    decreases s.len(),
{
    if s.len() == 0 {
        0
    } else {
        digits_value(s.drop_last()) * 10 + (s.last() as nat - 48) as nat
    }
}

/// The unsigned number up to `max` that `s` writes: decimal digits, at least
/// one, with an optional plus sign in front.
pub open spec fn number_spec(s: Seq<char>, max: nat) -> Option<nat> {
    let body = if s.len() > 0 && s[0] == '+' {
        s.skip(1)
    } else {
        s
    };
    if body.len() > 0 && all_digits(body) && digits_value(body) <= max {
        Some(digits_value(body))
    } else {
        None
    }
}

/// More digits never write a smaller number.
proof fn lemma_digits_value_grows(s: Seq<char>, i: int)
    requires
        0 <= i <= s.len(),
    ensures
        digits_value(s.take(i)) <= digits_value(s),
    decreases s.len() - i,
{
    if i == s.len() {
        assert(s.take(i) =~= s);
    } else {
        assert(s.take(i + 1).drop_last() =~= s.take(i));
        lemma_digits_value_grows(s, i + 1);
    }
}

/// Reads an unsigned number up to `max`.
pub fn parse_number(s: &[char], max: u64) -> (r: Option<u64>)
    ensures
        match r {
            Some(n) => number_spec(s@, max as nat) == Some(n as nat),
            None => number_spec(s@, max as nat) is None,
        },
{
    let mut i: usize = 0;
    if s.len() > 0 && s[0] == '+' {
        i = 1;
    }
    let start: usize = i;
    let ghost body = s@.skip(start as int);
    assert(s@.skip(0) =~= s@);
    if start == s.len() {
        return None;
    }
    let mut n: u64 = 0;
    while i < s.len()
        invariant
            start <= i <= s@.len(),
            start < s@.len(),
            body == s@.skip(start as int),
            all_digits(body.take(i - start)),
            n as nat == digits_value(body.take(i - start)),
            n <= max,
            start == (if s@.len() > 0 && s@[0] == '+' {
                1int
            } else {
                0int
            }),
            start == 0 ==> body == s@,
        decreases s@.len() - i,
    {
        let c = s[i];
        let ghost k = i - start;
        assert(c == body[k]);
        if !('0' <= c && c <= '9') {
            assert(!is_digit(body[k]));
            return None;
        }
        let d: u64 = (c as u8 - 48) as u64;
        proof {
            assert(body.take(k + 1).drop_last() =~= body.take(k));
            assert(digits_value(body.take(k + 1)) == n * 10 + d);
            lemma_digits_value_grows(body, k + 1);
        }
        if n > max / 10 {
            return None;
        }
        if d > max - n * 10 {
            return None;
        }
        n = n * 10 + d;
        i = i + 1;
        assert(all_digits(body.take(i - start))) by {
            assert forall|j: int| 0 <= j < i - start implies is_digit(
                #[trigger] body.take(i - start)[j],
            ) by {
                if j < k {
                    assert(is_digit(body.take(k)[j]));
                }
            }
        }
    }
    assert(body.take(i - start) =~= body);
    Some(n)
}

/// What `decimal` writes is decimal digits, at least one, of the number written.
pub proof fn lemma_decimal(n: nat)
    ensures
        decimal(n).len() > 0,
        all_digits(decimal(n)),
        digits_value(decimal(n)) == n,
    decreases n,
{
    if n < 10 {
        assert(decimal(n).drop_last() =~= Seq::<char>::empty());
        assert(digits_value(Seq::<char>::empty()) == 0);
        assert(decimal(n).last() as nat == 48 + n);
    } else {
        lemma_decimal(n / 10);
        assert(decimal(n).drop_last() =~= decimal(n / 10));
        assert(decimal(n).last() as nat == 48 + n % 10);
    }
}

/// Reading back what `decimal` writes gives the number.
pub proof fn lemma_number_of_decimal(n: nat, max: nat)
    requires
        n <= max,
    ensures
        number_spec(decimal(n), max) == Some(n),
{
    lemma_decimal(n);
    assert(is_digit(decimal(n)[0]));
}

// ---------------------------------------------------------------------------
// Hexadecimal
// ---------------------------------------------------------------------------

/// `c` is a hexadecimal digit, of either case.
pub open spec fn is_hex_digit(c: char) -> bool {
    ||| '0' <= c <= '9'
    ||| 'a' <= c <= 'f'
    ||| 'A' <= c <= 'F'
}

/// Whether `c` is a hexadecimal digit.
pub fn hex_digit(c: char) -> (r: bool)
    ensures
        r == is_hex_digit(c),
{
    ('0' <= c && c <= '9') || ('a' <= c && c <= 'f') || ('A' <= c && c <= 'F')
}

/// The hexadecimal digit of value `d`, with capital letters.
pub open spec fn hex_upper(d: u8) -> char {
    if d < 10 {
        (48 + d) as char
    } else {
        (55 + d) as char
    }
}

/// The hexadecimal digit of value `d`, with small letters.
pub open spec fn hex_lower(d: u8) -> char {
    if d < 10 {
        (48 + d) as char
    } else {
        (87 + d) as char
    }
}

/// Writes the hexadecimal digit of value `d` with capital letters.
pub fn hex_upper_digit(d: u8) -> (r: char)
    requires
        d < 16,
    ensures
        r == hex_upper(d),
{
    if d < 10 {
        (48 + d) as char
    } else {
        (55 + d) as char
    }
}

/// The bytes in hexadecimal, two small digits each.
pub open spec fn hex_text(bytes: Seq<u8>) -> Seq<char>
    decreases bytes.len(),
{
    if bytes.len() == 0 {
        seq![]
    } else {
        hex_text(bytes.drop_last()) + seq![
            hex_lower(bytes.last() / 16),
            hex_lower(bytes.last() % 16),
        ]
    }
}

/// Writes bytes in hexadecimal, two small digits each.
pub fn to_hex(bytes: &[u8]) -> (r: String)
    ensures
        r@ == hex_text(bytes@),
{
    let mut out = String::new();
    let mut i: usize = 0;
    while i < bytes.len()
        invariant
            i <= bytes@.len(),
            out@ == hex_text(bytes@.take(i as int)),
        decreases bytes@.len() - i,
    {
        let b = bytes[i];
        let hi: u8 = b / 16;
        let lo: u8 = b % 16;
        if hi < 10 {
            out.push((48 + hi) as char);
        } else {
            out.push((87 + hi) as char);
        }
        if lo < 10 {
            out.push((48 + lo) as char);
        } else {
            out.push((87 + lo) as char);
        }
        assert(bytes@.take(i + 1).drop_last() =~= bytes@.take(i as int));
        i = i + 1;
        assert(out@ =~= hex_text(bytes@.take(i as int)));
    }
    assert(bytes@.take(bytes@.len() as int) =~= bytes@);
    out
}

// ---------------------------------------------------------------------------
// Laws
// ---------------------------------------------------------------------------


/// How numbers are written: a digit for what is below ten, and a digit behind
/// what is written for a tenth of the rest.
pub proof fn law_decimal(n: nat, d: nat)
    requires
        d < 10,
    ensures
        decimal(d).len() == 1,
        decimal(d)[0] as int == 48 + d,
        n > 0 ==> decimal(n * 10 + d) == decimal(n) + decimal(d),
{
    if n > 0 {
        assert((n * 10 + d) / 10 == n);
        assert((n * 10 + d) % 10 == d);
        assert(decimal(n).push(digit(d)) =~= decimal(n) + decimal(d));
    }
}

/// How numbers are read: one digit is its value, and a digit more stands for
/// ten times the number before it and its own value, where that is not too
/// large. A plus sign in front does not count.
pub proof fn law_number(s: Seq<char>, c: char, max: nat)
    requires
        '0' <= c <= '9',
    ensures
        (c as int - 48) <= max ==> number_spec(seq![c], max) == Some((c as int - 48) as nat),
        number_spec(s, max) is Some ==> {
            let v = number_spec(s, max)->0 * 10 + (c as int - 48);
            &&& v <= max ==> number_spec(s.push(c), max) == Some(v as nat)
            &&& v > max ==> number_spec(s.push(c), max) is None
        },
        number_spec(s, max) is Some && s[0] != '+' ==> number_spec(seq!['+'] + s, max)
            == number_spec(s, max),
{
    let one = seq![c];
    assert(one.drop_last() =~= Seq::<char>::empty());
    assert(digits_value(Seq::<char>::empty()) == 0);
    assert(digits_value(one) == (c as int - 48) as nat);
    assert(all_digits(one));
    if number_spec(s, max) is Some {
        let t = s.push(c);
        let body = if s[0] == '+' {
            s.skip(1)
        } else {
            s
        };
        let more = if t[0] == '+' {
            t.skip(1)
        } else {
            t
        };
        assert(more =~= body.push(c));
        assert(more.drop_last() =~= body);
        assert forall|i: int| 0 <= i < more.len() implies is_digit(#[trigger] more[i]) by {
            if i < body.len() {
                assert(more[i] == body[i]);
            }
        }
        if s[0] != '+' {
            let p = seq!['+'] + s;
            assert(p.skip(1) =~= s);
        }
    }
}

/// What is not decimal digits, at least one, with at most one plus sign in
/// front, is no number.
pub proof fn law_no_number(s: Seq<char>, max: nat)
    ensures
        number_spec(s, max) is Some ==> {
            &&& s.len() > 0
            &&& s[0] == '+' || '0' <= s[0] <= '9'
            &&& s[0] == '+' ==> s.len() > 1
            &&& forall|i: int| 1 <= i < s.len() ==> '0' <= #[trigger] s[i] <= '9'
            &&& number_spec(s, max)->0 <= max
        },
{
    if number_spec(s, max) is Some {
        let body = if s[0] == '+' {
            s.skip(1)
        } else {
            s
        };
        assert(is_digit(body[0]));
        assert forall|i: int| 1 <= i < s.len() implies '0' <= #[trigger] s[i] <= '9' by {
            if s[0] == '+' {
                assert(is_digit(body[i - 1]));
            } else {
                assert(is_digit(body[i]));
            }
        }
    }
}

/// Numbers below a hundred are written with two digits, of ten and of one.
pub proof fn law_two_digits(n: nat)
    requires
        n < 100,
    ensures
        two_digits(n).len() == 2,
        two_digits(n)[0] as int == 48 + n / 10,
        two_digits(n)[1] as int == 48 + n % 10,
{
    if n >= 10 {
        assert(decimal(n / 10).len() == 1);
    }
}

/// A byte is written with two hexadecimal digits, behind those of the bytes before it.
pub proof fn law_hex_text(bytes: Seq<u8>, b: u8)
    ensures
        hex_text(Seq::<u8>::empty()).len() == 0,
        hex_text(bytes.push(b)).len() == hex_text(bytes).len() + 2,
        hex_text(bytes.push(b)).take(hex_text(bytes).len() as int) == hex_text(bytes),
        ({
            let n = hex_text(bytes).len() as int;
            let hi = hex_text(bytes.push(b))[n] as int;
            let lo = hex_text(bytes.push(b))[n + 1] as int;
            &&& b / 16 < 10 ==> hi == 48 + b / 16
            &&& b / 16 >= 10 ==> hi == 87 + b / 16
            &&& b % 16 < 10 ==> lo == 48 + b % 16
            &&& b % 16 >= 10 ==> lo == 87 + b % 16
        }),
{
    assert(bytes.push(b).drop_last() =~= bytes);
    assert(hex_text(bytes.push(b)).take(hex_text(bytes).len() as int) =~= hex_text(bytes));
}

/// A number that is too great does not become one by further digits.
pub proof fn law_too_great(s: Seq<char>, c: char, max: nat)
    ensures
        number_spec(s.push(c), max) is Some && s.len() > 0 && s != seq!['+'] ==> number_spec(
            s,
            max,
        ) is Some,
{
    let t = s.push(c);
    if number_spec(t, max) is Some && s.len() > 0 && s != seq!['+'] {
        let body = if s[0] == '+' {
            s.skip(1)
        } else {
            s
        };
        let more = if t[0] == '+' {
            t.skip(1)
        } else {
            t
        };
        assert(more =~= body.push(c));
        assert(more.drop_last() =~= body);
        if body.len() == 0 {
            assert(s =~= seq!['+']);
        }
        assert forall|i: int| 0 <= i < body.len() implies is_digit(#[trigger] body[i]) by {
            assert(more[i] == body[i]);
        }
    }
}

} // verus!
