//! Decimal numbers in text, read and written character by character.
use vstd::prelude::*;

verus! {

/// The characters of a string, as a vector.
pub fn chars_of(s: &str) -> (r: Vec<char>)
    ensures
        r@ == s@,
{
    let n = s.unicode_len();
    let mut r: Vec<char> = Vec::new();
    let mut i: usize = 0;
    while i < n
        invariant
            n == s@.len(),
            i <= n,
            r@ == s@.subrange(0, i as int),
        decreases n - i,
    {
        r.push(s.get_char(i));
        i += 1;
        proof {
            assert(r@ =~= s@.subrange(0, i as int));
        }
    }
    proof {
        assert(r@ =~= s@);
    }
    r
}

pub open spec fn is_digit(c: char) -> bool {
    '0' <= c && c <= '9'
}

pub open spec fn digit_value(c: char) -> nat {
    (c as u32 - '0' as u32) as nat
}

/// Every character is a decimal digit.
pub open spec fn all_digits(s: Seq<char>) -> bool {
    forall|i: int| 0 <= i < s.len() ==> is_digit(#[trigger] s[i])
}

/// The value of a string of decimal digits.
pub open spec fn digits_value(s: Seq<char>) -> nat
    decreases s.len(),
{
    if s.len() == 0 {
        0
    } else {
        digits_value(s.drop_last()) * 10 + digit_value(s.last())
    }
}

/// A bound above every value a number of this library can take, so that
/// longer digit strings can be told apart without overflow.
pub const DIGITS_CAP: u64 = 0x100_0000_0000;

/// The smaller of `n` and [`DIGITS_CAP`].
pub open spec fn capped(n: nat) -> nat {
    if n >= DIGITS_CAP {
        DIGITS_CAP as nat
    } else {
        n
    }
}

/// The value of `s[from..to]`, all decimal digits, capped at [`DIGITS_CAP`].
pub fn digits_value_capped(s: &Vec<char>, from: usize, to: usize) -> (r: u64)
    requires
        from <= to <= s@.len(),
        all_digits(s@.subrange(from as int, to as int)),
    ensures
        r as nat == capped(digits_value(s@.subrange(from as int, to as int))),
{
    let mut acc: u64 = 0;
    let mut i: usize = from;
    while i < to
        invariant
            from <= i <= to <= s@.len(),
            all_digits(s@.subrange(from as int, to as int)),
            acc as nat == capped(digits_value(s@.subrange(from as int, i as int))),
        decreases to - i,
    {
        let c = s[i];
        proof {
            assert(s@.subrange(from as int, to as int)[i - from] == c);
            assert(s@.subrange(from as int, i + 1).drop_last() =~= s@.subrange(from as int, i as int));
        }
        let d = (c as u32 - '0' as u32) as u64;
        let ghost v = digits_value(s@.subrange(from as int, i as int));
        if acc >= DIGITS_CAP {
            proof {
                assert(v * 10 + d >= DIGITS_CAP) by (nonlinear_arith)
                    requires
                        v >= DIGITS_CAP,
                ;
            }
        } else {
            acc = acc * 10 + d;
            if acc > DIGITS_CAP {
                acc = DIGITS_CAP;
            }
        }
        i += 1;
    }
    acc
}

/// How `str::parse::<i32>` reads a number: an optional sign, then at least
/// one decimal digit, with a value that fits.
pub open spec fn parse_i32_spec(s: Seq<char>) -> Option<i32> {
    let neg = s.len() > 0 && s[0] == '-';
    let signed = s.len() > 0 && (s[0] == '-' || s[0] == '+');
    let body = if signed {
        s.drop_first()
    } else {
        s
    };
    if body.len() == 0 || !all_digits(body) {
        None
    } else if neg {
        if digits_value(body) <= 0x8000_0000 {
            Some((0 - digits_value(body)) as i32)
        } else {
            None
        }
    } else if digits_value(body) <= 0x7fff_ffff {
        Some(digits_value(body) as i32)
    } else {
        None
    }
}

/// Reads `s[from..to]` as an `i32`.
pub fn parse_i32(s: &Vec<char>, from: usize, to: usize) -> (r: Option<i32>)
    requires
        from <= to <= s@.len(),
    ensures
        r == parse_i32_spec(s@.subrange(from as int, to as int)),
{
    let ghost t = s@.subrange(from as int, to as int);
    let mut start = from;
    let neg = from < to && s[from] == '-';
    if from < to && (s[from] == '-' || s[from] == '+') {
        start = from + 1;
    }
    let ghost body = if t.len() > 0 && (t[0] == '-' || t[0] == '+') {
        t.drop_first()
    } else {
        t
    };
    proof {
        assert(body =~= s@.subrange(start as int, to as int));
    }
    if start >= to {
        return None;
    }
    let mut i = start;
    while i < to
        invariant
            start <= i <= to <= s@.len(),
            body == s@.subrange(start as int, to as int),
            t == s@.subrange(from as int, to as int),
            body == (if t.len() > 0 && (t[0] == '-' || t[0] == '+') {
                t.drop_first()
            } else {
                t
            }),
            forall|j: int| start <= j < i ==> is_digit(#[trigger] s@[j]),
        decreases to - i,
    {
        if !('0' <= s[i] && s[i] <= '9') {
            proof {
                assert(!is_digit(body[i - start]));
                assert(!all_digits(body));
            }
            return None;
        }
        i += 1;
    }
    proof {
        let b = s@.subrange(start as int, to as int);
        assert forall|j: int| 0 <= j < b.len() implies is_digit(#[trigger] b[j]) by {
            assert(b[j] == s@[start + j]);
        }
    }
    let v = digits_value_capped(s, start, to);
    if neg {
        if v <= 0x8000_0000 {
            Some((0 - (v as i64)) as i32)
        } else {
            None
        }
    } else if v <= 0x7fff_ffff {
        Some(v as i32)
    } else {
        None
    }
}

/// The decimal digits of `n`, without leading zeros.
pub open spec fn decimal(n: nat) -> Seq<char>
    decreases n,
{
    if n < 10 {
        seq![digit_char(n)]
    } else {
        decimal(n / 10).push(digit_char(n % 10))
    }
}

pub open spec fn digit_char(d: nat) -> char {
    if d == 0 {
        '0'
    } else if d == 1 {
        '1'
    } else if d == 2 {
        '2'
    } else if d == 3 {
        '3'
    } else if d == 4 {
        '4'
    } else if d == 5 {
        '5'
    } else if d == 6 {
        '6'
    } else if d == 7 {
        '7'
    } else if d == 8 {
        '8'
    } else {
        '9'
    }
}

fn digit_str(d: u64) -> (r: &'static str)
    requires
        d < 10,
    ensures
        r@ == seq![digit_char(d as nat)],
{
    proof {
        reveal_strlit("0");
        reveal_strlit("1");
        reveal_strlit("2");
        reveal_strlit("3");
        reveal_strlit("4");
        reveal_strlit("5");
        reveal_strlit("6");
        reveal_strlit("7");
        reveal_strlit("8");
        reveal_strlit("9");
    }
    if d == 0 {
        "0"
    } else if d == 1 {
        "1"
    } else if d == 2 {
        "2"
    } else if d == 3 {
        "3"
    } else if d == 4 {
        "4"
    } else if d == 5 {
        "5"
    } else if d == 6 {
        "6"
    } else if d == 7 {
        "7"
    } else if d == 8 {
        "8"
    } else {
        "9"
    }
}

/// Appends the decimal digits of `n`.
pub fn push_decimal(out: &mut String, n: u64)
    ensures
        final(out)@ == old(out)@ + decimal(n as nat),
    decreases n,
{
    if n < 10 {
        out.append(digit_str(n));
    } else {
        push_decimal(out, n / 10);
        out.append(digit_str(n % 10));
        proof {
            assert(decimal(n as nat) == decimal((n / 10) as nat).push(digit_char((n % 10) as nat)));
            assert(old(out)@ + decimal((n / 10) as nat) + seq![digit_char((n % 10) as nat)] =~= old(out)@ + decimal(n as nat));
        }
    }
}

/// The decimal text of an `i32`, as `Display` writes it.
pub open spec fn i32_text(n: i32) -> Seq<char> {
    if n < 0 {
        seq!['-'] + decimal((0 - n) as nat)
    } else {
        decimal(n as nat)
    }
}

/// Appends the decimal text of `n`.
pub fn push_i32(out: &mut String, n: i32)
    ensures
        final(out)@ == old(out)@ + i32_text(n),
{
    if n < 0 {
        proof {
            reveal_strlit("-");
        }
        out.append("-");
        let m: u64 = (0 - (n as i64)) as u64;
        push_decimal(out, m);
        proof {
            assert(old(out)@ + seq!['-'] + decimal(m as nat) =~= old(out)@ + i32_text(n));
        }
    } else {
        push_decimal(out, n as u64);
    }
}

proof fn lemma_digit_char(d: nat)
    requires
        d < 10,
    ensures
        is_digit(digit_char(d)),
        digit_value(digit_char(d)) == d,
{
}

/// The decimal digits of `n` are digits, at least one, and read back as `n`.
pub proof fn lemma_decimal(n: nat)
    ensures
        all_digits(decimal(n)),
        decimal(n).len() >= 1,
        digits_value(decimal(n)) == n,
    decreases n,
{
    if n < 10 {
        lemma_digit_char(n);
        let s = decimal(n);
        assert(s.drop_last() =~= Seq::<char>::empty());
        assert(digits_value(s) == digits_value(s.drop_last()) * 10 + digit_value(s.last()));
        assert(digits_value(Seq::<char>::empty()) == 0);
    } else {
        lemma_decimal(n / 10);
        lemma_digit_char(n % 10);
        let s = decimal(n);
        assert(s.drop_last() =~= decimal(n / 10));
        assert(n == (n / 10) * 10 + n % 10) by (nonlinear_arith);
        assert(digits_value(s) == digits_value(s.drop_last()) * 10 + digit_value(s.last()));
        assert forall|i: int| 0 <= i < s.len() implies is_digit(#[trigger] s[i]) by {
            if i < s.len() - 1 {
                assert(s[i] == decimal(n / 10)[i]);
            }
        }
    }
}

/// The text of an `i32` holds digits, and a minus sign only in front.
pub proof fn lemma_i32_text_chars(n: i32)
    ensures
        i32_text(n).len() >= 1,
        forall|i: int| 0 <= i < i32_text(n).len() ==> is_digit(#[trigger] i32_text(n)[i]) || (i == 0 && i32_text(n)[i] == '-'),
        n >= 0 ==> all_digits(i32_text(n)),
{
    if n < 0 {
        lemma_decimal((0 - n) as nat);
        let t = i32_text(n);
        assert forall|i: int| 0 <= i < t.len() implies is_digit(#[trigger] t[i]) || (i == 0 && t[i] == '-') by {
            if i > 0 {
                assert(t[i] == decimal((0 - n) as nat)[i - 1]);
            }
        }
    } else {
        lemma_decimal(n as nat);
    }
}

/// Reading the text of an `i32` gives the number back.
pub proof fn lemma_parse_i32_text(n: i32)
    ensures
        parse_i32_spec(i32_text(n)) == Some(n),
{
    if n < 0 {
        let m = (0 - n) as nat;
        lemma_decimal(m);
        let s = i32_text(n);
        assert(s.drop_first() =~= decimal(m));
        assert(s[0] == '-');
    } else {
        lemma_decimal(n as nat);
        let s = i32_text(n);
        assert(is_digit(s[0]));
    }
}

} // verus!
