//! Target modes, positions, transforms and their text forms.
use vstd::prelude::*;

use crate::text::{
    all_digits, chars_of, decimal, digit_char, digit_value, digits_value, digits_value_capped,
    i32_text, is_digit, lemma_decimal, lemma_i32_text_chars, lemma_parse_i32_text, parse_i32,
    parse_i32_spec, push_decimal, push_i32, DIGITS_CAP,
};

verus! {

/// The refresh rate a mode may deviate from a wanted one and still match, in mHz.
pub const MAX_RR_DEVIATION: i32 = 500;

/// The mode an output asks for. Refresh rates are in millihertz.
#[derive(Clone, Copy, Debug, PartialEq, Eq, Structural)]
pub enum Mode {
    Best,
    Preferred,
    WiHe(i32, i32),
    WiHeRe(i32, i32, i32),
    WiHeReCustom(i32, i32, i32),
}

impl Mode {
    pub open spec fn refresh_spec(self) -> Option<i32> {
        match self {
            Mode::WiHeRe(_, _, r) => Some(r),
            Mode::WiHeReCustom(_, _, r) => Some(r),
            _ => None,
        }
    }

    pub fn is_custom(&self) -> (r: bool)
        ensures
            r == (*self is WiHeReCustom),
    {
        match self {
            Mode::WiHeReCustom(_, _, _) => true,
            _ => false,
        }
    }

    /// The wanted refresh rate, if the mode names one.
    pub fn refresh(&self) -> (r: Option<i32>)
        ensures
            r == self.refresh_spec(),
    {
        match self {
            Mode::WiHeRe(_, _, r) => Some(*r),
            Mode::WiHeReCustom(_, _, r) => Some(*r),
            _ => None,
        }
    }
}

/// Why a text is not a mode.
#[derive(Clone, Copy, Debug, PartialEq, Eq, Structural)]
pub enum ParseModeError {
    MissingSeparator,
    MissingWidth,
    MissingHeight,
    MissingRefresh,
    /// The width or the height is not an `i32`.
    ParseInt,
    /// The refresh rate is not a decimal number of hertz.
    ParseRefresh,
    LessOrEqualZero { value: i32 },
}

/// The first index of `c` in `s` from `i` on.
pub open spec fn index_of_from(s: Seq<char>, c: char, i: nat) -> Option<nat>
    decreases s.len() - i,
{
    if i >= s.len() {
        None
    } else if s[i as int] == c {
        Some(i)
    } else {
        index_of_from(s, c, i + 1)
    }
}

/// The first index of `c` in `s`.
pub open spec fn index_of(s: Seq<char>, c: char) -> Option<nat> {
    index_of_from(s, c, 0)
}

proof fn lemma_index_of_from(s: Seq<char>, c: char, i: nat)
    requires
        i <= s.len(),
        forall|j: int| 0 <= j < i ==> s[j] != c,
    ensures
        index_of(s, c) == index_of_from(s, c, i),
    decreases i,
{
    if i > 0 {
        lemma_index_of_from(s, c, (i - 1) as nat);
    }
}

/// Finds the first `c` in `s[from..to]`, as an index into `s`.
fn find_char(s: &Vec<char>, from: usize, to: usize, c: char) -> (r: Option<usize>)
    requires
        from <= to <= s@.len(),
    ensures
        r is None ==> index_of(s@.subrange(from as int, to as int), c) is None,
        r matches Some(i) ==> from <= i < to && index_of(s@.subrange(from as int, to as int), c)
            == Some((i - from) as nat),
{
    let ghost t = s@.subrange(from as int, to as int);
    let mut i = from;
    while i < to
        invariant
            from <= i <= to <= s@.len(),
            t == s@.subrange(from as int, to as int),
            forall|j: int| 0 <= j < i - from ==> t[j] != c,
        decreases to - i,
    {
        if s[i] == c {
            proof {
                lemma_index_of_from(t, c, (i - from) as nat);
            }
            return Some(i);
        }
        i += 1;
    }
    proof {
        lemma_index_of_from(t, c, (i - from) as nat);
    }
    None
}

/// Whether `s[from..to]` reads `lit`.
fn is_literal(s: &Vec<char>, from: usize, to: usize, lit: &str) -> (r: bool)
    requires
        from <= to <= s@.len(),
    ensures
        r == (s@.subrange(from as int, to as int) == lit@),
{
    let n = lit.unicode_len();
    if to - from != n {
        return false;
    }
    let mut i: usize = 0;
    while i < n
        invariant
            n == lit@.len() == to - from,
            from <= to <= s@.len(),
            i <= n,
            forall|j: int| 0 <= j < i ==> s@[from + j] == lit@[j],
        decreases n - i,
    {
        if s[from + i] != lit.get_char(i) {
            proof {
                assert(s@.subrange(from as int, to as int)[i as int] != lit@[i as int]);
            }
            return false;
        }
        i += 1;
    }
    proof {
        assert(s@.subrange(from as int, to as int) =~= lit@);
    }
    true
}

/// `s` without a trailing `"Hz"`.
pub open spec fn strip_hz(s: Seq<char>) -> Seq<char> {
    if s.len() >= 2 && s[s.len() - 2] == 'H' && s[s.len() - 1] == 'z' {
        s.subrange(0, s.len() - 2)
    } else {
        s
    }
}

/// The millihertz in up to three leading digits after the decimal point.
pub open spec fn frac_millis(f: Seq<char>) -> nat {
    (if f.len() >= 1 {
        digit_value(f[0]) * 100
    } else {
        0
    }) + (if f.len() >= 2 {
        digit_value(f[1]) * 10
    } else {
        0
    }) + (if f.len() >= 3 {
        digit_value(f[2])
    } else {
        0
    })
}

/// Clamps to the range of `i32`, as a float-to-integer cast does.
pub open spec fn clamp_i32(v: int) -> i32 {
    if v > i32::MAX {
        i32::MAX
    } else if v < i32::MIN {
        i32::MIN
    } else {
        v as i32
    }
}

/// A refresh rate in hertz, read as millihertz with further digits dropped:
/// an optional sign, digits, and optionally a point followed by digits, with
/// at least one digit in all.
pub open spec fn parse_refresh_spec(s: Seq<char>) -> Option<i32> {
    let neg = s.len() > 0 && s[0] == '-';
    let body = if s.len() > 0 && (s[0] == '-' || s[0] == '+') {
        s.drop_first()
    } else {
        s
    };
    let (ip, fp) = match index_of(body, '.') {
        Some(d) => (body.subrange(0, d as int), body.subrange(d as int + 1, body.len() as int)),
        None => (body, Seq::empty()),
    };
    if !all_digits(ip) || !all_digits(fp) || ip.len() + fp.len() == 0 {
        None
    } else {
        let m = digits_value(ip) * 1000 + frac_millis(fp);
        Some(clamp_i32(if neg { -(m as int) } else { m as int }))
    }
}

fn all_digits_in(s: &Vec<char>, from: usize, to: usize) -> (r: bool)
    requires
        from <= to <= s@.len(),
    ensures
        r == all_digits(s@.subrange(from as int, to as int)),
{
    let ghost t = s@.subrange(from as int, to as int);
    let mut i = from;
    while i < to
        invariant
            from <= i <= to <= s@.len(),
            t == s@.subrange(from as int, to as int),
            forall|j: int| 0 <= j < i - from ==> is_digit(#[trigger] t[j]),
        decreases to - i,
    {
        if !('0' <= s[i] && s[i] <= '9') {
            proof {
                assert(!is_digit(t[i - from]));
            }
            return false;
        }
        i += 1;
    }
    true
}

/// Reads `s[from..to]` as a refresh rate in hertz, giving millihertz.
#[verifier::rlimit(60)]
fn parse_refresh(s: &Vec<char>, from: usize, to: usize) -> (r: Option<i32>)
    requires
        from <= to <= s@.len(),
    ensures
        r == parse_refresh_spec(s@.subrange(from as int, to as int)),
{
    let ghost t = s@.subrange(from as int, to as int);
    let neg = from < to && s[from] == '-';
    let mut start = from;
    if from < to && (s[from] == '-' || s[from] == '+') {
        start = from + 1;
    }
    let ghost body = if t.len() > 0 && (t[0] == '-' || t[0] == '+') {
        t.drop_first()
    } else {
        t
    };
    proof {
        assert(body =~= s@.subrange(start as int, to as int));
    }
    let (ie, fs) = match find_char(s, start, to, '.') {
        Some(d) => (d, d + 1),
        None => (to, to),
    };
    proof {
        let (ip, fp) = match index_of(body, '.') {
            Some(d) => (body.subrange(0, d as int), body.subrange(d as int + 1, body.len() as int)),
            None => (body, Seq::empty()),
        };
        assert(ip =~= s@.subrange(start as int, ie as int));
        assert(fp =~= s@.subrange(fs as int, to as int));
    }
    if !all_digits_in(s, start, ie) || !all_digits_in(s, fs, to) || (ie - start) + (to - fs) == 0 {
        return None;
    }
    let iv = digits_value_capped(s, start, ie);
    let mut fv: u64 = 0;
    if fs < to {
        fv = fv + ((s[fs] as u32 - '0' as u32) as u64) * 100;
    }
    if to - fs > 1 {
        fv = fv + ((s[fs + 1] as u32 - '0' as u32) as u64) * 10;
    }
    if to - fs > 2 {
        fv = fv + ((s[fs + 2] as u32 - '0' as u32) as u64);
    }
    let ghost fp = s@.subrange(fs as int, to as int);
    proof {
        assert(fs < to ==> fp[0] == s@[fs as int] && is_digit(fp[0]));
        assert(fs + 1 < to ==> fp[1] == s@[fs + 1] && is_digit(fp[1]));
        assert(fs + 2 < to ==> fp[2] == s@[fs + 2] && is_digit(fp[2]));
        assert(fv as nat == frac_millis(fp));
    }
    let m: u64 = iv * 1000 + fv;
    let ghost exact = digits_value(s@.subrange(start as int, ie as int)) * 1000 + frac_millis(fp);
    proof {
        if digits_value(s@.subrange(start as int, ie as int)) >= DIGITS_CAP {
            assert(exact > i32::MAX);
            assert(m > i32::MAX);
        } else {
            assert(m == exact);
        }
    }
    let v: i32 = if neg {
        if m > 0x8000_0000 {
            i32::MIN
        } else {
            (0 - (m as i64)) as i32
        }
    } else if m > 0x7fff_ffff {
        i32::MAX
    } else {
        m as i32
    };
    Some(v)
}

/// Builds a mode from the read width, height and refresh text.
pub open spec fn build_mode_spec(
    w: Option<i32>,
    h: Option<i32>,
    r: Option<Seq<char>>,
    custom: bool,
) -> Result<Mode, ParseModeError> {
    match (w, h) {
        (Some(wv), Some(hv)) => {
            if wv <= 0 {
                Err(ParseModeError::LessOrEqualZero { value: wv })
            } else if hv <= 0 {
                Err(ParseModeError::LessOrEqualZero { value: hv })
            } else {
                match r {
                    Some(rt) => match parse_refresh_spec(rt) {
                        None => Err(ParseModeError::ParseRefresh),
                        Some(rv) => if rv <= 0 {
                            Err(ParseModeError::LessOrEqualZero { value: rv })
                        } else if custom {
                            Ok(Mode::WiHeReCustom(wv, hv, rv))
                        } else {
                            Ok(Mode::WiHeRe(wv, hv, rv))
                        },
                    },
                    None => if custom {
                        Err(ParseModeError::MissingRefresh)
                    } else {
                        Ok(Mode::WiHe(wv, hv))
                    },
                }
            }
        },
        _ => Err(ParseModeError::ParseInt),
    }
}

/// Reads `WxH`, `WxH@R` or `WxH@RHz`.
pub open spec fn parse_dims_spec(t: Seq<char>, custom: bool) -> Result<Mode, ParseModeError> {
    match index_of(t, 'x') {
        None => Err(ParseModeError::MissingSeparator),
        Some(xi) => {
            let w = t.subrange(0, xi as int);
            let hr = t.subrange(xi as int + 1, t.len() as int);
            if w.len() == 0 {
                Err(ParseModeError::MissingWidth)
            } else if hr.len() == 0 {
                Err(ParseModeError::MissingHeight)
            } else {
                match index_of(hr, '@') {
                    Some(ai) => build_mode_spec(
                        parse_i32_spec(w),
                        parse_i32_spec(hr.subrange(0, ai as int)),
                        Some(strip_hz(hr.subrange(ai as int + 1, hr.len() as int))),
                        custom,
                    ),
                    None => build_mode_spec(parse_i32_spec(w), parse_i32_spec(hr), None, custom),
                }
            }
        },
    }
}

/// How a text reads as a mode: `best`, `preferred`, `WxH`, `WxH@R` or
/// `WxH@RHz`, the last two optionally with a leading `!` for a custom mode.
pub open spec fn parse_mode_spec(s: Seq<char>) -> Result<Mode, ParseModeError> {
    if s == "best"@ {
        Ok(Mode::Best)
    } else if s == "preferred"@ {
        Ok(Mode::Preferred)
    } else if s.len() > 0 && s[0] == '!' {
        parse_dims_spec(s.drop_first(), true)
    } else {
        parse_dims_spec(s, false)
    }
}

fn build_mode(
    s: &Vec<char>,
    w: (usize, usize),
    h: (usize, usize),
    r: Option<(usize, usize)>,
    custom: bool,
) -> (m: Result<Mode, ParseModeError>)
    requires
        w.0 <= w.1 <= s@.len(),
        h.0 <= h.1 <= s@.len(),
        r matches Some(rr) ==> rr.0 <= rr.1 <= s@.len(),
    ensures
        m == build_mode_spec(
            parse_i32_spec(s@.subrange(w.0 as int, w.1 as int)),
            parse_i32_spec(s@.subrange(h.0 as int, h.1 as int)),
            match r {
                Some(rr) => Some(s@.subrange(rr.0 as int, rr.1 as int)),
                None => None,
            },
            custom,
        ),
{
    let wv = parse_i32(s, w.0, w.1);
    let hv = parse_i32(s, h.0, h.1);
    let (wv, hv) = match (wv, hv) {
        (Some(a), Some(b)) => (a, b),
        _ => {
            return Err(ParseModeError::ParseInt);
        },
    };
    if wv <= 0 {
        return Err(ParseModeError::LessOrEqualZero { value: wv });
    }
    if hv <= 0 {
        return Err(ParseModeError::LessOrEqualZero { value: hv });
    }
    match r {
        Some((rs, re)) => match parse_refresh(s, rs, re) {
            None => Err(ParseModeError::ParseRefresh),
            Some(rv) => {
                if rv <= 0 {
                    Err(ParseModeError::LessOrEqualZero { value: rv })
                } else if custom {
                    Ok(Mode::WiHeReCustom(wv, hv, rv))
                } else {
                    Ok(Mode::WiHeRe(wv, hv, rv))
                }
            },
        },
        None => {
            if custom {
                Err(ParseModeError::MissingRefresh)
            } else {
                Ok(Mode::WiHe(wv, hv))
            }
        },
    }
}

#[verifier::rlimit(60)]
fn parse_dims(s: &Vec<char>, start: usize, custom: bool) -> (m: Result<Mode, ParseModeError>)
    requires
        start <= s@.len(),
    ensures
        m == parse_dims_spec(s@.subrange(start as int, s@.len() as int), custom),
{
    let n = s.len();
    let ghost t = s@.subrange(start as int, n as int);
    let xi = match find_char(s, start, n, 'x') {
        None => {
            return Err(ParseModeError::MissingSeparator);
        },
        Some(xi) => xi,
    };
    let ghost hr = t.subrange(xi - start + 1, t.len() as int);
    proof {
        assert(t.subrange(0, xi - start) =~= s@.subrange(start as int, xi as int));
        assert(hr =~= s@.subrange(xi + 1, n as int));
    }
    if xi == start {
        return Err(ParseModeError::MissingWidth);
    }
    if xi + 1 == n {
        return Err(ParseModeError::MissingHeight);
    }
    match find_char(s, xi + 1, n, '@') {
        Some(ai) => {
            let mut re = n;
            if n - ai >= 3 && s[n - 2] == 'H' && s[n - 1] == 'z' {
                re = n - 2;
            }
            proof {
                let rt = hr.subrange(ai - xi - 1 + 1, hr.len() as int);
                assert(rt =~= s@.subrange(ai + 1, n as int));
                assert(strip_hz(rt) =~= s@.subrange(ai + 1, re as int));
                assert(hr.subrange(0, ai - xi - 1) =~= s@.subrange(xi + 1, ai as int));
            }
            build_mode(s, (start, xi), (xi + 1, ai), Some((ai + 1, re)), custom)
        },
        None => build_mode(s, (start, xi), (xi + 1, n), None, custom),
    }
}

impl Mode {
    /// Reads a mode from its text form.
    pub fn from_str(text: &str) -> (r: Result<Mode, ParseModeError>)
        ensures
            r == parse_mode_spec(text@),
    {
        let s = chars_of(text);
        let n = s.len();
        proof {
            assert(s@.subrange(0, n as int) =~= s@);
        }
        if is_literal(&s, 0, n, "best") {
            return Ok(Mode::Best);
        }
        if is_literal(&s, 0, n, "preferred") {
            return Ok(Mode::Preferred);
        }
        if n > 0 && s[0] == '!' {
            proof {
                assert(s@.drop_first() =~= s@.subrange(1, n as int));
            }
            parse_dims(&s, 1, true)
        } else {
            parse_dims(&s, 0, false)
        }
    }
}

/// Up to three digits after the decimal point of `f` thousandths, without
/// trailing zeros.
pub open spec fn frac_text(f: nat) -> Seq<char> {
    let d1 = f / 100;
    let d2 = (f / 10) % 10;
    let d3 = f % 10;
    if d3 != 0 {
        seq![digit_char(d1), digit_char(d2), digit_char(d3)]
    } else if d2 != 0 {
        seq![digit_char(d1), digit_char(d2)]
    } else {
        seq![digit_char(d1)]
    }
}

/// A rate in millihertz written in hertz, as short as it goes.
pub open spec fn hz_text(r: i32) -> Seq<char> {
    let a: nat = if r < 0 {
        (0 - r) as nat
    } else {
        r as nat
    };
    (if r < 0 {
        seq!['-']
    } else {
        Seq::empty()
    }) + decimal(a / 1000) + (if a % 1000 == 0 {
        Seq::empty()
    } else {
        seq!['.'] + frac_text(a % 1000)
    })
}

/// The text form of a mode, as [`Mode::from_str`] reads it.
pub open spec fn mode_text(m: Mode) -> Seq<char> {
    match m {
        Mode::Best => "best"@,
        Mode::Preferred => "preferred"@,
        Mode::WiHe(w, h) => i32_text(w) + seq!['x'] + i32_text(h),
        Mode::WiHeRe(w, h, r) => i32_text(w) + seq!['x'] + i32_text(h) + seq!['@'] + hz_text(r)
            + "Hz"@,
        Mode::WiHeReCustom(w, h, r) => seq!['!'] + i32_text(w) + seq!['x'] + i32_text(h) + seq![
            '@',
        ] + hz_text(r) + "Hz"@,
    }
}

fn push_hz(out: &mut String, r: i32)
    ensures
        final(out)@ == old(out)@ + hz_text(r),
{
    proof {
        reveal_strlit("-");
        reveal_strlit(".");
    }
    let a: u64 = if r < 0 {
        out.append("-");
        (0 - (r as i64)) as u64
    } else {
        r as u64
    };
    let ghost mid = out@;
    push_decimal(out, a / 1000);
    let f = a % 1000;
    if f != 0 {
        out.append(".");
        let d1 = f / 100;
        let d2 = (f / 10) % 10;
        let d3 = f % 10;
        let mut tail = String::new();
        push_decimal(&mut tail, d1);
        if d3 != 0 {
            push_decimal(&mut tail, d2);
            push_decimal(&mut tail, d3);
        } else if d2 != 0 {
            push_decimal(&mut tail, d2);
        }
        proof {
            assert(tail@ =~= frac_text(f as nat));
        }
        out.append(tail.as_str());
    }
    proof {
        assert(out@ =~= old(out)@ + hz_text(r));
    }
}

impl Mode {
    /// Writes the mode in its text form, with refresh rates in hertz.
    pub fn to_short_hz_string(&self) -> (r: String)
        ensures
            r@ == mode_text(*self),
    {
        proof {
            reveal_strlit("x");
            reveal_strlit("@");
            reveal_strlit("!");
        }
        let mut out = String::new();
        match *self {
            Mode::Best => {
                out.append("best");
            },
            Mode::Preferred => {
                out.append("preferred");
            },
            Mode::WiHe(w, h) => {
                push_i32(&mut out, w);
                out.append("x");
                push_i32(&mut out, h);
            },
            Mode::WiHeRe(w, h, r) => {
                push_i32(&mut out, w);
                out.append("x");
                push_i32(&mut out, h);
                out.append("@");
                push_hz(&mut out, r);
                out.append("Hz");
            },
            Mode::WiHeReCustom(w, h, r) => {
                out.append("!");
                push_i32(&mut out, w);
                out.append("x");
                push_i32(&mut out, h);
                out.append("@");
                push_hz(&mut out, r);
                out.append("Hz");
            },
        }
        proof {
            assert(out@ =~= mode_text(*self));
        }
        out
    }
}

/// A position in the compositor's layout.
#[derive(Clone, Copy, Debug, PartialEq, Eq, Structural)]
pub struct Position {
    pub x: i32,
    pub y: i32,
}

/// The physical size of a head, in millimetres.
#[derive(Clone, Copy, Debug, PartialEq, Eq, Structural)]
pub struct PhysicalSize {
    pub width: i32,
    pub height: i32,
}

/// Why a text is not a position.
#[derive(Clone, Copy, Debug, PartialEq, Eq, Structural)]
pub enum ParsePositionError {
    Separator,
    MissingX,
    MissingY,
    ParseInt,
}

/// How a text reads as a position: `x,y`.
pub open spec fn parse_position_spec(s: Seq<char>) -> Result<Position, ParsePositionError> {
    match index_of(s, ',') {
        None => Err(ParsePositionError::Separator),
        Some(c) => {
            let x = s.subrange(0, c as int);
            let y = s.subrange(c as int + 1, s.len() as int);
            if x.len() == 0 {
                Err(ParsePositionError::MissingX)
            } else if y.len() == 0 {
                Err(ParsePositionError::MissingY)
            } else {
                match (parse_i32_spec(x), parse_i32_spec(y)) {
                    (Some(xv), Some(yv)) => Ok(Position { x: xv, y: yv }),
                    _ => Err(ParsePositionError::ParseInt),
                }
            }
        },
    }
}

/// The text form of a position.
pub open spec fn position_text(p: Position) -> Seq<char> {
    i32_text(p.x) + seq![','] + i32_text(p.y)
}

impl Position {
    pub fn from_str(text: &str) -> (r: Result<Position, ParsePositionError>)
        ensures
            r == parse_position_spec(text@),
    {
        let s = chars_of(text);
        let n = s.len();
        proof {
            assert(s@.subrange(0, n as int) =~= s@);
        }
        let c = match find_char(&s, 0, n, ',') {
            None => {
                return Err(ParsePositionError::Separator);
            },
            Some(c) => c,
        };
        if c == 0 {
            return Err(ParsePositionError::MissingX);
        }
        if c + 1 == n {
            return Err(ParsePositionError::MissingY);
        }
        match (parse_i32(&s, 0, c), parse_i32(&s, c + 1, n)) {
            (Some(x), Some(y)) => Ok(Position { x, y }),
            _ => Err(ParsePositionError::ParseInt),
        }
    }

    pub fn to_string(&self) -> (r: String)
        ensures
            r@ == position_text(*self),
    {
        proof {
            reveal_strlit(",");
        }
        let mut out = String::new();
        push_i32(&mut out, self.x);
        out.append(",");
        push_i32(&mut out, self.y);
        proof {
            assert(out@ =~= position_text(*self));
        }
        out
    }
}

/// A rotation and flip of a head.
#[derive(Clone, Copy, Debug, PartialEq, Eq, Structural)]
pub enum Transform {
    Normal,
    _90,
    _180,
    _270,
    Flipped,
    Flipped90,
    Flipped180,
    Flipped270,
}

/// The name of a transform in configuration files.
pub open spec fn transform_text(t: Transform) -> Seq<char> {
    match t {
        Transform::Normal => "normal"@,
        Transform::_90 => "90"@,
        Transform::_180 => "180"@,
        Transform::_270 => "270"@,
        Transform::Flipped => "flipped"@,
        Transform::Flipped90 => "flipped-90"@,
        Transform::Flipped180 => "flipped-180"@,
        Transform::Flipped270 => "flipped-270"@,
    }
}

/// The transform a name stands for.
pub open spec fn parse_transform_spec(s: Seq<char>) -> Option<Transform> {
    if s == "normal"@ {
        Some(Transform::Normal)
    } else if s == "90"@ {
        Some(Transform::_90)
    } else if s == "180"@ {
        Some(Transform::_180)
    } else if s == "270"@ {
        Some(Transform::_270)
    } else if s == "flipped"@ {
        Some(Transform::Flipped)
    } else if s == "flipped-90"@ {
        Some(Transform::Flipped90)
    } else if s == "flipped-180"@ {
        Some(Transform::Flipped180)
    } else if s == "flipped-270"@ {
        Some(Transform::Flipped270)
    } else {
        None
    }
}

impl Transform {
    pub fn as_str(&self) -> (r: &'static str)
        ensures
            r@ == transform_text(*self),
    {
        match self {
            Transform::Normal => "normal",
            Transform::_90 => "90",
            Transform::_180 => "180",
            Transform::_270 => "270",
            Transform::Flipped => "flipped",
            Transform::Flipped90 => "flipped-90",
            Transform::Flipped180 => "flipped-180",
            Transform::Flipped270 => "flipped-270",
        }
    }

    pub fn from_str(text: &str) -> (r: Option<Transform>)
        ensures
            r == parse_transform_spec(text@),
    {
        let s = chars_of(text);
        let n = s.len();
        proof {
            assert(s@.subrange(0, n as int) =~= s@);
        }
        if is_literal(&s, 0, n, "normal") {
            Some(Transform::Normal)
        } else if is_literal(&s, 0, n, "90") {
            Some(Transform::_90)
        } else if is_literal(&s, 0, n, "180") {
            Some(Transform::_180)
        } else if is_literal(&s, 0, n, "270") {
            Some(Transform::_270)
        } else if is_literal(&s, 0, n, "flipped") {
            Some(Transform::Flipped)
        } else if is_literal(&s, 0, n, "flipped-90") {
            Some(Transform::Flipped90)
        } else if is_literal(&s, 0, n, "flipped-180") {
            Some(Transform::Flipped180)
        } else if is_literal(&s, 0, n, "flipped-270") {
            Some(Transform::Flipped270)
        } else {
            None
        }
    }
}

/// Whether a head adapts its refresh rate to the content.
#[derive(Clone, Copy, Debug, PartialEq, Eq, Structural)]
pub enum AdaptiveSyncState {
    Disabled,
    Enabled,
}

pub open spec fn adaptive_sync_text(a: AdaptiveSyncState) -> Seq<char> {
    match a {
        AdaptiveSyncState::Disabled => "disabled"@,
        AdaptiveSyncState::Enabled => "enabled"@,
    }
}

pub open spec fn parse_adaptive_sync_spec(s: Seq<char>) -> Option<AdaptiveSyncState> {
    if s == "disabled"@ {
        Some(AdaptiveSyncState::Disabled)
    } else if s == "enabled"@ {
        Some(AdaptiveSyncState::Enabled)
    } else {
        None
    }
}

impl AdaptiveSyncState {
    pub fn as_str(&self) -> (r: &'static str)
        ensures
            r@ == adaptive_sync_text(*self),
    {
        match self {
            AdaptiveSyncState::Disabled => "disabled",
            AdaptiveSyncState::Enabled => "enabled",
        }
    }

    pub fn from_str(text: &str) -> (r: Option<AdaptiveSyncState>)
        ensures
            r == parse_adaptive_sync_spec(text@),
    {
        let s = chars_of(text);
        let n = s.len();
        proof {
            assert(s@.subrange(0, n as int) =~= s@);
        }
        if is_literal(&s, 0, n, "disabled") {
            Some(AdaptiveSyncState::Disabled)
        } else if is_literal(&s, 0, n, "enabled") {
            Some(AdaptiveSyncState::Enabled)
        } else {
            None
        }
    }
}

proof fn lemma_index_of_after(a: Seq<char>, c: char, rest: Seq<char>)
    requires
        forall|i: int| 0 <= i < a.len() ==> a[i] != c,
    ensures
        index_of(a + seq![c] + rest, c) == Some(a.len()),
{
    let s = a + seq![c] + rest;
    assert forall|j: int| 0 <= j < a.len() implies s[j] != c by {
        assert(s[j] == a[j]);
    }
    lemma_index_of_from(s, c, a.len());
    assert(s[a.len() as int] == c);
}

proof fn lemma_no_char_in_i32_text(n: i32, c: char)
    requires
        !is_digit(c),
        c != '-',
    ensures
        forall|i: int| 0 <= i < i32_text(n).len() ==> i32_text(n)[i] != c,
{
    lemma_i32_text_chars(n);
}

/// Reading the text of a position gives the position back.
pub proof fn lemma_position_text_round_trip(p: Position)
    ensures
        parse_position_spec(position_text(p)) == Ok::<Position, ParsePositionError>(p),
{
    let tx = i32_text(p.x);
    let ty = i32_text(p.y);
    let s = position_text(p);
    lemma_no_char_in_i32_text(p.x, ',');
    lemma_index_of_after(tx, ',', ty);
    lemma_i32_text_chars(p.x);
    lemma_i32_text_chars(p.y);
    assert(s.subrange(0, tx.len() as int) =~= tx);
    assert(s.subrange(tx.len() as int + 1, s.len() as int) =~= ty);
    lemma_parse_i32_text(p.x);
    lemma_parse_i32_text(p.y);
}

proof fn lemma_frac_text(f: nat)
    requires
        0 < f < 1000,
    ensures
        all_digits(frac_text(f)),
        frac_millis(frac_text(f)) == f,
        forall|i: int| 0 <= i < frac_text(f).len() ==> frac_text(f)[i] != '.',
{
    let d1 = f / 100;
    let d2 = (f / 10) % 10;
    let d3 = f % 10;
    assert(f == d1 * 100 + d2 * 10 + d3 && d1 < 10) by (nonlinear_arith)
        requires
            d1 == f / 100,
            d2 == (f / 10) % 10,
            d3 == f % 10,
            f < 1000,
    ;
    assert(digit_value(digit_char(d1)) == d1);
    assert(digit_value(digit_char(d2)) == d2);
    assert(digit_value(digit_char(d3)) == d3);
}

/// Reading the hertz text of a positive rate gives the rate back.
pub proof fn lemma_hz_text_round_trip(r: i32)
    requires
        r > 0,
    ensures
        parse_refresh_spec(hz_text(r)) == Some(r),
        forall|i: int| 0 <= i < hz_text(r).len() ==> hz_text(r)[i] != '@' && hz_text(r)[i] != 'x' && hz_text(r)[i] != '-' && hz_text(r)[i] != '+',
{
    let a = r as nat;
    let ip = decimal(a / 1000);
    let f = a % 1000;
    lemma_decimal(a / 1000);
    assert(a == (a / 1000) * 1000 + f) by (nonlinear_arith)
        requires
            f == a % 1000,
    ;
    let s = hz_text(r);
    assert(Seq::<char>::empty() + ip =~= ip);
    if f == 0 {
        assert(s =~= ip);
        assert forall|i: int| 0 <= i < ip.len() implies ip[i] != '.' by {
            assert(is_digit(ip[i]));
        }
        lemma_index_of_from(ip, '.', ip.len());
        assert(frac_millis(Seq::<char>::empty()) == 0);
        assert(is_digit(s[0]));
    } else {
        lemma_frac_text(f);
        let ft = frac_text(f);
        assert(s =~= ip + seq!['.'] + ft);
        assert forall|i: int| 0 <= i < ip.len() implies ip[i] != '.' by {
            assert(is_digit(ip[i]));
        }
        lemma_index_of_after(ip, '.', ft);
        assert(s.subrange(0, ip.len() as int) =~= ip);
        assert(s.subrange(ip.len() as int + 1, s.len() as int) =~= ft);
        assert(is_digit(s[0]));
        assert forall|i: int| 0 <= i < s.len() implies s[i] != '@' && s[i] != 'x' && s[i] != '-' && s[i] != '+' by {
            if i < ip.len() {
                assert(is_digit(ip[i]));
            } else if i > ip.len() {
                assert(is_digit(ft[i - ip.len() - 1]));
            }
        }
    }
    assert forall|i: int| 0 <= i < s.len() implies s[i] != '@' && s[i] != 'x' && s[i] != '-' && s[i] != '+' by {
        if f == 0 {
            assert(is_digit(ip[i]));
        } else {
            let ft = frac_text(f);
            if i < ip.len() {
                assert(s[i] == ip[i]);
                assert(is_digit(ip[i]));
            } else if i > ip.len() {
                assert(s[i] == ft[i - ip.len() - 1]);
                assert(is_digit(ft[i - ip.len() - 1]));
            }
        }
    }
}

/// A mode whose sizes and refresh rate are positive.
pub open spec fn mode_valid(m: Mode) -> bool {
    match m {
        Mode::WiHe(w, h) => w > 0 && h > 0,
        Mode::WiHeRe(w, h, r) => w > 0 && h > 0 && r > 0,
        Mode::WiHeReCustom(w, h, r) => w > 0 && h > 0 && r > 0,
        _ => true,
    }
}

proof fn lemma_dims_round_trip(w: i32, h: i32, r: Option<i32>, custom: bool)
    requires
        w > 0,
        h > 0,
        r matches Some(rr) ==> rr > 0,
        custom ==> r is Some,
    ensures
        ({
            let t = match r {
                Some(rr) => i32_text(w) + seq!['x'] + i32_text(h) + seq!['@'] + hz_text(rr) + "Hz"@,
                None => i32_text(w) + seq!['x'] + i32_text(h),
            };
            parse_dims_spec(t, custom) == Ok::<Mode, ParseModeError>(
                match r {
                    Some(rr) => if custom {
                        Mode::WiHeReCustom(w, h, rr)
                    } else {
                        Mode::WiHeRe(w, h, rr)
                    },
                    None => Mode::WiHe(w, h),
                },
            )
        }),
{
    let tw = i32_text(w);
    let th = i32_text(h);
    lemma_no_char_in_i32_text(w, 'x');
    lemma_no_char_in_i32_text(h, '@');
    lemma_parse_i32_text(w);
    lemma_parse_i32_text(h);
    lemma_i32_text_chars(w);
    lemma_i32_text_chars(h);
    match r {
        None => {
            let t = tw + seq!['x'] + th;
            lemma_index_of_after(tw, 'x', th);
            assert(t.subrange(0, tw.len() as int) =~= tw);
            assert(t.subrange(tw.len() as int + 1, t.len() as int) =~= th);
            assert forall|i: int| 0 <= i < th.len() implies th[i] != '@' by {}
            lemma_index_of_from(th, '@', th.len());
        },
        Some(rr) => {
            reveal_strlit("Hz");
            let hz = hz_text(rr);
            lemma_hz_text_round_trip(rr);
            let rest = th + seq!['@'] + hz + "Hz"@;
            let t = tw + seq!['x'] + th + seq!['@'] + hz + "Hz"@;
            assert(t =~= tw + seq!['x'] + rest);
            lemma_index_of_after(tw, 'x', rest);
            assert(t.subrange(0, tw.len() as int) =~= tw);
            assert(t.subrange(tw.len() as int + 1, t.len() as int) =~= rest);
            assert(rest =~= th + seq!['@'] + (hz + "Hz"@));
            lemma_index_of_after(th, '@', hz + "Hz"@);
            assert(rest.subrange(0, th.len() as int) =~= th);
            assert(rest.subrange(th.len() as int + 1, rest.len() as int) =~= hz + "Hz"@);
            assert(strip_hz(hz + "Hz"@) =~= hz);
        },
    }
}

/// Reading the text form of a mode gives the mode back, for every mode with
/// positive sizes and refresh rate.
pub proof fn lemma_mode_text_round_trip(m: Mode)
    requires
        mode_valid(m),
    ensures
        parse_mode_spec(mode_text(m)) == Ok::<Mode, ParseModeError>(m),
{
    reveal_strlit("best");
    reveal_strlit("preferred");
    reveal_strlit("Hz");
    match m {
        Mode::Best => {},
        Mode::Preferred => {},
        Mode::WiHe(w, h) => {
            lemma_dims_round_trip(w, h, None, false);
            lemma_i32_text_chars(w);
            let s = mode_text(m);
            assert(is_digit(s[0]));
            assert(s != "best"@ && s != "preferred"@) by {
                assert("best"@[0] == 'b');
                assert("preferred"@[0] == 'p');
            }
        },
        Mode::WiHeRe(w, h, r) => {
            lemma_dims_round_trip(w, h, Some(r), false);
            lemma_i32_text_chars(w);
            let s = mode_text(m);
            assert(is_digit(s[0]));
            assert(s != "best"@ && s != "preferred"@) by {
                assert("best"@[0] == 'b');
                assert("preferred"@[0] == 'p');
            }
        },
        Mode::WiHeReCustom(w, h, r) => {
            lemma_dims_round_trip(w, h, Some(r), true);
            let s = mode_text(m);
            let t = i32_text(w) + seq!['x'] + i32_text(h) + seq!['@'] + hz_text(r) + "Hz"@;
            assert(s.drop_first() =~= t);
            assert(s[0] == '!');
            assert(s != "best"@ && s != "preferred"@) by {
                assert("best"@[0] == 'b');
                assert("preferred"@[0] == 'p');
            }
        },
    }
}

/// Reading the name of a transform gives the transform back.
pub proof fn lemma_transform_text_round_trip(t: Transform)
    ensures
        parse_transform_spec(transform_text(t)) == Some(t),
{
    reveal_strlit("normal");
    reveal_strlit("90");
    reveal_strlit("180");
    reveal_strlit("270");
    reveal_strlit("flipped");
    reveal_strlit("flipped-90");
    reveal_strlit("flipped-180");
    reveal_strlit("flipped-270");
    assert("normal"@ != "90"@ && "normal"@ != "180"@ && "normal"@ != "270"@ && "normal"@ != "flipped"@) by {
        assert("normal"@.len() != "90"@.len());
        assert("normal"@.len() != "180"@.len());
        assert("normal"@.len() != "flipped"@.len());
    }
    assert("90"@ != "180"@ && "90"@ != "270"@ && "180"@ != "270"@) by {
        assert("90"@.len() != "180"@.len());
        assert("180"@[0] != "270"@[0]);
    }
    assert("flipped"@ != "flipped-90"@ && "flipped-90"@ != "flipped-180"@ && "flipped-180"@ != "flipped-270"@ && "flipped-90"@ != "flipped-270"@) by {
        assert("flipped"@.len() != "flipped-90"@.len());
        assert("flipped-90"@.len() != "flipped-180"@.len());
        assert("flipped-90"@.len() != "flipped-270"@.len());
        assert("flipped-180"@[8] != "flipped-270"@[8]);
    }
    assert("90"@ != "flipped"@ && "180"@ != "flipped"@ && "270"@ != "flipped"@ && "90"@ != "normal"@) by {
        assert("90"@.len() != "flipped"@.len());
        assert("180"@.len() != "flipped"@.len());
    }
    assert("normal"@ != "flipped-90"@ && "normal"@ != "flipped-180"@ && "normal"@ != "flipped-270"@) by {
        assert("normal"@.len() != "flipped-90"@.len());
        assert("normal"@.len() != "flipped-180"@.len());
    }
    assert("90"@ != "flipped-90"@ && "180"@ != "flipped-180"@ && "270"@ != "flipped-270"@ && "180"@ != "flipped-90"@ && "270"@ != "flipped-90"@ && "90"@ != "flipped-180"@ && "90"@ != "flipped-270"@ && "180"@ != "flipped-270"@ && "270"@ != "flipped-180"@) by {
        assert("90"@.len() != "flipped-90"@.len());
        assert("180"@.len() != "flipped-180"@.len());
        assert("270"@.len() != "flipped-270"@.len());
        assert("180"@.len() != "flipped-90"@.len());
        assert("270"@.len() != "flipped-90"@.len());
    }
    assert("flipped"@ != "flipped-180"@ && "flipped"@ != "flipped-270"@) by {
        assert("flipped"@.len() != "flipped-180"@.len());
    }
}

/// Reading the name of an adaptive-sync state gives the state back.
pub proof fn lemma_adaptive_sync_text_round_trip(a: AdaptiveSyncState)
    ensures
        parse_adaptive_sync_spec(adaptive_sync_text(a)) == Some(a),
{
    reveal_strlit("disabled");
    reveal_strlit("enabled");
    assert("disabled"@.len() != "enabled"@.len());
}

} // verus!
