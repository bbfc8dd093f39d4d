use vstd::prelude::*;
use crate::decimal::{abs, decimal_text, padded_digits, zeros};
use crate::text::{all_digits, digits_value, is_digit, lemma_nat_digits, nat_digits, push_char, push_digits};

verus! {

/// Bound on a float's mantissa: 18 decimal digits, more than a double holds.
pub const FLOAT_MAX_MANTISSA: i128 = 999_999_999_999_999_999;

/// Bound on the digits after a float's point.
pub const FLOAT_MAX_SCALE: u32 = 18;

/// A finite float held exactly as its shortest decimal form:
/// `mantissa / 10^scale` with no trailing zero after the point.
#[derive(Debug, Copy, Clone, PartialEq, Eq, Hash, Structural)]
pub struct FloatValue {
    pub mantissa: i128,
    pub scale: u32,
}

impl FloatValue {
    pub open spec fn wf(self) -> bool {
        &&& self.scale <= FLOAT_MAX_SCALE
        &&& -FLOAT_MAX_MANTISSA <= self.mantissa <= FLOAT_MAX_MANTISSA
        &&& self.scale > 0 ==> self.mantissa % 10 != 0
    }

}

pub open spec fn pow10(k: nat) -> nat
    decreases k,
{
    if k == 0 {
        1
    } else {
        10 * pow10((k - 1) as nat)
    }
}

/// Canonical float text: a `-` for negative values, the whole part, a
/// point, and the fraction's digits, or `0` where the value is whole, so
/// that the text never reads as an integer.
pub open spec fn float_text(f: FloatValue) -> Seq<char> {
    let a = abs(f.mantissa as int);
    let p = pow10(f.scale as nat);
    let whole = a / p;
    let frac = a % p;
    let sign = if f.mantissa < 0 {
        seq!['-']
    } else {
        seq![]
    };
    let w = if whole == 0 {
        seq!['0']
    } else {
        nat_digits(whole)
    };
    let fr = if f.scale == 0 {
        seq!['0']
    } else {
        padded_digits(frac, f.scale as nat)
    };
    sign + w + seq!['.'] + fr
}

/// Index of the first `.` in `s`.
pub open spec fn first_dot(s: Seq<char>) -> Option<nat>
    decreases s.len(),
{
    if s.len() == 0 {
        None
    } else if s[0] == '.' {
        Some(0)
    } else {
        match first_dot(s.drop_first()) {
            Some(k) => Some(k + 1),
            None => None,
        }
    }
}

/// `s` without its trailing zeros.
pub open spec fn strip_zeros(s: Seq<char>) -> Seq<char>
    decreases s.len(),
{
    if s.len() > 0 && s.last() == '0' {
        strip_zeros(s.drop_last())
    } else {
        s
    }
}

/// Whole and fractional digits of an unsigned decimal literal: digits with
/// at most one point and at least one digit in all.
pub open spec fn split_literal(b: Seq<char>) -> Option<(Seq<char>, Seq<char>)> {
    match first_dot(b) {
        Some(k) => {
            let ip = b.subrange(0, k as int);
            let fp = b.subrange((k + 1) as int, b.len() as int);
            if all_digits(ip) && all_digits(fp) && ip.len() + fp.len() > 0 {
                Some((ip, fp))
            } else {
                None
            }
        },
        None => if b.len() > 0 && all_digits(b) {
            Some((b, seq![]))
        } else {
            None
        },
    }
}

/// The float that a decimal literal denotes: an optional sign, digits, and
/// an optional point with digits; trailing zeros of the fraction dropped,
/// within the mantissa and scale bounds.
/// Exponents, `inf` and `NaN` are not part of this grammar.
pub open spec fn parse_float(s: Seq<char>) -> Option<FloatValue> {
    let neg = s.len() > 0 && s[0] == '-';
    let b = if s.len() > 0 && (s[0] == '-' || s[0] == '+') {
        s.drop_first()
    } else {
        s
    };
    match split_literal(b) {
        Some(p) => {
            let fp = strip_zeros(p.1);
            let raw = digits_value(p.0 + fp) as int;
            if raw <= FLOAT_MAX_MANTISSA && fp.len() <= FLOAT_MAX_SCALE {
                Some(FloatValue { mantissa: (if neg { -raw } else { raw }) as i128, scale: fp.len() as u32 })
            } else {
                None
            }
        },
        None => None,
    }
}

pub proof fn lemma_digits_concat(a: Seq<char>, b: Seq<char>)
    ensures
        digits_value(a + b) == digits_value(a) * pow10(b.len()) + digits_value(b),
    decreases b.len(),
{
    let x = digits_value(a);
    if b.len() == 0 {
        assert(a + b =~= a);
        assert(pow10(0) == 1);
        assert(x * 1 == x);
    } else {
        lemma_digits_concat(a, b.drop_last());
        assert((a + b).drop_last() =~= a + b.drop_last());
        assert((a + b).last() == b.last());
        let p = pow10(b.drop_last().len());
        let v1 = digits_value(b.drop_last());
        let d = crate::text::digit_value(b.last());
        assert(pow10(b.len()) == 10 * p);
        assert(digits_value(a + b.drop_last()) == x * p + v1);
        assert(digits_value(a + b) == digits_value(a + b.drop_last()) * 10 + d);
        assert(digits_value(b) == v1 * 10 + d);
        assert((x * p + v1) * 10 == x * (10 * p) + v1 * 10) by (nonlinear_arith);
    }
}

pub proof fn lemma_zeros(k: nat)
    ensures
        digits_value(zeros(k)) == 0,
        all_digits(zeros(k)),
    decreases k,
{
    if k > 0 {
        lemma_zeros((k - 1) as nat);
        assert(zeros(k).drop_last() =~= zeros((k - 1) as nat));
    }
}

pub proof fn lemma_digits_len(n: nat, w: nat)
    requires
        n < pow10(w),
    ensures
        nat_digits(n).len() <= w,
    decreases w,
{
    if n > 0 {
        assert(w > 0);
        assert(n / 10 < pow10((w - 1) as nat));
        lemma_digits_len(n / 10, (w - 1) as nat);
    }
}

pub proof fn lemma_padded(n: nat, w: nat)
    requires
        n < pow10(w),
    ensures
        padded_digits(n, w).len() == w,
        all_digits(padded_digits(n, w)),
        digits_value(padded_digits(n, w)) == n,
        n % 10 != 0 && w > 0 ==> padded_digits(n, w).last() == crate::text::digit_char(n % 10),
{
    lemma_digits_len(n, w);
    lemma_nat_digits(n);
    let d = nat_digits(n);
    if d.len() < w {
        let z = zeros((w - d.len()) as nat);
        lemma_zeros((w - d.len()) as nat);
        lemma_digits_concat(z, d);
        assert forall|i: int| 0 <= i < (z + d).len() implies is_digit(#[trigger] (z + d)[i]) by {
            if i < z.len() {
                assert(z[i] == '0');
            } else {
                assert((z + d)[i] == d[i - z.len()]);
            }
        }
    }
}

pub proof fn lemma_first_dot(w: Seq<char>, rest: Seq<char>)
    requires
        all_digits(w),
    ensures
        first_dot(w + seq!['.'] + rest) == Some(w.len()),
    decreases w.len(),
{
    let t = w + seq!['.'] + rest;
    if w.len() > 0 {
        assert(is_digit(w[0]));
        assert(t.drop_first() =~= w.drop_first() + seq!['.'] + rest);
        lemma_first_dot(w.drop_first(), rest);
    } else {
        assert(t[0] == '.');
    }
}

pub proof fn lemma_pow10_pos(k: nat)
    ensures
        pow10(k) >= 1,
    decreases k,
{
    if k > 0 {
        lemma_pow10_pos((k - 1) as nat);
    }
}

/// The whole and fractional digits of a float's canonical text.
pub open spec fn whole_text(f: FloatValue) -> Seq<char> {
    let whole = abs(f.mantissa as int) / pow10(f.scale as nat);
    if whole == 0 {
        seq!['0']
    } else {
        nat_digits(whole)
    }
}

pub open spec fn frac_text(f: FloatValue) -> Seq<char> {
    if f.scale == 0 {
        seq!['0']
    } else {
        padded_digits(abs(f.mantissa as int) % pow10(f.scale as nat), f.scale as nat)
    }
}

proof fn lemma_float_digits(f: FloatValue)
    requires
        f.wf(),
    ensures
        all_digits(whole_text(f)),
        whole_text(f).len() > 0,
        split_literal(whole_text(f) + seq!['.'] + frac_text(f)) == Some((whole_text(f), frac_text(f))),
        strip_zeros(frac_text(f)).len() == f.scale,
        f.scale > 0 ==> frac_text(f).len() == f.scale,
        digits_value(whole_text(f) + strip_zeros(frac_text(f))) == abs(f.mantissa as int),
{
    let a = abs(f.mantissa as int);
    let p = pow10(f.scale as nat);
    lemma_pow10_pos(f.scale as nat);
    let whole = a / p;
    let frac = a % p;
    let w = whole_text(f);
    let fr = frac_text(f);
    lemma_nat_digits(whole);
    if whole == 0 {
        assert(w.drop_last() =~= seq![]);
    }
    let b = w + seq!['.'] + fr;
    lemma_first_dot(w, fr);
    assert(b.subrange(0, w.len() as int) =~= w);
    assert(b.subrange((w.len() + 1) as int, b.len() as int) =~= fr);
    let fp = strip_zeros(fr);
    if f.scale == 0 {
        assert(fr.drop_last() =~= Seq::<char>::empty());
        assert(fr.len() == 1 && fr.last() == '0');
        assert(strip_zeros(fr) == strip_zeros(fr.drop_last()));
        assert(strip_zeros(Seq::<char>::empty()) == Seq::<char>::empty());
        assert(fp =~= seq![]);
        assert(w + fp =~= w);
        assert(p == 1);
        assert(whole == a) by {
            vstd::arithmetic::div_mod::lemma_div_basics(a as int);
        }
    } else {
        lemma_padded(frac, f.scale as nat);
        assert(a % 10 != 0);
        assert(frac % 10 == a % 10) by {
            assert(p == 10 * pow10((f.scale - 1) as nat));
            vstd::arithmetic::div_mod::lemma_mod_mod(a as int, 10, pow10((f.scale - 1) as nat) as int);
        }
        assert(fr.last() != '0');
        assert(fp == fr);
        lemma_digits_concat(w, fr);
        assert(whole * p + frac == a) by {
            vstd::arithmetic::div_mod::lemma_fundamental_div_mod(a as int, p as int);
        }
    }
}

/// Canonical float text reads back as the same float.
pub proof fn lemma_float_round_trip(f: FloatValue)
    requires
        f.wf(),
    ensures
        parse_float(float_text(f)) == Some(f),
{
    lemma_float_digits(f);
    let w = whole_text(f);
    let b = w + seq!['.'] + frac_text(f);
    let s = float_text(f);
    assert(is_digit(w[0]));
    if f.mantissa < 0 {
        assert(s =~= seq!['-'] + b);
        assert(s.drop_first() =~= b);
    } else {
        assert(s =~= b);
        assert(s[0] == w[0]);
    }
}

/// A whole float's text ends in `.0`; any other float's text ends in a
/// digit other than zero, so the `.0` marks exactly the whole values.
pub proof fn law_float_text_shape(f: FloatValue)
    requires
        f.wf(),
    ensures
        f.scale == 0 ==> float_text(f).last() == '0' && float_text(f)[float_text(f).len() - 2] == '.',
        f.scale > 0 ==> float_text(f).last() != '0',
        parse_float(float_text(f)) == Some(f),
{
    lemma_float_digits(f);
    lemma_float_round_trip(f);
    let fr = frac_text(f);
    let t = float_text(f);
    if f.scale > 0 {
        assert(t.last() == fr.last());
        assert(strip_zeros(fr).len() == fr.len());
        if fr.last() == '0' {
            assert(strip_zeros(fr) == strip_zeros(fr.drop_last()));
            lemma_strip_len(fr.drop_last());
        }
    }
}

proof fn lemma_strip_len(s: Seq<char>)
    ensures
        strip_zeros(s).len() <= s.len(),
    decreases s.len(),
{
    if s.len() > 0 && s.last() == '0' {
        lemma_strip_len(s.drop_last());
    }
}

/// The text of `f` under the float rule.
pub fn encode_float(f: FloatValue) -> (r: String)
    requires
        f.wf(),
    ensures
        r@ == float_text(f),
{
    let mut s = String::new();
    if f.mantissa < 0 {
        push_char(&mut s, '-');
    }
    let a: u128 = if f.mantissa < 0 {
        (-f.mantissa) as u128
    } else {
        f.mantissa as u128
    };
    let p = pow10_of(f.scale);
    proof {
        lemma_pow10_pos(f.scale as nat);
    }
    let whole = a / p;
    let frac = a % p;
    if whole == 0 {
        push_char(&mut s, '0');
    } else {
        push_digits(&mut s, whole);
    }
    push_char(&mut s, '.');
    if f.scale == 0 {
        push_char(&mut s, '0');
    } else {
        let ghost before = s@;
        let mut z: usize = 0;
        let ghost d = nat_digits(frac as nat);
        proof {
            lemma_digits_len(frac as nat, f.scale as nat);
        }
        let mut t = String::new();
        push_digits(&mut t, frac);
        assert(t@ =~= d);
        let nd = t.as_str().unicode_len();
        let sc = f.scale as usize;
        while z + nd < sc
            invariant
                nd == d.len(),
                d.len() <= f.scale,
                sc == f.scale,
                z + nd <= sc,
                s@ == before + zeros(z as nat),
            decreases sc - z - nd,
        {
            push_char(&mut s, '0');
            proof {
                assert(zeros((z + 1) as nat) =~= zeros(z as nat).push('0'));
            }
            z += 1;
        }
        s.append(t.as_str());
        proof {
            if d.len() < f.scale {
                assert(padded_digits(frac as nat, f.scale as nat) =~= zeros(z as nat) + d);
            } else {
                assert(zeros(0) =~= seq![]);
            }
        }
    }
    assert(s@ =~= float_text(f));
    s
}

pub proof fn lemma_pow10_mono(a: nat, b: nat)
    requires
        a <= b,
    ensures
        pow10(a) <= pow10(b),
    decreases b,
{
    if a < b {
        lemma_pow10_mono(a, (b - 1) as nat);
    }
}

pub proof fn lemma_pow10_28()
    ensures
        pow10(28) == 10_000_000_000_000_000_000_000_000_000,
{
    reveal_with_fuel(pow10, 29);
}

proof fn lemma_first_dot_scan(t: Seq<char>, m: nat)
    requires
        m <= t.len(),
        forall|j: int| 0 <= j < m ==> t[j] != '.',
    ensures
        m < t.len() && t[m as int] == '.' ==> first_dot(t) == Some(m),
        m == t.len() ==> first_dot(t) is None,
    decreases m,
{
    if m > 0 {
        assert(t[0] != '.');
        let u = t.drop_first();
        assert forall|j: int| 0 <= j < m - 1 implies u[j] != '.' by {
            assert(u[j] == t[j + 1]);
        }
        lemma_first_dot_scan(u, (m - 1) as nat);
    } else if t.len() > 0 {
        assert(m < t.len());
    }
}

/// One past the largest mantissa: runs of digits beyond it are held there.
pub open spec fn cap_mantissa(x: nat) -> nat {
    if x > FLOAT_MAX_MANTISSA {
        (FLOAT_MAX_MANTISSA + 1) as nat
    } else {
        x
    }
}

/// Reads digits `s[from..to]` onto the accumulated value of `pre`.
fn accumulate(s: &str, from: usize, to: usize, acc0: u128, Ghost(pre): Ghost<Seq<char>>) -> (r: Option<u128>)
    requires
        from <= to <= s@.len(),
        acc0 == cap_mantissa(digits_value(pre)),
    ensures
        r is Some <==> all_digits(s@.subrange(from as int, to as int)),
        r matches Some(v) ==> v == cap_mantissa(digits_value(pre + s@.subrange(from as int, to as int))),
{
    let mut acc = acc0;
    let mut i = from;
    while i < to
        invariant
            from <= i <= to <= s@.len(),
            all_digits(s@.subrange(from as int, i as int)),
            acc == cap_mantissa(digits_value(pre + s@.subrange(from as int, i as int))),
        decreases to - i,
    {
        let c = s.get_char(i);
        if !('0' <= c && c <= '9') {
            assert(s@.subrange(from as int, to as int)[i - from] == c);
            return None;
        }
        proof {
            let a = pre + s@.subrange(from as int, i as int);
            let b = pre + s@.subrange(from as int, i + 1);
            assert(b.drop_last() =~= a);
            assert(b.last() == c);
            assert forall|j: int| 0 <= j < i + 1 - from implies is_digit(
                #[trigger] s@.subrange(from as int, i + 1)[j],
            ) by {
                if j < i - from {
                    assert(s@.subrange(from as int, i + 1)[j] == s@.subrange(from as int, i as int)[j]);
                }
            }
        }
        let d = (c as u32 - '0' as u32) as u128;
        let next = acc * 10 + d;
        acc = if next > FLOAT_MAX_MANTISSA as u128 {
            FLOAT_MAX_MANTISSA as u128 + 1
        } else {
            next
        };
        i += 1;
    }
    Some(acc)
}

/// Positions in a literal: the end of the sign, the point (or the end),
/// the start of the fraction, and its end once trailing zeros are dropped.
fn scan_literal(s: &str) -> (r: (bool, usize, usize, usize, usize))
    ensures
        ({
            let (neg, start, k, fs, e) = r;
            let n = s@.len();
            let b = if s@.len() > 0 && (s@[0] == '-' || s@[0] == '+') {
                s@.drop_first()
            } else {
                s@
            };
            &&& neg == (n > 0 && s@[0] == '-')
            &&& start <= k <= n
            &&& b == s@.subrange(start as int, n as int)
            &&& (start == 1 || start == 0)
            &&& (k < n ==> first_dot(b) == Some((k - start) as nat))
            &&& (k == n ==> first_dot(b) is None)
            &&& fs == (if k < n { k + 1 } else { n as int })
            &&& fs <= e <= n
            &&& strip_zeros(s@.subrange(fs as int, n as int)) == s@.subrange(fs as int, e as int)
            &&& (e > fs ==> s@[e - 1] != '0')
        }),
{
    let n = s.unicode_len();
    let c0 = if n > 0 {
        s.get_char(0)
    } else {
        ' '
    };
    let neg = n > 0 && c0 == '-';
    let start: usize = if n > 0 && (c0 == '-' || c0 == '+') {
        1
    } else {
        0
    };
    let ghost b = if s@.len() > 0 && (s@[0] == '-' || s@[0] == '+') {
        s@.drop_first()
    } else {
        s@
    };
    assert(b =~= s@.subrange(start as int, n as int));
    let mut k = start;
    while k < n && s.get_char(k) != '.'
        invariant
            start <= k <= n == s@.len(),
            b == s@.subrange(start as int, n as int),
            forall|j: int| start <= j < k ==> s@[j] != '.',
        decreases n - k,
    {
        k += 1;
    }
    proof {
        assert forall|j: int| 0 <= j < k - start implies b[j] != '.' by {
            assert(b[j] == s@[start + j]);
        }
        lemma_first_dot_scan(b, (k - start) as nat);
    }
    let has_dot = k < n;
    let fs: usize = if has_dot {
        k + 1
    } else {
        n
    };
    let mut e = n;
    while e > fs && s.get_char(e - 1) == '0'
        invariant
            fs <= e <= n == s@.len(),
            strip_zeros(s@.subrange(fs as int, n as int)) == strip_zeros(s@.subrange(fs as int, e as int)),
        decreases e,
    {
        proof {
            let t = s@.subrange(fs as int, e as int);
            assert(t.drop_last() =~= s@.subrange(fs as int, e - 1));
        }
        e -= 1;
    }
    let ghost fpart = s@.subrange(fs as int, e as int);
    proof {
        if e > fs {
            assert(fpart.last() == s@[e - 1]);
        } else {
            assert(fpart.len() == 0);
        }
        assert(strip_zeros(fpart) == fpart);
    }
    (neg, start, k, fs, e)
}

/// Reads a float from a plain decimal literal: an optional sign, digits,
/// and an optional point with digits. Unlike a general float parser, it
/// takes no exponent (`1e3`), no `inf` or `NaN`, and no value that needs
/// more than 18 digits of mantissa or 18 digits after the point once
/// trailing zeros are dropped; those are `None`.
#[verifier::rlimit(40)]
pub fn decode_float(s: &str) -> (r: Option<FloatValue>)
    ensures
        r == parse_float(s@),
        r matches Some(f) ==> f.wf(),
{
    let n = s.unicode_len();
    let (neg, start, k, fs, e) = scan_literal(s);
    let ghost b = if s@.len() > 0 && (s@[0] == '-' || s@[0] == '+') {
        s@.drop_first()
    } else {
        s@
    };
    let has_dot = k < n;
    let ghost fpart = s@.subrange(fs as int, e as int);
    let ghost ip = s@.subrange(start as int, k as int);
    proof {
        assert(b.subrange(0, (k - start) as int) =~= ip);
        if has_dot {
            assert(b.subrange((k - start + 1) as int, b.len() as int) =~= s@.subrange(fs as int, n as int));
        } else {
            assert(ip =~= b);
        }
    }
    let ghost empty: Seq<char> = Seq::empty();
    assert(digits_value(empty) == 0);
    // the digits after the stripped zeros must still be digits
    let tail_ok = accumulate(s, e, n, 0, Ghost(empty));
    if tail_ok.is_none() {
        proof {
            assert forall|j: int| 0 <= j < n - e implies s@.subrange(e as int, n as int)[j]
                == s@.subrange(fs as int, n as int)[j + (e - fs)] by {}
            if all_digits(s@.subrange(fs as int, n as int)) {
                assert forall|j: int| 0 <= j < n - e implies is_digit(
                    #[trigger] s@.subrange(e as int, n as int)[j],
                ) by {
                    assert(s@.subrange(e as int, n as int)[j] == s@.subrange(fs as int, n as int)[j + (e - fs)]);
                }
            }
        }
        return None;
    }
    let whole = accumulate(s, start, k, 0, Ghost(empty));
    let acc = match whole {
        Some(w) => w,
        None => {
            return None;
        },
    };
    proof {
        assert(empty + ip =~= ip);
    }
    let total = accumulate(s, fs, e, acc, Ghost(ip));
    let v = match total {
        Some(v) => v,
        None => {
            return None;
        },
    };
    proof {
        assert forall|j: int| 0 <= j < n - fs implies is_digit(#[trigger] s@.subrange(fs as int, n as int)[j]) by {
            if j < e - fs {
                assert(s@.subrange(fs as int, n as int)[j] == fpart[j]);
            } else {
                assert(s@.subrange(fs as int, n as int)[j] == s@.subrange(e as int, n as int)[j - (e - fs)]);
            }
        }
    }
    if k == start && fs == n {
        // no digit at all
        return None;
    }
    if v > FLOAT_MAX_MANTISSA as u128 || e - fs > FLOAT_MAX_SCALE as usize {
        return None;
    }
    let scale = (e - fs) as u32;
    let m: i128 = if neg {
        -(v as i128)
    } else {
        v as i128
    };
    proof {
        if scale > 0 {
            assert(fpart.last() != '0');
            assert(is_digit(fpart.last()));
            let whole_digits = ip + fpart;
            assert(whole_digits.drop_last() =~= ip + fpart.drop_last());
            assert(whole_digits.last() == fpart.last());
        }
    }
    Some(FloatValue { mantissa: m, scale })
}

/// `10^k`.
pub fn pow10_of(k: u32) -> (r: u128)
    requires
        k <= 28,
    ensures
        r == pow10(k as nat),
        r <= pow10(28),
        pow10(28) == 10_000_000_000_000_000_000_000_000_000,
{
    let mut p: u128 = 1;
    let mut i: u32 = 0;
    proof {
        lemma_pow10_28();
        lemma_pow10_mono(0, 28);
    }
    while i < k
        invariant
            i <= k <= 28,
            p == pow10(i as nat),
            p <= pow10(28),
            pow10(28) == 10_000_000_000_000_000_000_000_000_000,
        decreases k - i,
    {
        proof {
            lemma_pow10_mono((i + 1) as nat, 28);
        }
        p = p * 10;
        i += 1;
    }
    p
}

/// Largest difference between two floats that still count as equal.
pub open spec fn tolerance_digits() -> nat {
    3
}

/// `a` and `b` differ by at most `10^-3`.
pub open spec fn float_close(a: FloatValue, b: FloatValue) -> bool {
    let s = if a.scale >= b.scale {
        a.scale
    } else {
        b.scale
    };
    let x = a.mantissa * pow10((s - a.scale) as nat);
    let y = b.mantissa * pow10((s - b.scale) as nat);
    abs(x - y) * pow10(tolerance_digits()) <= pow10(s as nat)
}

/// Compares two floats with the fixed tolerance `10^-3`.
pub fn float_close_exec(a: FloatValue, b: FloatValue) -> (r: bool)
    requires
        a.wf(),
        b.wf(),
    ensures
        r == float_close(a, b),
{
    let s = if a.scale >= b.scale {
        a.scale
    } else {
        b.scale
    };
    let pa = pow10_of(s - a.scale);
    let pb = pow10_of(s - b.scale);
    proof {
        lemma_pow10_mono((s - a.scale) as nat, 18);
        lemma_pow10_mono((s - b.scale) as nat, 18);
        lemma_pow10_18();
        assert(-FLOAT_MAX_MANTISSA * (pa as int) <= a.mantissa * (pa as int) <= FLOAT_MAX_MANTISSA * (pa as int)) by (nonlinear_arith)
            requires -FLOAT_MAX_MANTISSA <= a.mantissa <= FLOAT_MAX_MANTISSA, pa >= 0;
        assert(-FLOAT_MAX_MANTISSA * (pb as int) <= b.mantissa * (pb as int) <= FLOAT_MAX_MANTISSA * (pb as int)) by (nonlinear_arith)
            requires -FLOAT_MAX_MANTISSA <= b.mantissa <= FLOAT_MAX_MANTISSA, pb >= 0;
        assert(FLOAT_MAX_MANTISSA * (pa as int) <= FLOAT_MAX_MANTISSA * 1_000_000_000_000_000_000) by (nonlinear_arith)
            requires pa <= 1_000_000_000_000_000_000;
        assert(FLOAT_MAX_MANTISSA * (pb as int) <= FLOAT_MAX_MANTISSA * 1_000_000_000_000_000_000) by (nonlinear_arith)
            requires pb <= 1_000_000_000_000_000_000;
    }
    let x: i128 = a.mantissa * (pa as i128);
    let y: i128 = b.mantissa * (pb as i128);
    let d: i128 = if x >= y {
        x - y
    } else {
        y - x
    };
    let du = d as u128;
    if s >= 3 {
        let q = pow10_of(s - 3);
        proof {
            assert(pow10(s as nat) == 1000 * pow10((s - 3) as nat)) by {
                reveal_with_fuel(pow10, 4);
            }
            assert(pow10(3) == 1000) by {
                reveal_with_fuel(pow10, 4);
            }
            assert((du <= q) == (du * 1000 <= 1000 * q)) by (nonlinear_arith);
        }
        du <= q
    } else {
        let q = pow10_of(3 - s);
        proof {
            reveal_with_fuel(pow10, 4);
            assert(pow10(3) == 1000);
            if s == 0 {
                assert(q == 1000 && pow10(s as nat) == 1);
            } else if s == 1 {
                assert(q == 100 && pow10(s as nat) == 10);
            } else {
                assert(q == 10 && pow10(s as nat) == 100);
            }
        }
        if du > 1 {
            false
        } else {
            du * q <= 1
        }
    }
}

pub proof fn lemma_pow10_18()
    ensures
        pow10(18) == 1_000_000_000_000_000_000,
{
    reveal_with_fuel(pow10, 19);
}

/// A float is within the tolerance of itself.
pub proof fn lemma_float_close_refl(a: FloatValue)
    ensures
        float_close(a, a),
{
    lemma_pow10_pos(a.scale as nat);
    let x = a.mantissa * pow10(0);
    assert(abs(x - x) == 0);
    assert(0 * pow10(tolerance_digits()) == 0);
}

} // verus!
