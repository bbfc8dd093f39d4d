use vstd::prelude::*;

verus! {

pub open spec fn is_digit(c: char) -> bool {
    '0' <= c && c <= '9'
}

pub open spec fn digit_value(c: char) -> nat {
    (c as int - '0' as int) as nat
}

pub open spec fn digit_char(d: nat) -> char {
    ((d + '0' as int) as u32) as char
}

pub open spec fn all_digits(s: Seq<char>) -> bool {
    forall|i: int| 0 <= i < s.len() ==> is_digit(#[trigger] s[i])
}

/// The decimal digits of `n`, most significant first; empty for zero.
pub open spec fn nat_digits(n: nat) -> Seq<char>
    decreases n,
{
    if n == 0 {
        seq![]
    } else {
        nat_digits(n / 10).push(digit_char(n % 10))
    }
}

/// The number that a string of decimal digits denotes.
pub open spec fn digits_value(s: Seq<char>) -> nat
    decreases s.len(),
{
    if s.len() == 0 {
        0
    } else {
        digits_value(s.drop_last()) * 10 + digit_value(s.last())
    }
}

/// Canonical decimal text of an integer: a `-` for negative values, no
/// leading zeros, and `0` for zero.
pub open spec fn int_text(v: int) -> Seq<char> {
    if v < 0 {
        seq!['-'] + nat_digits((-v) as nat)
    } else if v == 0 {
        seq!['0']
    } else {
        nat_digits(v as nat)
    }
}

/// What the standard integer parser reads from `s`, before any range check:
/// an optional sign (`-` only where `signed`) and at least one digit.
pub open spec fn parse_int(s: Seq<char>, signed: bool) -> Option<int> {
    if s.len() > 1 && s[0] == '+' && all_digits(s.drop_first()) {
        Some(digits_value(s.drop_first()) as int)
    } else if signed && s.len() > 1 && s[0] == '-' && all_digits(s.drop_first()) {
        Some(-(digits_value(s.drop_first()) as int))
    } else if s.len() > 0 && all_digits(s) {
        Some(digits_value(s) as int)
    } else {
        None
    }
}

/// `parse_int` restricted to the range `lo..=hi` of the target type.
pub open spec fn parse_int_in(s: Seq<char>, signed: bool, lo: int, hi: int) -> Option<int> {
    match parse_int(s, signed) {
        Some(v) => if lo <= v <= hi {
            Some(v)
        } else {
            None
        },
        None => None,
    }
}

pub proof fn lemma_nat_digits(n: nat)
    ensures
        all_digits(nat_digits(n)),
        digits_value(nat_digits(n)) == n,
        n > 0 ==> nat_digits(n).len() > 0,
        nat_digits(n).len() > 0 ==> is_digit(nat_digits(n)[0]),
    decreases n,
{
    if n > 0 {
        lemma_nat_digits(n / 10);
        let s = nat_digits(n);
        assert(s.drop_last() =~= nat_digits(n / 10));
        if nat_digits(n / 10).len() > 0 {
            assert(s[0] == nat_digits(n / 10)[0]);
        }
    }
}

/// Decimal text of every integer reads back as that integer, under any
/// range that holds it and with the sign allowed where it is negative.
pub proof fn lemma_int_round_trip(v: int, signed: bool, lo: int, hi: int)
    requires
        lo <= v <= hi,
        v < 0 ==> signed,
    ensures
        parse_int_in(int_text(v), signed, lo, hi) == Some(v),
{
    let s = int_text(v);
    if v < 0 {
        lemma_nat_digits((-v) as nat);
        assert(s.drop_first() =~= nat_digits((-v) as nat));
    } else if v == 0 {
        assert(digits_value(s.drop_last()) == 0);
    } else {
        lemma_nat_digits(v as nat);
    }
}

/// Relies on `String::push`: appends one character.
#[verifier::external_body]
pub fn push_char(s: &mut String, c: char)
    ensures
        final(s)@ == old(s)@.push(c),
{
    s.push(c);
}

/// Appends the digits of `n` to `s`.
pub fn push_digits(s: &mut String, n: u128)
    ensures
        final(s)@ == old(s)@ + nat_digits(n as nat),
    decreases n,
{
    if n > 0 {
        push_digits(s, n / 10);
        let d = (n % 10) as u32;
        let c = char_of_digit(d);
        push_char(s, c);
        assert(final(s)@ =~= old(s)@ + nat_digits(n as nat));
    } else {
        assert(nat_digits(0) =~= seq![]);
        assert(final(s)@ =~= old(s)@ + nat_digits(n as nat));
    }
}

fn char_of_digit(d: u32) -> (c: char)
    requires
        d < 10,
    ensures
        c == digit_char(d as nat),
        is_digit(c),
        digit_value(c) == d,
{
    match d {
        0 => '0',
        1 => '1',
        2 => '2',
        3 => '3',
        4 => '4',
        5 => '5',
        6 => '6',
        7 => '7',
        8 => '8',
        _ => '9',
    }
}

/// Canonical decimal text of `v`.
pub fn int_to_text(v: i128) -> (r: String)
    ensures
        r@ == int_text(v as int),
{
    let mut s = String::new();
    if v < 0 {
        push_char(&mut s, '-');
        let m: u128 = if v == i128::MIN {
            (i128::MAX as u128) + 1
        } else {
            (-v) as u128
        };
        push_digits(&mut s, m);
    } else if v == 0 {
        push_char(&mut s, '0');
    } else {
        push_digits(&mut s, v as u128);
    }
    assert(s@ =~= int_text(v as int));
    s
}

/// `true` when `a` and `b` hold the same characters.
pub fn str_eq(a: &str, b: &str) -> (r: bool)
    ensures
        r == (a@ == b@),
{
    let n = a.unicode_len();
    if n != b.unicode_len() {
        return false;
    }
    let mut i: usize = 0;
    while i < n
        invariant
            n == a@.len(),
            n == b@.len(),
            i <= n,
            forall|j: int| 0 <= j < i ==> a@[j] == b@[j],
        decreases n - i,
    {
        if a.get_char(i) != b.get_char(i) {
            return false;
        }
        i += 1;
    }
    assert(a@ =~= b@);
    true
}

/// `true` when `needle` occurs in `s` as a contiguous run.
pub open spec fn contains_seq(s: Seq<char>, needle: Seq<char>) -> bool {
    exists|k: int| 0 <= k && k + needle.len() <= s.len() && #[trigger] s.subrange(k, k + needle.len()) == needle
}

/// `true` when `needle` occurs in `s`.
pub fn str_contains(s: &str, needle: &str) -> (r: bool)
    ensures
        r == contains_seq(s@, needle@),
{
    let n = s.unicode_len();
    let m = needle.unicode_len();
    if m > n {
        return false;
    }
    let mut k: usize = 0;
    while k <= n - m
        invariant
            n == s@.len(),
            m == needle@.len(),
            m <= n,
            k <= n - m + 1,
            forall|j: int| 0 <= j < k ==> #[trigger] s@.subrange(j, j + m) != needle@,
        decreases n - m + 1 - k,
    {
        let mut i: usize = 0;
        let mut same = true;
        while i < m
            invariant
                n == s@.len(),
                m == needle@.len(),
                k + m <= n,
                i <= m,
                same == (forall|j: int| 0 <= j < i ==> s@[k + j] == needle@[j]),
            decreases m - i,
        {
            if s.get_char(k + i) != needle.get_char(i) {
                same = false;
            }
            i += 1;
        }
        if same {
            assert(s@.subrange(k as int, k + m) =~= needle@);
            return true;
        }
        proof {
            if s@.subrange(k as int, k + m) == needle@ {
                assert forall|j: int| 0 <= j < m implies s@[k + j] == needle@[j] by {
                    assert(s@.subrange(k as int, k + m)[j] == s@[k + j]);
                }
            }
        }
        k += 1;
    }
    false
}

/// Reads an integer in `lo..=hi` from `s`, accepting a sign as the standard
/// parser for the target type does.
pub fn parse_integer(s: &str, signed: bool, lo: i128, hi: i128) -> (r: Option<i128>)
    requires
        -0x1_0000_0000_0000_0000 <= lo,
        hi <= 0x1_0000_0000_0000_0000,
    ensures
        r matches Some(v) ==> parse_int_in(s@, signed, lo as int, hi as int) == Some(v as int),
        r is None ==> parse_int_in(s@, signed, lo as int, hi as int) is None,
{
    let n = s.unicode_len();
    if n == 0 {
        return None;
    }
    let first = s.get_char(0);
    let mut start: usize = 0;
    let mut negative = false;
    if first == '+' || (signed && first == '-') {
        if n == 1 {
            return None;
        }
        start = 1;
        negative = first == '-';
    }
    let ghost body = s@.subrange(start as int, n as int);
    let mut acc: u128 = 0;
    let mut i: usize = start;
    while i < n
        invariant
            n == s@.len(),
            n > 0,
            first == s@[0],
            start == 1 <==> (first == '+' || (signed && first == '-')),
            start == 0 || start == 1,
            negative == (start == 1 && first == '-'),
            start <= i <= n,
            body == s@.subrange(start as int, n as int),
            all_digits(s@.subrange(start as int, i as int)),
            acc == capped(digits_value(s@.subrange(start as int, i as int))),
        decreases n - i,
    {
        let c = s.get_char(i);
        if !('0' <= c && c <= '9') {
            proof {
                assert(body[i - start] == c);
                assert(!all_digits(body));
                if start == 1 {
                    assert(s@.drop_first() =~= body);
                    assert(!is_digit(s@[0]));
                } else {
                    assert(s@ =~= body);
                }
            }
            return None;
        }
        let d = (c as u32 - '0' as u32) as u128;
        proof {
            let pre = s@.subrange(start as int, i as int);
            let nxt = s@.subrange(start as int, i + 1);
            assert(nxt.drop_last() =~= pre);
            assert(nxt.last() == c);
        }
        let next = acc * 10 + d;
        acc = if next > DIGIT_CAP {
            DIGIT_CAP + 1
        } else {
            next
        };
        i += 1;
    }
    proof {
        assert(body =~= s@.subrange(start as int, i as int));
        if start == 1 {
            assert(s@.drop_first() =~= body);
        } else {
            assert(s@ =~= body);
        }
    }
    if acc > DIGIT_CAP {
        return None;
    }
    let v: i128 = if negative {
        -(acc as i128)
    } else {
        acc as i128
    };
    if lo <= v && v <= hi {
        Some(v)
    } else {
        None
    }
}

/// Above every bound that `parse_integer` accepts; larger runs of digits
/// are held at one past it.
pub const DIGIT_CAP: u128 = 0x1_0000_0000_0000_0000;

pub open spec fn capped(x: nat) -> nat {
    if x > DIGIT_CAP {
        (DIGIT_CAP + 1) as nat
    } else {
        x
    }
}

} // verus!
