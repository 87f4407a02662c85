//! Numbers written out as text and read back.

use vstd::prelude::*;

use crate::text::chars_of;

verus! {

/// The hexadecimal digit for `d`, in lower case.
pub open spec fn digit_char(d: int) -> char {
    if d < 10 {
        (48 + d) as char
    } else {
        (87 + d) as char
    }
}

/// `n` in decimal digits, without leading zeros.
pub open spec fn decimal(n: nat) -> Seq<char>
    decreases n,
{
    if n < 10 {
        seq![digit_char(n as int)]
    } else {
        decimal(n / 10).push(digit_char((n % 10) as int))
    }
}

/// `n` in decimal digits, with a minus sign where it is negative.
pub open spec fn signed_decimal(n: int) -> Seq<char> {
    if n < 0 {
        seq!['-'] + decimal((-n) as nat)
    } else {
        decimal(n as nat)
    }
}

/// The last `width` hexadecimal digits of `n`.
pub open spec fn hex_digits(n: nat, width: nat) -> Seq<char>
    decreases width,
{
    if width == 0 {
        Seq::empty()
    } else {
        hex_digits(n / 16, (width - 1) as nat).push(digit_char((n % 16) as int))
    }
}

/// The number that the decimal digits of `s` write.
pub open spec fn digits_value(s: Seq<char>) -> nat
    decreases s.len(),
{
    if s.len() == 0 {
        0
    } else {
        digits_value(s.drop_last()) * 10 + (s.last() as int - 48) as nat
    }
}

/// `s` without one plus sign in front of it.
pub open spec fn unsigned_part(s: Seq<char>) -> Seq<char> {
    if s.len() > 0 && s[0] == '+' {
        s.skip(1)
    } else {
        s
    }
}

/// The `u64` that `s` writes: decimal digits, with a plus sign allowed in
/// front, and a value that fits.
pub open spec fn u64_of(s: Seq<char>) -> Option<u64> {
    let d = unsigned_part(s);
    if crate::text::all_digits(d) && digits_value(d) <= u64::MAX {
        Some(digits_value(d) as u64)
    } else {
        None
    }
}

/// The character for one hexadecimal digit.
fn digit_to_char(d: u8) -> (c: char)
    requires
        d < 16,
    ensures
        c == digit_char(d as int),
{
    if d < 10 {
        (48 + d) as char
    } else {
        (87 + d) as char
    }
}

/// `n` in decimal digits.
pub fn decimal_text(n: u64) -> (s: String)
    ensures
        s@ == decimal(n as nat),
    decreases n,
{
    if n < 10 {
        let mut s = String::new();
        s.push(digit_to_char(n as u8));
        assert(s@ == seq![digit_char(n as int)]);
        s
    } else {
        let mut s = decimal_text(n / 10);
        s.push(digit_to_char((n % 10) as u8));
        s
    }
}

/// `n` in decimal digits, with a minus sign where it is negative.
pub fn signed_decimal_text(n: i32) -> (s: String)
    ensures
        s@ == signed_decimal(n as int),
{
    if n < 0 {
        let mut s = String::new();
        s.push('-');
        assert(s@ == seq!['-']);
        let wide: i64 = n as i64;
        let m: u64 = (-wide) as u64;
        let d = decimal_text(m);
        s.append(d.as_str());
        s
    } else {
        decimal_text(n as u64)
    }
}

/// The last `width` hexadecimal digits of `n`.
pub fn hex_text(n: u64, width: u8) -> (s: String)
    ensures
        s@ == hex_digits(n as nat, width as nat),
    decreases width,
{
    if width == 0 {
        String::new()
    } else {
        let mut s = hex_text(n / 16, width - 1);
        s.push(digit_to_char((n % 16) as u8));
        s
    }
}

/// The `u64` that `s` writes.
pub fn parse_u64(s: &str) -> (r: Option<u64>)
    ensures
        r == u64_of(s@),
{
    let v = chars_of(s);
    let from: usize = if v.len() > 0 && v[0] == '+' {
        1
    } else {
        0
    };
    let ghost d = unsigned_part(s@);
    assert(d == s@.skip(from as int));
    if from == v.len() {
        return None;
    }
    let mut i: usize = from;
    let mut value: u64 = 0;
    let mut over: bool = false;
    while i < v.len()
        invariant
            v@ == s@,
            from <= i <= v.len(),
            from < v.len(),
            d == s@.skip(from as int),
            d == unsigned_part(s@),
            forall|j: int| 0 <= j < i - from ==> crate::text::is_digit(#[trigger] d[j]),
            over <==> digits_value(d.take(i - from)) > u64::MAX,
            !over ==> value == digits_value(d.take(i - from)),
        decreases v.len() - i,
    {
        assert(d[i - from] == v@[i as int]);
        if !crate::text::digit(v[i]) {
            assert(!crate::text::is_digit(d[i - from]));
            return None;
        }
        assert(d.take(i + 1 - from).drop_last() == d.take(i - from));
        assert(d.take(i + 1 - from).last() == v@[i as int]);
        let k: u64 = v[i] as u64 - 48;
        if !over {
            if value > (u64::MAX - k) / 10 {
                over = true;
            } else {
                value = value * 10 + k;
            }
        }
        i += 1;
    }
    assert(d.take(v.len() - from) == d);
    if over {
        None
    } else {
        Some(value)
    }
}

/// Whether the decimal digits of `a` write a number that is at least the one
/// that those of `b` write, however large the two are.
pub fn digits_at_least(a: &Vec<char>, b: &Vec<char>) -> (r: bool)
    requires
        crate::text::all_digits(a@),
        crate::text::all_digits(b@),
    ensures
        r == (digits_value(a@) >= digits_value(b@)),
{
    let n: usize = if a.len() < b.len() {
        b.len()
    } else {
        a.len()
    };
    let skip_a: usize = n - a.len();
    let skip_b: usize = n - b.len();
    let mut i: usize = 0;
    let mut less: bool = false;
    let mut greater: bool = false;
    while i < n
        invariant
            crate::text::all_digits(a@),
            crate::text::all_digits(b@),
            i <= n,
            n == a.len() + skip_a,
            n == b.len() + skip_b,
            less == (leading_value(a@, i - skip_a) < leading_value(b@, i - skip_b)),
            greater == (leading_value(a@, i - skip_a) > leading_value(b@, i - skip_b)),
        decreases n - i,
    {
        let x: u32 = if i < skip_a {
            0
        } else {
            assert(crate::text::is_digit(a@[i - skip_a]));
            a[i - skip_a] as u32 - 48
        };
        let y: u32 = if i < skip_b {
            0
        } else {
            assert(crate::text::is_digit(b@[i - skip_b]));
            b[i - skip_b] as u32 - 48
        };
        proof {
            lemma_leading_value(a@, i - skip_a);
            lemma_leading_value(b@, i - skip_b);
        }
        if !less && !greater {
            less = x < y;
            greater = x > y;
        }
        i += 1;
    }
    assert(a@.take(a@.len() as int) == a@);
    assert(b@.take(b@.len() as int) == b@);
    !less
}

/// The number that the first `n` digits of `s` write; zero where there are none.
spec fn leading_value(s: Seq<char>, n: int) -> nat {
    if n <= 0 {
        0
    } else {
        digits_value(s.take(n))
    }
}

proof fn lemma_leading_value(s: Seq<char>, n: int)
    requires
        crate::text::all_digits(s),
        n < s.len(),
    ensures
        leading_value(s, n + 1) == (if n < 0 {
            0
        } else {
            leading_value(s, n) * 10 + (s[n] as int - 48)
        }),
{
    if n >= 0 {
        assert(crate::text::is_digit(s[n]));
        assert(s.take(n + 1).drop_last() == s.take(n));
        assert(s.take(n + 1).last() == s[n]);
        assert(digits_value(s.take(0)) == 0);
    }
}

/// The digits of a decimal number are digits.
pub proof fn lemma_decimal_is_digits(n: nat)
    ensures
        crate::text::all_digits(decimal(n)),
    decreases n,
{
    if n >= 10 {
        lemma_decimal_is_digits(n / 10);
    }
}

/// Reading back the decimal digits of a number gives the number.
pub proof fn law_decimal_reads_back(n: nat)
    ensures
        digits_value(decimal(n)) == n,
    decreases n,
{
    if n >= 10 {
        law_decimal_reads_back(n / 10);
        assert(decimal(n).drop_last() == decimal(n / 10));
    } else {
        assert(decimal(n).drop_last() == Seq::<char>::empty());
        assert(digits_value(Seq::<char>::empty()) == 0);
    }
}

/// A number reads back as what it was written from, with or without a plus sign;
/// one that does not fit, and anything but digits, reads as none.
pub proof fn law_numbers_are_read_back(n: nat, s: Seq<char>)
    ensures
        u64_of(decimal(n)) == (if n <= u64::MAX {
            Some(n as u64)
        } else {
            None
        }),
        u64_of(seq!['+'] + decimal(n)) == u64_of(decimal(n)),
        u64_of(s) matches Some(v) ==> ({
            let d = if s.len() > 0 && s[0] == '+' {
                s.skip(1)
            } else {
                s
            };
            d.len() > 0 && (forall|i: int| 0 <= i < d.len() ==> '0' <= #[trigger] d[i] <= '9') && v
                == digits_value(d)
        }),
        s.len() > 0 && (forall|i: int| 0 <= i < s.len() ==> '0' <= #[trigger] s[i] <= '9')
            && digits_value(s) <= u64::MAX ==> u64_of(s) == Some(digits_value(s) as u64),
{
    law_decimal_reads_back(n);
    lemma_decimal_is_digits(n);
    let d = decimal(n);
    let p = seq!['+'] + d;
    assert(crate::text::is_digit(d[0]));
    assert(p[0] == '+');
    assert(p.skip(1) =~= d);
    if s.len() > 0 && (forall|i: int| 0 <= i < s.len() ==> '0' <= #[trigger] s[i] <= '9') {
        assert('0' <= s[0] <= '9');
    }
}

/// A digit more at the end makes a number ten times as large and adds the digit.
pub proof fn law_digits_are_decimal(s: Seq<char>, c: char)
    requires
        '0' <= c <= '9',
    ensures
        digits_value(s.push(c)) == 10 * digits_value(s) + (c as int - '0' as int),
        digits_value(Seq::empty()) == 0,
{
    assert(s.push(c).drop_last() =~= s);
}

/// A negative number is a minus sign and its amount, and two numbers are never
/// written alike.
pub proof fn law_signed_numbers(a: int, b: int)
    ensures
        a < 0 ==> signed_decimal(a)[0] == '-' && signed_decimal(a).skip(1) == decimal(-a as nat),
        a >= 0 ==> signed_decimal(a) == decimal(a as nat) && signed_decimal(a)[0] != '-',
        signed_decimal(a) == signed_decimal(b) ==> a == b,
{
    let (m, n) = (if a < 0 { -a } else { a }, if b < 0 { -b } else { b });
    law_decimal_reads_back(m as nat);
    law_decimal_reads_back(n as nat);
    lemma_decimal_is_digits(m as nat);
    lemma_decimal_is_digits(n as nat);
    assert(crate::text::is_digit(decimal(m as nat)[0]));
    assert(crate::text::is_digit(decimal(n as nat)[0]));
    if a < 0 {
        assert(signed_decimal(a).skip(1) =~= decimal(m as nat));
    }
    if b < 0 {
        assert(signed_decimal(b).skip(1) =~= decimal(n as nat));
    }
}

/// The value of one hexadecimal digit in lower case.
pub open spec fn hex_value(c: char) -> int {
    if '0' <= c <= '9' {
        c as int - '0' as int
    } else {
        10 + (c as int - 'a' as int)
    }
}

/// Hexadecimal digits are lower case digits, as many as asked for, and the last
/// of them is the remainder of the number by sixteen, those before it the digits of
/// the quotient.
pub proof fn law_hexadecimal_digits(n: nat, width: nat)
    ensures
        hex_digits(n, width).len() == width,
        forall|i: int|
            0 <= i < width ==> '0' <= #[trigger] hex_digits(n, width)[i] <= '9' || 'a'
                <= hex_digits(n, width)[i] <= 'f',
        width > 0 ==> hex_value(hex_digits(n, width).last()) == n % 16 && hex_digits(
            n,
            width,
        ).drop_last() == hex_digits(n / 16, (width - 1) as nat),
    decreases width,
{
    if width > 0 {
        law_hexadecimal_digits(n / 16, (width - 1) as nat);
        let head = hex_digits(n / 16, (width - 1) as nat);
        assert(hex_digits(n, width).drop_last() =~= head);
        assert forall|i: int| 0 <= i < width implies '0' <= #[trigger] hex_digits(n, width)[i]
            <= '9' || 'a' <= hex_digits(n, width)[i] <= 'f' by {
            if i < head.len() {
                assert(hex_digits(n, width)[i] == head[i]);
            }
        }
    }
}

} // verus!
