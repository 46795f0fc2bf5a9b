use vstd::prelude::*;
use vstd::string::{StrSliceExecFns, StringExecFns};

verus! {

/// Character-for-character string equality.
pub(crate) fn str_eq(a: &str, b: &str) -> (r: bool)
    ensures
        r == (a@ == b@),
{
    let la = a.unicode_len();
    let lb = b.unicode_len();
    if la != lb {
        return false;
    }
    let mut i: usize = 0;
    while i < la
        invariant
            i <= la,
            la == a@.len(),
            la == b@.len(),
            forall|j: int| 0 <= j < i ==> a@[j] == b@[j],
        decreases la - i,
    {
        if a.get_char(i) != b.get_char(i) {
            return false;
        }
        i = i + 1;
    }
    proof {
        assert(a@ =~= b@);
    }
    true
}

/// The value of one digit character: decimal digits, then lower- and
/// upper-case hex letters.
pub open spec fn digit_val(c: char) -> Option<nat> {
    let u = c as u32;
    if 48 <= u && u <= 57 {
        Some((u - 48) as nat)
    } else if 97 <= u && u <= 102 {
        Some((u - 87) as nat)
    } else if 65 <= u && u <= 70 {
        Some((u - 55) as nat)
    } else {
        None
    }
}

pub open spec fn is_digit(c: char, radix: nat) -> bool {
    digit_val(c) matches Some(v) && v < radix
}

pub open spec fn digit_val_or0(c: char) -> nat {
    match digit_val(c) {
        Some(v) => v,
        None => 0,
    }
}

/// The unbounded value of a digit string, most significant first.
pub open spec fn digits_value(s: Seq<char>, radix: nat) -> nat
    decreases s.len(),
{
    if s.len() == 0 {
        0
    } else {
        digits_value(s.drop_last(), radix) * radix + digit_val_or0(s.last())
    }
}

/// A nonempty string of digits of the given radix.
pub open spec fn all_digits(s: Seq<char>, radix: nat) -> bool {
    s.len() > 0 && forall|i: int| 0 <= i < s.len() ==> is_digit(#[trigger] s[i], radix)
}

/// The whole contract of integer parsing in a radix: an optional sign, then
/// at least one digit, and a value that fits the machine's integers; `None`
/// on anything else.
pub open spec fn parse_int_spec(s: Seq<char>, radix: nat) -> Option<int> {
    let neg = s.len() > 0 && s[0] == '-';
    let rest = if s.len() > 0 && (s[0] == '-' || s[0] == '+') {
        s.skip(1)
    } else {
        s
    };
    if all_digits(rest, radix) {
        let v = if neg {
            -(digits_value(rest, radix) as int)
        } else {
            digits_value(rest, radix) as int
        };
        if i128::MIN <= v <= i128::MAX {
            Some(v)
        } else {
            None
        }
    } else {
        None
    }
}

/// Longer digit strings have values at least as large.
proof fn lemma_digits_value_mono(s: Seq<char>, i: int, j: int, radix: nat)
    requires
        radix >= 2,
        0 <= i <= j <= s.len(),
    ensures
        digits_value(s.take(i), radix) <= digits_value(s.take(j), radix),
    decreases j - i,
{
    if i < j {
        lemma_digits_value_mono(s, i, j - 1, radix);
        assert(s.take(j).drop_last() =~= s.take(j - 1));
        let a = digits_value(s.take(j - 1), radix);
        assert(a * radix >= a) by (nonlinear_arith)
            requires
                radix >= 2,
                a >= 0,
        ;
    }
}

fn digit_of_char(c: char, radix: u32) -> (r: Option<u32>)
    ensures
        match r {
            Some(v) => is_digit(c, radix as nat) && v as nat == digit_val_or0(c),
            None => !is_digit(c, radix as nat),
        },
{
    let u = c as u32;
    let v: u32;
    if u >= 48 && u <= 57 {
        v = u - 48;
    } else if u >= 97 && u <= 102 {
        v = u - 87;
    } else if u >= 65 && u <= 70 {
        v = u - 55;
    } else {
        return None;
    }
    if v < radix {
        Some(v)
    } else {
        None
    }
}

/// Parse a signed integer in the given radix: an optional `+` or `-`, then
/// digits. `None` on an empty or malformed string and on a value that does
/// not fit.
pub fn parse_i128_radix(s: &str, radix: u32) -> (r: Option<i128>)
    requires
        radix == 2 || radix == 10 || radix == 16,
    ensures
        match r {
            Some(v) => parse_int_spec(s@, radix as nat) == Some(v as int),
            None => parse_int_spec(s@, radix as nat) is None,
        },
{
    let len = s.unicode_len();
    if len == 0 {
        return None;
    }
    let c0 = s.get_char(0);
    let (neg, start): (bool, usize) = if c0 == '-' {
        (true, 1)
    } else if c0 == '+' {
        (false, 1)
    } else {
        (false, 0)
    };
    let ghost rest = if start == 1 {
        s@.skip(1)
    } else {
        s@
    };
    if start == len {
        return None;
    }
    let mut acc: u128 = 0;
    let mut i = start;
    proof {
        assert(rest.take(0) =~= Seq::<char>::empty());
    }
    while i < len
        invariant
            radix == 2 || radix == 10 || radix == 16,
            start <= i <= len,
            start == 0 || start == 1,
            len == s@.len(),
            len > 0,
            (start == 1) == (s@[0] == '-' || s@[0] == '+'),
            neg == (s@[0] == '-'),
            rest == if start == 1 {
                s@.skip(1)
            } else {
                s@
            },
            rest.len() == len - start,
            acc as nat == digits_value(rest.take(i - start), radix as nat),
            forall|j: int| 0 <= j < i - start ==> is_digit(#[trigger] rest[j], radix as nat),
        decreases len - i,
    {
        let c = s.get_char(i);
        proof {
            assert(rest[i - start] == s@[i as int]);
        }
        let d = match digit_of_char(c, radix) {
            Some(d) => d,
            None => {
                proof {
                    assert(!is_digit(rest[i - start], radix as nat));
                }
                return None;
            },
        };
        let shifted = acc.checked_mul(radix as u128);
        let newacc: Option<u128> = match shifted {
            Some(x) => x.checked_add(d as u128),
            None => None,
        };
        proof {
            assert(rest.take(i - start + 1).drop_last() =~= rest.take(i - start));
            assert(rest.take(i - start + 1).last() == rest[i - start]);
            assert(digits_value(rest.take(i - start + 1), radix as nat) == (acc as nat) * (
            radix as nat) + digit_val_or0(rest[i - start]));
        }
        match newacc {
            Some(x) => {
                acc = x;
            },
            None => {
                // The value is already beyond the machine's integers, and
                // further digits can only keep it there.
                proof {
                    lemma_digits_value_mono(rest, i - start + 1, rest.len() as int, radix as nat);
                    assert(rest.take(rest.len() as int) =~= rest);
                    assert(digits_value(rest, radix as nat) > u128::MAX);
                }
                return None;
            },
        }
        i = i + 1;
    }
    proof {
        assert(rest.take(rest.len() as int) =~= rest);
        assert(acc as nat == digits_value(rest, radix as nat));
        assert(all_digits(rest, radix as nat));
    }
    if neg {
        if acc > (i128::MAX as u128) + 1 {
            return None;
        }
        if acc == (i128::MAX as u128) + 1 {
            return Some(i128::MIN);
        }
        Some(-(acc as i128))
    } else {
        if acc > i128::MAX as u128 {
            return None;
        }
        Some(acc as i128)
    }
}

/// The character for one digit value, `0` through `f`.
pub open spec fn digit_char(d: nat) -> char
    recommends
        d < 16,
{
    if d == 0 {
        '0'
    } else if d == 1 {
        '1'
    } else if d == 2 {
        '2'
    } else if d == 3 {
        '3'
    } else if d == 4 {
        '4'
    } else if d == 5 {
        '5'
    } else if d == 6 {
        '6'
    } else if d == 7 {
        '7'
    } else if d == 8 {
        '8'
    } else if d == 9 {
        '9'
    } else if d == 10 {
        'a'
    } else if d == 11 {
        'b'
    } else if d == 12 {
        'c'
    } else if d == 13 {
        'd'
    } else if d == 14 {
        'e'
    } else {
        'f'
    }
}

/// Exactly `count` digits of `n` in the given base, most significant first,
/// zero-padded on the left.
pub open spec fn digits_fixed(n: nat, base: nat, count: nat) -> Seq<char>
    decreases count,
{
    if count == 0 {
        Seq::empty()
    } else {
        digits_fixed(n / base, base, (count - 1) as nat).push(digit_char(n % base))
    }
}

/// The decimal digits of `n`, most significant first, at least one.
pub open spec fn dec_digits(n: nat) -> Seq<char>
    decreases n,
{
    if n < 10 {
        seq![digit_char(n)]
    } else {
        dec_digits(n / 10).push(digit_char(n % 10))
    }
}

/// A signed value in decimal, a leading minus for negative values.
pub open spec fn dec_chars(v: int) -> Seq<char> {
    if v < 0 {
        seq!['-'] + dec_digits((-v) as nat)
    } else {
        dec_digits(v as nat)
    }
}

fn digit_str(d: u64) -> (r: &'static str)
    requires
        d < 16,
    ensures
        r@ == seq![digit_char(d as nat)],
{
    if d == 0 {
        proof {
            reveal_strlit("0");
        }
        assert("0"@ =~= seq![digit_char(0)]);
        "0"
    } else if d == 1 {
        proof {
            reveal_strlit("1");
        }
        assert("1"@ =~= seq![digit_char(1)]);
        "1"
    } else if d == 2 {
        proof {
            reveal_strlit("2");
        }
        assert("2"@ =~= seq![digit_char(2)]);
        "2"
    } else if d == 3 {
        proof {
            reveal_strlit("3");
        }
        assert("3"@ =~= seq![digit_char(3)]);
        "3"
    } else if d == 4 {
        proof {
            reveal_strlit("4");
        }
        assert("4"@ =~= seq![digit_char(4)]);
        "4"
    } else if d == 5 {
        proof {
            reveal_strlit("5");
        }
        assert("5"@ =~= seq![digit_char(5)]);
        "5"
    } else if d == 6 {
        proof {
            reveal_strlit("6");
        }
        assert("6"@ =~= seq![digit_char(6)]);
        "6"
    } else if d == 7 {
        proof {
            reveal_strlit("7");
        }
        assert("7"@ =~= seq![digit_char(7)]);
        "7"
    } else if d == 8 {
        proof {
            reveal_strlit("8");
        }
        assert("8"@ =~= seq![digit_char(8)]);
        "8"
    } else if d == 9 {
        proof {
            reveal_strlit("9");
        }
        assert("9"@ =~= seq![digit_char(9)]);
        "9"
    } else if d == 10 {
        proof {
            reveal_strlit("a");
        }
        assert("a"@ =~= seq![digit_char(10)]);
        "a"
    } else if d == 11 {
        proof {
            reveal_strlit("b");
        }
        assert("b"@ =~= seq![digit_char(11)]);
        "b"
    } else if d == 12 {
        proof {
            reveal_strlit("c");
        }
        assert("c"@ =~= seq![digit_char(12)]);
        "c"
    } else if d == 13 {
        proof {
            reveal_strlit("d");
        }
        assert("d"@ =~= seq![digit_char(13)]);
        "d"
    } else if d == 14 {
        proof {
            reveal_strlit("e");
        }
        assert("e"@ =~= seq![digit_char(14)]);
        "e"
    } else {
        proof {
            reveal_strlit("f");
        }
        assert("f"@ =~= seq![digit_char(15)]);
        "f"
    }
}

/// Render exactly `count` digits of `n` in the given base, zero-padded.
pub(crate) fn render_fixed(n: u64, base: u64, count: u64) -> (r: String)
    requires
        base == 2 || base == 16,
        count <= 64,
    ensures
        r@ == digits_fixed(n as nat, base as nat, count as nat),
{
    let ghost n0 = n as nat;
    let mut cur = String::new();
    let mut n = n;
    let mut k: u64 = 0;
    proof {
        assert(digits_fixed(n0, base as nat, count as nat) =~= digits_fixed(
            n0,
            base as nat,
            count as nat,
        ) + cur@);
    }
    while k < count
        invariant
            base == 2 || base == 16,
            k <= count,
            digits_fixed(n0, base as nat, count as nat) == digits_fixed(
                n as nat,
                base as nat,
                (count - k) as nat,
            ) + cur@,
        decreases count - k,
    {
        let d = n % base;
        let piece = digit_str(d);
        let next = String::from_str(piece).concat(cur.as_str());
        proof {
            assert(digits_fixed(n as nat, base as nat, (count - k) as nat) == digits_fixed(
                (n / base) as nat,
                base as nat,
                (count - k - 1) as nat,
            ).push(digit_char((n % base) as nat)));
            assert(digits_fixed((n / base) as nat, base as nat, (count - k - 1) as nat).push(
                digit_char((n % base) as nat),
            ) + cur@ =~= digits_fixed((n / base) as nat, base as nat, (count - k - 1) as nat) + (
            seq![digit_char((n % base) as nat)] + cur@));
        }
        cur = next;
        n = n / base;
        k = k + 1;
    }
    proof {
        assert(digits_fixed(n as nat, base as nat, 0) =~= Seq::<char>::empty());
        assert(Seq::<char>::empty() + cur@ =~= cur@);
    }
    cur
}

/// Render an unsigned value in decimal.
pub(crate) fn render_u128_dec(n: u128) -> (r: String)
    ensures
        r@ == dec_digits(n as nat),
{
    let mut cur = String::new();
    let mut m = n;
    proof {
        assert(dec_digits(n as nat) =~= dec_digits(n as nat) + cur@);
    }
    loop
        invariant_except_break
            dec_digits(n as nat) == dec_digits(m as nat) + cur@,
        ensures
            cur@ == dec_digits(n as nat),
        decreases m,
    {
        let d = (m % 10) as u64;
        let piece = digit_str(d);
        let next = String::from_str(piece).concat(cur.as_str());
        proof {
            if m >= 10 {
                assert(dec_digits(m as nat) == dec_digits((m / 10) as nat).push(
                    digit_char((m % 10) as nat),
                ));
                assert(dec_digits((m / 10) as nat).push(digit_char((m % 10) as nat)) + cur@
                    =~= dec_digits((m / 10) as nat) + (seq![digit_char((m % 10) as nat)] + cur@));
            } else {
                assert(dec_digits(m as nat) =~= seq![digit_char((m % 10) as nat)]);
                assert(dec_digits(m as nat) + cur@ =~= seq![digit_char((m % 10) as nat)] + cur@
                    + Seq::<char>::empty());
                assert(seq![digit_char((m % 10) as nat)] + cur@ + Seq::<char>::empty()
                    =~= seq![digit_char((m % 10) as nat)] + cur@);
            }
        }
        cur = next;
        m = m / 10;
        if m == 0 {
            break ;
        }
    }
    cur
}

/// Render a signed value in decimal, with a leading minus when negative.
pub(crate) fn render_i128_dec(v: i128) -> (r: String)
    ensures
        r@ == dec_chars(v as int),
{
    let neg = v < 0;
    let m = crate::value::mag_i128(v);
    let digits = render_u128_dec(m);
    if neg {
        proof {
            reveal_strlit("-");
        }
        assert("-"@ =~= seq!['-']);
        String::from_str("-").concat(digits.as_str())
    } else {
        digits
    }
}

} // verus!
