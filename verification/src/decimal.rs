//! Whole numbers in decimal notation: how they are written and how they are
//! read back.
use crate::text::chars_of;
use vstd::prelude::*;
use vstd::string::*;

verus! {

/// Whether `c` is one of the ten ASCII digits.
pub open spec fn is_digit(c: char) -> bool {
    '0' <= c <= '9'
}

/// Whether every character of `s` is a digit.
pub open spec fn all_digits(s: Seq<char>) -> bool {
    forall|i: int| 0 <= i < s.len() ==> is_digit(#[trigger] s[i])
}

/// The number that one digit stands for.
pub open spec fn digit_value(c: char) -> int {
    c as int - '0' as int
}

/// The digit that stands for a number below ten.
pub open spec fn digit_char(d: int) -> char {
    ('0' as int + d) as char
}

/// The number that a row of digits stands for.
pub open spec fn digits_value(s: Seq<char>) -> int
    decreases s.len(),
{
    if s.len() == 0 {
        0
    } else {
        10 * digits_value(s.drop_last()) + digit_value(s.last())
    }
}

/// The digits of a natural number, without leading zeros.
pub open spec fn decimal_digits(n: nat) -> Seq<char>
    decreases n,
{
    if n < 10 {
        seq![digit_char(n as int)]
    } else {
        decimal_digits(n / 10).push(digit_char((n % 10) as int))
    }
}

/// A whole number in decimal notation.
pub open spec fn decimal(n: int) -> Seq<char> {
    if n < 0 {
        seq!['-'] + decimal_digits((-n) as nat)
    } else {
        decimal_digits(n as nat)
    }
}

/// The number that `s` stands for: digits, of which there is at least one,
/// behind an optional `+`, or, where negative numbers are allowed, `-`.
pub open spec fn number_value(s: Seq<char>, negative_allowed: bool) -> Option<int> {
    let signed = s.len() > 0 && (s[0] == '+' || (negative_allowed && s[0] == '-'));
    let digits = if signed {
        s.skip(1)
    } else {
        s
    };
    if digits.len() == 0 || !all_digits(digits) {
        None
    } else if signed && s[0] == '-' {
        Some(-digits_value(digits))
    } else {
        Some(digits_value(digits))
    }
}

/// The `i64` that `s` stands for; none where `s` is no number or one out of range.
pub open spec fn i64_value(s: Seq<char>) -> Option<i64> {
    match number_value(s, true) {
        Some(v) if i64::MIN <= v <= i64::MAX => Some(v as i64),
        _ => None,
    }
}

/// The `usize` that `s` stands for; none where `s` is no number or one out of range.
pub open spec fn usize_value(s: Seq<char>) -> Option<usize> {
    match number_value(s, false) {
        Some(v) if 0 <= v <= usize::MAX => Some(v as usize),
        _ => None,
    }
}

proof fn lemma_digits_value_bounds(s: Seq<char>)
    requires
        all_digits(s),
    ensures
        digits_value(s) >= 0,
    decreases s.len(),
{
    if s.len() > 0 {
        assert(is_digit(s[s.len() - 1]));
        assert(all_digits(s.drop_last()));
        lemma_digits_value_bounds(s.drop_last());
    }
}

/// More digits never make a number smaller.
proof fn lemma_digits_value_grows(s: Seq<char>, k: int)
    requires
        all_digits(s),
        0 <= k <= s.len(),
    ensures
        digits_value(s.take(k)) <= digits_value(s),
    decreases s.len() - k,
{
    if k == s.len() {
        assert(s.take(k) == s);
    } else {
        let t = s.take(k + 1);
        assert(t.drop_last() == s.take(k));
        assert(is_digit(s[k]));
        lemma_digits_value_bounds(s.take(k));
        lemma_digits_value_grows(s, k + 1);
    }
}

/// Reads the digits `x[from..]` as a number of at most `limit`.
fn read_digits(x: &Vec<char>, from: usize, limit: u64) -> (res: Option<u64>)
    requires
        from <= x@.len(),
    ensures
        ({
            let digits = x@.skip(from as int);
            match res {
                Some(v) => digits.len() > 0 && all_digits(digits) && v == digits_value(digits) && v
                    <= limit,
                None => digits.len() == 0 || !all_digits(digits) || digits_value(digits) > limit,
            }
        }),
{
    let ghost digits = x@.skip(from as int);
    if from == x.len() {
        return None;
    }
    let mut i: usize = from;
    let mut over: bool = false;
    let mut v: u64 = 0;
    while i < x.len()
        invariant
            from <= i <= x@.len(),
            digits == x@.skip(from as int),
            all_digits(digits.take(i - from)),
            over ==> digits_value(digits.take(i - from)) > limit,
            !over ==> v == digits_value(digits.take(i - from)) <= limit,
        decreases x@.len() - i,
    {
        let c = x[i];
        let ghost before = digits.take(i - from);
        let ghost after = digits.take(i - from + 1);
        assert(after.drop_last() == before);
        assert(after.last() == c);
        if !('0' <= c && c <= '9') {
            assert(!is_digit(digits[i - from]));
            return None;
        }
        proof {
            assert forall|k: int| 0 <= k < after.len() implies is_digit(#[trigger] after[k]) by {
                if k < before.len() {
                    assert(after[k] == before[k]);
                }
            }
            lemma_digits_value_bounds(before);
        }
        let d: u64 = c as u64 - 48;
        if !over {
            let next: u128 = v as u128 * 10 + d as u128;
            if next > limit as u128 {
                over = true;
            } else {
                v = next as u64;
            }
        }
        i = i + 1;
    }
    assert(digits.take(i - from) == digits);
    if over {
        None
    } else {
        Some(v)
    }
}

/// Reads an `i64` in decimal notation.
pub fn parse_i64(s: &str) -> (res: Option<i64>)
    ensures
        res == i64_value(s@),
{
    let x = chars_of(s);
    if x.len() > 0 && x[0] == '-' {
        let limit: u64 = 0x8000_0000_0000_0000;
        match read_digits(&x, 1, limit) {
            Some(v) => if v == limit {
                Some(i64::MIN)
            } else {
                Some(-(v as i64))
            },
            None => None,
        }
    } else {
        let limit: u64 = 0x7fff_ffff_ffff_ffff;
        let from: usize = if x.len() > 0 && x[0] == '+' {
            1
        } else {
            0
        };
        assert(x@.skip(0) == x@);
        proof {
            if all_digits(x@.skip(from as int)) {
                lemma_digits_value_bounds(x@.skip(from as int));
            }
        }
        match read_digits(&x, from, limit) {
            Some(v) => Some(v as i64),
            None => None,
        }
    }
}

/// Reads a `usize` in decimal notation.
pub fn parse_usize(s: &str) -> (res: Option<usize>)
    ensures
        res == usize_value(s@),
{
    let x = chars_of(s);
    let from: usize = if x.len() > 0 && x[0] == '+' {
        1
    } else {
        0
    };
    assert(x@.skip(0) == x@);
    proof {
        if all_digits(x@.skip(from as int)) {
            lemma_digits_value_bounds(x@.skip(from as int));
        }
    }
    match read_digits(&x, from, usize::MAX as u64) {
        Some(v) => Some(v as usize),
        None => None,
    }
}

/// Writes a natural number in decimal notation.
pub fn u64_text(n: u64) -> (res: String)
    ensures
        res@ == decimal(n as int),
{
    let mut rev: Vec<char> = Vec::new();
    let mut rest: u64 = n;
    while rest >= 10
        invariant
            decimal_digits(n as nat) == decimal_digits(rest as nat) + rev@.reverse(),
        decreases rest,
    {
        let d: u8 = (rest % 10) as u8;
        let c = (48 + d) as char;
        proof {
            let head = decimal_digits((rest / 10) as nat);
            assert(decimal_digits(rest as nat) == head.push(c));
            assert(head.push(c) + rev@.reverse() == head + rev@.push(c).reverse());
        }
        rev.push(c);
        rest = rest / 10;
    }
    let c = (48 + rest as u8) as char;
    let ghost tail = rev@.reverse();
    rev.push(c);
    assert(seq![c] + tail == rev@.reverse());
    let mut res = String::new();
    let mut i: usize = rev.len();
    while i > 0
        invariant
            i <= rev@.len(),
            res@ == rev@.reverse().take(rev@.len() - i),
        decreases i,
    {
        i = i - 1;
        res.push(rev[i]);
        assert(res@ == rev@.reverse().take(rev@.len() - i));
    }
    assert(rev@.reverse().take(rev@.len() as int) == rev@.reverse());
    res
}

/// Writes a whole number in decimal notation.
pub fn i64_text(n: i64) -> (res: String)
    ensures
        res@ == decimal(n as int),
{
    if n < 0 {
        let size: u64 = (-(n as i128)) as u64;
        let digits = u64_text(size);
        let mut res = String::new();
        res.push('-');
        res.append(digits.as_str());
        assert(res@ == seq!['-'] + digits@);
        res
    } else {
        u64_text(n as u64)
    }
}

/// The digits of a number are digits, and stand for that number.
pub proof fn decimal_digits_read_back(n: nat)
    ensures
        decimal_digits(n).len() > 0,
        all_digits(decimal_digits(n)),
        digits_value(decimal_digits(n)) == n,
    decreases n,
{
    let s = decimal_digits(n);
    if n < 10 {
        assert(s.drop_last() == Seq::<char>::empty());
        assert(digits_value(s.drop_last()) == 0);
    } else {
        decimal_digits_read_back(n / 10);
        assert(s.drop_last() == decimal_digits(n / 10));
        assert forall|i: int| 0 <= i < s.len() implies is_digit(#[trigger] s[i]) by {
            if i < s.len() - 1 {
                assert(s[i] == decimal_digits(n / 10)[i]);
            }
        }
    }
}

/// Reading a number that was written gives the number back.
pub proof fn decimal_reads_back(n: int)
    ensures
        number_value(decimal(n), true) == Some(n),
        n >= 0 ==> number_value(decimal(n), false) == Some(n),
{
    if n < 0 {
        decimal_digits_read_back((-n) as nat);
        assert(decimal(n).skip(1) == decimal_digits((-n) as nat));
    } else {
        decimal_digits_read_back(n as nat);
        assert(is_digit(decimal(n)[0]));
    }
}

/// Different numbers are written differently.
pub proof fn decimal_injective(m: int, n: int)
    requires
        decimal(m) == decimal(n),
    ensures
        m == n,
{
    decimal_reads_back(m);
    decimal_reads_back(n);
}

/// How a number is written: a number below ten as its digit, a larger one as
/// its tenth with the last digit behind it, and a negative one as its opposite
/// with a minus before it.
pub proof fn decimal_notation(n: int)
    ensures
        0 <= n < 10 ==> decimal(n).len() == 1 && decimal(n)[0] as int == 48 + n,
        n >= 10 ==> decimal(n) == decimal(n / 10) + decimal(n % 10),
        n < 0 ==> decimal(n) == seq!['-'] + decimal(-n),
{
    if n >= 10 {
        assert(decimal_digits(n as nat) =~= decimal(n / 10) + decimal(n % 10));
    }
}

/// What a digit adds to a number that is read: its value to ten times what
/// stands before it. Before the digits may stand a plus, or, where negative
/// numbers are allowed, a minus, which makes the number negative.
pub proof fn digits_are_read_from_left_to_right(s: Seq<char>, c: char, negative_allowed: bool)
    requires
        48 <= c as int <= 57,
    ensures
        number_value(seq![c], negative_allowed) == Some(c as int - 48),
        s.len() > 0 && all_digits(s) ==> number_value(s, negative_allowed) is Some && number_value(
            s.push(c),
            negative_allowed,
        ) == Some(10 * number_value(s, negative_allowed)->0 + (c as int - 48)),
        s.len() > 0 && all_digits(s) ==> number_value(seq!['+'] + s, negative_allowed)
            == number_value(s, negative_allowed),
        s.len() > 0 && all_digits(s) ==> number_value(seq!['-'] + s, true) == Some(
            -(number_value(s, true)->0),
        ),
{
    let one = seq![c];
    assert(one.drop_last() =~= Seq::<char>::empty());
    assert(digits_value(one.drop_last()) == 0);
    assert(is_digit(one[0]));
    if s.len() > 0 && all_digits(s) {
        assert(is_digit(s[0]));
        let t = s.push(c);
        assert(t.drop_last() =~= s);
        assert forall|i: int| 0 <= i < t.len() implies is_digit(#[trigger] t[i]) by {
            if i < s.len() {
                assert(t[i] == s[i]);
            }
        }
        assert(t[0] == s[0]);
        assert((seq!['+'] + s).skip(1) =~= s);
        assert((seq!['-'] + s).skip(1) =~= s);
    }
}

/// What is read as a number is one: digits from `0` to `9`, at least one, with
/// no more than a sign before them, and no minus where none is allowed.
pub proof fn only_numbers_are_read(s: Seq<char>, negative_allowed: bool)
    requires
        number_value(s, negative_allowed) is Some,
    ensures
        s.len() > 0,
        s[0] == '+' || s[0] == '-' ==> s.len() > 1,
        s[0] == '-' ==> negative_allowed,
        s[0] != '+' && s[0] != '-' ==> 48 <= s[0] as int <= 57,
        forall|i: int| 1 <= i < s.len() ==> 48 <= #[trigger] s[i] as int <= 57,
{
    let signed = s[0] == '+' || (negative_allowed && s[0] == '-');
    let digits = if signed {
        s.skip(1)
    } else {
        s
    };
    if !signed {
        assert(is_digit(digits[0]));
    }
    assert forall|i: int| 1 <= i < s.len() implies 48 <= #[trigger] s[i] as int <= 57 by {
        if signed {
            assert(is_digit(digits[i - 1]));
        } else {
            assert(is_digit(digits[i]));
        }
    }
}

/// A number of the settings is what is written there, where that is a number
/// in range, and else there is none.
pub proof fn numbers_in_range_are_read(s: Seq<char>)
    ensures
        match number_value(s, true) {
            Some(v) => if i64::MIN <= v <= i64::MAX {
                i64_value(s) == Some(v as i64)
            } else {
                i64_value(s) is None
            },
            None => i64_value(s) is None,
        },
        match number_value(s, false) {
            Some(v) => if 0 <= v <= usize::MAX {
                usize_value(s) == Some(v as usize)
            } else {
                usize_value(s) is None
            },
            None => usize_value(s) is None,
        },
{
}

/// The digits are the ten characters from `0` to `9`.
pub proof fn digits_are_ascii(s: Seq<char>)
    ensures
        all_digits(s) <==> forall|i: int| 0 <= i < s.len() ==> 48 <= #[trigger] s[i] as int <= 57,
{
    if all_digits(s) {
        assert forall|i: int| 0 <= i < s.len() implies 48 <= #[trigger] s[i] as int <= 57 by {
            assert(is_digit(s[i]));
        }
    }
    if forall|i: int| 0 <= i < s.len() ==> 48 <= #[trigger] s[i] as int <= 57 {
        assert forall|i: int| 0 <= i < s.len() implies is_digit(#[trigger] s[i]) by {
        }
    }
}

} // verus!
