//! Decimal text of unsigned integers: writing (as `{}` formatting does) and
//! reading (as `str::parse` does for unsigned integer types).

use vstd::prelude::*;

verus! {

/// The decimal digit character for `d` (below ten).
pub open spec fn digit_char(d: nat) -> char {
    if d == 0 {
        '0'
    } else if d == 1 {
        '1'
    } else if d == 2 {
        '2'
    } else if d == 3 {
        '3'
    } else if d == 4 {
        '4'
    } else if d == 5 {
        '5'
    } else if d == 6 {
        '6'
    } else if d == 7 {
        '7'
    } else if d == 8 {
        '8'
    } else {
        '9'
    }
}

/// The value of a decimal digit character, or `None` for any other character.
pub open spec fn digit_value(c: char) -> Option<nat> {
    if c == '0' {
        Some(0)
    } else if c == '1' {
        Some(1)
    } else if c == '2' {
        Some(2)
    } else if c == '3' {
        Some(3)
    } else if c == '4' {
        Some(4)
    } else if c == '5' {
        Some(5)
    } else if c == '6' {
        Some(6)
    } else if c == '7' {
        Some(7)
    } else if c == '8' {
        Some(8)
    } else if c == '9' {
        Some(9)
    } else {
        None
    }
}

/// The decimal text of `n`: no sign, no leading zeros (`"0"` for zero).
pub open spec fn decimal_digits(n: nat) -> Seq<char>
    decreases n,
{
    if n < 10 {
        seq![digit_char(n)]
    } else {
        decimal_digits(n / 10).push(digit_char(n % 10))
    }
}

/// Every character of `ds` is a decimal digit.
pub open spec fn all_digits(ds: Seq<char>) -> bool {
    forall|i: int| 0 <= i < ds.len() ==> (#[trigger] digit_value(ds[i])) is Some
}

/// The number that the digit string `ds` denotes (zero for the empty string).
pub open spec fn digits_value(ds: Seq<char>) -> nat
    decreases ds.len(),
{
    if ds.len() == 0 {
        0
    } else {
        digits_value(ds.drop_last()) * 10 + digit_value(ds.last()).unwrap_or(0)
    }
}

/// The digits that follow an optional leading `+`.
pub open spec fn unsigned_body(s: Seq<char>) -> Seq<char> {
    if s.len() > 0 && s[0] == '+' {
        s.drop_first()
    } else {
        s
    }
}

/// What `str::parse` gives for an unsigned integer type whose largest value is
/// `max`: an optional `+`, then at least one decimal digit and nothing else,
/// denoting a number no larger than `max`.
pub open spec fn parsed_unsigned(s: Seq<char>, max: nat) -> Option<nat> {
    let ds = unsigned_body(s);
    if ds.len() == 0 || !all_digits(ds) || digits_value(ds) > max {
        None
    } else {
        Some(digits_value(ds))
    }
}

fn digit_to_char(d: u64) -> (c: char)
    requires
        d < 10,
    ensures
        c == digit_char(d as nat),
{
    if d == 0 {
        '0'
    } else if d == 1 {
        '1'
    } else if d == 2 {
        '2'
    } else if d == 3 {
        '3'
    } else if d == 4 {
        '4'
    } else if d == 5 {
        '5'
    } else if d == 6 {
        '6'
    } else if d == 7 {
        '7'
    } else if d == 8 {
        '8'
    } else {
        '9'
    }
}

pub(crate) fn char_to_digit(c: char) -> (r: Option<u64>)
    ensures
        r is Some <==> digit_value(c) is Some,
        r matches Some(d) ==> d == digit_value(c).unwrap() && d < 10,
{
    if c == '0' {
        Some(0)
    } else if c == '1' {
        Some(1)
    } else if c == '2' {
        Some(2)
    } else if c == '3' {
        Some(3)
    } else if c == '4' {
        Some(4)
    } else if c == '5' {
        Some(5)
    } else if c == '6' {
        Some(6)
    } else if c == '7' {
        Some(7)
    } else if c == '8' {
        Some(8)
    } else if c == '9' {
        Some(9)
    } else {
        None
    }
}

/// Appends the decimal text of `n` to `out`.
pub fn push_decimal(n: u64, out: &mut Vec<char>)
    ensures
        final(out)@ == old(out)@ + decimal_digits(n as nat),
    decreases n,
{
    if n >= 10 {
        push_decimal(n / 10, out);
    }
    let c = digit_to_char(n % 10);
    out.push(c);
    proof {
        if n >= 10 {
            assert(old(out)@ + decimal_digits((n / 10) as nat) + seq![c] =~= old(out)@
                + decimal_digits((n / 10) as nat).push(c));
        } else {
            assert(old(out)@ + seq![c] =~= old(out)@.push(c));
        }
    }
}

/// The decimal text of `n`, as `n.to_string()` writes it.
pub fn decimal_chars(n: u64) -> (res: Vec<char>)
    ensures
        res@ == decimal_digits(n as nat),
{
    let mut out: Vec<char> = Vec::new();
    push_decimal(n, &mut out);
    assert(Seq::<char>::empty() + decimal_digits(n as nat) =~= decimal_digits(n as nat));
    out
}

/// Reading more digits never makes the value smaller.
proof fn lemma_digits_value_grows(ds: Seq<char>, j: int, k: int)
    requires
        0 <= j <= k <= ds.len(),
    ensures
        digits_value(ds.take(j)) <= digits_value(ds.take(k)),
    decreases k - j,
{
    if j < k {
        lemma_digits_value_grows(ds, j, k - 1);
        assert(ds.take(k).drop_last() =~= ds.take(k - 1));
    }
}

/// Parses `cs` as an unsigned integer no larger than `max`.
fn parse_bounded(cs: &Vec<char>, max: u64) -> (res: Option<u64>)
    requires
        max <= u32::MAX,
    ensures
        match parsed_unsigned(cs@, max as nat) {
            Some(v) => res == Some(v as u64),
            None => res is None,
        },
{
    let n = cs.len();
    let start: usize = if n > 0 && cs[0] == '+' {
        1
    } else {
        0
    };
    let ghost ds = unsigned_body(cs@);
    assert(ds =~= cs@.skip(start as int));
    if start == n {
        return None;
    }
    let mut acc: u64 = 0;
    let mut i: usize = start;
    assert(ds.take(0) =~= Seq::<char>::empty());
    while i < n
        invariant
            n == cs@.len(),
            start <= i <= n,
            ds == cs@.skip(start as int),
            ds == unsigned_body(cs@),
            max <= u32::MAX,
            acc <= max,
            all_digits(ds.take(i - start)),
            acc == digits_value(ds.take(i - start)),
        decreases n - i,
    {
        let ghost j: int = i - start;
        let d = match char_to_digit(cs[i]) {
            Some(d) => d,
            None => {
                assert(ds[j] == cs@[i as int]);
                assert(!all_digits(ds));
                return None;
            },
        };
        assert(ds[j] == cs@[i as int]);
        assert(ds.take(j + 1).drop_last() =~= ds.take(j));
        assert(ds.take(j + 1).last() == ds[j]);
        assert(acc * 10 + d <= 0xffff_ffff * 10 + 9) by (nonlinear_arith)
            requires
                acc <= 0xffff_ffff,
                d < 10,
        ;
        acc = acc * 10 + d;
        assert forall|k: int| 0 <= k < j + 1 implies (#[trigger] digit_value(ds.take(j + 1)[k])) is Some by {
            if k < j {
                assert(ds.take(j + 1)[k] == ds.take(j)[k]);
            }
        }
        if acc > max {
            proof {
                if all_digits(ds) {
                    lemma_digits_value_grows(ds, j + 1, ds.len() as int);
                    assert(ds.take(ds.len() as int) =~= ds);
                }
            }
            return None;
        }
        i = i + 1;
    }
    assert(ds.take(n - start) =~= ds);
    Some(acc)
}

/// `s.parse::<u8>()`, with `None` for every input that it refuses.
pub fn parse_u8(s: &str) -> (res: Option<u8>)
    ensures
        match parsed_unsigned(s@, u8::MAX as nat) {
            Some(v) => res == Some(v as u8),
            None => res is None,
        },
{
    let cs = crate::text::chars_of(s);
    match parse_bounded(&cs, 255) {
        Some(v) => Some(v as u8),
        None => None,
    }
}

/// `s.parse::<u32>()`, with `None` for every input that it refuses.
pub fn parse_u32(s: &str) -> (res: Option<u32>)
    ensures
        match parsed_unsigned(s@, u32::MAX as nat) {
            Some(v) => res == Some(v as u32),
            None => res is None,
        },
{
    let cs = crate::text::chars_of(s);
    match parse_bounded(&cs, 0xffff_ffff) {
        Some(v) => Some(v as u32),
        None => None,
    }
}

/// The decimal text of a number is a non-empty string of digits that denotes it.
pub proof fn lemma_decimal_digits(n: nat)
    ensures
        decimal_digits(n).len() > 0,
        all_digits(decimal_digits(n)),
        digits_value(decimal_digits(n)) == n,
    decreases n,
{
    let ds = decimal_digits(n);
    if n < 10 {
        assert(ds.drop_last() =~= Seq::<char>::empty());
        assert(digit_value(digit_char(n)) == Some(n));
        assert(digits_value(ds) == digits_value(ds.drop_last()) * 10 + n);
    } else {
        assert(digit_value(digit_char(n % 10)) == Some(n % 10));
        assert((n / 10) * 10 + n % 10 == n);
        lemma_decimal_digits(n / 10);
        let prefix = decimal_digits(n / 10);
        assert(ds.drop_last() =~= prefix);
        assert(ds.last() == digit_char(n % 10));
        assert(digits_value(ds) == digits_value(prefix) * 10 + (n % 10));
        assert forall|i: int| 0 <= i < ds.len() implies (#[trigger] digit_value(ds[i])) is Some by {
            if i < prefix.len() {
                assert(ds[i] == prefix[i]);
            }
        }
    }
}

/// Reading back the decimal text of a number gives the number: what
/// `to_string` writes, `parse` reads, for every value of the type.
pub proof fn lemma_decimal_round_trip(n: nat, max: nat)
    requires
        n <= max,
    ensures
        parsed_unsigned(decimal_digits(n), max) == Some(n),
{
    lemma_decimal_digits(n);
    let ds = decimal_digits(n);
    assert(digit_value(ds[0]) is Some);
    assert(unsigned_body(ds) == ds);
}

/// Different numbers have different decimal texts.
pub proof fn lemma_decimal_injective(a: nat, b: nat)
    requires
        decimal_digits(a) == decimal_digits(b),
    ensures
        a == b,
{
    lemma_decimal_digits(a);
    lemma_decimal_digits(b);
}

} // verus!
