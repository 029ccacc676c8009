//! Numbers in decimal notation.
use vstd::arithmetic::power::pow;
use vstd::prelude::*;
use vstd::slice::slice_subrange;

use crate::text::string_of;

verus! {

/// `c` is a decimal digit.
pub open spec fn digit(c: char) -> bool {
    '0' <= c <= '9'
}

/// The decimal digits of `n`, with no leading zero.
pub open spec fn decimal(n: nat) -> Seq<char>
    decreases n,
{
    if n < 10 {
        seq![('0' as u32 + n) as char]
    } else {
        decimal(n / 10).push(('0' as u32 + n % 10) as char)
    }
}

/// The number that the digits `s` write.
pub open spec fn digits_value(s: Seq<char>) -> nat
    decreases s.len(),
{
    if s.len() == 0 {
        0
    } else {
        10 * digits_value(s.drop_last()) + (s.last() as u32 - '0' as u32) as nat
    }
}

/// The digits of `s` after an optional plus sign.
pub open spec fn unsigned(s: Seq<char>) -> Seq<char> {
    if s.len() > 0 && s[0] == '+' {
        s.skip(1)
    } else {
        s
    }
}

/// The number that `s` writes: digits after an optional plus sign, up to the
/// largest that 32 bits hold.
pub open spec fn parsed_u32(s: Seq<char>) -> Option<u32> {
    let d = unsigned(s);
    if d.len() > 0 && (forall|i: int| 0 <= i < d.len() ==> digit(#[trigger] d[i])) && digits_value(
        d,
    ) <= u32::MAX {
        Some(digits_value(d) as u32)
    } else {
        None
    }
}

/// The number, or the nearest one of the range from `low` to `high`.
pub open spec fn clamped(n: u32, low: u32, high: u32) -> u32 {
    if n < low {
        low
    } else if n > high {
        high
    } else {
        n
    }
}

/// The number, or the nearest one of the range from `low` to `high`.
pub(crate) fn clamp(n: u32, low: u32, high: u32) -> (r: u32)
    ensures
        r == clamped(n, low, high),
{
    if n < low {
        low
    } else if n > high {
        high
    } else {
        n
    }
}

fn digit_char(d: u8) -> (c: char)
    requires
        d < 10,
    ensures
        c == ('0' as u32 + d) as char,
        digit(c),
{
    ('0' as u8 + d) as char
}

fn decimal_chars(n: u64) -> (r: Vec<char>)
    ensures
        r@ == decimal(n as nat),
    decreases n,
{
    if n < 10 {
        let mut out: Vec<char> = Vec::new();
        out.push(digit_char(n as u8));
        out
    } else {
        let mut out = decimal_chars(n / 10);
        out.push(digit_char((n % 10) as u8));
        out
    }
}

/// The decimal notation of `n`.
pub fn decimal_string(n: u64) -> (r: String)
    ensures
        r@ == decimal(n as nat),
{
    let digits = decimal_chars(n);
    string_of(digits.as_slice())
}

/// More digits do not make a smaller number.
proof fn lemma_digits_grow(s: Seq<char>, n: int)
    requires
        0 <= n <= s.len(),
        forall|i: int| 0 <= i < s.len() ==> digit(#[trigger] s[i]),
    ensures
        digits_value(s.take(n)) <= digits_value(s),
    decreases s.len(),
{
    if n == s.len() {
        assert(s.take(n) =~= s);
    } else {
        let t = s.drop_last();
        lemma_digits_grow(t, n);
        assert(t.take(n) =~= s.take(n));
    }
}

/// Reads the number that the characters write.
pub(crate) fn parse_u32_chars(s: &[char]) -> (r: Option<u32>)
    ensures
        r == parsed_u32(s@),
{
    let digits = if s.len() > 0 && s[0] == '+' {
        slice_subrange(s, 1, s.len())
    } else {
        s
    };
    assert(digits@ =~= unsigned(s@));
    if digits.len() == 0 {
        return None;
    }
    let len: usize = digits.len();
    let mut value: u64 = 0;
    let mut i: usize = 0;
    while i < len
        invariant
            i <= len,
            len == digits@.len(),
            digits@ == unsigned(s@),
            forall|k: int| 0 <= k < i ==> digit(#[trigger] digits@[k]),
            value == digits_value(digits@.take(i as int)),
            value <= u32::MAX,
        decreases len - i,
    {
        let c = digits[i];
        if !('0' <= c && c <= '9') {
            assert(!digit(digits@[i as int]));
            return None;
        }
        let d: u64 = (c as u32 - '0' as u32) as u64;
        i += 1;
        proof {
            assert(digits@.take(i as int).drop_last() =~= digits@.take(i - 1));
        }
        value = 10 * value + d;
        if value > 0xffff_ffff {
            proof {
                if forall|k: int| 0 <= k < digits@.len() ==> digit(#[trigger] digits@[k]) {
                    lemma_digits_grow(digits@, i as int);
                }
            }
            return None;
        }
    }
    assert(digits@.take(i as int) =~= digits@);
    Some(value as u32)
}

/// Reading back what was written gives the number.
pub proof fn law_decimal_reads_back(n: u32)
    ensures
        parsed_u32(decimal(n as nat)) == Some(n),
{
    lemma_decimal(n as nat);
    let d = decimal(n as nat);
    assert(digit(d[0]));
    assert(unsigned(d) == d);
}

proof fn lemma_decimal(n: nat)
    ensures
        decimal(n).len() > 0,
        forall|i: int| 0 <= i < decimal(n).len() ==> digit(#[trigger] decimal(n)[i]),
        digits_value(decimal(n)) == n,
    decreases n,
{
    let d = decimal(n);
    if n < 10 {
        assert(d.drop_last() =~= Seq::empty());
        assert(digits_value(d.drop_last()) == 0);
    } else {
        lemma_decimal(n / 10);
        assert(d.drop_last() =~= decimal(n / 10));
    }
}

/// A number of zeros.
pub open spec fn zeros(n: nat) -> Seq<char> {
    Seq::new(n, |i: int| '0')
}

/// Digits count by their places: in two runs of digits the first counts as many
/// times ten as the second has digits, and a single one counts its distance from
/// zero.
pub proof fn law_digits_count_by_place(a: Seq<char>, b: Seq<char>, c: char)
    requires
        digit(c),
    ensures
        digits_value(Seq::empty()) == 0,
        digits_value(seq![c]) == c as u32 - '0' as u32,
        digits_value(a + b) == digits_value(a) * pow(10, b.len()) + digits_value(b),
    decreases b.len(),
{
    let empty = Seq::<char>::empty();
    assert(seq![c].drop_last() =~= empty);
    assert(digits_value(seq![c]) == 10 * digits_value(empty) + (c as u32 - '0' as u32) as nat);
    reveal(pow);
    if b.len() == 0 {
        assert(a + b =~= a);
        assert(b =~= empty);
    } else {
        let front = b.drop_last();
        law_digits_count_by_place(a, front, c);
        assert((a + b).drop_last() =~= a + front);
        let x = digits_value(a) as int;
        let p = pow(10, front.len());
        assert(pow(10, b.len()) == 10 * p);
        assert(10 * (x * p) == x * (10 * p)) by (nonlinear_arith);
    }
}

/// The notation of a number is made of digits, without a leading zero, and counts
/// to the number.
pub proof fn law_decimal_is_plain(n: nat)
    ensures
        decimal(n).len() > 0,
        forall|i: int| 0 <= i < decimal(n).len() ==> '0' <= #[trigger] decimal(n)[i] <= '9',
        decimal(n)[0] == '0' ==> n == 0 && decimal(n).len() == 1,
        digits_value(decimal(n)) == n,
    decreases n,
{
    lemma_decimal(n);
    assert forall|i: int| 0 <= i < decimal(n).len() implies '0' <= #[trigger] decimal(n)[i]
        <= '9' by {
        assert(digit(decimal(n)[i]));
    }
    if n >= 10 {
        law_decimal_is_plain(n / 10);
        assert(decimal(n)[0] == decimal(n / 10)[0]);
    } else {
        assert(decimal(n)[0] == ('0' as u32 + n) as char);
    }
}

/// Every run of digits is the notation of the number that it counts to, behind
/// zeros.
proof fn lemma_digits_are_decimal(d: Seq<char>) -> (z: nat)
    requires
        d.len() > 0,
        forall|i: int| 0 <= i < d.len() ==> digit(#[trigger] d[i]),
    ensures
        d == zeros(z) + decimal(digits_value(d)),
    decreases d.len(),
{
    let c = d.last();
    let front = d.drop_last();
    assert(digit(d[d.len() - 1]));
    let v = digits_value(front);
    let k = (c as u32 - '0' as u32) as nat;
    assert(digits_value(d) == 10 * v + k);
    if front.len() == 0 {
        assert(v == 0);
        assert(d =~= zeros(0) + decimal(k));
        0
    } else {
        assert forall|i: int| 0 <= i < front.len() implies digit(#[trigger] front[i]) by {
            assert(digit(d[i]));
        }
        let z = lemma_digits_are_decimal(front);
        assert(d =~= front.push(c));
        if v == 0 {
            assert(decimal(0) =~= seq!['0']);
            assert(d =~= zeros(z + 1) + decimal(k));
            z + 1
        } else {
            let n = 10 * v + k;
            assert(n / 10 == v);
            assert(n % 10 == k);
            assert(decimal(n) == decimal(v).push(('0' as u32 + k) as char));
            assert(d =~= zeros(z) + decimal(n));
            z
        }
    }
}

proof fn lemma_zeros_before(z: nat, n: nat)
    ensures
        digits_value(zeros(z) + decimal(n)) == n,
        forall|i: int|
            0 <= i < (zeros(z) + decimal(n)).len() ==> digit(#[trigger] (zeros(z) + decimal(n))[i]),
        digits_value(zeros(z)) == 0,
    decreases z,
{
    lemma_decimal(n);
    if z > 0 {
        lemma_zeros_before((z - 1) as nat, n);
        assert(zeros(z).drop_last() =~= zeros((z - 1) as nat));
    }
    law_digits_count_by_place(zeros(z), decimal(n), '0');
    let zero = digits_value(zeros(z));
    let power = pow(10, decimal(n).len());
    assert(zero * power == 0) by (nonlinear_arith)
        requires
            zero == 0,
    ;
    let s = zeros(z) + decimal(n);
    assert forall|i: int| 0 <= i < s.len() implies digit(#[trigger] s[i]) by {
        if i >= z {
            assert(s[i] == decimal(n)[i - z]);
        }
    }
}

/// A text is read as a number if it is the notation of that number, behind zeros
/// and a plus sign or neither, and no other text is.
pub proof fn law_notations_are_read(s: Seq<char>, n: u32)
    ensures
        parsed_u32(s) == Some(n) <==> exists|z: nat|
            s == #[trigger] zeros(z) + decimal(n as nat) || s == seq!['+'] + (zeros(z) + decimal(
                n as nat,
            )),
{
    if parsed_u32(s) == Some(n) {
        let d = unsigned(s);
        let z = lemma_digits_are_decimal(d);
        assert(d == zeros(z) + decimal(n as nat));
        if s[0] == '+' {
            assert(s =~= seq!['+'] + d);
        }
    }
    if exists|z: nat|
        s == #[trigger] zeros(z) + decimal(n as nat) || s == seq!['+'] + (zeros(z) + decimal(
            n as nat,
        )) {
        let z = choose|z: nat|
            s == #[trigger] zeros(z) + decimal(n as nat) || s == seq!['+'] + (zeros(z) + decimal(
                n as nat,
            ));
        let d = zeros(z) + decimal(n as nat);
        lemma_zeros_before(z, n as nat);
        lemma_decimal(n as nat);
        assert(digit(d[0]));
        if s == seq!['+'] + d {
            assert(s.skip(1) =~= d);
        }
        assert(unsigned(s) == d);
    }
}

/// Clamping keeps a number of the range, and takes the nearer end for another.
pub proof fn law_clamping_takes_the_nearest(n: u32, low: u32, high: u32, other: u32)
    requires
        low <= high,
        low <= other <= high,
    ensures
        low <= clamped(n, low, high) <= high,
        low <= n <= high ==> clamped(n, low, high) == n,
        n < low ==> clamped(n, low, high) <= other,
        n > high ==> clamped(n, low, high) >= other,
{
}

} // verus!
