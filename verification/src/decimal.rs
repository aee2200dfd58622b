//! Decimal text: parsing runs of digits and unsigned 16-bit integers from
//! bytes with the grammar of Rust's `str::parse`, and writing non-negative
//! integers into strings.

use vstd::prelude::*;
use vstd::string::StringExecFns;

verus! {

/// True for the ASCII bytes `'0'..='9'`.
pub open spec fn is_digit(b: u8) -> bool {
    48 <= b <= 57
}

/// True when every byte is an ASCII digit.
pub open spec fn all_digits(s: Seq<u8>) -> bool {
    forall|i: int| 0 <= i < s.len() ==> is_digit(#[trigger] s[i])
}

/// The value of a string of decimal digits, most significant first.
pub open spec fn digits_value(s: Seq<u8>) -> nat
    decreases s.len(),
{
    if s.len() == 0 {
        0
    } else {
        digits_value(s.drop_last()) * 10 + (s.last() - 48) as nat
    }
}

/// What `str::parse::<u16>` gives: an optional `+`, then at least one digit,
/// nothing else, and a value that fits in 16 bits.
pub open spec fn spec_parse_u16(s: Seq<u8>) -> Option<u16> {
    let d = if s.len() > 0 && s[0] == 43u8 { s.drop_first() } else { s };
    if d.len() > 0 && all_digits(d) && digits_value(d) <= 65535 {
        Some(digits_value(d) as u16)
    } else {
        None
    }
}

/// Appending digits never lowers the value.
pub proof fn lemma_digits_value_prefix(s: Seq<u8>, i: int)
    requires
        0 <= i <= s.len(),
        all_digits(s),
    ensures
        digits_value(s.take(i)) <= digits_value(s),
    decreases s.len() - i,
{
    if i < s.len() {
        lemma_digits_value_prefix(s, i + 1);
        assert(s.take(i + 1).drop_last() =~= s.take(i));
    } else {
        assert(s.take(i) =~= s);
    }
}

/// One more digit: the prefix stays all digits and its value is scaled by ten.
pub proof fn lemma_digits_step(d: Seq<u8>, k: int)
    requires
        0 <= k < d.len(),
        all_digits(d.take(k)),
        is_digit(d[k]),
    ensures
        all_digits(d.take(k + 1)),
        digits_value(d.take(k + 1)) == digits_value(d.take(k)) * 10 + (d[k] - 48) as nat,
{
    assert(d.take(k + 1).drop_last() =~= d.take(k));
    assert forall|j: int| 0 <= j < k + 1 implies is_digit(#[trigger] d.take(k + 1)[j]) by {
        if j < k {
            assert(d.take(k + 1)[j] == d.take(k)[j]);
        }
    }
}

/// Ten to the power `k`.
pub open spec fn pow10(k: nat) -> nat
    decreases k,
{
    if k == 0 {
        1
    } else {
        10 * pow10((k - 1) as nat)
    }
}

/// A string of `k` digits has a value below ten to the `k`.
pub proof fn lemma_digits_value_below_pow10(d: Seq<u8>)
    requires
        all_digits(d),
    ensures
        digits_value(d) < pow10(d.len()),
    decreases d.len(),
{
    if d.len() > 0 {
        let p = d.drop_last();
        assert forall|i: int| 0 <= i < p.len() implies is_digit(#[trigger] p[i]) by {
            assert(p[i] == d[i]);
        }
        lemma_digits_value_below_pow10(p);
        assert(is_digit(d[d.len() - 1]));
    }
}

/// Digits written after other digits: the first part is scaled by ten to the
/// length of the second.
pub proof fn lemma_digits_value_concat(a: Seq<u8>, b: Seq<u8>)
    ensures
        digits_value(a + b) == digits_value(a) * pow10(b.len()) + digits_value(b),
    decreases b.len(),
{
    if b.len() == 0 {
        assert(a + b =~= a);
        assert(digits_value(a) * 1 == digits_value(a));
    } else {
        let b0 = b.drop_last();
        assert((a + b).drop_last() =~= a + b0);
        assert((a + b).last() == b.last());
        lemma_digits_value_concat(a, b0);
        let x = digits_value(a);
        let p0 = pow10(b0.len());
        assert(pow10(b.len()) == 10 * p0);
        assert((x * p0 + digits_value(b0)) * 10 == x * (10 * p0) + digits_value(b0) * 10)
            by (nonlinear_arith);
        assert(b.drop_last() == b0);
        assert(digits_value(b) == digits_value(b0) * 10 + (b.last() - 48) as nat);
        assert(digits_value(a + b) == digits_value(a + b0) * 10 + (b.last() - 48) as nat);
    }
}

/// Ten to the power `k`, for `k` up to 18.
pub fn pow10_u64(k: usize) -> (r: u64)
    requires
        k <= 18,
    ensures
        r == pow10(k as nat),
{
    let mut r: u64 = 1;
    let mut i: usize = 0;
    while i < k
        invariant
            i <= k <= 18,
            r == pow10(i as nat),
            r <= 1_000_000_000_000_000_000,
        decreases k - i,
    {
        proof {
            lemma_pow10_monotone(i as nat + 1, 18);
        }
        r = r * 10;
        i = i + 1;
    }
    r
}

/// Ten to a power grows with the power.
pub proof fn lemma_pow10_monotone(a: nat, b: nat)
    requires
        a <= b,
    ensures
        pow10(a) <= pow10(b),
        pow10(18) == 1_000_000_000_000_000_000,
    decreases b - a,
{
    reveal_with_fuel(pow10, 19);
    if a < b {
        lemma_pow10_monotone(a, (b - 1) as nat);
    }
}

/// The value of a nonempty string of digits, when it is at most `limit`.
pub open spec fn spec_bounded_digits(d: Seq<u8>, limit: nat) -> Option<nat> {
    if d.len() > 0 && all_digits(d) && digits_value(d) <= limit {
        Some(digits_value(d))
    } else {
        None
    }
}

/// Reads a nonempty run of decimal digits whose value is at most `limit`.
pub fn parse_digits(d: &[u8], limit: u64) -> (r: Option<u64>)
    requires
        limit <= 1_000_000_000_000_000_000,
    ensures
        r matches Some(v) ==> spec_bounded_digits(d@, limit as nat) == Some(v as nat),
        r is None ==> spec_bounded_digits(d@, limit as nat) is None,
{
    let n = d.len();
    if n == 0 {
        return None;
    }
    let mut acc: u64 = 0;
    let mut i: usize = 0;
    while i < n
        invariant
            i <= n,
            n == d@.len(),
            limit <= 1_000_000_000_000_000_000,
            all_digits(d@.take(i as int)),
            acc <= limit,
            acc == digits_value(d@.take(i as int)),
        decreases n - i,
    {
        let b = d[i];
        if !(48u8 <= b && b <= 57u8) {
            assert(!is_digit(d@[i as int]));
            return None;
        }
        proof {
            lemma_digits_step(d@, i as int);
        }
        let next: u64 = acc * 10 + (b - 48u8) as u64;
        if next > limit {
            proof {
                if all_digits(d@) {
                    lemma_digits_value_prefix(d@, i + 1);
                }
            }
            return None;
        }
        acc = next;
        i = i + 1;
    }
    assert(d@.take(i as int) =~= d@);
    Some(acc)
}

/// Parses an unsigned 16-bit integer as `str::parse::<u16>` does.
pub fn parse_u16(s: &[u8]) -> (r: Option<u16>)
    ensures
        r == spec_parse_u16(s@),
{
    let n = s.len();
    let start: usize = if n > 0 && s[0] == 43u8 { 1 } else { 0 };
    let d = &s[start..n];
    assert(d@ =~= (if s@.len() > 0 && s@[0] == 43u8 { s@.drop_first() } else { s@ }));
    match parse_digits(d, 65535) {
        Some(v) => Some(v as u16),
        None => None,
    }
}

/// The shortest decimal spelling of `n`, as ASCII bytes.
pub open spec fn decimal_digits(n: nat) -> Seq<u8>
    decreases n,
{
    if n < 10 {
        seq![(48 + n) as u8]
    } else {
        decimal_digits(n / 10).push((48 + n % 10) as u8)
    }
}

/// The shortest decimal spelling of `n`, as characters: what `{}` prints.
pub open spec fn decimal_text(n: nat) -> Seq<char> {
    decimal_digits(n).map_values(|b: u8| b as char)
}

/// The spelling consists of digits, starts with a digit, and reads back as `n`.
pub proof fn lemma_decimal_digits(n: nat)
    ensures
        all_digits(decimal_digits(n)),
        decimal_digits(n).len() > 0,
        digits_value(decimal_digits(n)) == n,
    decreases n,
{
    if n >= 10 {
        lemma_decimal_digits(n / 10);
        let p = decimal_digits(n / 10);
        assert(decimal_digits(n).drop_last() =~= p);
        assert(decimal_digits(n).last() == (48 + n % 10) as u8);
        assert(n == (n / 10) * 10 + n % 10);
        assert(digits_value(decimal_digits(n)) == digits_value(p) * 10 + (n % 10));
        assert forall|i: int| 0 <= i < decimal_digits(n).len() implies is_digit(
            #[trigger] decimal_digits(n)[i],
        ) by {
            if i < p.len() {
                assert(decimal_digits(n)[i] == p[i]);
            }
        }
    } else {
        assert(decimal_digits(n).drop_last() =~= Seq::<u8>::empty());
        assert(decimal_digits(n).last() == (48 + n) as u8);
        assert(((48 + n) as u8) as int == 48 + n);
        assert(digits_value(decimal_digits(n)) == digits_value(Seq::<u8>::empty()) * 10 + n);
    }
}

/// Writing a number in decimal and parsing it back gives the number again.
pub proof fn law_parse_u16_reads_back_decimal(n: u16)
    ensures
        spec_parse_u16(decimal_digits(n as nat)) == Some(n),
{
    lemma_decimal_digits(n as nat);
    let d = decimal_digits(n as nat);
    assert(is_digit(d[0]));
}

/// The one-character string of the digit `d`.
fn digit_str(d: u8) -> (r: &'static str)
    requires
        d < 10,
    ensures
        r@ == seq![(48 + d) as char],
{
    match d {
        0 => {
            proof { reveal_strlit("0"); }
            "0"
        },
        1 => {
            proof { reveal_strlit("1"); }
            "1"
        },
        2 => {
            proof { reveal_strlit("2"); }
            "2"
        },
        3 => {
            proof { reveal_strlit("3"); }
            "3"
        },
        4 => {
            proof { reveal_strlit("4"); }
            "4"
        },
        5 => {
            proof { reveal_strlit("5"); }
            "5"
        },
        6 => {
            proof { reveal_strlit("6"); }
            "6"
        },
        7 => {
            proof { reveal_strlit("7"); }
            "7"
        },
        8 => {
            proof { reveal_strlit("8"); }
            "8"
        },
        _ => {
            proof { reveal_strlit("9"); }
            "9"
        },
    }
}

/// Appends the decimal spelling of `n` to `s`, as `write!(s, "{}", n)` does.
pub fn push_decimal(s: &mut String, n: u64)
    ensures
        final(s)@ == old(s)@ + decimal_text(n as nat),
    decreases n,
{
    let ghost before = s@;
    if n >= 10 {
        push_decimal(s, n / 10);
    }
    let d: u8 = (n % 10) as u8;
    let ghost c: char = (48 + d) as char;
    s.append(digit_str(d));
    proof {
        if n >= 10 {
            assert(decimal_digits(n as nat) == decimal_digits((n / 10) as nat).push((48 + n % 10) as u8));
            assert(decimal_text(n as nat) =~= decimal_text((n / 10) as nat).push(c));
        } else {
            assert(decimal_text(n as nat) =~= seq![c]);
        }
        assert(s@ =~= before + decimal_text(n as nat));
    }
}

/// The decimal spelling of `n` as a new string, as `n.to_string()` gives it.
pub fn decimal_string(n: u64) -> (r: String)
    ensures
        r@ == decimal_text(n as nat),
{
    let mut s = String::new();
    push_decimal(&mut s, n);
    assert(s@ =~= decimal_text(n as nat));
    s
}

} // verus!
