//! The `w1_slave` file of a one-wire temperature probe.
//!
//! The kernel driver writes two lines: the first ends with `YES` once the
//! reading has passed its checksum, the second holds `t=` followed by the
//! temperature in thousandths of a degree Celsius, for example
//! `4b 01 4b 46 7f ff 05 10 e1 t=20687`.  Temperatures in this crate are
//! kept exactly, in ten-thousandths of a degree Fahrenheit.

use vstd::prelude::*;
use vstd::string::StringExecFns;
use crate::decimal::{
    all_digits, decimal_digits, digits_value, is_digit, lemma_decimal_digits,
    lemma_digits_value_below_pow10, lemma_digits_value_concat, lemma_pow10_monotone, parse_digits,
    pow10, pow10_u64,
};
use crate::shared_data::{SharedData, SharedDataView};
use vstd::string::StringSliceAdditionalSpecFns;

verus! {

/// Temperature in ten-thousandths of a degree Fahrenheit for a reading in
/// thousandths of a degree Celsius: `F = C * 9 / 5 + 32`, scaled exactly.
pub open spec fn fahrenheit_e4(millidegrees_c: int) -> int {
    18 * millidegrees_c + 320000
}

/// True when an integer fits in an `i64`.
pub open spec fn fits_i64(v: int) -> bool {
    i64::MIN <= v <= i64::MAX
}

/// First index at or after `i` that holds a line feed, or the length.
pub open spec fn newline_from(c: Seq<u8>, i: int) -> int
    decreases c.len() - i,
{
    if i >= c.len() {
        c.len() as int
    } else if c[i] == 10u8 {
        i
    } else {
        newline_from(c, i + 1)
    }
}

/// The first line as `BufRead::lines` yields it: the bytes before the first
/// line feed; a carriage return right before that line feed is dropped too.
pub open spec fn first_line(c: Seq<u8>) -> Seq<u8> {
    let e = newline_from(c, 0);
    let line = c.take(e);
    if e < c.len() && line.len() > 0 && line.last() == 13u8 {
        line.drop_last()
    } else {
        line
    }
}

/// The bytes after the first line feed (none when there is no line feed).
pub open spec fn after_first_line(c: Seq<u8>) -> Seq<u8> {
    let e = newline_from(c, 0);
    if e < c.len() {
        c.skip(e + 1)
    } else {
        Seq::empty()
    }
}

/// First index at or after `i` where `t=` starts, or -1 when there is none.
pub open spec fn marker_from(l: Seq<u8>, i: int) -> int
    decreases l.len() - i,
{
    if i + 1 >= l.len() {
        -1
    } else if l[i] == 116u8 && l[i + 1] == 61u8 {
        i
    } else {
        marker_from(l, i + 1)
    }
}

/// A UTF-8 continuation byte: a string cannot be cut in front of it.
pub open spec fn is_continuation_byte(b: u8) -> bool {
    0x80 <= b <= 0xBF
}

/// First index at or after `i` that holds a decimal point, or the length.
pub open spec fn point_from(b: Seq<u8>, i: int) -> int
    decreases b.len() - i,
{
    if i >= b.len() {
        b.len() as int
    } else if b[i] == 46u8 {
        i
    } else {
        point_from(b, i + 1)
    }
}

/// The text after an optional `+` or `-` sign.
pub open spec fn unsigned_part(s: Seq<u8>) -> Seq<u8> {
    if s.len() > 0 && (s[0] == 43u8 || s[0] == 45u8) {
        s.drop_first()
    } else {
        s
    }
}

/// The digits before the decimal point.
pub open spec fn integer_digits(b: Seq<u8>) -> Seq<u8> {
    b.take(point_from(b, 0))
}

/// The digits after the decimal point (none without a point).
pub open spec fn fraction_digits(b: Seq<u8>) -> Seq<u8> {
    let p = point_from(b, 0);
    if p < b.len() {
        b.skip(p + 1)
    } else {
        Seq::empty()
    }
}

/// `x / d` rounded to the nearest integer, halves away from zero.
pub open spec fn round_div(x: int, d: int) -> int {
    if x >= 0 {
        (2 * x + d) / (2 * d)
    } else {
        -((-2 * x + d) / (2 * d))
    }
}

/// The temperature that the text after `t=` stands for: an optional sign,
/// then digits with at most one decimal point, at least one digit and at most
/// eighteen in all.  The reading `v` thousandths of a degree Celsius is
/// `N / 10^k` for the digits' value `N` and `k` digits after the point; its
/// temperature `18 v + 320000` is rounded to the nearest ten-thousandth of a
/// degree Fahrenheit, and must fit in an `i64`.
pub open spec fn spec_reading_temperature(s: Seq<u8>) -> Option<i64> {
    let b = unsigned_part(s);
    let int_part = integer_digits(b);
    let frac_part = fraction_digits(b);
    let count = int_part.len() + frac_part.len();
    if s.len() > 0 && all_digits(int_part) && all_digits(frac_part) && 0 < count <= 18 {
        let n = digits_value(int_part + frac_part);
        let d = pow10(frac_part.len());
        let v = if s[0] == 45u8 { -n } else { n as int };
        let t = round_div(18 * v + 320000 * d, d as int);
        if fits_i64(t) {
            Some(t as i64)
        } else {
            None
        }
    } else {
        None
    }
}

/// What one read of the sensor file gives.
#[derive(Debug, Clone, Copy, PartialEq, Eq, Structural)]
pub enum SensorReading {
    /// The first line does not end with `YES`: the file is read again later.
    NotReady,
    /// A temperature, in ten-thousandths of a degree Fahrenheit.
    Temperature(i64),
    /// The file is not in the driver's format.
    Malformed,
}

/// The outcome of reading the sensor file `c`.
///
/// `Malformed` stands where the file lacks a line the format needs, where the
/// last three bytes of the first line cannot be cut off as a string, where the
/// second line has no `t=`, or where the text after it is no integer or one
/// whose temperature does not fit in an `i64`.
pub open spec fn spec_sensor_reading(c: Seq<u8>) -> SensorReading {
    if c.len() == 0 {
        SensorReading::Malformed
    } else {
        let l0 = first_line(c);
        if l0.len() < 3 || is_continuation_byte(l0[l0.len() - 3]) {
            SensorReading::Malformed
        } else if !(l0[l0.len() - 3] == 89u8 && l0[l0.len() - 2] == 69u8 && l0[l0.len() - 1] == 83u8) {
            SensorReading::NotReady
        } else {
            let rest = after_first_line(c);
            if rest.len() == 0 {
                SensorReading::Malformed
            } else {
                let l1 = first_line(rest);
                let p = marker_from(l1, 0);
                if p < 0 {
                    SensorReading::Malformed
                } else {
                    match spec_reading_temperature(l1.skip(p + 2)) {
                        Some(t) => SensorReading::Temperature(t),
                        None => SensorReading::Malformed,
                    }
                }
            }
        }
    }
}

/// Index of the first line feed at or after `from`, or the length.
fn newline_index(c: &[u8], from: usize) -> (r: usize)
    requires
        from <= c.len(),
    ensures
        r as int == newline_from(c@, from as int),
        from <= r <= c.len(),
{
    let n = c.len();
    let mut i = from;
    while i < n
        invariant
            from <= i <= n,
            n == c@.len(),
            newline_from(c@, from as int) == newline_from(c@, i as int),
        decreases n - i,
    {
        if c[i] == 10u8 {
            return i;
        }
        i = i + 1;
    }
    i
}

/// The first line of `c` and the bytes after it.
fn split_first_line(c: &[u8]) -> (r: (&[u8], &[u8]))
    ensures
        r.0@ == first_line(c@),
        r.1@ == after_first_line(c@),
{
    let n = c.len();
    let e = newline_index(c, 0);
    let line: &[u8] = if e < n && e > 0 && c[e - 1] == 13u8 {
        &c[0..e - 1]
    } else {
        &c[0..e]
    };
    let rest: &[u8] = if e < n {
        &c[e + 1..n]
    } else {
        &c[n..n]
    };
    assert(c@.subrange(0, e as int) =~= c@.take(e as int));
    assert(e > 0 ==> c@.subrange(0, e - 1) =~= c@.take(e as int).drop_last());
    assert(e < n ==> c@.subrange(e + 1, n as int) =~= c@.skip(e + 1));
    assert(c@.subrange(n as int, n as int) =~= Seq::<u8>::empty());
    (line, rest)
}

/// Index where the first `t=` starts.
fn marker_index(l: &[u8]) -> (r: Option<usize>)
    ensures
        match r {
            Some(p) => p as int == marker_from(l@, 0) && p + 1 < l@.len(),
            None => marker_from(l@, 0) < 0,
        },
{
    let n = l.len();
    if n < 2 {
        return None;
    }
    let mut i: usize = 0;
    while i < n - 1
        invariant
            n >= 2,
            i <= n,
            n == l@.len(),
            marker_from(l@, 0) == marker_from(l@, i as int),
        decreases n - i,
    {
        if l[i] == 116u8 && l[i + 1] == 61u8 {
            return Some(i);
        }
        i = i + 1;
    }
    None
}

/// Index of the first decimal point, or the length.
fn point_index(b: &[u8]) -> (r: usize)
    ensures
        r as int == point_from(b@, 0),
        r <= b.len(),
{
    let n = b.len();
    let mut i: usize = 0;
    while i < n
        invariant
            i <= n,
            n == b@.len(),
            point_from(b@, 0) == point_from(b@, i as int),
        decreases n - i,
    {
        if b[i] == 46u8 {
            return i;
        }
        i = i + 1;
    }
    i
}

/// The value of at most eighteen digits (zero for none).
fn short_digits_value(d: &[u8]) -> (r: Option<u64>)
    requires
        d.len() <= 18,
    ensures
        r matches Some(v) ==> all_digits(d@) && v == digits_value(d@),
        r is None ==> !all_digits(d@),
{
    if d.len() == 0 {
        return Some(0);
    }
    proof {
        if all_digits(d@) {
            lemma_digits_value_below_pow10(d@);
            lemma_pow10_monotone(d@.len(), 18);
        }
    }
    parse_digits(d, 999_999_999_999_999_999)
}

/// The temperature for the text after `t=`.
fn reading_temperature(s: &[u8]) -> (r: Option<i64>)
    ensures
        r == spec_reading_temperature(s@),
{
    let n = s.len();
    if n == 0 {
        return None;
    }
    let negative = s[0] == 45u8;
    let start: usize = if s[0] == 43u8 || s[0] == 45u8 { 1 } else { 0 };
    let b = &s[start..n];
    assert(b@ =~= unsigned_part(s@));
    let m = b.len();
    let p = point_index(b);
    let int_part = &b[0..p];
    let frac_part: &[u8] = if p < m { &b[p + 1..m] } else { &b[m..m] };
    assert(int_part@ =~= integer_digits(b@));
    assert(frac_part@ =~= fraction_digits(b@));
    let count = int_part.len() + frac_part.len();
    if count == 0 || count > 18 {
        return None;
    }
    let i_value = match short_digits_value(int_part) {
        Some(v) => v,
        None => return None,
    };
    let f_value = match short_digits_value(frac_part) {
        Some(v) => v,
        None => return None,
    };
    let d = pow10_u64(frac_part.len());
    proof {
        lemma_digits_value_concat(int_part@, frac_part@);
        lemma_digits_value_below_pow10(int_part@);
        lemma_digits_value_below_pow10(frac_part@);
        lemma_pow10_monotone(int_part@.len(), 18);
        lemma_pow10_monotone(frac_part@.len(), 18);
        assert(i_value * d <= 1_000_000_000_000_000_000 * 1_000_000_000_000_000_000)
            by (nonlinear_arith)
            requires
                i_value <= 1_000_000_000_000_000_000,
                d <= 1_000_000_000_000_000_000,
        ;
    }
    let value: i128 = i_value as i128 * d as i128 + f_value as i128;
    let signed: i128 = if negative { -value } else { value };
    let x: i128 = 18 * signed + 320000 * d as i128;
    let den: u128 = 2 * d as u128;
    let q: i128 = if x >= 0 {
        ((2 * x as u128 + d as u128) / den) as i128
    } else {
        -(((2 * (-x) as u128 + d as u128) / den) as i128)
    };
    if q < i64::MIN as i128 || q > i64::MAX as i128 {
        None
    } else {
        Some(q as i64)
    }
}

/// Reads the contents of the sensor file, as the driver's protocol asks.
pub fn parse_w1_slave(c: &[u8]) -> (r: SensorReading)
    ensures
        r == spec_sensor_reading(c@),
{
    if c.len() == 0 {
        return SensorReading::Malformed;
    }
    let (l0, rest) = split_first_line(c);
    let m = l0.len();
    if m < 3 || (0x80u8 <= l0[m - 3] && l0[m - 3] <= 0xBFu8) {
        return SensorReading::Malformed;
    }
    if !(l0[m - 3] == 89u8 && l0[m - 2] == 69u8 && l0[m - 1] == 83u8) {
        return SensorReading::NotReady;
    }
    if rest.len() == 0 {
        return SensorReading::Malformed;
    }
    let (l1, _) = split_first_line(rest);
    match marker_index(l1) {
        None => SensorReading::Malformed,
        Some(p) => {
            let k = l1.len();
            let text = &l1[p + 2..k];
            assert(text@ =~= l1@.skip(p + 2));
            match reading_temperature(text) {
                Some(t) => SensorReading::Temperature(t),
                None => SensorReading::Malformed,
            }
        },
    }
}

proof fn lemma_newline_at(c: Seq<u8>, i: int, k: int)
    requires
        0 <= i <= k < c.len(),
        forall|j: int| i <= j < k ==> c[j] != 10u8,
        c[k] == 10u8,
    ensures
        newline_from(c, i) == k,
    decreases k - i,
{
    if i < k {
        lemma_newline_at(c, i + 1, k);
    }
}

proof fn lemma_marker_at(l: Seq<u8>, i: int, k: int)
    requires
        0 <= i <= k,
        k + 1 < l.len(),
        forall|j: int| i <= j < k ==> l[j] != 116u8,
        l[k] == 116u8,
        l[k + 1] == 61u8,
    ensures
        marker_from(l, i) == k,
    decreases k - i,
{
    if i < k {
        lemma_marker_at(l, i + 1, k);
    }
}

/// The text of an integer as the driver writes it: a minus sign for a
/// negative value, then the decimal digits of its magnitude.
pub open spec fn signed_decimal(negative: bool, magnitude: nat) -> Seq<u8> {
    if negative {
        seq![45u8] + decimal_digits(magnitude)
    } else {
        decimal_digits(magnitude)
    }
}

/// What the driver writes: a first line that ends with `YES`, then a second
/// line with `t=` and the temperature in thousandths of a degree Celsius.
pub open spec fn driver_output(head0: Seq<u8>, head1: Seq<u8>, negative: bool, magnitude: nat) -> Seq<u8> {
    head0 + seq![89u8, 69u8, 83u8, 10u8] + head1 + seq![116u8, 61u8] + signed_decimal(negative, magnitude)
        + seq![10u8]
}

proof fn lemma_point_absent(b: Seq<u8>, i: int)
    requires
        0 <= i <= b.len(),
        all_digits(b),
    ensures
        point_from(b, i) == b.len(),
    decreases b.len() - i,
{
    if i < b.len() {
        assert(is_digit(b[i]));
        lemma_point_absent(b, i + 1);
    }
}

proof fn lemma_decimal_digits_len(n: nat, k: nat)
    requires
        n < pow10(k),
        k >= 1,
    ensures
        decimal_digits(n).len() <= k,
    decreases n,
{
    if n >= 10 {
        let k1 = (k - 1) as nat;
        assert(pow10(k) == 10 * pow10(k1));
        if k1 == 0 {
            assert(pow10(0) == 1);
        } else {
            lemma_decimal_digits_len(n / 10, k1);
        }
    }
}

proof fn lemma_round_div_one(x: int)
    ensures
        round_div(x, 1) == x,
{
    if x >= 0 {
        assert((2 * x + 1) / 2 == x);
    } else {
        assert((-2 * x + 1) / 2 == -x);
    }
}

/// The reading that the driver writes, read back on its own.
proof fn lemma_reading_of_signed_decimal(negative: bool, magnitude: nat)
    requires
        magnitude < 1_000_000_000_000_000_000,
        fits_i64(fahrenheit_e4(if negative { -magnitude } else { magnitude as int })),
    ensures
        spec_reading_temperature(signed_decimal(negative, magnitude)) == Some(
            fahrenheit_e4(if negative { -magnitude } else { magnitude as int }) as i64,
        ),
{
    let digits = decimal_digits(magnitude);
    lemma_decimal_digits(magnitude);
    lemma_pow10_monotone(18, 18);
    lemma_decimal_digits_len(magnitude, 18);
    let num = signed_decimal(negative, magnitude);
    let b = unsigned_part(num);
    assert(num.len() > 0);
    if negative {
        assert(num[0] == 45u8);
        assert(b =~= digits);
    } else {
        assert(is_digit(digits[0]));
        assert(b =~= digits);
    }
    lemma_point_absent(b, 0);
    assert(integer_digits(b) =~= digits);
    assert(fraction_digits(b) =~= Seq::<u8>::empty());
    assert(digits + Seq::<u8>::empty() =~= digits);
    assert(pow10(0) == 1);
    let v = if negative { -magnitude } else { magnitude as int };
    assert(num[0] == 45u8 <==> negative) by {
        if !negative {
            assert(is_digit(digits[0]));
        }
    }
    lemma_round_div_one(18 * v + 320000);
}

/// Reading back what the driver wrote gives its temperature: when the
/// first line ends with `YES` and the second holds `t=` and a reading of at
/// most eighteen digits (with no earlier `t` on that line), the file reads as
/// that reading converted to Fahrenheit.
pub proof fn law_driver_output_read_back(head0: Seq<u8>, head1: Seq<u8>, negative: bool, magnitude: nat)
    requires
        magnitude < 1_000_000_000_000_000_000,
        forall|i: int| 0 <= i < head0.len() ==> head0[i] != 10u8,
        forall|i: int| 0 <= i < head1.len() ==> head1[i] != 10u8 && head1[i] != 116u8,
        fits_i64(fahrenheit_e4(if negative { -magnitude } else { magnitude as int })),
    ensures
        spec_sensor_reading(driver_output(head0, head1, negative, magnitude))
            == SensorReading::Temperature(
            fahrenheit_e4(if negative { -magnitude } else { magnitude as int }) as i64,
        ),
{
    let digits = decimal_digits(magnitude);
    lemma_decimal_digits(magnitude);
    let num = signed_decimal(negative, magnitude);
    let l0 = head0 + seq![89u8, 69u8, 83u8];
    let l1 = head1 + seq![116u8, 61u8] + num;
    let c = driver_output(head0, head1, negative, magnitude);
    assert(c =~= l0 + seq![10u8] + (l1 + seq![10u8]));
    let k = l0.len() as int;
    assert forall|j: int| 0 <= j < k implies c[j] != 10u8 by {
        if j < head0.len() {
            assert(c[j] == head0[j]);
        }
    }
    lemma_newline_at(c, 0, k);
    assert(c.take(k) =~= l0);
    assert(first_line(c) =~= l0);
    let rest = after_first_line(c);
    assert(rest =~= l1 + seq![10u8]);
    let k1 = l1.len() as int;
    assert(num.len() > 0);
    assert(num[num.len() - 1] == digits[digits.len() - 1]);
    assert(is_digit(digits[digits.len() - 1]));
    assert forall|j: int| 0 <= j < k1 implies rest[j] != 10u8 by {
        if j < head1.len() {
            assert(rest[j] == head1[j]);
        } else if j >= head1.len() + 2 {
            let m = j - head1.len() - 2;
            assert(rest[j] == num[m]);
            if negative && m == 0 {
            } else {
                let q = if negative { m - 1 } else { m };
                assert(num[m] == digits[q]);
                assert(is_digit(digits[q]));
            }
        }
    }
    lemma_newline_at(rest, 0, k1);
    assert(rest.take(k1) =~= l1);
    assert(l1[k1 - 1] != 13u8);
    assert(first_line(rest) =~= l1);
    let p = head1.len() as int;
    assert forall|j: int| 0 <= j < p implies l1[j] != 116u8 by {
        assert(l1[j] == head1[j]);
    }
    lemma_marker_at(l1, 0, p);
    assert(l1.skip(p + 2) =~= num);
    lemma_reading_of_signed_decimal(negative, magnitude);
}

/// Interprets one read of the sensor file and stores the temperature it
/// holds as the current temperature; on any other outcome the shared values
/// stay as they are.  The caller reads the file again after a `NotReady`.
pub fn read_temp(content: &str, sd: &mut SharedData) -> (r: SensorReading)
    ensures
        r == spec_sensor_reading(content.spec_bytes()),
        match r {
            SensorReading::Temperature(t) => final(sd)@ == (SharedDataView {
                current_temp: t,
                ..old(sd)@
            }),
            _ => final(sd)@ == old(sd)@,
        },
{
    let r = parse_w1_slave(content.as_bytes());
    match r {
        SensorReading::Temperature(t) => sd.set_current_temp(t),
        _ => {},
    }
    r
}

/// The sensor file chosen from the directory listing: entries are taken in
/// order, each readable directory replacing the choice with its `w1_slave`
/// file, and the first unreadable entry (`None`) ends the search with its
/// index.  With no entries the choice is the empty path.
pub open spec fn spec_device_file(entries: Seq<Option<String>>) -> Result<Seq<char>, int>
    decreases entries.len(),
{
    if entries.len() == 0 {
        Ok(Seq::empty())
    } else {
        match spec_device_file(entries.drop_last()) {
            Err(i) => Err(i),
            Ok(_) => match entries.last() {
                None => Err(entries.len() - 1),
                Some(dir) => Ok(dir@ + "/w1_slave"@),
            },
        }
    }
}

proof fn lemma_device_file_error_stays(entries: Seq<Option<String>>, k: int, j: int)
    requires
        0 <= k <= entries.len(),
        spec_device_file(entries.take(k)) == Err::<Seq<char>, int>(j),
    ensures
        spec_device_file(entries) == Err::<Seq<char>, int>(j),
    decreases entries.len() - k,
{
    if k == entries.len() {
        assert(entries.take(k) =~= entries);
    } else {
        assert(entries.take(k + 1).drop_last() =~= entries.take(k));
        lemma_device_file_error_stays(entries, k + 1, j);
    }
}

/// True when every directory of the listing could be read.
pub open spec fn all_readable(entries: Seq<Option<String>>) -> bool {
    forall|i: int| 0 <= i < entries.len() ==> (#[trigger] entries[i]) is Some
}

/// With every directory readable, the choice is the last one's `w1_slave`
/// file (the empty path for an empty listing).
pub proof fn law_device_file_picks_last(entries: Seq<Option<String>>)
    requires
        all_readable(entries),
    ensures
        entries.len() > 0 ==> spec_device_file(entries) == Ok::<Seq<char>, int>(
            entries.last()->0@ + "/w1_slave"@,
        ),
        entries.len() == 0 ==> spec_device_file(entries) == Ok::<Seq<char>, int>(Seq::empty()),
    decreases entries.len(),
{
    if entries.len() > 0 {
        let p = entries.drop_last();
        assert forall|i: int| 0 <= i < p.len() implies (#[trigger] p[i]) is Some by {
            assert(p[i] == entries[i]);
        }
        law_device_file_picks_last(p);
        assert(entries.last() == entries[entries.len() - 1]);
    }
}

/// The search ends at the first unreadable directory: its index is the error.
pub proof fn law_device_file_first_unreadable(entries: Seq<Option<String>>, k: int)
    requires
        0 <= k < entries.len(),
        entries[k] is None,
        forall|j: int| 0 <= j < k ==> (#[trigger] entries[j]) is Some,
    ensures
        spec_device_file(entries) == Err::<Seq<char>, int>(k),
{
    let prefix = entries.take(k);
    assert forall|i: int| 0 <= i < prefix.len() implies (#[trigger] prefix[i]) is Some by {
        assert(prefix[i] == entries[i]);
    }
    law_device_file_picks_last(prefix);
    assert(entries.take(k + 1).drop_last() =~= prefix);
    assert(entries.take(k + 1).last() == entries[k]);
    lemma_device_file_error_stays(entries, k + 1, k);
}

/// The search through the listing, entry by entry.
fn search_device_file(entries: &Vec<Option<String>>) -> (r: Result<String, usize>)
    ensures
        match r {
            Ok(path) => spec_device_file(entries@) == Ok::<Seq<char>, int>(path@),
            Err(i) => spec_device_file(entries@) == Err::<Seq<char>, int>(i as int),
        },
{
    let mut chosen = String::new();
    let n = entries.len();
    let mut i: usize = 0;
    while i < n
        invariant
            i <= n,
            n == entries@.len(),
            spec_device_file(entries@.take(i as int)) == Ok::<Seq<char>, int>(chosen@),
        decreases n - i,
    {
        assert(entries@.take(i + 1).drop_last() =~= entries@.take(i as int));
        match &entries[i] {
            None => {
                assert(entries@.take(i + 1).last() == entries@[i as int]);
                proof {
                    lemma_device_file_error_stays(entries@, i + 1, i as int);
                }
                return Err(i);
            },
            Some(dir) => {
                let mut path = dir.clone();
                path.append("/w1_slave");
                chosen = path;
            },
        }
        i = i + 1;
    }
    assert(entries@.take(n as int) =~= entries@);
    Ok(chosen)
}

/// Picks the sensor's data file from the directories that match its family.
pub fn device_file(entries: &Vec<Option<String>>) -> (r: Result<String, usize>)
    ensures
        match r {
            Ok(path) => spec_device_file(entries@) == Ok::<Seq<char>, int>(path@),
            Err(i) => spec_device_file(entries@) == Err::<Seq<char>, int>(i as int),
        },
        all_readable(entries@) && entries@.len() > 0 ==> (r matches Ok(path) && path@
            == entries@.last()->0@ + "/w1_slave"@),
        forall|k: int|
            0 <= k < entries@.len() && entries@[k] is None && (forall|j: int|
                0 <= j < k ==> (#[trigger] entries@[j]) is Some) ==> r == Err::<String, usize>(
                k as usize,
            ),
{
    proof {
        if all_readable(entries@) {
            law_device_file_picks_last(entries@);
        }
        assert forall|k: int|
            0 <= k < entries@.len() && entries@[k] is None && (forall|j: int|
                0 <= j < k ==> (#[trigger] entries@[j]) is Some) implies spec_device_file(entries@)
            == Err::<Seq<char>, int>(k) by {
            law_device_file_first_unreadable(entries@, k);
        }
    }
    search_device_file(entries)
}

} // verus!
