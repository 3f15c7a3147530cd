//! Durations: the canonical on-the-wire microsecond unit, and the
//! human-readable duration codec used for display and ingest.

use vstd::prelude::*;
use crate::strutil::{dec_str, dec_digit, u64_to_string, push_char};

verus! {

/// Duration in microseconds.
///
/// This wrapper provides consistent serialization of durations across
/// formats. Microseconds offer good precision while fitting in a u64 for
/// durations up to hundreds of thousands of years.
#[derive(Debug, Clone, Copy, PartialEq, Eq, PartialOrd, Ord, Hash, Structural)]
pub struct Microseconds(pub u64);

impl Microseconds {
    /// Create from microseconds.
    pub fn from_micros(micros: u64) -> (m: Microseconds)
        ensures
            m.0 == micros,
    {
        Microseconds(micros)
    }

    /// Create from milliseconds.
    pub fn from_millis(millis: u64) -> (m: Microseconds)
        requires
            millis * 1000 <= u64::MAX,
        ensures
            m.0 == millis * 1000,
    {
        Microseconds(millis * 1000)
    }

    /// Create from seconds.
    pub fn from_secs(secs: u64) -> (m: Microseconds)
        requires
            secs * 1_000_000 <= u64::MAX,
        ensures
            m.0 == secs * 1_000_000,
    {
        Microseconds(secs * 1_000_000)
    }

    /// The value in microseconds.
    pub fn as_micros(&self) -> (r: u64)
        ensures
            r == self.0,
    {
        self.0
    }

    /// The value in milliseconds (truncated).
    pub fn as_millis(&self) -> (r: u64)
        ensures
            r == self.0 / 1000,
    {
        self.0 / 1000
    }

    /// The value in seconds (truncated).
    pub fn as_secs(&self) -> (r: u64)
        ensures
            r == self.0 / 1_000_000,
    {
        self.0 / 1_000_000
    }

    /// Convert to a standard duration.
    ///
    /// Relies on Duration::from_micros: the result holds exactly this many
    /// microseconds.
    #[verifier::external_body]
    pub fn to_duration(&self) -> core::time::Duration {
        core::time::Duration::from_micros(self.0)
    }

    /// Convert from a standard duration, truncating to microseconds and
    /// saturating at the u64 range.
    ///
    /// Relies on Duration::as_micros.
    #[verifier::external_body]
    pub fn from_duration(d: core::time::Duration) -> Microseconds {
        let micros = d.as_micros();
        if micros > u64::MAX as u128 {
            Microseconds(u64::MAX)
        } else {
            Microseconds(micros as u64)
        }
    }
}

impl Default for Microseconds {
    /// The default is zero microseconds.
    fn default() -> (m: Microseconds)
        ensures
            m.0 == 0,
    {
        Microseconds(0)
    }
}

/// Why a duration string was rejected.
#[derive(Debug, Clone, Copy, PartialEq, Eq, Structural)]
pub enum DurationError {
    /// The string does not end in a known unit suffix.
    UnknownFormat,
    /// The part before the unit suffix is not a decimal number.
    InvalidNumber,
}

impl DurationError {
    /// A short description of the error.
    pub fn message(&self) -> (r: String)
        ensures
            self is UnknownFormat ==> r@ == "unknown duration format"@,
            self is InvalidNumber ==> r@ == "invalid number"@,
    {
        match self {
            DurationError::UnknownFormat => String::from_str("unknown duration format"),
            DurationError::InvalidNumber => String::from_str("invalid number"),
        }
    }
}

/// Ten to the given power.
pub open spec fn pow10(e: nat) -> nat
    decreases e,
{
    if e == 0 {
        1
    } else {
        10 * pow10((e - 1) as nat)
    }
}

/// ASCII whitespace, ignored at either end of a duration string.
pub open spec fn is_ws(c: char) -> bool {
    c == ' ' || c == '\t' || c == '\n' || c == '\r'
}

/// A decimal digit character.
pub open spec fn is_digit(c: char) -> bool {
    c == '0' || c == '1' || c == '2' || c == '3' || c == '4' || c == '5' || c == '6' || c == '7'
        || c == '8' || c == '9'
}

/// The numeric value of a decimal digit character.
pub open spec fn digit_val(c: char) -> nat {
    if c == '0' { 0 }
    else if c == '1' { 1 }
    else if c == '2' { 2 }
    else if c == '3' { 3 }
    else if c == '4' { 4 }
    else if c == '5' { 5 }
    else if c == '6' { 6 }
    else if c == '7' { 7 }
    else if c == '8' { 8 }
    else { 9 }
}

/// The value of a digit string, read most-significant first; empty reads as
/// zero.
pub open spec fn digits_val(d: Seq<char>) -> nat
    decreases d.len(),
{
    if d.len() == 0 {
        0
    } else {
        10 * digits_val(d.drop_last()) + digit_val(d.last())
    }
}

/// The string with ASCII whitespace removed from both ends.
pub open spec fn trim_spec(s: Seq<char>) -> Seq<char>
    decreases s.len(),
{
    if s.len() > 0 && is_ws(s[0]) {
        trim_spec(s.drop_first())
    } else if s.len() > 0 && is_ws(s.last()) {
        trim_spec(s.drop_last())
    } else {
        s
    }
}

/// Index of the first `.` in the string, or its length if there is none.
pub open spec fn find_dot(d: Seq<char>) -> int
    decreases d.len(),
{
    if d.len() == 0 {
        0
    } else if d[0] == '.' {
        0
    } else {
        1 + find_dot(d.drop_first())
    }
}

/// A plain decimal number: digits with at most one dot somewhere among them,
/// and at least one digit.
pub open spec fn valid_number(d: Seq<char>) -> bool {
    let k = find_dot(d);
    &&& forall|i: int| 0 <= i < k ==> is_digit(#[trigger] d[i])
    &&& forall|i: int| k < i < d.len() ==> is_digit(#[trigger] d[i])
    &&& (k > 0 || k + 1 < d.len())
}

/// The value in nanoseconds of a decimal number of a unit of `pow10(mexp)`
/// nanoseconds, truncated to the unit's precision and saturated at the u64
/// range.  Fractional digits beyond `mexp` places cannot contribute a whole
/// nanosecond and are ignored.
pub open spec fn number_nanos(d: Seq<char>, mexp: nat) -> u64 {
    let k = find_dot(d);
    let ip = digits_val(d.take(k));
    let fl = if k == d.len() { 0 } else { vstd::math::min((d.len() - k - 1) as int, mexp as int) as nat };
    let fp = digits_val(d.subrange(k + 1, k + 1 + fl)) * pow10((mexp - fl) as nat);
    let total = ip * pow10(mexp) + fp;
    if k == d.len() {
        if ip * pow10(mexp) > u64::MAX { u64::MAX } else { (ip * pow10(mexp)) as u64 }
    } else {
        if total > u64::MAX { u64::MAX } else { total as u64 }
    }
}

/// The unit suffix at the end of a trimmed duration string: the power of ten
/// of nanoseconds it stands for, and its length in characters.  Units are
/// checked in the order ns, µs, us, ms, s.
pub open spec fn unit_suffix(t: Seq<char>) -> Option<(nat, nat)> {
    if t.len() >= 2 && t[t.len() - 2] == 'n' && t[t.len() - 1] == 's' {
        Some((0nat, 2nat))
    } else if t.len() >= 2 && t[t.len() - 2] == 'µ' && t[t.len() - 1] == 's' {
        Some((3nat, 2nat))
    } else if t.len() >= 2 && t[t.len() - 2] == 'u' && t[t.len() - 1] == 's' {
        Some((3nat, 2nat))
    } else if t.len() >= 2 && t[t.len() - 2] == 'm' && t[t.len() - 1] == 's' {
        Some((6nat, 2nat))
    } else if t.len() >= 1 && t[t.len() - 1] == 's' {
        Some((9nat, 1nat))
    } else {
        None
    }
}

/// What `parse_duration` yields on a given string: nanoseconds on success.
pub open spec fn parse_duration_spec(s: Seq<char>) -> Result<u64, DurationError> {
    let t = trim_spec(s);
    match unit_suffix(t) {
        Option::None => Result::Err(DurationError::UnknownFormat),
        Option::Some((mexp, sufflen)) => {
            let d = t.take(t.len() - sufflen);
            if valid_number(d) {
                Result::Ok(number_nanos(d, mexp))
            } else {
                Result::Err(DurationError::InvalidNumber)
            }
        },
    }
}

/// If no dot occurs before position `m`, the first dot is at `m` or later.
proof fn lemma_find_dot_ge(d: Seq<char>, m: int)
    requires
        0 <= m <= d.len(),
        forall|j: int| 0 <= j < m ==> d[j] != '.',
    ensures
        find_dot(d) >= m,
    decreases d.len(),
{
    if d.len() == 0 {
    } else {
        if m > 0 {
            assert(d[0] != '.');
        }
        if d[0] != '.' {
            let m1 = if m > 0 { m - 1 } else { 0 };
            assert(forall|j: int| 0 <= j < m1 ==> d.drop_first()[j] != '.');
            lemma_find_dot_ge(d.drop_first(), m1);
        }
    }
}

/// The first dot is exactly where the scan found it.
proof fn lemma_find_dot_at(d: Seq<char>, i: int)
    requires
        0 <= i <= d.len(),
        forall|j: int| 0 <= j < i ==> d[j] != '.',
        i < d.len() ==> d[i] == '.',
    ensures
        find_dot(d) == i,
    decreases d.len(),
{
    if d.len() == 0 {
    } else if d[0] == '.' {
        assert(i == 0);
    } else {
        assert(i >= 1);
        assert(forall|j: int| 0 <= j < i - 1 ==> d.drop_first()[j] != '.');
        assert(i - 1 < d.drop_first().len() ==> d.drop_first()[i - 1] == '.');
        lemma_find_dot_at(d.drop_first(), i - 1);
    }
}

/// Powers of ten multiply as their exponents add.
proof fn lemma_pow10_adds(a: nat, b: nat)
    ensures
        pow10(a + b) == pow10(a) * pow10(b),
    decreases a,
{
    if a == 0 {
        assert(pow10(a) == 1);
        assert(pow10(a + b) == pow10(b));
        assert(1 * pow10(b) == pow10(b));
    } else {
        lemma_pow10_adds((a - 1) as nat, b);
        assert((a - 1) as nat + b == (a + b - 1) as nat);
        assert(pow10(a + b) == 10 * pow10((a + b - 1) as nat));
        assert(pow10(a) * pow10(b) == 10 * (pow10((a - 1) as nat) * pow10(b)))
            by (nonlinear_arith)
            requires pow10(a) == 10 * pow10((a - 1) as nat),
        ;
        assert(pow10(a + b) == pow10(a) * pow10(b));
    }
}

/// Powers of ten are positive.
proof fn lemma_pow10_pos(e: nat)
    ensures
        pow10(e) >= 1,
    decreases e,
{
    if e > 0 {
        lemma_pow10_pos((e - 1) as nat);
    }
}

/// Powers of ten grow with the exponent.
proof fn lemma_pow10_mono(a: nat, b: nat)
    requires
        a <= b,
    ensures
        pow10(a) <= pow10(b),
    decreases b,
{
    if a < b {
        lemma_pow10_mono(a, (b - 1) as nat);
        lemma_pow10_pos((b - 1) as nat);
    }
}

/// Ten to the given small power, as a machine integer.
fn pow10_u64(e: u64) -> (r: u64)
    requires
        e <= 9,
    ensures
        r == pow10(e as nat),
        r >= 1,
        r <= 1_000_000_000,
{
    proof {
        reveal_with_fuel(pow10, 11);
    }
    if e == 0 { 1 }
    else if e == 1 { 10 }
    else if e == 2 { 100 }
    else if e == 3 { 1_000 }
    else if e == 4 { 10_000 }
    else if e == 5 { 100_000 }
    else if e == 6 { 1_000_000 }
    else if e == 7 { 10_000_000 }
    else if e == 8 { 100_000_000 }
    else { 1_000_000_000 }
}

/// Decode a decimal digit character, if it is one.
fn digit_of(c: char) -> (r: Option<u64>)
    ensures
        r is Some <==> is_digit(c),
        r is Some ==> r->Some_0 == digit_val(c) && r->Some_0 < 10,
{
    if c == '0' { Some(0) }
    else if c == '1' { Some(1) }
    else if c == '2' { Some(2) }
    else if c == '3' { Some(3) }
    else if c == '4' { Some(4) }
    else if c == '5' { Some(5) }
    else if c == '6' { Some(6) }
    else if c == '7' { Some(7) }
    else if c == '8' { Some(8) }
    else if c == '9' { Some(9) }
    else { None }
}

fn is_ws_char(c: char) -> (r: bool)
    ensures
        r == is_ws(c),
{
    c == ' ' || c == '\t' || c == '\n' || c == '\r'
}

/// Parse a human duration string such as `29.99s`, `988.82ms`, `16.958µs` or
/// `0ns` into nanoseconds.  Whitespace at either end is ignored; fractional
/// digits beyond the unit's nanosecond precision are dropped; values beyond
/// the u64 range saturate.
#[verifier::rlimit(100)]
pub fn parse_duration(s: &str) -> (r: Result<u64, DurationError>)
    ensures
        r == parse_duration_spec(s@),
{
    let len = s.unicode_len();
    proof {
        assert(s@.skip(0) =~= s@);
    }

    // Strip leading whitespace.
    let mut start: usize = 0;
    while start < len && is_ws_char(s.get_char(start))
        invariant
            start <= len,
            len == s@.len(),
            trim_spec(s@) == trim_spec(s@.skip(start as int)),
        decreases len - start,
    {
        proof {
            assert(s@.skip(start as int).drop_first() =~= s@.skip(start as int + 1));
        }
        start = start + 1;
    }

    // Strip trailing whitespace.
    proof {
        assert(s@.skip(start as int).take((len - start) as int) =~= s@.skip(start as int));
    }
    let mut end: usize = len;
    while end > start && is_ws_char(s.get_char(end - 1))
        invariant
            start <= end <= len,
            len == s@.len(),
            start < len ==> !is_ws(s@[start as int]),
            trim_spec(s@) == trim_spec(s@.skip(start as int).take((end - start) as int)),
        decreases end,
    {
        proof {
            let t = s@.skip(start as int).take((end - start) as int);
            assert(t.last() == s@[end - 1]);
            assert(t[0] == s@[start as int]);
            assert(t.drop_last() =~= s@.skip(start as int).take((end - start - 1) as int));
        }
        end = end - 1;
    }

    let tlen = end - start;
    let ghost t = s@.skip(start as int).take(tlen as int);
    proof {
        assert(forall|i: int| 0 <= i < tlen ==> t[i] == s@[start + i]);
        assert(trim_spec(s@) == t);
    }

    // Recognize the unit suffix.
    let (mexp, sufflen): (u64, usize) = if tlen >= 2 {
        let c2 = s.get_char(start + tlen - 2);
        let c1 = s.get_char(start + tlen - 1);
        assert(c2 == t[tlen - 2] && c1 == t[tlen - 1]);
        if c2 == 'n' && c1 == 's' { (0, 2) }
        else if c2 == 'µ' && c1 == 's' { (3, 2) }
        else if c2 == 'u' && c1 == 's' { (3, 2) }
        else if c2 == 'm' && c1 == 's' { (6, 2) }
        else if c1 == 's' { (9, 1) }
        else {
            assert(unit_suffix(t) is None);
            return Err(DurationError::UnknownFormat);
        }
    } else if tlen == 1 {
        let c1 = s.get_char(start);
        assert(c1 == t[0]);
        if c1 == 's' { (9, 1) }
        else {
            assert(unit_suffix(t) is None);
            return Err(DurationError::UnknownFormat);
        }
    } else {
        assert(unit_suffix(t) is None);
        return Err(DurationError::UnknownFormat);
    };
    assert(unit_suffix(t) == Some((mexp as nat, sufflen as nat)));

    let dlen = tlen - sufflen;
    let ghost d = t.take(dlen as int);
    proof {
        assert(forall|i: int| 0 <= i < dlen ==> d[i] == s@[start + i]);
    }

    // Scan the integer part, saturating at the u64 range.
    let mut i: usize = 0;
    let mut ipart: u64 = 0;
    let mut sat: bool = false;
    let mut saw_dot: bool = false;
    while i < dlen && !saw_dot
        invariant
            i <= dlen,
            dlen <= tlen <= end - start,
            start + tlen <= len,
            len == s@.len(),
            d == t.take(dlen as int),
            t == s@.skip(start as int).take(tlen as int),
            trim_spec(s@) == t,
            unit_suffix(t) == Some((mexp as nat, sufflen as nat)),
            dlen == tlen - sufflen,
            forall|j: int| 0 <= j < dlen ==> d[j] == s@[start + j],
            !saw_dot ==> forall|j: int| 0 <= j < i ==> d[j] != '.' && is_digit(#[trigger] d[j]),
            saw_dot ==> {
                &&& i >= 1
                &&& d[i - 1] == '.'
                &&& forall|j: int| 0 <= j < i - 1 ==> d[j] != '.' && is_digit(#[trigger] d[j])
            },
            !sat ==> ipart == digits_val(d.take(if saw_dot { i - 1 } else { i as int })),
            sat ==> digits_val(d.take(if saw_dot { i - 1 } else { i as int })) > u64::MAX,
        decreases dlen - i,
    {
        let c = s.get_char(start + i);
        assert(c == d[i as int]);
        if c == '.' {
            saw_dot = true;
            i = i + 1;
        } else {
            match digit_of(c) {
                None => {
                    proof {
                        lemma_find_dot_ge(d, i + 1);
                        assert(!is_digit(d[i as int]));
                        assert(!valid_number(d));
                    }
                    return Err(DurationError::InvalidNumber);
                },
                Some(dv) => {
                    proof {
                        assert(d.take(i + 1).drop_last() =~= d.take(i as int));
                        assert(digits_val(d.take(i + 1)) == 10 * digits_val(d.take(i as int))
                            + digit_val(d[i as int]));
                    }
                    if !sat {
                        if ipart > (u64::MAX - dv) / 10 {
                            proof {
                                assert(10 * ((u64::MAX - dv) / 10) + dv <= u64::MAX);
                                assert(10 * (ipart as int) + dv > u64::MAX);
                            }
                            sat = true;
                        } else {
                            ipart = ipart * 10 + dv;
                        }
                    }
                    i = i + 1;
                },
            }
        }
    }

    let k = if saw_dot { i - 1 } else { i };
    proof {
        if saw_dot {
            lemma_find_dot_at(d, k as int);
        } else {
            lemma_find_dot_at(d, dlen as int);
        }
        assert(find_dot(d) == k as int);
    }

    // Scan the fractional part, keeping only digits within the unit's
    // precision.
    let mut fl: u64 = 0;
    let mut facc: u64 = 0;
    if saw_dot {
        let mut j: usize = i;
        while j < dlen
            invariant
                k < i <= j <= dlen,
                i == k + 1,
                dlen <= tlen <= end - start,
                start + tlen <= len,
                len == s@.len(),
                d == t.take(dlen as int),
                t == s@.skip(start as int).take(tlen as int),
                trim_spec(s@) == t,
                unit_suffix(t) == Some((mexp as nat, sufflen as nat)),
                dlen == tlen - sufflen,
                find_dot(d) == k as int,
                forall|jj: int| 0 <= jj < dlen ==> d[jj] == s@[start + jj],
                forall|jj: int| k < jj < j ==> is_digit(#[trigger] d[jj]),
                mexp <= 9,
                fl == vstd::math::min((j - k - 1) as int, mexp as int),
                facc == digits_val(d.subrange(k + 1, k + 1 + fl)),
                facc < pow10(fl as nat),
                facc < 1_000_000_000,
            decreases dlen - j,
        {
            let c = s.get_char(start + j);
            assert(c == d[j as int]);
            match digit_of(c) {
                None => {
                    proof {
                        assert(!is_digit(d[j as int]));
                        assert(!valid_number(d));
                    }
                    return Err(DurationError::InvalidNumber);
                },
                Some(dv) => {
                    if fl < mexp && j - k - 1 < 9 {
                        proof {
                            reveal_with_fuel(pow10, 11);
                            assert(d.subrange(k + 1, k + 1 + fl + 1).drop_last()
                                =~= d.subrange(k + 1, k + 1 + fl));
                            assert(pow10((fl + 1) as nat) == 10 * pow10(fl as nat));
                            lemma_pow10_mono((fl + 1) as nat, 9);
                            assert(pow10(9) == 1_000_000_000);
                        }
                        facc = facc * 10 + dv;
                        fl = fl + 1;
                    }
                    j = j + 1;
                },
            }
        }
    }
    proof {
        if saw_dot {
            assert(fl == vstd::math::min((dlen - k - 1) as int, mexp as int));
        }
    }

    // Combine integer and fractional contributions, saturating.
    let punit = pow10_u64(mexp);
    let pfrac = pow10_u64(mexp - fl);
    let fp: u64 = {
        proof {
            vstd::arithmetic::mul::lemma_mul_upper_bound(
                facc as int, 1_000_000_000,
                pfrac as int, 1_000_000_000,
            );
        }
        facc * pfrac
    };
    if sat {
        proof {
            vstd::arithmetic::mul::lemma_mul_inequality(
                u64::MAX as int + 1, digits_val(d.take(k as int)) as int, punit as int,
            );
            vstd::arithmetic::mul::lemma_mul_inequality(
                1, punit as int, u64::MAX as int + 1,
            );
            assert(digits_val(d.take(k as int)) * pow10(mexp as nat) > u64::MAX);
        }
        if k == 0 && i >= dlen {
            assert(!valid_number(d));
            return Err(DurationError::InvalidNumber);
        }
        assert(valid_number(d));
        return Ok(u64::MAX);
    }
    let total: u128 = {
        proof {
            vstd::arithmetic::mul::lemma_mul_upper_bound(
                ipart as int, u64::MAX as int, punit as int, 1_000_000_000,
            );
        }
        (ipart as u128) * (punit as u128) + (fp as u128)
    };
    if k == 0 && i >= dlen {
        // No digit at all: the dot is first and nothing follows it, or the
        // number is empty.
        assert(!valid_number(d));
        return Err(DurationError::InvalidNumber);
    }
    assert(valid_number(d));
    let result: u64 = if total > u64::MAX as u128 { u64::MAX } else { total as u64 };
    assert(result == number_nanos(d, mexp as nat));
    Ok(result)
}

/// A value scaled to hundredths, rendered with two decimal places.
pub open spec fn two_dec_str(v100: nat) -> Seq<char> {
    dec_str(v100 / 100) + seq!['.', dec_digit(v100 % 100 / 10), dec_digit(v100 % 10)]
}

/// What `format_duration` yields on a given number of nanoseconds: whole
/// nanoseconds below a microsecond, then two decimal places of the largest
/// unit below the value, rounding half up.
pub open spec fn format_duration_spec(n: nat) -> Seq<char> {
    if n == 0 {
        seq!['0', 'n', 's']
    } else if n < 1_000 {
        dec_str(n) + seq!['n', 's']
    } else if n < 1_000_000 {
        two_dec_str((n + 5) / 10) + seq!['µ', 's']
    } else if n < 1_000_000_000 {
        two_dec_str((n + 5_000) / 10_000) + seq!['m', 's']
    } else {
        two_dec_str((n + 5_000_000) / 10_000_000) + seq!['s']
    }
}

/// Append a two-decimal rendering of a value scaled to hundredths.
fn push_two_dec(out: &mut String, v100: u64)
    ensures
        final(out)@ == old(out)@ + two_dec_str(v100 as nat),
{
    let whole = u64_to_string(v100 / 100);
    out.append(whole.as_str());
    push_char(out, '.');
    let d1 = v100 % 100 / 10;
    let d2 = v100 % 10;
    push_char(out, crate::strutil::digit_char(d1));
    push_char(out, crate::strutil::digit_char(d2));
}

/// Format a duration in nanoseconds for display.
pub fn format_duration(nanos: u64) -> (s: String)
    ensures
        s@ == format_duration_spec(nanos as nat),
{
    let mut out = String::new();
    if nanos == 0 {
        out.append("0ns");
        proof {
            reveal_strlit("0ns");
            assert(out@ =~= format_duration_spec(0));
        }
    } else if nanos < 1_000 {
        let whole = u64_to_string(nanos);
        out.append(whole.as_str());
        out.append("ns");
        proof {
            reveal_strlit("ns");
            assert(out@ =~= format_duration_spec(nanos as nat));
        }
    } else if nanos < 1_000_000 {
        push_two_dec(&mut out, (nanos + 5) / 10);
        out.append("µs");
        proof {
            reveal_strlit("µs");
            assert(out@ =~= format_duration_spec(nanos as nat));
        }
    } else if nanos < 1_000_000_000 {
        push_two_dec(&mut out, (nanos + 5_000) / 10_000);
        out.append("ms");
        proof {
            reveal_strlit("ms");
            assert(out@ =~= format_duration_spec(nanos as nat));
        }
    } else {
        let v100 = (nanos / 10_000_000) + ((nanos % 10_000_000 + 5_000_000) / 10_000_000);
        proof {
            vstd::arithmetic::div_mod::lemma_fundamental_div_mod(nanos as int, 10_000_000);
            vstd::arithmetic::div_mod::lemma_hoist_over_denominator(
                nanos as int % 10_000_000 + 5_000_000,
                nanos as int / 10_000_000,
                10_000_000,
            );
            assert(v100 == (nanos + 5_000_000) / 10_000_000);
        }
        push_two_dec(&mut out, v100);
        out.append("s");
        proof {
            reveal_strlit("s");
            assert(out@ =~= format_duration_spec(nanos as nat));
        }
    }
    out
}

/// Decimal renderings are non-empty and consist of digits.
proof fn lemma_dec_str_digits(n: nat)
    ensures
        dec_str(n).len() >= 1,
        forall|i: int| 0 <= i < dec_str(n).len() ==> is_digit(#[trigger] dec_str(n)[i]),
    decreases n,
{
    if n >= 10 {
        lemma_dec_str_digits(n / 10);
    }
}

/// Reading back a decimal rendering gives the number itself.
proof fn lemma_dec_str_val(n: nat)
    ensures
        digits_val(dec_str(n)) == n,
    decreases n,
{
    reveal_with_fuel(digits_val, 4);
    if n < 10 {
        assert(dec_str(n).drop_last() =~= Seq::<char>::empty());
    } else {
        lemma_dec_str_val(n / 10);
        assert(dec_str(n).drop_last() =~= dec_str(n / 10));
        assert(dec_str(n).last() == dec_digit(n % 10));
    }
}

/// Parsing a two-decimal rendering with a unit suffix gives the scaled value,
/// saturated at the u64 range.
#[verifier::rlimit(100)]
proof fn lemma_parse_two_dec(v: nat, mexp: nat, suf: Seq<char>)
    requires
        100 <= v,
        mexp == 3 || mexp == 6 || mexp == 9,
        suf == if mexp == 3 { seq!['µ', 's'] } else if mexp == 6 { seq!['m', 's'] } else { seq!['s'] },
    ensures
        parse_duration_spec(two_dec_str(v) + suf) == Result::<u64, DurationError>::Ok(
            if v * pow10((mexp - 2) as nat) > u64::MAX { u64::MAX } else { (v * pow10((mexp - 2) as nat)) as u64 }
        ),
{
    reveal_with_fuel(pow10, 11);
    reveal_with_fuel(digits_val, 4);
    let w = dec_str(v / 100);
    let d1 = dec_digit(v % 100 / 10);
    let d2 = dec_digit(v % 10);
    let t = two_dec_str(v) + suf;
    lemma_dec_str_digits(v / 100);
    lemma_dec_str_val(v / 100);
    let wl = w.len() as int;

    // The rendering has no whitespace at either end, so trimming keeps it.
    assert(t[0] == w[0]);
    assert(is_digit(t[0]));
    assert(t.last() == 's');
    assert(trim_spec(t) == t);

    // The unit suffix is recognized as intended.
    assert(t[t.len() - 1] == 's');
    if mexp == 3 {
        assert(t[t.len() - 2] == 'µ');
    } else if mexp == 6 {
        assert(t[t.len() - 2] == 'm');
    } else {
        assert(t[t.len() - 2] == d2);
        assert(is_digit(d2));
    }
    let sufflen = suf.len();
    assert(unit_suffix(t) == Some((mexp, sufflen)));

    // The number part is the two-decimal rendering.
    let d = t.take((t.len() - sufflen) as int);
    assert(d =~= w + seq!['.', d1, d2]);
    assert(forall|j: int| 0 <= j < wl ==> d[j] == w[j]);
    assert(d[wl] == '.');
    lemma_find_dot_at(d, wl);
    assert(is_digit(d[wl + 1]) && is_digit(d[wl + 2]));
    assert(valid_number(d));

    // Its value: the integer part scaled by the unit, plus the two decimals.
    assert(d.take(wl) =~= w);
    let ip = digits_val(d.take(wl));
    assert(ip == v / 100);
    let fl = vstd::math::min(d.len() - wl - 1, mexp as int) as nat;
    assert(fl == 2);
    assert(d.subrange(wl + 1, wl + 3) =~= seq![d1, d2]);
    let fd = d.subrange(wl + 1, wl + 3);
    assert(fd.drop_last() =~= seq![d1]);
    assert(seq![d1].drop_last() =~= Seq::<char>::empty());
    assert(digits_val(fd) == 10 * digit_val(d1) + digit_val(d2));
    assert(digit_val(d1) == v % 100 / 10);
    assert(digit_val(d2) == v % 10);
    let fp = digits_val(fd) * pow10((mexp - 2) as nat);

    // Assemble: ip * 10^mexp + fp == v * 10^(mexp-1).
    vstd::arithmetic::div_mod::lemma_fundamental_div_mod(v as int, 100);
    vstd::arithmetic::div_mod::lemma_fundamental_div_mod(v as int % 100, 10);
    vstd::arithmetic::div_mod::lemma_mod_multiples_vanish(10 * (v as int / 100), v as int % 100, 10);
    assert(v % 100 % 10 == v % 10);
    assert(v == 100 * (v / 100) + 10 * (v % 100 / 10) + (v % 10));
    assert(pow10(mexp) == 100 * pow10((mexp - 2) as nat));
    let p2 = pow10((mexp - 2) as nat);
    assert(ip * pow10(mexp) + fp == v * p2) by (nonlinear_arith)
        requires
            ip == v / 100,
            fp == (10 * (v % 100 / 10) + (v % 10)) * p2,
            pow10(mexp) == 100 * p2,
            v == 100 * (v / 100) + 10 * (v % 100 / 10) + (v % 10),
    ;
    assert(number_nanos(d, mexp) == if v * p2 > u64::MAX { u64::MAX } else { (v * p2) as u64 });
}

/// The precision of the duration codec at a given magnitude: half the value
/// of the last digit that `format_duration` prints.
pub open spec fn duration_precision(n: nat) -> nat {
    if n < 1_000 {
        0
    } else if n < 1_000_000 {
        5
    } else if n < 1_000_000_000 {
        5_000
    } else {
        5_000_000
    }
}

/// Formatting a duration and parsing it back returns the duration, up to the
/// codec's precision: exactly below a microsecond, and within half of the
/// Whole-nanosecond renderings parse back to themselves.
proof fn lemma_rt_ns(n: u64)
    requires
        1 <= n < 1_000,
    ensures
        parse_duration_spec(format_duration_spec(n as nat))
            == Result::<u64, DurationError>::Ok(n),
{
    reveal_with_fuel(pow10, 11);
    reveal_with_fuel(digits_val, 4);
    let w = dec_str(n as nat);
    let t = w + seq!['n', 's'];
    lemma_dec_str_digits(n as nat);
    lemma_dec_str_val(n as nat);
    assert(t[0] == w[0] && is_digit(t[0]));
    assert(t.last() == 's');
    assert(trim_spec(t) == t);
    assert(t[t.len() - 2] == 'n');
    assert(unit_suffix(t) == Some((0nat, 2nat)));
    let d = t.take((t.len() - 2) as int);
    assert(d =~= w);
    assert forall|j: int| 0 <= j < d.len() implies is_digit(#[trigger] d[j]) by {
        assert(is_digit(w[j]));
    }
    lemma_find_dot_at(d, d.len() as int);
    assert(valid_number(d));
    assert(d.take(d.len() as int) =~= d);
    assert(digits_val(d.take(find_dot(d))) == n);
    assert(pow10(0) == 1);
    vstd::arithmetic::mul::lemma_mul_basics(digits_val(d.take(find_dot(d))) as int);
    assert(digits_val(d.take(find_dot(d))) * pow10(0) == n);
    assert(number_nanos(d, 0) == n);
}

/// The two-decimal branches parse back to the rounded value.
proof fn lemma_rt_scaled(n: u64)
    requires
        n >= 1_000,
    ensures
        ({
            let u: int = if n < 1_000_000 { 10 } else if n < 1_000_000_000 { 10_000 } else {
                10_000_000
            };
            let m = ((n + u / 2) / u) * u;
            parse_duration_spec(format_duration_spec(n as nat))
                == Result::<u64, DurationError>::Ok(
                    (if m > u64::MAX { u64::MAX as int } else { m }) as u64
                )
        }),
{
    reveal_with_fuel(pow10, 11);
    if n < 1_000_000 {
        let v = ((n + 5) / 10) as nat;
        vstd::arithmetic::div_mod::lemma_fundamental_div_mod(n as int + 5, 10);
        vstd::arithmetic::div_mod::lemma_mod_bound(n as int + 5, 10);
        lemma_parse_two_dec(v, 3, seq!['µ', 's']);
        assert(pow10(1) == 10);
        assert(v * 10 <= n + 5);
    } else if n < 1_000_000_000 {
        let v = ((n + 5_000) / 10_000) as nat;
        vstd::arithmetic::div_mod::lemma_fundamental_div_mod(n as int + 5_000, 10_000);
        vstd::arithmetic::div_mod::lemma_mod_bound(n as int + 5_000, 10_000);
        lemma_parse_two_dec(v, 6, seq!['m', 's']);
        assert(pow10(4) == 10_000);
        assert(v * 10_000 <= n + 5_000);
    } else {
        let v = ((n + 5_000_000) / 10_000_000) as nat;
        vstd::arithmetic::div_mod::lemma_fundamental_div_mod(n as int + 5_000_000, 10_000_000);
        vstd::arithmetic::div_mod::lemma_mod_bound(n as int + 5_000_000, 10_000_000);
        lemma_parse_two_dec(v, 9, seq!['s']);
        assert(pow10(7) == 10_000_000);
        assert(v * 10_000_000 <= n + 5_000_000);
    }
}

/// Formatting a duration and parsing it back returns the duration, up to the
/// codec's precision: exactly below a microsecond, and within half of the
/// last printed digit above.
pub proof fn lemma_duration_codec_round_trip(n: u64)
    ensures
        (parse_duration_spec(format_duration_spec(n as nat)) is Ok),
        ({
            let m = parse_duration_spec(format_duration_spec(n as nat))->Ok_0;
            m <= n + duration_precision(n as nat)
                && n <= m + duration_precision(n as nat)
        }),
{
    reveal_with_fuel(pow10, 11);
    reveal_with_fuel(digits_val, 4);
    if n == 0 {
        let t = seq!['0', 'n', 's'];
        assert(trim_spec(t) == t);
        assert(unit_suffix(t) == Some((0nat, 2nat)));
        let d = t.take(1);
        assert(d =~= seq!['0']);
        lemma_find_dot_at(d, 1);
        assert(valid_number(d));
        assert(d.take(1) =~= d);
        assert(d.drop_last() =~= Seq::<char>::empty());
        assert(digits_val(d) == 0);
        assert(digits_val(d.take(find_dot(d))) * pow10(0) == 0);
        assert(number_nanos(d, 0) == 0);
    } else if n < 1_000 {
        lemma_rt_ns(n);
    } else {
        lemma_rt_scaled(n);
    }
}

} // verus!
