//! The scalar leaves other than INTEGER: OCTET STRING, GeneralString,
//! GeneralizedTime and the BIT STRING of ticket flags.
use vstd::prelude::*;
use crate::tlv::{DerError, span, copy_span};

verus! {

/// Tag of a universal BIT STRING.
pub const TAG_BIT_STRING: u8 = 0x03;

/// Tag of a universal OCTET STRING.
pub const TAG_OCTET_STRING: u8 = 0x04;

/// Tag of a universal GeneralizedTime.
pub const TAG_GENERALIZED_TIME: u8 = 0x18;

/// Tag of a universal GeneralString.
pub const TAG_GENERAL_STRING: u8 = 0x1b;

// ---------------------------------------------------------------- strings

/// Whether every byte of `s` is printable ASCII (space through tilde).
pub open spec fn is_printable(s: Seq<u8>) -> bool {
    forall|i: int| 0 <= i < s.len() ==> 0x20 <= #[trigger] s[i] <= 0x7e
}

/// Reads GeneralString content: printable ASCII only.
pub open spec fn spec_parse_string_content(c: Seq<u8>) -> Result<Seq<u8>, DerError> {
    if is_printable(c) {
        Ok(c)
    } else {
        Err(DerError::MalformedScalar)
    }
}

/// Whether `s` holds printable ASCII only.
pub fn check_printable(s: &[u8]) -> (r: bool)
    ensures
        r == is_printable(s@),
{
    let mut i: usize = 0;
    while i < s.len()
        invariant
            i <= s@.len(),
            forall|j: int| 0 <= j < i ==> 0x20 <= #[trigger] s@[j] <= 0x7e,
        decreases s@.len() - i,
    {
        if s[i] < 0x20 || s[i] > 0x7e {
            return false;
        }
        i = i + 1;
    }
    true
}

/// Reads GeneralString content from `buf[a..b]` into a new vector.
pub fn read_string_content(buf: &[u8], a: usize, b: usize) -> (r: Result<Vec<u8>, DerError>)
    requires
        a <= b <= buf@.len(),
    ensures
        match spec_parse_string_content(span(buf, a as int, b as int)) {
            Ok(c) => r matches Ok(v) && v@ == c,
            Err(e) => r matches Err(e2) && e2 == e,
        },
{
    let v = copy_span(buf, a, b);
    if check_printable(v.as_slice()) {
        Ok(v)
    } else {
        Err(DerError::MalformedScalar)
    }
}

// ---------------------------------------------------------------- time

/// A UTC instant to the second, as its calendar fields.
#[derive(Debug, Clone, Copy, PartialEq, Eq, Structural)]
pub struct KerberosTime {
    year: u16,
    month: u8,
    day: u8,
    hour: u8,
    minute: u8,
    second: u8,
}

/// Whether `y` is a leap year of the Gregorian calendar.
pub open spec fn is_leap_year(y: int) -> bool {
    y % 4 == 0 && (y % 100 != 0 || y % 400 == 0)
}

/// The number of days in month `m` of year `y`.
pub open spec fn days_in_month(y: int, m: int) -> int {
    if m == 2 {
        if is_leap_year(y) {
            29
        } else {
            28
        }
    } else if m == 4 || m == 6 || m == 9 || m == 11 {
        30
    } else {
        31
    }
}

/// Whether the fields name an instant from 1970-01-01T00:00:00Z through
/// 9999-12-31T23:59:59Z.
pub open spec fn spec_valid_date_time(year: u16, month: u8, day: u8, hour: u8, minute: u8, second: u8) -> bool {
    1970 <= year <= 9999 && 1 <= month <= 12 && 1 <= day <= days_in_month(year as int, month as int)
        && hour <= 23 && minute <= 59 && second <= 59
}

/// Relies on `der::DateTime::new`, which accepts exactly the calendar dates
/// from 1970 through 9999 with hours, minutes and seconds in range, and
/// rejects all else.
#[verifier::external_body]
fn date_time_is_valid(year: u16, month: u8, day: u8, hour: u8, minute: u8, second: u8) -> (r: bool)
    ensures
        r == spec_valid_date_time(year, month, day, hour, minute, second),
{
    der::DateTime::new(year, month, day, hour, minute, second).is_ok()
}

impl KerberosTime {
    /// Every time holds a valid instant: `new` is the only way to build one.
    #[verifier::type_invariant]
    spec fn inv(&self) -> bool {
        spec_valid_date_time(self.year, self.month, self.day, self.hour, self.minute, self.second)
    }

    /// Whether the fields form a valid instant.
    pub open spec fn wf(&self) -> bool {
        let f = self.spec_fields();
        spec_valid_date_time(f.0, f.1, f.2, f.3, f.4, f.5)
    }

    pub closed spec fn spec_fields(&self) -> (u16, u8, u8, u8, u8, u8) {
        (self.year, self.month, self.day, self.hour, self.minute, self.second)
    }

    /// The instant with the given fields, or `None` when they name none.
    pub fn new(year: u16, month: u8, day: u8, hour: u8, minute: u8, second: u8) -> (r: Option<
        KerberosTime,
    >)
        ensures
            match r {
                Some(t) => t.wf() && t.spec_fields() == (year, month, day, hour, minute, second),
                None => !spec_valid_date_time(year, month, day, hour, minute, second),
            },
    {
        if date_time_is_valid(year, month, day, hour, minute, second) {
            Some(KerberosTime { year, month, day, hour, minute, second })
        } else {
            None
        }
    }

    pub fn year(&self) -> (r: u16)
        ensures
            r == self.spec_fields().0,
    {
        self.year
    }

    pub fn month(&self) -> (r: u8)
        ensures
            r == self.spec_fields().1,
    {
        self.month
    }

    pub fn day(&self) -> (r: u8)
        ensures
            r == self.spec_fields().2,
    {
        self.day
    }

    pub fn hour(&self) -> (r: u8)
        ensures
            r == self.spec_fields().3,
    {
        self.hour
    }

    pub fn minute(&self) -> (r: u8)
        ensures
            r == self.spec_fields().4,
    {
        self.minute
    }

    pub fn second(&self) -> (r: u8)
        ensures
            r == self.spec_fields().5,
    {
        self.second
    }
}

/// The time with the given fields.
pub closed spec fn spec_make_time(year: u16, month: u8, day: u8, hour: u8, minute: u8, second: u8) -> KerberosTime {
    KerberosTime { year, month, day, hour, minute, second }
}

/// The ASCII digit for `d` in `0..10`.
pub open spec fn digit(d: int) -> u8 {
    (48 + d) as u8
}

/// The value of an ASCII digit.
pub open spec fn digit_value(b: u8) -> int {
    b - 48
}

/// Whether `b` is an ASCII digit.
pub open spec fn is_digit(b: u8) -> bool {
    48 <= b <= 57
}

/// Two decimal digits of `x`.
pub open spec fn digits2(x: int) -> Seq<u8> {
    seq![digit(x / 10), digit(x % 10)]
}

/// The GeneralizedTime content of `t`: `YYYYMMDDHHMMSSZ`.
pub open spec fn spec_time_content(t: KerberosTime) -> Seq<u8> {
    let y = t.spec_fields().0 as int;
    seq![digit(y / 1000), digit(y / 100 % 10), digit(y / 10 % 10), digit(y % 10)] + digits2(
        t.spec_fields().1 as int,
    ) + digits2(t.spec_fields().2 as int) + digits2(t.spec_fields().3 as int) + digits2(
        t.spec_fields().4 as int,
    ) + digits2(t.spec_fields().5 as int) + seq![0x5au8]
}

/// The number written by the two digits of `c` at `i`.
pub open spec fn two_digit_value(c: Seq<u8>, i: int) -> int {
    digit_value(c[i]) * 10 + digit_value(c[i + 1])
}

/// Reads GeneralizedTime content: fourteen digits, then `Z`, naming a valid
/// instant.
pub open spec fn spec_parse_time_content(c: Seq<u8>) -> Result<KerberosTime, DerError> {
    if c.len() != 15 || c[14] != 0x5a || !(forall|i: int| 0 <= i < 14 ==> is_digit(#[trigger] c[i])) {
        Err(DerError::MalformedScalar)
    } else {
        let y = (two_digit_value(c, 0) * 100 + two_digit_value(c, 2)) as u16;
        let mo = two_digit_value(c, 4) as u8;
        let d = two_digit_value(c, 6) as u8;
        let h = two_digit_value(c, 8) as u8;
        let mi = two_digit_value(c, 10) as u8;
        let s = two_digit_value(c, 12) as u8;
        if spec_valid_date_time(y, mo, d, h, mi, s) {
            Ok(spec_make_time(y, mo, d, h, mi, s))
        } else {
            Err(DerError::MalformedScalar)
        }
    }
}

proof fn lemma_digits2(x: int)
    requires
        0 <= x < 100,
    ensures
        is_digit(digits2(x)[0]) && is_digit(digits2(x)[1]),
        two_digit_value(digits2(x), 0) == x,
{
    assert(x / 10 * 10 + x % 10 == x) by (nonlinear_arith)
        requires 0 <= x;
    assert(0 <= x / 10 < 10) by (nonlinear_arith)
        requires 0 <= x < 100;
}

/// A valid time's content reads back as that time.
#[verifier::rlimit(60)]
pub proof fn lemma_time_round_trip(t: KerberosTime)
    requires
        t.wf(),
    ensures
        spec_parse_time_content(spec_time_content(t)) == Ok::<KerberosTime, DerError>(t),
        spec_time_content(t).len() == 15,
{
    let c = spec_time_content(t);
    let y = t.year as int;
    assert(y / 100 < 100 && y % 100 < 100 && y / 100 * 100 + y % 100 == y && y / 100 / 10 == y
        / 1000 && y / 100 % 10 == y / 100 % 10 && y % 100 / 10 == y / 10 % 10 && y % 100 % 10 == y
        % 10) by (nonlinear_arith)
        requires 0 <= y < 10000;
    lemma_digits2(y / 100);
    lemma_digits2(y % 100);
    lemma_digits2(t.month as int);
    lemma_digits2(t.day as int);
    lemma_digits2(t.hour as int);
    lemma_digits2(t.minute as int);
    lemma_digits2(t.second as int);
    assert(c.subrange(0, 2) =~= digits2(y / 100));
    assert(c.subrange(2, 4) =~= digits2(y % 100));
    assert(forall|i: int| 0 <= i < 14 ==> is_digit(#[trigger] c[i]));
}

fn two_digits(c: &[u8], i: usize) -> (r: u16)
    requires
        i + 1 < c@.len(),
        is_digit(c@[i as int]) && is_digit(c@[i + 1]),
    ensures
        r == two_digit_value(c@, i as int),
{
    (c[i] - 48) as u16 * 10 + (c[i + 1] - 48) as u16
}

/// Reads GeneralizedTime content from `buf[a..b]`.
pub fn read_time_content(buf: &[u8], a: usize, b: usize) -> (r: Result<KerberosTime, DerError>)
    requires
        a <= b <= buf@.len(),
    ensures
        match spec_parse_time_content(span(buf, a as int, b as int)) {
            Ok(t) => r == Ok::<KerberosTime, DerError>(t),
            Err(e) => r == Err::<KerberosTime, DerError>(e),
        },
{
    let c = copy_span(buf, a, b);
    if c.len() != 15 || c[14] != 0x5a {
        return Err(DerError::MalformedScalar);
    }
    let mut i: usize = 0;
    while i < 14
        invariant
            c@.len() == 15,
            c@[14] == 0x5a,
            a <= b <= buf@.len(),
            c@ == span(buf, a as int, b as int),
            i <= 14,
            forall|j: int| 0 <= j < i ==> is_digit(#[trigger] c@[j]),
        decreases 14 - i,
    {
        if c[i] < 48 || c[i] > 57 {
            assert(!is_digit(c@[i as int]));
            return Err(DerError::MalformedScalar);
        }
        i = i + 1;
    }
    let year = two_digits(c.as_slice(), 0) * 100 + two_digits(c.as_slice(), 2);
    let month = two_digits(c.as_slice(), 4) as u8;
    let day = two_digits(c.as_slice(), 6) as u8;
    let hour = two_digits(c.as_slice(), 8) as u8;
    let minute = two_digits(c.as_slice(), 10) as u8;
    let second = two_digits(c.as_slice(), 12) as u8;
    match KerberosTime::new(year, month, day, hour, minute, second) {
        Some(t) => Ok(t),
        None => Err(DerError::MalformedScalar),
    }
}

/// Writes the GeneralizedTime content of `t`.
pub fn write_time_content(t: &KerberosTime) -> (r: Vec<u8>)
    ensures
        r@ == spec_time_content(*t),
        t.wf(),
{
    proof {
        use_type_invariant(t);
    }
    let y = t.year;
    let mut v: Vec<u8> = Vec::new();
    v.push(48 + (y / 1000) as u8);
    v.push(48 + (y / 100 % 10) as u8);
    v.push(48 + (y / 10 % 10) as u8);
    v.push(48 + (y % 10) as u8);
    v.push(48 + t.month / 10);
    v.push(48 + t.month % 10);
    v.push(48 + t.day / 10);
    v.push(48 + t.day % 10);
    v.push(48 + t.hour / 10);
    v.push(48 + t.hour % 10);
    v.push(48 + t.minute / 10);
    v.push(48 + t.minute % 10);
    v.push(48 + t.second / 10);
    v.push(48 + t.second % 10);
    v.push(0x5a);
    assert(v@ =~= spec_time_content(*t));
    v
}

// ---------------------------------------------------------------- flags

/// Bit positions of the named ticket flags (bit 0 is the most significant bit
/// of the first octet).
pub const FORWARDABLE: usize = 1;
pub const FORWARDED: usize = 2;
pub const PROXIABLE: usize = 3;
pub const PROXY: usize = 4;
pub const MAY_POSTDATE: usize = 5;
pub const POSTDATED: usize = 6;
pub const INVALID: usize = 7;
pub const RENEWABLE: usize = 8;
pub const INITIAL: usize = 9;
pub const PRE_AUTHENT: usize = 10;
pub const HW_AUTHENT: usize = 11;
pub const TRANSITED_POLICY_CHECKED: usize = 12;
pub const OK_AS_DELEGATE: usize = 13;
pub const ANONYMOUS: usize = 14;

/// The set of ticket flags as the BIT STRING carries it: the count of unused
/// trailing bits and the octets. Every bit is kept, named or not.
#[derive(Debug, PartialEq, Eq)]
pub struct TicketFlags {
    unused_bits: u8,
    octets: Vec<u8>,
}

impl View for TicketFlags {
    type V = (u8, Seq<u8>);

    closed spec fn view(&self) -> (u8, Seq<u8>) {
        (self.unused_bits, self.octets@)
    }
}

/// `2` to the power `n`, for `n` below 8.
pub open spec fn pow2_small(n: int) -> int {
    if n == 0 {
        1
    } else if n == 1 {
        2
    } else if n == 2 {
        4
    } else if n == 3 {
        8
    } else if n == 4 {
        16
    } else if n == 5 {
        32
    } else if n == 6 {
        64
    } else {
        128
    }
}

fn pow2_small_exec(n: u8) -> (r: u8)
    requires
        n <= 7,
    ensures
        r == pow2_small(n as int),
{
    if n == 0 {
        1
    } else if n == 1 {
        2
    } else if n == 2 {
        4
    } else if n == 3 {
        8
    } else if n == 4 {
        16
    } else if n == 5 {
        32
    } else if n == 6 {
        64
    } else {
        128
    }
}

/// Whether a BIT STRING value is in DER form: at most seven unused bits,
/// none when there are no octets, and the unused bits zero.
pub open spec fn flags_wf(v: (u8, Seq<u8>)) -> bool {
    v.0 <= 7 && (v.1.len() == 0 ==> v.0 == 0) && (v.1.len() > 0 ==> v.1.last() as int
        % pow2_small(v.0 as int) == 0)
}

/// Whether bit `i` is set.
pub open spec fn spec_bit_set(v: (u8, Seq<u8>), i: int) -> bool {
    0 <= i < 8 * v.1.len() && (v.1[i / 8] as int / pow2_small(7 - i % 8)) % 2 == 1
}

/// The BIT STRING content of `v`.
pub open spec fn spec_flags_content(v: (u8, Seq<u8>)) -> Seq<u8> {
    seq![v.0] + v.1
}

/// Reads BIT STRING content in DER form.
pub open spec fn spec_parse_flags_content(c: Seq<u8>) -> Result<(u8, Seq<u8>), DerError> {
    if c.len() == 0 {
        Err(DerError::MalformedScalar)
    } else {
        let v = (c[0], c.subrange(1, c.len() as int));
        if flags_wf(v) {
            Ok(v)
        } else {
            Err(DerError::MalformedScalar)
        }
    }
}

/// A DER-form flag set's content reads back as that flag set.
pub proof fn lemma_flags_round_trip(v: (u8, Seq<u8>))
    requires
        flags_wf(v),
    ensures
        spec_parse_flags_content(spec_flags_content(v)) == Ok::<(u8, Seq<u8>), DerError>(v),
{
    let c = spec_flags_content(v);
    assert(c.subrange(1, c.len() as int) =~= v.1);
}

fn flags_valid(unused_bits: u8, octets: &[u8]) -> (r: bool)
    ensures
        r == flags_wf((unused_bits, octets@)),
{
    if unused_bits > 7 {
        return false;
    }
    if octets.len() == 0 {
        return unused_bits == 0;
    }
    octets[octets.len() - 1] % pow2_small_exec(unused_bits) == 0
}

impl TicketFlags {
    /// Every flag set is in DER form: `new` and `from_u32` are the only ways to
    /// build one.
    #[verifier::type_invariant]
    spec fn inv(&self) -> bool {
        flags_wf((self.unused_bits, self.octets@))
    }

    pub open spec fn wf(&self) -> bool {
        flags_wf(self@)
    }

    /// The flag set with these unused bits and octets, or `None` when they are
    /// not in DER form.
    pub fn new(unused_bits: u8, octets: Vec<u8>) -> (r: Option<TicketFlags>)
        ensures
            match r {
                Some(f) => f@ == (unused_bits, octets@) && f.wf(),
                None => !flags_wf((unused_bits, octets@)),
            },
    {
        if flags_valid(unused_bits, octets.as_slice()) {
            Some(TicketFlags { unused_bits, octets })
        } else {
            None
        }
    }

    /// The 32 flag bits of `mask`, bit 0 being its most significant bit.
    pub fn from_u32(mask: u32) -> (r: TicketFlags)
        ensures
            r@ == (0u8, seq![(mask / 16777216) as u8, (mask / 65536 % 256) as u8, (mask / 256 % 256) as u8, (mask % 256) as u8]),
            r.wf(),
    {
        let mut octets: Vec<u8> = Vec::new();
        octets.push((mask / 16777216) as u8);
        octets.push((mask / 65536 % 256) as u8);
        octets.push((mask / 256 % 256) as u8);
        octets.push((mask % 256) as u8);
        TicketFlags { unused_bits: 0, octets }
    }

    pub fn unused_bits(&self) -> (r: u8)
        ensures
            r == self@.0,
    {
        self.unused_bits
    }

    pub fn octets(&self) -> (r: &Vec<u8>)
        ensures
            r@ == self@.1,
    {
        &self.octets
    }

    /// Whether bit `i` is set.
    pub fn is_set(&self, i: usize) -> (r: bool)
        ensures
            r == spec_bit_set(self@, i as int),
    {
        if i / 8 >= self.octets.len() {
            return false;
        }
        let m = pow2_small_exec((7 - i % 8) as u8);
        (self.octets[i / 8] / m) % 2 == 1
    }

    /// Writes the BIT STRING content.
    pub fn write_content(&self) -> (r: Vec<u8>)
        ensures
            r@ == spec_flags_content(self@),
            self.wf(),
    {
        proof {
            use_type_invariant(self);
        }
        let mut out: Vec<u8> = Vec::new();
        out.push(self.unused_bits);
        crate::tlv::push_all(&mut out, self.octets.as_slice());
        out
    }

    /// Reads BIT STRING content from `buf[a..b]`.
    pub fn read_content(buf: &[u8], a: usize, b: usize) -> (r: Result<TicketFlags, DerError>)
        requires
            a <= b <= buf@.len(),
        ensures
            match spec_parse_flags_content(span(buf, a as int, b as int)) {
                Ok(v) => r matches Ok(f) && f@ == v,
                Err(e) => r matches Err(e2) && e2 == e,
            },
    {
        if a == b {
            return Err(DerError::MalformedScalar);
        }
        let octets = copy_span(buf, a + 1, b);
        assert(octets@ =~= span(buf, a as int, b as int).subrange(1, (b - a) as int));
        match TicketFlags::new(buf[a], octets) {
            Some(f) => Ok(f),
            None => Err(DerError::MalformedScalar),
        }
    }
}

} // verus!
