//! Each leaf as a whole TLV that must fill the span it is read from, as the
//! content of a member `[n]` does.
use vstd::prelude::*;
use crate::tlv::{
    DerError, MAX_ENCODED_LEN, span, spec_tlv, spec_parse_whole, read_whole, write_tlv, copy_span,
    lemma_tlv_round_trip,
};
use crate::integer::{
    TAG_INTEGER, spec_int_content, spec_parse_int_content, read_int_content, write_int_content,
    lemma_int_round_trip,
};
use crate::leaf::{
    TAG_OCTET_STRING, TAG_GENERAL_STRING, TAG_GENERALIZED_TIME, TAG_BIT_STRING, KerberosTime,
    TicketFlags, is_printable, flags_wf, spec_parse_string_content, spec_time_content,
    spec_parse_time_content, spec_flags_content, spec_parse_flags_content, read_string_content,
    read_time_content, write_time_content, lemma_time_round_trip, lemma_flags_round_trip,
};

verus! {

/// Reads the whole of `s` as one TLV with tag `tag` and reads its content
/// with `f`.
pub open spec fn spec_parse_leaf<T>(s: Seq<u8>, tag: u8, f: spec_fn(Seq<u8>) -> Result<T, DerError>) -> Result<T, DerError> {
    match spec_parse_whole(s, tag) {
        Err(e) => Err(e),
        Ok(c) => f(c),
    }
}

// ---------------------------------------------------------------- INTEGER

pub open spec fn spec_int_elem(v: int) -> Seq<u8> {
    spec_tlv(TAG_INTEGER, spec_int_content(v))
}

pub open spec fn spec_parse_int_elem(s: Seq<u8>) -> Result<int, DerError> {
    spec_parse_leaf(s, TAG_INTEGER, |c: Seq<u8>| spec_parse_int_content(c))
}

pub proof fn lemma_int_elem_round_trip(v: int)
    requires
        i32::MIN <= v <= i32::MAX,
    ensures
        spec_parse_int_elem(spec_int_elem(v)) == Ok::<int, DerError>(v),
        spec_int_elem(v).len() <= 6,
{
    lemma_int_round_trip(v);
    lemma_tlv_round_trip(TAG_INTEGER, spec_int_content(v), Seq::empty());
}

pub fn read_int_elem(buf: &[u8], a: usize, b: usize) -> (r: Result<i32, DerError>)
    requires
        a <= b <= buf@.len(),
    ensures
        match spec_parse_int_elem(span(buf, a as int, b as int)) {
            Ok(v) => r == Ok::<i32, DerError>(v as i32) && i32::MIN <= v <= i32::MAX,
            Err(e) => r == Err::<i32, DerError>(e),
        },
{
    match read_whole(buf, a, b, TAG_INTEGER) {
        Err(e) => Err(e),
        Ok((ca, cb)) => read_int_content(buf, ca, cb),
    }
}

pub fn write_int_elem(v: i32) -> (r: Vec<u8>)
    ensures
        r@ == spec_int_elem(v as int),
        r@.len() <= 6,
{
    let c = write_int_content(v);
    match write_tlv(TAG_INTEGER, c.as_slice()) {
        Ok(b) => b,
        Err(_) => {
            assert(false);
            Vec::new()
        },
    }
}

// ---------------------------------------------------------------- OCTET STRING

pub open spec fn spec_octets_elem(v: Seq<u8>) -> Seq<u8> {
    spec_tlv(TAG_OCTET_STRING, v)
}

pub open spec fn spec_parse_octets_elem(s: Seq<u8>) -> Result<Seq<u8>, DerError> {
    spec_parse_whole(s, TAG_OCTET_STRING)
}

pub proof fn lemma_octets_elem_round_trip(v: Seq<u8>)
    requires
        spec_octets_elem(v).len() <= MAX_ENCODED_LEN,
    ensures
        spec_parse_octets_elem(spec_octets_elem(v)) == Ok::<Seq<u8>, DerError>(v),
{
    lemma_tlv_round_trip(TAG_OCTET_STRING, v, Seq::empty());
}

pub fn read_octets_elem(buf: &[u8], a: usize, b: usize) -> (r: Result<Vec<u8>, DerError>)
    requires
        a <= b <= buf@.len(),
    ensures
        match spec_parse_octets_elem(span(buf, a as int, b as int)) {
            Ok(v) => r matches Ok(x) && x@ == v,
            Err(e) => r matches Err(e2) && e2 == e,
        },
{
    match read_whole(buf, a, b, TAG_OCTET_STRING) {
        Err(e) => Err(e),
        Ok((ca, cb)) => Ok(copy_span(buf, ca, cb)),
    }
}

pub fn write_octets_elem(v: &Vec<u8>) -> (r: Result<Vec<u8>, DerError>)
    ensures
        match r {
            Ok(b) => b@ == spec_octets_elem(v@) && b@.len() <= MAX_ENCODED_LEN,
            Err(e) => e == DerError::ValueTooLong && spec_octets_elem(v@).len() > MAX_ENCODED_LEN,
        },
{
    write_tlv(TAG_OCTET_STRING, v.as_slice())
}

// ---------------------------------------------------------------- GeneralString

pub open spec fn spec_string_elem(v: Seq<u8>) -> Seq<u8> {
    spec_tlv(TAG_GENERAL_STRING, v)
}

pub open spec fn spec_parse_string_elem(s: Seq<u8>) -> Result<Seq<u8>, DerError> {
    spec_parse_leaf(s, TAG_GENERAL_STRING, |c: Seq<u8>| spec_parse_string_content(c))
}

pub proof fn lemma_string_elem_round_trip(v: Seq<u8>)
    requires
        is_printable(v),
        spec_string_elem(v).len() <= MAX_ENCODED_LEN,
    ensures
        spec_parse_string_elem(spec_string_elem(v)) == Ok::<Seq<u8>, DerError>(v),
{
    lemma_tlv_round_trip(TAG_GENERAL_STRING, v, Seq::empty());
}

pub fn read_string_elem(buf: &[u8], a: usize, b: usize) -> (r: Result<Vec<u8>, DerError>)
    requires
        a <= b <= buf@.len(),
    ensures
        match spec_parse_string_elem(span(buf, a as int, b as int)) {
            Ok(v) => r matches Ok(x) && x@ == v,
            Err(e) => r matches Err(e2) && e2 == e,
        },
{
    match read_whole(buf, a, b, TAG_GENERAL_STRING) {
        Err(e) => Err(e),
        Ok((ca, cb)) => read_string_content(buf, ca, cb),
    }
}

pub fn write_string_elem(v: &Vec<u8>) -> (r: Result<Vec<u8>, DerError>)
    ensures
        match r {
            Ok(b) => b@ == spec_string_elem(v@) && b@.len() <= MAX_ENCODED_LEN,
            Err(e) => e == DerError::ValueTooLong && spec_string_elem(v@).len() > MAX_ENCODED_LEN,
        },
{
    write_tlv(TAG_GENERAL_STRING, v.as_slice())
}

// ---------------------------------------------------------------- GeneralizedTime

pub open spec fn spec_time_elem(t: KerberosTime) -> Seq<u8> {
    spec_tlv(TAG_GENERALIZED_TIME, spec_time_content(t))
}

pub open spec fn spec_parse_time_elem(s: Seq<u8>) -> Result<KerberosTime, DerError> {
    spec_parse_leaf(s, TAG_GENERALIZED_TIME, |c: Seq<u8>| spec_parse_time_content(c))
}

pub proof fn lemma_time_elem_round_trip(t: KerberosTime)
    requires
        t.wf(),
    ensures
        spec_parse_time_elem(spec_time_elem(t)) == Ok::<KerberosTime, DerError>(t),
        spec_time_elem(t).len() == 17,
{
    lemma_time_round_trip(t);
    lemma_tlv_round_trip(TAG_GENERALIZED_TIME, spec_time_content(t), Seq::empty());
}

pub fn read_time_elem(buf: &[u8], a: usize, b: usize) -> (r: Result<KerberosTime, DerError>)
    requires
        a <= b <= buf@.len(),
    ensures
        match spec_parse_time_elem(span(buf, a as int, b as int)) {
            Ok(t) => r == Ok::<KerberosTime, DerError>(t),
            Err(e) => r == Err::<KerberosTime, DerError>(e),
        },
{
    match read_whole(buf, a, b, TAG_GENERALIZED_TIME) {
        Err(e) => Err(e),
        Ok((ca, cb)) => read_time_content(buf, ca, cb),
    }
}

pub fn write_time_elem(t: &KerberosTime) -> (r: Vec<u8>)
    ensures
        r@ == spec_time_elem(*t),
        r@.len() == 17,
        t.wf(),
{
    let c = write_time_content(t);
    match write_tlv(TAG_GENERALIZED_TIME, c.as_slice()) {
        Ok(b) => b,
        Err(_) => {
            assert(false);
            Vec::new()
        },
    }
}

// ---------------------------------------------------------------- BIT STRING

pub open spec fn spec_flags_elem(v: (u8, Seq<u8>)) -> Seq<u8> {
    spec_tlv(TAG_BIT_STRING, spec_flags_content(v))
}

pub open spec fn spec_parse_flags_elem(s: Seq<u8>) -> Result<(u8, Seq<u8>), DerError> {
    spec_parse_leaf(s, TAG_BIT_STRING, |c: Seq<u8>| spec_parse_flags_content(c))
}

pub proof fn lemma_flags_elem_round_trip(v: (u8, Seq<u8>))
    requires
        flags_wf(v),
        spec_flags_elem(v).len() <= MAX_ENCODED_LEN,
    ensures
        spec_parse_flags_elem(spec_flags_elem(v)) == Ok::<(u8, Seq<u8>), DerError>(v),
{
    lemma_flags_round_trip(v);
    lemma_tlv_round_trip(TAG_BIT_STRING, spec_flags_content(v), Seq::empty());
}

/// Decoding a flag set and encoding it again gives back exactly the bytes
/// read, unnamed and reserved bits included.
pub proof fn lemma_flags_reencode(s: Seq<u8>)
    ensures
        spec_parse_flags_elem(s) matches Ok(v) ==> spec_flags_elem(v) == s,
{
    crate::tlv::lemma_whole_canonical(s, TAG_BIT_STRING);
    if let Ok(c) = spec_parse_whole(s, TAG_BIT_STRING) {
        if let Ok(v) = spec_parse_flags_content(c) {
            assert(spec_flags_content(v) =~= c);
        }
    }
}

pub fn read_flags_elem(buf: &[u8], a: usize, b: usize) -> (r: Result<TicketFlags, DerError>)
    requires
        a <= b <= buf@.len(),
    ensures
        match spec_parse_flags_elem(span(buf, a as int, b as int)) {
            Ok(v) => r matches Ok(f) && f@ == v,
            Err(e) => r matches Err(e2) && e2 == e,
        },
{
    match read_whole(buf, a, b, TAG_BIT_STRING) {
        Err(e) => Err(e),
        Ok((ca, cb)) => TicketFlags::read_content(buf, ca, cb),
    }
}

pub fn write_flags_elem(f: &TicketFlags) -> (r: Result<Vec<u8>, DerError>)
    ensures
        match r {
            Ok(b) => b@ == spec_flags_elem(f@) && b@.len() <= MAX_ENCODED_LEN,
            Err(e) => e == DerError::ValueTooLong && spec_flags_elem(f@).len() > MAX_ENCODED_LEN,
        },
        f.wf(),
{
    let c = f.write_content();
    write_tlv(TAG_BIT_STRING, c.as_slice())
}

} // verus!
