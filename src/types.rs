//! The composite types that the two messages are built from.
use vstd::prelude::*;
use crate::tlv::{
    DerError, MAX_ENCODED_LEN, TAG_SEQUENCE, span, spec_tlv, spec_parse_tlv, spec_parse_whole,
    read_tlv, read_whole, write_tlv, push_all, lemma_tlv_round_trip, lemma_parse_tlv_span,
};
use crate::leaf::is_printable;
use crate::fields::{
    spec_parse_members, spec_members, spec_required, spec_table_of_spans, spec_table_of_vecs,
    read_members, write_members, lemma_members_round_trip, lemma_member_shorter,
};
use crate::element::{
    spec_int_elem, spec_parse_int_elem, spec_octets_elem, spec_parse_octets_elem,
    lemma_int_elem_round_trip, lemma_octets_elem_round_trip, read_int_elem, read_octets_elem,
    write_int_elem, write_octets_elem, spec_string_elem, spec_parse_string_elem,
    lemma_string_elem_round_trip, read_string_elem, write_string_elem,
};

verus! {

/// Whether `v` is a 32-bit signed integer.
pub open spec fn is_i32(v: int) -> bool {
    i32::MIN <= v <= i32::MAX
}

// ---------------------------------------------------------------- { [0] INTEGER, [1] OCTET STRING }

/// The member table of a `{ [0] INTEGER, [1] OCTET STRING }` structure.
pub open spec fn spec_int_octets_table(v: (int, Seq<u8>)) -> Seq<Option<Seq<u8>>> {
    seq![Some(spec_int_elem(v.0)), Some(spec_octets_elem(v.1))]
}

/// The encoding of a `{ [0] INTEGER, [1] OCTET STRING }` structure.
pub open spec fn spec_int_octets(v: (int, Seq<u8>)) -> Seq<u8> {
    spec_members(TAG_SEQUENCE, spec_int_octets_table(v))
}

/// Reads a `{ [0] INTEGER, [1] OCTET STRING }` structure that fills `s`.
pub open spec fn spec_parse_int_octets(s: Seq<u8>) -> Result<(int, Seq<u8>), DerError> {
    match spec_parse_members(s, TAG_SEQUENCE, 2) {
        Err(e) => Err(e),
        Ok(t) => match spec_required(t, 0) {
            Err(e) => Err(e),
            Ok(f0) => match spec_parse_int_elem(f0) {
                Err(e) => Err(e),
                Ok(v0) => match spec_required(t, 1) {
                    Err(e) => Err(e),
                    Ok(f1) => match spec_parse_octets_elem(f1) {
                        Err(e) => Err(e),
                        Ok(v1) => Ok((v0, v1)),
                    },
                },
            },
        },
    }
}

#[verifier::rlimit(80)]
pub proof fn lemma_int_octets_round_trip(v: (int, Seq<u8>))
    requires
        is_i32(v.0),
        spec_int_octets(v).len() <= MAX_ENCODED_LEN,
    ensures
        spec_parse_int_octets(spec_int_octets(v)) == Ok::<(int, Seq<u8>), DerError>(v),
{
    let t = spec_int_octets_table(v);
    lemma_members_round_trip(TAG_SEQUENCE, t);
    lemma_member_shorter(TAG_SEQUENCE, t);
    assert(t[1] is Some);
    lemma_int_elem_round_trip(v.0);
    lemma_octets_elem_round_trip(v.1);
}

fn read_int_octets(buf: &[u8], a: usize, b: usize) -> (r: Result<(i32, Vec<u8>), DerError>)
    requires
        a <= b <= buf@.len(),
    ensures
        match spec_parse_int_octets(span(buf, a as int, b as int)) {
            Ok(v) => r matches Ok(x) && x.0 == v.0 && x.1@ == v.1,
            Err(e) => r matches Err(e2) && e2 == e,
        },
{
    let t = match read_members(buf, a, b, TAG_SEQUENCE, 2) {
        Ok(t) => t,
        Err(e) => return Err(e),
    };
    let ghost st = spec_table_of_spans(buf, t@);
    assert(st[0] == match t@[0] { Some((x, y)) => Some(span(buf, x as int, y as int)), None => None::<Seq<u8>> });
    assert(st[1] == match t@[1] { Some((x, y)) => Some(span(buf, x as int, y as int)), None => None::<Seq<u8>> });
    let v0 = match t[0] {
        None => return Err(DerError::MissingRequiredField),
        Some((x, y)) => match read_int_elem(buf, x, y) {
            Ok(v) => v,
            Err(e) => return Err(e),
        },
    };
    let v1 = match t[1] {
        None => return Err(DerError::MissingRequiredField),
        Some((x, y)) => match read_octets_elem(buf, x, y) {
            Ok(v) => v,
            Err(e) => return Err(e),
        },
    };
    Ok((v0, v1))
}

fn write_int_octets(v0: i32, v1: &Vec<u8>) -> (r: Result<Vec<u8>, DerError>)
    ensures
        match r {
            Ok(b) => b@ == spec_int_octets((v0 as int, v1@)) && b@.len() <= MAX_ENCODED_LEN,
            Err(e) => e == DerError::ValueTooLong && spec_int_octets((v0 as int, v1@)).len()
                > MAX_ENCODED_LEN,
        },
{
    let ghost st = spec_int_octets_table((v0 as int, v1@));
    proof {
        lemma_member_shorter(TAG_SEQUENCE, st);
        assert(st[1] is Some);
    }
    let f0 = write_int_elem(v0);
    let f1 = match write_octets_elem(v1) {
        Ok(f) => f,
        Err(e) => return Err(e),
    };
    let mut t: Vec<Option<Vec<u8>>> = Vec::new();
    t.push(Some(f0));
    t.push(Some(f1));
    assert(spec_table_of_vecs(t@) =~= st);
    write_members(TAG_SEQUENCE, &t)
}

/// A key: its encryption type and its value, never interpreted here.
#[derive(Debug, Clone, PartialEq, Eq)]
pub struct EncryptionKey {
    pub etype: i32,
    pub key_value: Vec<u8>,
}

impl View for EncryptionKey {
    type V = (int, Seq<u8>);

    open spec fn view(&self) -> (int, Seq<u8>) {
        (self.etype as int, self.key_value@)
    }
}

/// How a ticket crossed realms: the encoding type and its contents.
#[derive(Debug, Clone, PartialEq, Eq)]
pub struct TransitedEncoding {
    pub tr_type: i32,
    pub contents: Vec<u8>,
}

impl View for TransitedEncoding {
    type V = (int, Seq<u8>);

    open spec fn view(&self) -> (int, Seq<u8>) {
        (self.tr_type as int, self.contents@)
    }
}

/// A network address: its type and its octets.
#[derive(Debug, Clone, PartialEq, Eq)]
pub struct HostAddress {
    pub addr_type: i32,
    pub address: Vec<u8>,
}

impl View for HostAddress {
    type V = (int, Seq<u8>);

    open spec fn view(&self) -> (int, Seq<u8>) {
        (self.addr_type as int, self.address@)
    }
}

/// One restriction on the use of a ticket: its type and its data.
#[derive(Debug, Clone, PartialEq, Eq)]
pub struct AuthorizationData {
    pub ad_type: i32,
    pub ad_data: Vec<u8>,
}

impl View for AuthorizationData {
    type V = (int, Seq<u8>);

    open spec fn view(&self) -> (int, Seq<u8>) {
        (self.ad_type as int, self.ad_data@)
    }
}

impl EncryptionKey {
    /// Reads the key that fills `buf[a..b]`.
    pub fn decode(buf: &[u8], a: usize, b: usize) -> (r: Result<EncryptionKey, DerError>)
        requires
            a <= b <= buf@.len(),
        ensures
            match spec_parse_int_octets(span(buf, a as int, b as int)) {
                Ok(v) => r matches Ok(x) && x@ == v,
                Err(e) => r matches Err(e2) && e2 == e,
            },
    {
        match read_int_octets(buf, a, b) {
            Ok((etype, key_value)) => Ok(EncryptionKey { etype, key_value }),
            Err(e) => Err(e),
        }
    }

    /// Writes the key.
    pub fn encode(&self) -> (r: Result<Vec<u8>, DerError>)
        ensures
            match r {
                Ok(b) => b@ == spec_int_octets(self@) && b@.len() <= MAX_ENCODED_LEN,
                Err(e) => e == DerError::ValueTooLong && spec_int_octets(self@).len() > MAX_ENCODED_LEN,
            },
    {
        write_int_octets(self.etype, &self.key_value)
    }
}

impl TransitedEncoding {
    /// Reads the transited encoding that fills `buf[a..b]`.
    pub fn decode(buf: &[u8], a: usize, b: usize) -> (r: Result<TransitedEncoding, DerError>)
        requires
            a <= b <= buf@.len(),
        ensures
            match spec_parse_int_octets(span(buf, a as int, b as int)) {
                Ok(v) => r matches Ok(x) && x@ == v,
                Err(e) => r matches Err(e2) && e2 == e,
            },
    {
        match read_int_octets(buf, a, b) {
            Ok((tr_type, contents)) => Ok(TransitedEncoding { tr_type, contents }),
            Err(e) => Err(e),
        }
    }

    /// Writes the transited encoding.
    pub fn encode(&self) -> (r: Result<Vec<u8>, DerError>)
        ensures
            match r {
                Ok(b) => b@ == spec_int_octets(self@) && b@.len() <= MAX_ENCODED_LEN,
                Err(e) => e == DerError::ValueTooLong && spec_int_octets(self@).len() > MAX_ENCODED_LEN,
            },
    {
        write_int_octets(self.tr_type, &self.contents)
    }
}

impl HostAddress {
    /// Reads the address that fills `buf[a..b]`.
    pub fn decode(buf: &[u8], a: usize, b: usize) -> (r: Result<HostAddress, DerError>)
        requires
            a <= b <= buf@.len(),
        ensures
            match spec_parse_int_octets(span(buf, a as int, b as int)) {
                Ok(v) => r matches Ok(x) && x@ == v,
                Err(e) => r matches Err(e2) && e2 == e,
            },
    {
        match read_int_octets(buf, a, b) {
            Ok((addr_type, address)) => Ok(HostAddress { addr_type, address }),
            Err(e) => Err(e),
        }
    }

    /// Writes the address.
    pub fn encode(&self) -> (r: Result<Vec<u8>, DerError>)
        ensures
            match r {
                Ok(b) => b@ == spec_int_octets(self@) && b@.len() <= MAX_ENCODED_LEN,
                Err(e) => e == DerError::ValueTooLong && spec_int_octets(self@).len() > MAX_ENCODED_LEN,
            },
    {
        write_int_octets(self.addr_type, &self.address)
    }
}

impl AuthorizationData {
    /// Reads the restriction that fills `buf[a..b]`.
    pub fn decode(buf: &[u8], a: usize, b: usize) -> (r: Result<AuthorizationData, DerError>)
        requires
            a <= b <= buf@.len(),
        ensures
            match spec_parse_int_octets(span(buf, a as int, b as int)) {
                Ok(v) => r matches Ok(x) && x@ == v,
                Err(e) => r matches Err(e2) && e2 == e,
            },
    {
        match read_int_octets(buf, a, b) {
            Ok((ad_type, ad_data)) => Ok(AuthorizationData { ad_type, ad_data }),
            Err(e) => Err(e),
        }
    }

    /// Writes the restriction.
    pub fn encode(&self) -> (r: Result<Vec<u8>, DerError>)
        ensures
            match r {
                Ok(b) => b@ == spec_int_octets(self@) && b@.len() <= MAX_ENCODED_LEN,
                Err(e) => e == DerError::ValueTooLong && spec_int_octets(self@).len() > MAX_ENCODED_LEN,
            },
    {
        write_int_octets(self.ad_type, &self.ad_data)
    }
}

// ---------------------------------------------------------------- EncryptedData

/// Ciphertext with its encryption type and, where known, the key version.
#[derive(Debug, Clone, PartialEq, Eq)]
pub struct EncryptedData {
    pub etype: i32,
    pub kvno: Option<i32>,
    pub cipher: Vec<u8>,
}

/// The view of an optional 32-bit integer.
pub open spec fn opt_int(o: Option<i32>) -> Option<int> {
    match o {
        Some(k) => Some(k as int),
        None => None,
    }
}

impl View for EncryptedData {
    type V = (int, Option<int>, Seq<u8>);

    open spec fn view(&self) -> (int, Option<int>, Seq<u8>) {
        (self.etype as int, opt_int(self.kvno), self.cipher@)
    }
}

/// The encoding of an optional INTEGER member.
pub open spec fn spec_opt_int_member(o: Option<int>) -> Option<Seq<u8>> {
    match o {
        Some(k) => Some(spec_int_elem(k)),
        None => None,
    }
}

/// The member table of an EncryptedData.
pub open spec fn spec_encrypted_data_table(v: (int, Option<int>, Seq<u8>)) -> Seq<Option<Seq<u8>>> {
    seq![Some(spec_int_elem(v.0)), spec_opt_int_member(v.1), Some(spec_octets_elem(v.2))]
}

/// The encoding of an EncryptedData.
pub open spec fn spec_encrypted_data(v: (int, Option<int>, Seq<u8>)) -> Seq<u8> {
    spec_members(TAG_SEQUENCE, spec_encrypted_data_table(v))
}

/// Reads an optional INTEGER member.
pub open spec fn spec_parse_opt_int(o: Option<Seq<u8>>) -> Result<Option<int>, DerError> {
    match o {
        None => Ok(None),
        Some(f) => match spec_parse_int_elem(f) {
            Err(e) => Err(e),
            Ok(k) => Ok(Some(k)),
        },
    }
}

/// Reads an EncryptedData that fills `s`.
pub open spec fn spec_parse_encrypted_data(s: Seq<u8>) -> Result<(int, Option<int>, Seq<u8>), DerError> {
    match spec_parse_members(s, TAG_SEQUENCE, 3) {
        Err(e) => Err(e),
        Ok(t) => match spec_required(t, 0) {
            Err(e) => Err(e),
            Ok(f0) => match spec_parse_int_elem(f0) {
                Err(e) => Err(e),
                Ok(v0) => match spec_parse_opt_int(t[1]) {
                    Err(e) => Err(e),
                    Ok(v1) => match spec_required(t, 2) {
                        Err(e) => Err(e),
                        Ok(f2) => match spec_parse_octets_elem(f2) {
                            Err(e) => Err(e),
                            Ok(v2) => Ok((v0, v1, v2)),
                        },
                    },
                },
            },
        },
    }
}

/// Whether every integer of an EncryptedData view is a 32-bit one.
pub open spec fn encrypted_data_wf(v: (int, Option<int>, Seq<u8>)) -> bool {
    is_i32(v.0) && (v.1 matches Some(k) ==> is_i32(k))
}

#[verifier::rlimit(80)]
pub proof fn lemma_encrypted_data_round_trip(v: (int, Option<int>, Seq<u8>))
    requires
        encrypted_data_wf(v),
        spec_encrypted_data(v).len() <= MAX_ENCODED_LEN,
    ensures
        spec_parse_encrypted_data(spec_encrypted_data(v)) == Ok::<(int, Option<int>, Seq<u8>), DerError>(v),
{
    let t = spec_encrypted_data_table(v);
    lemma_members_round_trip(TAG_SEQUENCE, t);
    lemma_member_shorter(TAG_SEQUENCE, t);
    assert(t[2] is Some);
    lemma_int_elem_round_trip(v.0);
    if let Some(k) = v.1 {
        lemma_int_elem_round_trip(k);
    }
    lemma_octets_elem_round_trip(v.2);
}

fn read_opt_int(buf: &[u8], o: Option<(usize, usize)>) -> (r: Result<Option<i32>, DerError>)
    requires
        o matches Some((a, b)) ==> a <= b <= buf@.len(),
    ensures
        match spec_parse_opt_int(
            match o {
                Some((a, b)) => Some(span(buf, a as int, b as int)),
                None => None,
            },
        ) {
            Ok(v) => r matches Ok(x) && opt_int(x) == v,
            Err(e) => r matches Err(e2) && e2 == e,
        },
{
    match o {
        None => Ok(None),
        Some((a, b)) => match read_int_elem(buf, a, b) {
            Ok(k) => Ok(Some(k)),
            Err(e) => Err(e),
        },
    }
}

impl EncryptedData {
    /// Reads the EncryptedData that fills `buf[a..b]`.
    pub fn decode(buf: &[u8], a: usize, b: usize) -> (r: Result<EncryptedData, DerError>)
        requires
            a <= b <= buf@.len(),
        ensures
            match spec_parse_encrypted_data(span(buf, a as int, b as int)) {
                Ok(v) => r matches Ok(x) && x@ == v,
                Err(e) => r matches Err(e2) && e2 == e,
            },
    {
        let t = match read_members(buf, a, b, TAG_SEQUENCE, 3) {
            Ok(t) => t,
            Err(e) => return Err(e),
        };
        let ghost st = spec_table_of_spans(buf, t@);
        assert(st[0] == match t@[0] { Some((x, y)) => Some(span(buf, x as int, y as int)), None => None::<Seq<u8>> });
        assert(st[1] == match t@[1] { Some((x, y)) => Some(span(buf, x as int, y as int)), None => None::<Seq<u8>> });
        assert(st[2] == match t@[2] { Some((x, y)) => Some(span(buf, x as int, y as int)), None => None::<Seq<u8>> });
        let etype = match t[0] {
            None => return Err(DerError::MissingRequiredField),
            Some((x, y)) => match read_int_elem(buf, x, y) {
                Ok(v) => v,
                Err(e) => return Err(e),
            },
        };
        let kvno = match read_opt_int(buf, t[1]) {
            Ok(v) => v,
            Err(e) => return Err(e),
        };
        let cipher = match t[2] {
            None => return Err(DerError::MissingRequiredField),
            Some((x, y)) => match read_octets_elem(buf, x, y) {
                Ok(v) => v,
                Err(e) => return Err(e),
            },
        };
        Ok(EncryptedData { etype, kvno, cipher })
    }

    /// Writes the EncryptedData.
    pub fn encode(&self) -> (r: Result<Vec<u8>, DerError>)
        ensures
            match r {
                Ok(b) => b@ == spec_encrypted_data(self@) && b@.len() <= MAX_ENCODED_LEN,
                Err(e) => e == DerError::ValueTooLong && spec_encrypted_data(self@).len() > MAX_ENCODED_LEN,
            },
    {
        let ghost st = spec_encrypted_data_table(self@);
        proof {
            lemma_member_shorter(TAG_SEQUENCE, st);
            assert(st[2] is Some);
        }
        let f0 = write_int_elem(self.etype);
        let f1 = match self.kvno {
            Some(k) => Some(write_int_elem(k)),
            None => None,
        };
        let f2 = match write_octets_elem(&self.cipher) {
            Ok(f) => f,
            Err(e) => return Err(e),
        };
        let mut t: Vec<Option<Vec<u8>>> = Vec::new();
        t.push(Some(f0));
        t.push(f1);
        t.push(Some(f2));
        assert(spec_table_of_vecs(t@) =~= st);
        write_members(TAG_SEQUENCE, &t)
    }
}

// ---------------------------------------------------------------- KerberosString

/// A GeneralString of printable ASCII: a realm or a name component.
#[derive(Debug, PartialEq, Eq)]
pub struct KerberosString {
    bytes: Vec<u8>,
}

/// A realm name.
pub type Realm = KerberosString;

impl View for KerberosString {
    type V = Seq<u8>;

    closed spec fn view(&self) -> Seq<u8> {
        self.bytes@
    }
}

impl KerberosString {
    /// Every string is printable ASCII: `new` and `decode` are the only ways
    /// to build one.
    #[verifier::type_invariant]
    spec fn inv(&self) -> bool {
        is_printable(self.bytes@)
    }

    pub open spec fn wf(&self) -> bool {
        is_printable(self@)
    }

    /// The string of these bytes, or `None` when one is not printable ASCII.
    pub fn new(bytes: Vec<u8>) -> (r: Option<KerberosString>)
        ensures
            match r {
                Some(k) => k@ == bytes@ && k.wf(),
                None => !is_printable(bytes@),
            },
    {
        if crate::leaf::check_printable(bytes.as_slice()) {
            Some(KerberosString { bytes })
        } else {
            None
        }
    }

    pub fn as_bytes(&self) -> (r: &Vec<u8>)
        ensures
            r@ == self@,
    {
        &self.bytes
    }

    /// Reads the GeneralString that fills `buf[a..b]`.
    pub fn decode(buf: &[u8], a: usize, b: usize) -> (r: Result<KerberosString, DerError>)
        requires
            a <= b <= buf@.len(),
        ensures
            match spec_parse_string_elem(span(buf, a as int, b as int)) {
                Ok(v) => r matches Ok(x) && x@ == v,
                Err(e) => r matches Err(e2) && e2 == e,
            },
    {
        match read_string_elem(buf, a, b) {
            Ok(bytes) => Ok(KerberosString { bytes }),
            Err(e) => Err(e),
        }
    }

    /// Writes the GeneralString.
    pub fn encode(&self) -> (r: Result<Vec<u8>, DerError>)
        ensures
            match r {
                Ok(b) => b@ == spec_string_elem(self@) && b@.len() <= MAX_ENCODED_LEN,
                Err(e) => e == DerError::ValueTooLong && spec_string_elem(self@).len() > MAX_ENCODED_LEN,
            },
            self.wf(),
    {
        proof {
            use_type_invariant(self);
        }
        write_string_elem(&self.bytes)
    }
}

// ---------------------------------------------------------------- SEQUENCE OF GeneralString

/// The content of a SEQUENCE OF GeneralString holding `v`.
pub open spec fn spec_strings_body(v: Seq<Seq<u8>>) -> Seq<u8>
    decreases v.len(),
{
    if v.len() == 0 {
        Seq::empty()
    } else {
        spec_string_elem(v[0]) + spec_strings_body(v.drop_first())
    }
}

/// Reads the content of a SEQUENCE OF GeneralString, element by element.
pub open spec fn spec_parse_strings_body(s: Seq<u8>) -> Result<Seq<Seq<u8>>, DerError>
    decreases s.len(),
{
    if s.len() == 0 {
        Ok(Seq::empty())
    } else {
        match spec_parse_tlv(s) {
            Err(e) => Err(e),
            Ok((_t, _num, _c, n)) => if n == 0 || n > s.len() {
                Err(DerError::TruncatedInput)
            } else {
                match spec_parse_string_elem(s.subrange(0, n as int)) {
                    Err(e) => Err(e),
                    Ok(x) => match spec_parse_strings_body(s.subrange(n as int, s.len() as int)) {
                        Err(e) => Err(e),
                        Ok(rest) => Ok(seq![x] + rest),
                    },
                }
            },
        }
    }
}

/// Every element is printable ASCII.
pub open spec fn all_printable(v: Seq<Seq<u8>>) -> bool {
    forall|i: int| 0 <= i < v.len() ==> is_printable(#[trigger] v[i])
}

#[verifier::rlimit(80)]
pub proof fn lemma_strings_round_trip(v: Seq<Seq<u8>>)
    requires
        all_printable(v),
        spec_strings_body(v).len() <= MAX_ENCODED_LEN,
    ensures
        spec_parse_strings_body(spec_strings_body(v)) == Ok::<Seq<Seq<u8>>, DerError>(v),
    decreases v.len(),
{
    if v.len() > 0 {
        let e = spec_string_elem(v[0]);
        let rest = spec_strings_body(v.drop_first());
        let s = spec_strings_body(v);
        assert(s == e + rest);
        lemma_tlv_round_trip(crate::leaf::TAG_GENERAL_STRING, v[0], rest);
        assert(is_printable(v[0]));
        lemma_string_elem_round_trip(v[0]);
        assert(s.subrange(0, e.len() as int) =~= e);
        assert(s.subrange(e.len() as int, s.len() as int) =~= rest);
        assert(all_printable(v.drop_first())) by {
            assert forall|i: int| 0 <= i < v.drop_first().len() implies is_printable(#[trigger] v.drop_first()[i]) by {
                assert(v.drop_first()[i] == v[i + 1]);
            }
        }
        lemma_strings_round_trip(v.drop_first());
        assert(seq![v[0]] + v.drop_first() =~= v);
    } else {
        assert(v =~= Seq::<Seq<u8>>::empty());
    }
}

/// The views of a list of strings.
pub open spec fn strings_view(v: Seq<KerberosString>) -> Seq<Seq<u8>> {
    Seq::new(v.len(), |i: int| v[i]@)
}

/// Reads the content `buf[a..b]` of a SEQUENCE OF GeneralString.
fn read_strings_body(buf: &[u8], a: usize, b: usize) -> (r: Result<Vec<KerberosString>, DerError>)
    requires
        a <= b <= buf@.len(),
    ensures
        match spec_parse_strings_body(span(buf, a as int, b as int)) {
            Ok(v) => r matches Ok(x) && strings_view(x@) == v,
            Err(e) => r matches Err(e2) && e2 == e,
        },
{
    let mut out: Vec<KerberosString> = Vec::new();
    let mut p: usize = a;
    while p < b
        invariant
            a <= p <= b <= buf@.len(),
            spec_parse_strings_body(span(buf, a as int, b as int)) == match spec_parse_strings_body(
                span(buf, p as int, b as int),
            ) {
                Ok(rest) => Ok(strings_view(out@) + rest),
                Err(e) => Err::<Seq<Seq<u8>>, DerError>(e),
            },
        decreases b - p,
    {
        let ghost s = span(buf, p as int, b as int);
        proof {
            lemma_parse_tlv_span(s);
        }
        let (_t, _num, _ca, q) = match read_tlv(buf, p, b) {
            Ok(x) => x,
            Err(e) => return Err(e),
        };
        assert(span(buf, p as int, q as int) =~= s.subrange(0, (q - p) as int));
        assert(span(buf, q as int, b as int) =~= s.subrange((q - p) as int, s.len() as int));
        let x = match KerberosString::decode(buf, p, q) {
            Ok(x) => x,
            Err(e) => return Err(e),
        };
        let ghost before = strings_view(out@);
        out.push(x);
        assert(strings_view(out@) =~= before.push(x@));
        proof {
            match spec_parse_strings_body(span(buf, q as int, b as int)) {
                Ok(rest) => {
                    assert(before + (seq![x@] + rest) =~= before.push(x@) + rest);
                },
                Err(e) => {},
            }
        }
        p = q;
    }
    assert(span(buf, p as int, b as int).len() == 0);
    assert(strings_view(out@) + Seq::<Seq<u8>>::empty() =~= strings_view(out@));
    Ok(out)
}

/// Writes the content of a SEQUENCE OF GeneralString holding `v`.
fn write_strings_body(v: &Vec<KerberosString>) -> (r: Result<Vec<u8>, DerError>)
    ensures
        match r {
            Ok(b) => b@ == spec_strings_body(strings_view(v@)) && b@.len() <= MAX_ENCODED_LEN
                && all_printable(strings_view(v@)),
            Err(e) => e == DerError::ValueTooLong && spec_strings_body(strings_view(v@)).len()
                > MAX_ENCODED_LEN,
        },
{
    let ghost sv = strings_view(v@);
    let mut out: Vec<u8> = Vec::new();
    let mut i: usize = 0;
    assert(sv.subrange(0, sv.len() as int) =~= sv);
    assert(out@ + spec_strings_body(sv) =~= spec_strings_body(sv));
    while i < v.len()
        invariant
            i <= v@.len(),
            sv == strings_view(v@),
            spec_strings_body(sv) == out@ + spec_strings_body(sv.subrange(i as int, sv.len() as int)),
            out@.len() <= MAX_ENCODED_LEN,
            forall|j: int| 0 <= j < i ==> is_printable(#[trigger] sv[j]),
        decreases v@.len() - i,
    {
        let item = &v[i];
        proof {
            use_type_invariant(item);
        }
        let ghost tail = sv.subrange(i as int, sv.len() as int);
        assert(tail.drop_first() =~= sv.subrange(i + 1, sv.len() as int));
        assert(tail[0] == v@[i as int]@);
        let part = match v[i].encode() {
            Ok(p) => p,
            Err(e) => return Err(e),
        };
        if part.len() > MAX_ENCODED_LEN - out.len() {
            return Err(DerError::ValueTooLong);
        }
        let ghost before = out@;
        push_all(&mut out, part.as_slice());
        assert(before + (part@ + spec_strings_body(tail.drop_first())) =~= out@ + spec_strings_body(tail.drop_first()));
        i = i + 1;
    }
    assert(sv.subrange(i as int, sv.len() as int).len() == 0);
    assert(out@ + Seq::<u8>::empty() =~= out@);
    assert(all_printable(sv));
    Ok(out)
}

// ---------------------------------------------------------------- SEQUENCE OF { INTEGER, OCTET STRING }

/// A type held as `{ [0] INTEGER, [1] OCTET STRING }`.
pub trait IntOctetsValue: Sized {
    /// The integer and the octets.
    spec fn parts(&self) -> (int, Seq<u8>);

    fn from_parts(n: i32, octets: Vec<u8>) -> (r: Self)
        ensures
            r.parts() == (n as int, octets@),
    ;

    fn encode_parts(&self) -> (r: Result<Vec<u8>, DerError>)
        ensures
            match r {
                Ok(b) => b@ == spec_int_octets(self.parts()) && b@.len() <= MAX_ENCODED_LEN,
                Err(e) => e == DerError::ValueTooLong && spec_int_octets(self.parts()).len()
                    > MAX_ENCODED_LEN,
            },
            is_i32(self.parts().0),
    ;
}

impl IntOctetsValue for HostAddress {
    open spec fn parts(&self) -> (int, Seq<u8>) {
        self@
    }

    fn from_parts(n: i32, octets: Vec<u8>) -> (r: HostAddress) {
        HostAddress { addr_type: n, address: octets }
    }

    fn encode_parts(&self) -> (r: Result<Vec<u8>, DerError>) {
        self.encode()
    }
}

impl IntOctetsValue for AuthorizationData {
    open spec fn parts(&self) -> (int, Seq<u8>) {
        self@
    }

    fn from_parts(n: i32, octets: Vec<u8>) -> (r: AuthorizationData) {
        AuthorizationData { ad_type: n, ad_data: octets }
    }

    fn encode_parts(&self) -> (r: Result<Vec<u8>, DerError>) {
        self.encode()
    }
}

/// The content of a SEQUENCE OF `{ INTEGER, OCTET STRING }` holding `v`.
pub open spec fn spec_int_octets_list_body(v: Seq<(int, Seq<u8>)>) -> Seq<u8>
    decreases v.len(),
{
    if v.len() == 0 {
        Seq::empty()
    } else {
        spec_int_octets(v[0]) + spec_int_octets_list_body(v.drop_first())
    }
}

/// Reads the content of a SEQUENCE OF `{ INTEGER, OCTET STRING }`.
pub open spec fn spec_parse_int_octets_list_body(s: Seq<u8>) -> Result<Seq<(int, Seq<u8>)>, DerError>
    decreases s.len(),
{
    if s.len() == 0 {
        Ok(Seq::empty())
    } else {
        match spec_parse_tlv(s) {
            Err(e) => Err(e),
            Ok((_t, _num, _c, n)) => if n == 0 || n > s.len() {
                Err(DerError::TruncatedInput)
            } else {
                match spec_parse_int_octets(s.subrange(0, n as int)) {
                    Err(e) => Err(e),
                    Ok(x) => match spec_parse_int_octets_list_body(s.subrange(n as int, s.len() as int)) {
                        Err(e) => Err(e),
                        Ok(rest) => Ok(seq![x] + rest),
                    },
                }
            },
        }
    }
}

/// Every integer of the list is a 32-bit one.
pub open spec fn all_i32(v: Seq<(int, Seq<u8>)>) -> bool {
    forall|i: int| 0 <= i < v.len() ==> is_i32(#[trigger] v[i].0)
}

#[verifier::rlimit(80)]
pub proof fn lemma_int_octets_list_round_trip(v: Seq<(int, Seq<u8>)>)
    requires
        all_i32(v),
        spec_int_octets_list_body(v).len() <= MAX_ENCODED_LEN,
    ensures
        spec_parse_int_octets_list_body(spec_int_octets_list_body(v)) == Ok::<Seq<(int, Seq<u8>)>, DerError>(v),
    decreases v.len(),
{
    if v.len() > 0 {
        let e = spec_int_octets(v[0]);
        let rest = spec_int_octets_list_body(v.drop_first());
        let s = spec_int_octets_list_body(v);
        assert(s == e + rest);
        let t = spec_int_octets_table(v[0]);
        lemma_tlv_round_trip(TAG_SEQUENCE, crate::fields::spec_enc_fields(t), rest);
        assert(is_i32(v[0].0));
        lemma_int_octets_round_trip(v[0]);
        assert(s.subrange(0, e.len() as int) =~= e);
        assert(s.subrange(e.len() as int, s.len() as int) =~= rest);
        assert(all_i32(v.drop_first())) by {
            assert forall|i: int| 0 <= i < v.drop_first().len() implies is_i32(#[trigger] v.drop_first()[i].0) by {
                assert(v.drop_first()[i] == v[i + 1]);
            }
        }
        lemma_int_octets_list_round_trip(v.drop_first());
        assert(seq![v[0]] + v.drop_first() =~= v);
    } else {
        assert(v =~= Seq::<(int, Seq<u8>)>::empty());
    }
}

/// The parts of each element of a list.
pub open spec fn parts_view<T: IntOctetsValue>(v: Seq<T>) -> Seq<(int, Seq<u8>)> {
    Seq::new(v.len(), |i: int| v[i].parts())
}

/// Reads the content `buf[a..b]` of a SEQUENCE OF `{ INTEGER, OCTET STRING }`.
#[verifier::rlimit(40)]
pub fn read_int_octets_list_body<T: IntOctetsValue>(buf: &[u8], a: usize, b: usize) -> (r: Result<Vec<T>, DerError>)
    requires
        a <= b <= buf@.len(),
    ensures
        match spec_parse_int_octets_list_body(span(buf, a as int, b as int)) {
            Ok(v) => r matches Ok(x) && parts_view(x@) == v,
            Err(e) => r matches Err(e2) && e2 == e,
        },
{
    let mut out: Vec<T> = Vec::new();
    let mut p: usize = a;
    while p < b
        invariant
            a <= p <= b <= buf@.len(),
            spec_parse_int_octets_list_body(span(buf, a as int, b as int)) == match spec_parse_int_octets_list_body(
                span(buf, p as int, b as int),
            ) {
                Ok(rest) => Ok(parts_view(out@) + rest),
                Err(e) => Err::<Seq<(int, Seq<u8>)>, DerError>(e),
            },
        decreases b - p,
    {
        let ghost s = span(buf, p as int, b as int);
        proof {
            lemma_parse_tlv_span(s);
        }
        let (_t, _num, _ca, q) = match read_tlv(buf, p, b) {
            Ok(x) => x,
            Err(e) => return Err(e),
        };
        assert(span(buf, p as int, q as int) =~= s.subrange(0, (q - p) as int));
        assert(span(buf, q as int, b as int) =~= s.subrange((q - p) as int, s.len() as int));
        let (n, octets) = match read_int_octets(buf, p, q) {
            Ok(x) => x,
            Err(e) => return Err(e),
        };
        let x = T::from_parts(n, octets);
        let ghost before = parts_view(out@);
        out.push(x);
        assert(parts_view(out@) =~= before.push(x.parts()));
        proof {
            match spec_parse_int_octets_list_body(span(buf, q as int, b as int)) {
                Ok(rest) => {
                    assert(before + (seq![x.parts()] + rest) =~= before.push(x.parts()) + rest);
                },
                Err(e) => {},
            }
        }
        p = q;
    }
    assert(span(buf, p as int, b as int).len() == 0);
    assert(parts_view(out@) + Seq::<(int, Seq<u8>)>::empty() =~= parts_view(out@));
    Ok(out)
}

/// Writes the content of a SEQUENCE OF `{ INTEGER, OCTET STRING }` holding `v`.
pub fn write_int_octets_list_body<T: IntOctetsValue>(v: &Vec<T>) -> (r: Result<Vec<u8>, DerError>)
    ensures
        match r {
            Ok(b) => b@ == spec_int_octets_list_body(parts_view(v@)) && b@.len() <= MAX_ENCODED_LEN
                && all_i32(parts_view(v@)),
            Err(e) => e == DerError::ValueTooLong && spec_int_octets_list_body(parts_view(v@)).len()
                > MAX_ENCODED_LEN,
        },
{
    let ghost sv = parts_view(v@);
    let mut out: Vec<u8> = Vec::new();
    let mut i: usize = 0;
    assert(sv.subrange(0, sv.len() as int) =~= sv);
    assert(out@ + spec_int_octets_list_body(sv) =~= spec_int_octets_list_body(sv));
    while i < v.len()
        invariant
            i <= v@.len(),
            sv == parts_view(v@),
            spec_int_octets_list_body(sv) == out@ + spec_int_octets_list_body(sv.subrange(i as int, sv.len() as int)),
            out@.len() <= MAX_ENCODED_LEN,
            forall|j: int| 0 <= j < i ==> is_i32(#[trigger] sv[j].0),
        decreases v@.len() - i,
    {
        let ghost tail = sv.subrange(i as int, sv.len() as int);
        assert(tail.drop_first() =~= sv.subrange(i + 1, sv.len() as int));
        assert(tail[0] == v@[i as int].parts());
        let part = match v[i].encode_parts() {
            Ok(p) => p,
            Err(e) => return Err(e),
        };
        if part.len() > MAX_ENCODED_LEN - out.len() {
            return Err(DerError::ValueTooLong);
        }
        let ghost before = out@;
        push_all(&mut out, part.as_slice());
        assert(before + (part@ + spec_int_octets_list_body(tail.drop_first())) =~= out@ + spec_int_octets_list_body(tail.drop_first()));
        i = i + 1;
    }
    assert(sv.subrange(i as int, sv.len() as int).len() == 0);
    assert(out@ + Seq::<u8>::empty() =~= out@);
    assert(all_i32(sv));
    Ok(out)
}

// ---------------------------------------------------------------- PrincipalName

/// A principal: its name type and its name components.
#[derive(Debug, PartialEq, Eq)]
pub struct PrincipalName {
    pub name_type: i32,
    pub name_string: Vec<KerberosString>,
}

impl View for PrincipalName {
    type V = (int, Seq<Seq<u8>>);

    open spec fn view(&self) -> (int, Seq<Seq<u8>>) {
        (self.name_type as int, strings_view(self.name_string@))
    }
}

/// The member table of a PrincipalName.
pub open spec fn spec_principal_name_table(v: (int, Seq<Seq<u8>>)) -> Seq<Option<Seq<u8>>> {
    seq![Some(spec_int_elem(v.0)), Some(spec_tlv(TAG_SEQUENCE, spec_strings_body(v.1)))]
}

/// The encoding of a PrincipalName.
pub open spec fn spec_principal_name(v: (int, Seq<Seq<u8>>)) -> Seq<u8> {
    spec_members(TAG_SEQUENCE, spec_principal_name_table(v))
}

/// Reads a SEQUENCE OF GeneralString that fills `s`.
pub open spec fn spec_parse_strings(s: Seq<u8>) -> Result<Seq<Seq<u8>>, DerError> {
    match spec_parse_whole(s, TAG_SEQUENCE) {
        Err(e) => Err(e),
        Ok(c) => spec_parse_strings_body(c),
    }
}

/// Reads a PrincipalName that fills `s`.
pub open spec fn spec_parse_principal_name(s: Seq<u8>) -> Result<(int, Seq<Seq<u8>>), DerError> {
    match spec_parse_members(s, TAG_SEQUENCE, 2) {
        Err(e) => Err(e),
        Ok(t) => match spec_required(t, 0) {
            Err(e) => Err(e),
            Ok(f0) => match spec_parse_int_elem(f0) {
                Err(e) => Err(e),
                Ok(v0) => match spec_required(t, 1) {
                    Err(e) => Err(e),
                    Ok(f1) => match spec_parse_strings(f1) {
                        Err(e) => Err(e),
                        Ok(v1) => Ok((v0, v1)),
                    },
                },
            },
        },
    }
}

pub open spec fn principal_name_wf(v: (int, Seq<Seq<u8>>)) -> bool {
    is_i32(v.0) && all_printable(v.1)
}

#[verifier::rlimit(80)]
pub proof fn lemma_principal_name_round_trip(v: (int, Seq<Seq<u8>>))
    requires
        principal_name_wf(v),
        spec_principal_name(v).len() <= MAX_ENCODED_LEN,
    ensures
        spec_parse_principal_name(spec_principal_name(v)) == Ok::<(int, Seq<Seq<u8>>), DerError>(v),
{
    let t = spec_principal_name_table(v);
    lemma_members_round_trip(TAG_SEQUENCE, t);
    lemma_member_shorter(TAG_SEQUENCE, t);
    assert(t[1] is Some);
    lemma_int_elem_round_trip(v.0);
    lemma_tlv_round_trip(TAG_SEQUENCE, spec_strings_body(v.1), Seq::empty());
    lemma_strings_round_trip(v.1);
}

impl PrincipalName {
    pub open spec fn wf(&self) -> bool {
        principal_name_wf(self@)
    }

    /// Reads the PrincipalName that fills `buf[a..b]`.
    pub fn decode(buf: &[u8], a: usize, b: usize) -> (r: Result<PrincipalName, DerError>)
        requires
            a <= b <= buf@.len(),
        ensures
            match spec_parse_principal_name(span(buf, a as int, b as int)) {
                Ok(v) => r matches Ok(x) && x@ == v,
                Err(e) => r matches Err(e2) && e2 == e,
            },
    {
        let t = match read_members(buf, a, b, TAG_SEQUENCE, 2) {
            Ok(t) => t,
            Err(e) => return Err(e),
        };
        let ghost st = spec_table_of_spans(buf, t@);
        assert(st[0] == match t@[0] { Some((x, y)) => Some(span(buf, x as int, y as int)), None => None::<Seq<u8>> });
        assert(st[1] == match t@[1] { Some((x, y)) => Some(span(buf, x as int, y as int)), None => None::<Seq<u8>> });
        let name_type = match t[0] {
            None => return Err(DerError::MissingRequiredField),
            Some((x, y)) => match read_int_elem(buf, x, y) {
                Ok(v) => v,
                Err(e) => return Err(e),
            },
        };
        let name_string = match t[1] {
            None => return Err(DerError::MissingRequiredField),
            Some((x, y)) => match read_whole(buf, x, y, TAG_SEQUENCE) {
                Err(e) => return Err(e),
                Ok((ca, cb)) => match read_strings_body(buf, ca, cb) {
                    Ok(v) => v,
                    Err(e) => return Err(e),
                },
            },
        };
        Ok(PrincipalName { name_type, name_string })
    }

    /// Writes the PrincipalName.
    pub fn encode(&self) -> (r: Result<Vec<u8>, DerError>)
        ensures
            match r {
                Ok(b) => b@ == spec_principal_name(self@) && b@.len() <= MAX_ENCODED_LEN
                    && principal_name_wf(self@),
                Err(e) => e == DerError::ValueTooLong && spec_principal_name(self@).len() > MAX_ENCODED_LEN,
            },
    {
        let ghost st = spec_principal_name_table(self@);
        proof {
            lemma_member_shorter(TAG_SEQUENCE, st);
            assert(st[1] is Some);
        }
        let f0 = write_int_elem(self.name_type);
        let body = match write_strings_body(&self.name_string) {
            Ok(f) => f,
            Err(e) => return Err(e),
        };
        let f1 = match write_tlv(TAG_SEQUENCE, body.as_slice()) {
            Ok(f) => f,
            Err(e) => return Err(e),
        };
        let mut t: Vec<Option<Vec<u8>>> = Vec::new();
        t.push(Some(f0));
        t.push(Some(f1));
        assert(spec_table_of_vecs(t@) =~= st);
        write_members(TAG_SEQUENCE, &t)
    }
}

} // verus!
