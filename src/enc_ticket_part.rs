//! `EncTicketPart ::= [APPLICATION 3] SEQUENCE { flags [0] TicketFlags,
//! key [1] EncryptionKey, crealm [2] Realm, cname [3] PrincipalName,
//! transited [4] TransitedEncoding, authtime [5] KerberosTime,
//! starttime [6] KerberosTime OPTIONAL, endtime [7] KerberosTime,
//! renew-till [8] KerberosTime OPTIONAL, caddr [9] HostAddresses OPTIONAL,
//! authorization-data [10] AuthorizationData OPTIONAL }`.
use vstd::prelude::*;
use crate::tlv::{
    DerError, MAX_ENCODED_LEN, TAG_SEQUENCE, span, spec_tlv, spec_parse_elem, spec_parse_whole,
    read_elem, read_whole, write_tlv, lemma_tlv_round_trip,
};
use crate::fields::{
    spec_enc_fields_from, spec_enc_field, spec_parse_members, spec_members, spec_required, spec_table_of_spans, spec_table_of_vecs,
    read_members, write_members, lemma_members_round_trip, lemma_member_shorter,
};
use crate::element::{
    spec_string_elem, spec_parse_string_elem, spec_time_elem, spec_parse_time_elem,
    spec_flags_elem, spec_parse_flags_elem, lemma_string_elem_round_trip,
    lemma_time_elem_round_trip, lemma_flags_elem_round_trip, read_time_elem, write_time_elem,
    read_flags_elem, write_flags_elem,
};
use crate::leaf::{KerberosTime, TicketFlags, is_printable, flags_wf};
use crate::types::{
    Realm, KerberosString, PrincipalName, EncryptionKey, TransitedEncoding, HostAddress,
    AuthorizationData, IntOctetsValue, is_i32, all_i32, parts_view, spec_int_octets,
    spec_parse_int_octets, lemma_int_octets_round_trip, spec_principal_name,
    spec_parse_principal_name, principal_name_wf, lemma_principal_name_round_trip,
    spec_int_octets_list_body, spec_parse_int_octets_list_body, lemma_int_octets_list_round_trip,
    read_int_octets_list_body, write_int_octets_list_body,
};

verus! {

/// Tag of `[APPLICATION 3]`, constructed.
pub const TAG_ENC_TICKET_PART: u8 = 0x63;

/// The number of members of an EncTicketPart.
pub const ENC_TICKET_PART_MEMBERS: usize = 11;

/// The decrypted part of a ticket as plain values.
pub struct EncTicketPartView {
    pub flags: (u8, Seq<u8>),
    pub key: (int, Seq<u8>),
    pub crealm: Seq<u8>,
    pub cname: (int, Seq<Seq<u8>>),
    pub transited: (int, Seq<u8>),
    pub auth_time: KerberosTime,
    pub start_time: Option<KerberosTime>,
    pub end_time: KerberosTime,
    pub renew_till: Option<KerberosTime>,
    pub client_addresses: Option<Seq<(int, Seq<u8>)>>,
    pub authorization_data: Option<Seq<(int, Seq<u8>)>>,
}

/// The decrypted part of a ticket. The ordering of its times is a rule of
/// the protocol that this codec neither checks nor needs.
#[derive(Debug, PartialEq, Eq)]
pub struct EncTicketPart {
    pub flags: TicketFlags,
    pub key: EncryptionKey,
    pub crealm: Realm,
    pub cname: PrincipalName,
    pub transited: TransitedEncoding,
    pub auth_time: KerberosTime,
    pub start_time: Option<KerberosTime>,
    pub end_time: KerberosTime,
    pub renew_till: Option<KerberosTime>,
    pub client_addresses: Option<Vec<HostAddress>>,
    pub authorization_data: Option<Vec<AuthorizationData>>,
}

/// The view of an optional list.
pub open spec fn opt_list_view<T: IntOctetsValue>(o: Option<Vec<T>>) -> Option<Seq<(int, Seq<u8>)>> {
    match o {
        Some(v) => Some(parts_view(v@)),
        None => None,
    }
}

impl View for EncTicketPart {
    type V = EncTicketPartView;

    open spec fn view(&self) -> EncTicketPartView {
        EncTicketPartView {
            flags: self.flags@,
            key: self.key@,
            crealm: self.crealm@,
            cname: self.cname@,
            transited: self.transited@,
            auth_time: self.auth_time,
            start_time: self.start_time,
            end_time: self.end_time,
            renew_till: self.renew_till,
            client_addresses: opt_list_view(self.client_addresses),
            authorization_data: opt_list_view(self.authorization_data),
        }
    }
}

/// The encoding of a SEQUENCE OF `{ INTEGER, OCTET STRING }`.
pub open spec fn spec_int_octets_list(v: Seq<(int, Seq<u8>)>) -> Seq<u8> {
    spec_tlv(TAG_SEQUENCE, spec_int_octets_list_body(v))
}

/// Reads a SEQUENCE OF `{ INTEGER, OCTET STRING }` that fills `s`.
pub open spec fn spec_parse_int_octets_list(s: Seq<u8>) -> Result<Seq<(int, Seq<u8>)>, DerError> {
    match spec_parse_whole(s, TAG_SEQUENCE) {
        Err(e) => Err(e),
        Ok(c) => spec_parse_int_octets_list_body(c),
    }
}

/// The member for an optional time.
pub open spec fn spec_opt_time_member(o: Option<KerberosTime>) -> Option<Seq<u8>> {
    match o {
        Some(t) => Some(spec_time_elem(t)),
        None => None,
    }
}

/// The member for an optional list.
pub open spec fn spec_opt_list_member(o: Option<Seq<(int, Seq<u8>)>>) -> Option<Seq<u8>> {
    match o {
        Some(v) => Some(spec_int_octets_list(v)),
        None => None,
    }
}

/// Reads an optional time member.
pub open spec fn spec_parse_opt_time(o: Option<Seq<u8>>) -> Result<Option<KerberosTime>, DerError> {
    match o {
        None => Ok(None),
        Some(f) => match spec_parse_time_elem(f) {
            Err(e) => Err(e),
            Ok(t) => Ok(Some(t)),
        },
    }
}

/// Reads an optional list member.
pub open spec fn spec_parse_opt_list(o: Option<Seq<u8>>) -> Result<Option<Seq<(int, Seq<u8>)>>, DerError> {
    match o {
        None => Ok(None),
        Some(f) => match spec_parse_int_octets_list(f) {
            Err(e) => Err(e),
            Ok(v) => Ok(Some(v)),
        },
    }
}

/// The member table of an EncTicketPart: absent OPTIONAL members are `None`.
pub open spec fn spec_enc_ticket_part_table(v: EncTicketPartView) -> Seq<Option<Seq<u8>>> {
    seq![
        Some(spec_flags_elem(v.flags)),
        Some(spec_int_octets(v.key)),
        Some(spec_string_elem(v.crealm)),
        Some(spec_principal_name(v.cname)),
        Some(spec_int_octets(v.transited)),
        Some(spec_time_elem(v.auth_time)),
        spec_opt_time_member(v.start_time),
        Some(spec_time_elem(v.end_time)),
        spec_opt_time_member(v.renew_till),
        spec_opt_list_member(v.client_addresses),
        spec_opt_list_member(v.authorization_data),
    ]
}

/// The encoding of an EncTicketPart.
pub open spec fn spec_enc_ticket_part(v: EncTicketPartView) -> Seq<u8> {
    spec_tlv(TAG_ENC_TICKET_PART, spec_members(TAG_SEQUENCE, spec_enc_ticket_part_table(v)))
}

/// Reads members 5 to 10 of an EncTicketPart, given the values of the others.
pub open spec fn spec_enc_ticket_part_rest(
    t: Seq<Option<Seq<u8>>>,
    flags: (u8, Seq<u8>),
    key: (int, Seq<u8>),
    crealm: Seq<u8>,
    cname: (int, Seq<Seq<u8>>),
    transited: (int, Seq<u8>),
) -> Result<EncTicketPartView, DerError> {
    match spec_required(t, 5) {
        Err(e) => Err(e),
        Ok(f5) => match spec_parse_time_elem(f5) {
            Err(e) => Err(e),
            Ok(auth_time) => match spec_parse_opt_time(t[6]) {
                Err(e) => Err(e),
                Ok(start_time) => match spec_required(t, 7) {
                    Err(e) => Err(e),
                    Ok(f7) => match spec_parse_time_elem(f7) {
                        Err(e) => Err(e),
                        Ok(end_time) => match spec_parse_opt_time(t[8]) {
                            Err(e) => Err(e),
                            Ok(renew_till) => match spec_parse_opt_list(t[9]) {
                                Err(e) => Err(e),
                                Ok(client_addresses) => match spec_parse_opt_list(t[10]) {
                                    Err(e) => Err(e),
                                    Ok(authorization_data) => Ok(
                                        EncTicketPartView {
                                            flags,
                                            key,
                                            crealm,
                                            cname,
                                            transited,
                                            auth_time,
                                            start_time,
                                            end_time,
                                            renew_till,
                                            client_addresses,
                                            authorization_data,
                                        },
                                    ),
                                },
                            },
                        },
                    },
                },
            },
        },
    }
}

/// Reads the members of an EncTicketPart from the table `t`, in order.
pub open spec fn spec_enc_ticket_part_from_table(t: Seq<Option<Seq<u8>>>) -> Result<EncTicketPartView, DerError> {
    match spec_required(t, 0) {
        Err(e) => Err(e),
        Ok(f0) => match spec_parse_flags_elem(f0) {
            Err(e) => Err(e),
            Ok(flags) => match spec_required(t, 1) {
                Err(e) => Err(e),
                Ok(f1) => match spec_parse_int_octets(f1) {
                    Err(e) => Err(e),
                    Ok(key) => match spec_required(t, 2) {
                        Err(e) => Err(e),
                        Ok(f2) => match spec_parse_string_elem(f2) {
                            Err(e) => Err(e),
                            Ok(crealm) => match spec_required(t, 3) {
                                Err(e) => Err(e),
                                Ok(f3) => match spec_parse_principal_name(f3) {
                                    Err(e) => Err(e),
                                    Ok(cname) => match spec_required(t, 4) {
                                        Err(e) => Err(e),
                                        Ok(f4) => match spec_parse_int_octets(f4) {
                                            Err(e) => Err(e),
                                            Ok(transited) => spec_enc_ticket_part_rest(
                                                t,
                                                flags,
                                                key,
                                                crealm,
                                                cname,
                                                transited,
                                            ),
                                        },
                                    },
                                },
                            },
                        },
                    },
                },
            },
        },
    }
}

/// Reads an EncTicketPart that fills `s`: the application TLV first, then the
/// value inside its boundary, and only then whether bytes are left after it.
pub open spec fn spec_parse_enc_ticket_part(s: Seq<u8>) -> Result<EncTicketPartView, DerError> {
    match spec_parse_elem(s, TAG_ENC_TICKET_PART) {
        Err(e) => Err(e),
        Ok((c, n)) => match spec_parse_members(c, TAG_SEQUENCE, 11) {
            Err(e) => Err(e),
            Ok(t) => match spec_enc_ticket_part_from_table(t) {
                Err(e) => Err(e),
                Ok(v) => if n != s.len() {
                    Err(DerError::TrailingBytes)
                } else {
                    Ok(v)
                },
            },
        },
    }
}

/// Whether an optional time is a valid instant where present.
pub open spec fn opt_time_wf(o: Option<KerberosTime>) -> bool {
    o matches Some(t) ==> t.wf()
}

/// Whether an optional list has 32-bit integers only.
pub open spec fn opt_list_wf(o: Option<Seq<(int, Seq<u8>)>>) -> bool {
    o matches Some(v) ==> all_i32(v)
}

/// Whether an EncTicketPart's values can be encoded and read back.
pub open spec fn enc_ticket_part_wf(v: EncTicketPartView) -> bool {
    flags_wf(v.flags) && is_i32(v.key.0) && is_printable(v.crealm) && principal_name_wf(v.cname)
        && is_i32(v.transited.0) && v.auth_time.wf() && opt_time_wf(v.start_time)
        && v.end_time.wf() && opt_time_wf(v.renew_till) && opt_list_wf(v.client_addresses)
        && opt_list_wf(v.authorization_data)
}

proof fn lemma_opt_list_round_trip(o: Option<Seq<(int, Seq<u8>)>>, bound: int)
    requires
        opt_list_wf(o),
        o matches Some(v) ==> spec_int_octets_list(v).len() <= bound,
        bound <= MAX_ENCODED_LEN,
    ensures
        spec_parse_opt_list(spec_opt_list_member(o)) == Ok::<Option<Seq<(int, Seq<u8>)>>, DerError>(o),
{
    if let Some(v) = o {
        lemma_tlv_round_trip(TAG_SEQUENCE, spec_int_octets_list_body(v), Seq::empty());
        lemma_int_octets_list_round_trip(v);
    }
}

proof fn lemma_opt_time_round_trip(o: Option<KerberosTime>)
    requires
        opt_time_wf(o),
    ensures
        spec_parse_opt_time(spec_opt_time_member(o)) == Ok::<Option<KerberosTime>, DerError>(o),
{
    if let Some(t) = o {
        lemma_time_elem_round_trip(t);
    }
}

#[verifier::rlimit(80)]
proof fn lemma_rest_round_trip(v: EncTicketPartView)
    requires
        enc_ticket_part_wf(v),
        spec_members(TAG_SEQUENCE, spec_enc_ticket_part_table(v)).len() <= MAX_ENCODED_LEN,
    ensures
        spec_enc_ticket_part_rest(
            spec_enc_ticket_part_table(v),
            v.flags,
            v.key,
            v.crealm,
            v.cname,
            v.transited,
        ) == Ok::<EncTicketPartView, DerError>(v),
{
    let t = spec_enc_ticket_part_table(v);
    lemma_member_shorter(TAG_SEQUENCE, t);
    if let Some(l) = v.client_addresses {
        assert(t[9] is Some);
    }
    if let Some(l) = v.authorization_data {
        assert(t[10] is Some);
    }
    lemma_time_elem_round_trip(v.auth_time);
    lemma_opt_time_round_trip(v.start_time);
    lemma_time_elem_round_trip(v.end_time);
    lemma_opt_time_round_trip(v.renew_till);
    lemma_opt_list_round_trip(v.client_addresses, MAX_ENCODED_LEN as int);
    lemma_opt_list_round_trip(v.authorization_data, MAX_ENCODED_LEN as int);
}

#[verifier::rlimit(80)]
proof fn lemma_table_round_trip(v: EncTicketPartView)
    requires
        enc_ticket_part_wf(v),
        spec_members(TAG_SEQUENCE, spec_enc_ticket_part_table(v)).len() <= MAX_ENCODED_LEN,
    ensures
        spec_enc_ticket_part_from_table(spec_enc_ticket_part_table(v)) == Ok::<
            EncTicketPartView,
            DerError,
        >(v),
{
    let t = spec_enc_ticket_part_table(v);
    lemma_member_shorter(TAG_SEQUENCE, t);
    assert(t[0] is Some && t[1] is Some && t[2] is Some && t[3] is Some && t[4] is Some);
    lemma_flags_elem_round_trip(v.flags);
    lemma_int_octets_round_trip(v.key);
    lemma_string_elem_round_trip(v.crealm);
    lemma_principal_name_round_trip(v.cname);
    lemma_int_octets_round_trip(v.transited);
    lemma_rest_round_trip(v);
}

/// Encoding an EncTicketPart and decoding the bytes gives the same value back.
#[verifier::rlimit(80)]
pub proof fn lemma_enc_ticket_part_round_trip(v: EncTicketPartView)
    requires
        enc_ticket_part_wf(v),
        spec_enc_ticket_part(v).len() <= MAX_ENCODED_LEN,
    ensures
        spec_parse_enc_ticket_part(spec_enc_ticket_part(v)) == Ok::<EncTicketPartView, DerError>(v),
{
    let t = spec_enc_ticket_part_table(v);
    let body = spec_members(TAG_SEQUENCE, t);
    lemma_tlv_round_trip(TAG_ENC_TICKET_PART, body, Seq::empty());
    assert(spec_tlv(TAG_ENC_TICKET_PART, body) + Seq::empty() =~= spec_tlv(TAG_ENC_TICKET_PART, body));
    lemma_members_round_trip(TAG_SEQUENCE, t);
    lemma_table_round_trip(v);
}

/// An absent start time is written as no member `[6]` at all, and reads
/// back as absent.
#[verifier::rlimit(60)]
pub proof fn lemma_absent_start_time_omitted(v: EncTicketPartView)
    requires
        enc_ticket_part_wf(v),
        spec_enc_ticket_part(v).len() <= MAX_ENCODED_LEN,
        v.start_time is None,
    ensures
        spec_parse_whole(spec_enc_ticket_part(v), TAG_ENC_TICKET_PART) matches Ok(c)
            && spec_parse_members(c, TAG_SEQUENCE, 11) matches Ok(t) && t[6] is None,
        spec_parse_enc_ticket_part(spec_enc_ticket_part(v)) matches Ok(w) && w.start_time is None,
{
    let t = spec_enc_ticket_part_table(v);
    let body = spec_members(TAG_SEQUENCE, t);
    lemma_tlv_round_trip(TAG_ENC_TICKET_PART, body, Seq::empty());
    lemma_members_round_trip(TAG_SEQUENCE, t);
    lemma_enc_ticket_part_round_trip(v);
}

/// With no start time, the member `[5]` holding the authentication time is
/// followed directly by the member `[7]` holding the end time.
pub proof fn lemma_absent_start_time_bytes(v: EncTicketPartView)
    requires
        v.start_time is None,
    ensures
        spec_enc_fields_from(spec_enc_ticket_part_table(v), 5) == spec_tlv(
            0xa5,
            spec_time_elem(v.auth_time),
        ) + spec_tlv(0xa7, spec_time_elem(v.end_time)) + spec_enc_fields_from(
            spec_enc_ticket_part_table(v),
            8,
        ),
{
    let t = spec_enc_ticket_part_table(v);
    assert(spec_enc_fields_from(t, 6) == spec_enc_field(t[6], 6) + spec_enc_fields_from(t, 7));
    assert(spec_enc_fields_from(t, 7) == spec_enc_field(t[7], 7) + spec_enc_fields_from(t, 8));
    assert(spec_enc_field(t[6], 6) =~= Seq::<u8>::empty());
    assert(spec_enc_fields_from(t, 5) =~= spec_tlv(0xa5, spec_time_elem(v.auth_time)) + spec_tlv(
        0xa7,
        spec_time_elem(v.end_time),
    ) + spec_enc_fields_from(t, 8));
}

/// A buffer whose first byte is not the EncTicketPart tag (a ticket's
/// `[APPLICATION 1]`, say) is refused as an unexpected tag.
pub proof fn lemma_enc_ticket_part_wrong_tag(s: Seq<u8>)
    requires
        s.len() > 0,
        s[0] != TAG_ENC_TICKET_PART,
    ensures
        spec_parse_enc_ticket_part(s) == Err::<EncTicketPartView, DerError>(DerError::UnexpectedTag),
{
}

/// The bytes of an optional span of `buf`.
pub open spec fn opt_span(buf: &[u8], o: Option<(usize, usize)>) -> Option<Seq<u8>> {
    match o {
        Some((a, b)) => Some(span(buf, a as int, b as int)),
        None => None,
    }
}

fn read_opt_time(buf: &[u8], o: Option<(usize, usize)>) -> (r: Result<Option<KerberosTime>, DerError>)
    requires
        o matches Some((a, b)) ==> a <= b <= buf@.len(),
    ensures
        match spec_parse_opt_time(opt_span(buf, o)) {
            Ok(v) => r == Ok::<Option<KerberosTime>, DerError>(v),
            Err(e) => r == Err::<Option<KerberosTime>, DerError>(e),
        },
{
    match o {
        None => Ok(None),
        Some((a, b)) => match read_time_elem(buf, a, b) {
            Ok(t) => Ok(Some(t)),
            Err(e) => Err(e),
        },
    }
}

fn read_opt_list<T: IntOctetsValue>(buf: &[u8], o: Option<(usize, usize)>) -> (r: Result<Option<Vec<T>>, DerError>)
    requires
        o matches Some((a, b)) ==> a <= b <= buf@.len(),
    ensures
        match spec_parse_opt_list(opt_span(buf, o)) {
            Ok(v) => r matches Ok(x) && opt_list_view(x) == v,
            Err(e) => r matches Err(e2) && e2 == e,
        },
{
    match o {
        None => Ok(None),
        Some((a, b)) => match read_whole(buf, a, b, TAG_SEQUENCE) {
            Err(e) => Err(e),
            Ok((ca, cb)) => match read_int_octets_list_body(buf, ca, cb) {
                Ok(v) => Ok(Some(v)),
                Err(e) => Err(e),
            },
        },
    }
}

fn write_opt_list<T: IntOctetsValue>(o: &Option<Vec<T>>) -> (r: Result<Option<Vec<u8>>, DerError>)
    ensures
        match r {
            Ok(x) => opt_list_wf(opt_list_view(*o)) && match x {
                Some(b) => spec_opt_list_member(opt_list_view(*o)) == Some(b@),
                None => spec_opt_list_member(opt_list_view(*o)) == None::<Seq<u8>>,
            },
            Err(e) => e == DerError::ValueTooLong && (spec_opt_list_member(opt_list_view(*o)) matches Some(m)
                && m.len() > MAX_ENCODED_LEN),
        },
{
    match o {
        None => Ok(None),
        Some(v) => match write_int_octets_list_body(v) {
            Err(e) => Err(e),
            Ok(body) => match write_tlv(TAG_SEQUENCE, body.as_slice()) {
                Ok(b) => Ok(Some(b)),
                Err(e) => Err(e),
            },
        },
    }
}

fn write_opt_time(o: &Option<KerberosTime>) -> (r: Option<Vec<u8>>)
    ensures
        match r {
            Some(b) => spec_opt_time_member(*o) == Some(b@),
            None => spec_opt_time_member(*o) == None::<Seq<u8>>,
        },
        opt_time_wf(*o),
{
    match o {
        None => None,
        Some(t) => Some(write_time_elem(t)),
    }
}

impl EncTicketPart {
    pub open spec fn wf(&self) -> bool {
        enc_ticket_part_wf(self@)
    }

    /// The EncTicketPart with these fields.
    pub fn new(
        flags: TicketFlags,
        key: EncryptionKey,
        crealm: Realm,
        cname: PrincipalName,
        transited: TransitedEncoding,
        auth_time: KerberosTime,
        start_time: Option<KerberosTime>,
        end_time: KerberosTime,
        renew_till: Option<KerberosTime>,
        client_addresses: Option<Vec<HostAddress>>,
        authorization_data: Option<Vec<AuthorizationData>>,
    ) -> (r: EncTicketPart)
        ensures
            r == (EncTicketPart {
                flags,
                key,
                crealm,
                cname,
                transited,
                auth_time,
                start_time,
                end_time,
                renew_till,
                client_addresses,
                authorization_data,
            }),
    {
        EncTicketPart {
            flags,
            key,
            crealm,
            cname,
            transited,
            auth_time,
            start_time,
            end_time,
            renew_till,
            client_addresses,
            authorization_data,
        }
    }

    fn decode_rest(
        bytes: &[u8],
        t: &Vec<Option<(usize, usize)>>,
        flags: TicketFlags,
        key: EncryptionKey,
        crealm: Realm,
        cname: PrincipalName,
        transited: TransitedEncoding,
    ) -> (r: Result<EncTicketPart, DerError>)
        requires
            t@.len() == ENC_TICKET_PART_MEMBERS,
            crate::fields::spans_within(t@, 0, bytes@.len() as int),
        ensures
            match spec_enc_ticket_part_rest(
                spec_table_of_spans(bytes, t@),
                flags@,
                key@,
                crealm@,
                cname@,
                transited@,
            ) {
                Ok(v) => r matches Ok(x) && x@ == v,
                Err(e) => r matches Err(e2) && e2 == e,
            },
    {
        let ghost st = spec_table_of_spans(bytes, t@);
        assert(forall|i: int| 0 <= i < 11 ==> #[trigger] st[i] == opt_span(bytes, t@[i]));
        assert(t@[5] matches Some((x, y)) ==> x <= y <= bytes@.len());
        assert(t@[6] matches Some((x, y)) ==> x <= y <= bytes@.len());
        assert(t@[7] matches Some((x, y)) ==> x <= y <= bytes@.len());
        assert(t@[8] matches Some((x, y)) ==> x <= y <= bytes@.len());
        assert(t@[9] matches Some((x, y)) ==> x <= y <= bytes@.len());
        assert(t@[10] matches Some((x, y)) ==> x <= y <= bytes@.len());
        let auth_time = match t[5] {
            None => return Err(DerError::MissingRequiredField),
            Some((x, y)) => match read_time_elem(bytes, x, y) {
                Ok(v) => v,
                Err(e) => return Err(e),
            },
        };
        let start_time = match read_opt_time(bytes, t[6]) {
            Ok(v) => v,
            Err(e) => return Err(e),
        };
        let end_time = match t[7] {
            None => return Err(DerError::MissingRequiredField),
            Some((x, y)) => match read_time_elem(bytes, x, y) {
                Ok(v) => v,
                Err(e) => return Err(e),
            },
        };
        let renew_till = match read_opt_time(bytes, t[8]) {
            Ok(v) => v,
            Err(e) => return Err(e),
        };
        let client_addresses = match read_opt_list(bytes, t[9]) {
            Ok(v) => v,
            Err(e) => return Err(e),
        };
        let authorization_data = match read_opt_list(bytes, t[10]) {
            Ok(v) => v,
            Err(e) => return Err(e),
        };
        Ok(EncTicketPart {
            flags,
            key,
            crealm,
            cname,
            transited,
            auth_time,
            start_time,
            end_time,
            renew_till,
            client_addresses,
            authorization_data,
        })
    }

    /// Reads the EncTicketPart that fills `bytes`.
    pub fn decode(bytes: &[u8]) -> (r: Result<EncTicketPart, DerError>)
        ensures
            match spec_parse_enc_ticket_part(bytes@) {
                Ok(v) => r matches Ok(x) && x@ == v,
                Err(e) => r matches Err(e2) && e2 == e,
            },
    {
        assert(span(bytes, 0, bytes@.len() as int) =~= bytes@);
        let (a, b) = match read_elem(bytes, 0, bytes.len(), TAG_ENC_TICKET_PART) {
            Ok(p) => p,
            Err(e) => return Err(e),
        };
        let t = match read_members(bytes, a, b, TAG_SEQUENCE, ENC_TICKET_PART_MEMBERS) {
            Ok(t) => t,
            Err(e) => return Err(e),
        };
        let ghost st = spec_table_of_spans(bytes, t@);
        assert(forall|i: int| 0 <= i < 11 ==> #[trigger] st[i] == opt_span(bytes, t@[i]));
        assert(crate::fields::spans_within(t@, 0, bytes@.len() as int));
        let flags = match t[0] {
            None => return Err(DerError::MissingRequiredField),
            Some((x, y)) => match read_flags_elem(bytes, x, y) {
                Ok(v) => v,
                Err(e) => return Err(e),
            },
        };
        let key = match t[1] {
            None => return Err(DerError::MissingRequiredField),
            Some((x, y)) => match EncryptionKey::decode(bytes, x, y) {
                Ok(v) => v,
                Err(e) => return Err(e),
            },
        };
        let crealm = match t[2] {
            None => return Err(DerError::MissingRequiredField),
            Some((x, y)) => match KerberosString::decode(bytes, x, y) {
                Ok(v) => v,
                Err(e) => return Err(e),
            },
        };
        let cname = match t[3] {
            None => return Err(DerError::MissingRequiredField),
            Some((x, y)) => match PrincipalName::decode(bytes, x, y) {
                Ok(v) => v,
                Err(e) => return Err(e),
            },
        };
        let transited = match t[4] {
            None => return Err(DerError::MissingRequiredField),
            Some((x, y)) => match TransitedEncoding::decode(bytes, x, y) {
                Ok(v) => v,
                Err(e) => return Err(e),
            },
        };
        let r = Self::decode_rest(bytes, &t, flags, key, crealm, cname, transited);
        if r.is_ok() && b != bytes.len() {
            return Err(DerError::TrailingBytes);
        }
        r
    }

    /// Writes the EncTicketPart, leaving out absent OPTIONAL members; fails
    /// only when the encoding would exceed `MAX_ENCODED_LEN` bytes.
    #[verifier::rlimit(100)]
    pub fn encode(&self) -> (r: Result<Vec<u8>, DerError>)
        ensures
            match r {
                Ok(b) => b@ == spec_enc_ticket_part(self@) && b@.len() <= MAX_ENCODED_LEN
                    && spec_parse_enc_ticket_part(b@) == Ok::<EncTicketPartView, DerError>(self@),
                Err(e) => e == DerError::ValueTooLong && spec_enc_ticket_part(self@).len()
                    > MAX_ENCODED_LEN,
            },
    {
        let ghost st = spec_enc_ticket_part_table(self@);
        proof {
            lemma_member_shorter(TAG_SEQUENCE, st);
            assert(st[0] is Some && st[1] is Some && st[2] is Some && st[3] is Some && st[4] is Some);
        }
        let f0 = match write_flags_elem(&self.flags) {
            Ok(f) => f,
            Err(e) => return Err(e),
        };
        let f1 = match self.key.encode() {
            Ok(f) => f,
            Err(e) => return Err(e),
        };
        let f2 = match self.crealm.encode() {
            Ok(f) => f,
            Err(e) => return Err(e),
        };
        let f3 = match self.cname.encode() {
            Ok(f) => f,
            Err(e) => return Err(e),
        };
        let f4 = match self.transited.encode() {
            Ok(f) => f,
            Err(e) => return Err(e),
        };
        let f5 = write_time_elem(&self.auth_time);
        let f6 = write_opt_time(&self.start_time);
        let f7 = write_time_elem(&self.end_time);
        let f8 = write_opt_time(&self.renew_till);
        let f9 = match write_opt_list(&self.client_addresses) {
            Ok(f) => f,
            Err(e) => {
                assert(st[9] is Some);
                return Err(e);
            },
        };
        let f10 = match write_opt_list(&self.authorization_data) {
            Ok(f) => f,
            Err(e) => {
                assert(st[10] is Some);
                return Err(e);
            },
        };
        let mut t: Vec<Option<Vec<u8>>> = Vec::new();
        t.push(Some(f0));
        t.push(Some(f1));
        t.push(Some(f2));
        t.push(Some(f3));
        t.push(Some(f4));
        t.push(Some(f5));
        t.push(f6);
        t.push(Some(f7));
        t.push(f8);
        t.push(f9);
        t.push(f10);
        assert(spec_table_of_vecs(t@) =~= st);
        let body = match write_members(TAG_SEQUENCE, &t) {
            Ok(b) => b,
            Err(e) => return Err(e),
        };
        let r = write_tlv(TAG_ENC_TICKET_PART, body.as_slice());
        proof {
            if r is Ok {
                lemma_enc_ticket_part_round_trip(self@);
            }
        }
        r
    }
}

} // verus!
