//! `Ticket ::= [APPLICATION 1] SEQUENCE { tkt-vno [0] INTEGER, realm [1] Realm,
//! sname [2] PrincipalName, enc-part [3] EncryptedData }`.
use vstd::prelude::*;
use crate::tlv::{
    DerError, MAX_ENCODED_LEN, TAG_SEQUENCE, span, spec_tlv, spec_parse_elem, read_elem,
    write_tlv, lemma_tlv_round_trip,
};
use crate::fields::{
    spec_parse_members, spec_members, spec_required, spec_table_of_spans, spec_table_of_vecs,
    read_members, write_members, lemma_members_round_trip, lemma_member_shorter,
};
use crate::element::{
    spec_int_elem, spec_parse_int_elem, spec_string_elem, spec_parse_string_elem,
    lemma_int_elem_round_trip, lemma_string_elem_round_trip, read_int_elem, write_int_elem,
};
use crate::leaf::is_printable;
use crate::types::{
    Realm, KerberosString, PrincipalName, EncryptedData, spec_principal_name,
    spec_parse_principal_name, principal_name_wf, lemma_principal_name_round_trip,
    spec_encrypted_data, spec_parse_encrypted_data, encrypted_data_wf,
    lemma_encrypted_data_round_trip,
};

verus! {

/// Tag of `[APPLICATION 1]`, constructed.
pub const TAG_TICKET: u8 = 0x61;

/// A ticket as plain values.
pub struct TicketView {
    pub tkt_vno: int,
    pub realm: Seq<u8>,
    pub sname: (int, Seq<Seq<u8>>),
    pub enc_part: (int, Option<int>, Seq<u8>),
}

/// A ticket. The version number is stored as given; whether it is 5 is for
/// the caller to judge.
#[derive(Debug, PartialEq, Eq)]
pub struct Ticket {
    tkt_vno: i8,
    realm: Realm,
    sname: PrincipalName,
    enc_part: EncryptedData,
}

impl View for Ticket {
    type V = TicketView;

    closed spec fn view(&self) -> TicketView {
        TicketView {
            tkt_vno: self.tkt_vno as int,
            realm: self.realm@,
            sname: self.sname@,
            enc_part: self.enc_part@,
        }
    }
}

/// Whether a ticket's values can be encoded and read back: an 8-bit version
/// number, printable strings, 32-bit integers.
pub open spec fn ticket_wf(v: TicketView) -> bool {
    i8::MIN <= v.tkt_vno <= i8::MAX && is_printable(v.realm) && principal_name_wf(v.sname)
        && encrypted_data_wf(v.enc_part)
}

/// The member table of a ticket.
pub open spec fn spec_ticket_table(v: TicketView) -> Seq<Option<Seq<u8>>> {
    seq![
        Some(spec_int_elem(v.tkt_vno)),
        Some(spec_string_elem(v.realm)),
        Some(spec_principal_name(v.sname)),
        Some(spec_encrypted_data(v.enc_part)),
    ]
}

/// The encoding of a ticket.
pub open spec fn spec_ticket(v: TicketView) -> Seq<u8> {
    spec_tlv(TAG_TICKET, spec_members(TAG_SEQUENCE, spec_ticket_table(v)))
}

/// Reads an INTEGER member that must fit in 8 bits.
pub open spec fn spec_parse_i8_elem(s: Seq<u8>) -> Result<int, DerError> {
    match spec_parse_int_elem(s) {
        Err(e) => Err(e),
        Ok(v) => if i8::MIN <= v <= i8::MAX {
            Ok(v)
        } else {
            Err(DerError::MalformedScalar)
        },
    }
}

/// Reads the members of a ticket from the table `t`.
pub open spec fn spec_ticket_from_table(t: Seq<Option<Seq<u8>>>) -> Result<TicketView, DerError> {
    match spec_required(t, 0) {
        Err(e) => Err(e),
        Ok(f0) => match spec_parse_i8_elem(f0) {
            Err(e) => Err(e),
            Ok(v0) => match spec_required(t, 1) {
                Err(e) => Err(e),
                Ok(f1) => match spec_parse_string_elem(f1) {
                    Err(e) => Err(e),
                    Ok(v1) => match spec_required(t, 2) {
                        Err(e) => Err(e),
                        Ok(f2) => match spec_parse_principal_name(f2) {
                            Err(e) => Err(e),
                            Ok(v2) => match spec_required(t, 3) {
                                Err(e) => Err(e),
                                Ok(f3) => match spec_parse_encrypted_data(f3) {
                                    Err(e) => Err(e),
                                    Ok(v3) => Ok(
                                        TicketView {
                                            tkt_vno: v0,
                                            realm: v1,
                                            sname: v2,
                                            enc_part: v3,
                                        },
                                    ),
                                },
                            },
                        },
                    },
                },
            },
        },
    }
}

/// Reads a ticket that fills `s`: the application TLV first, then the value
/// inside its boundary, and only then whether bytes are left after it.
pub open spec fn spec_parse_ticket(s: Seq<u8>) -> Result<TicketView, DerError> {
    match spec_parse_elem(s, TAG_TICKET) {
        Err(e) => Err(e),
        Ok((c, n)) => match spec_parse_members(c, TAG_SEQUENCE, 4) {
            Err(e) => Err(e),
            Ok(t) => match spec_ticket_from_table(t) {
                Err(e) => Err(e),
                Ok(v) => if n != s.len() {
                    Err(DerError::TrailingBytes)
                } else {
                    Ok(v)
                },
            },
        },
    }
}

/// Encoding a ticket and decoding the bytes gives the same ticket back.
#[verifier::rlimit(80)]
pub proof fn lemma_ticket_round_trip(v: TicketView)
    requires
        ticket_wf(v),
        spec_ticket(v).len() <= MAX_ENCODED_LEN,
    ensures
        spec_parse_ticket(spec_ticket(v)) == Ok::<TicketView, DerError>(v),
{
    let t = spec_ticket_table(v);
    let body = spec_members(TAG_SEQUENCE, t);
    lemma_tlv_round_trip(TAG_TICKET, body, Seq::empty());
    assert(spec_tlv(TAG_TICKET, body) + Seq::empty() =~= spec_tlv(TAG_TICKET, body));
    lemma_members_round_trip(TAG_SEQUENCE, t);
    lemma_member_shorter(TAG_SEQUENCE, t);
    assert(t[1] is Some && t[2] is Some && t[3] is Some);
    lemma_int_elem_round_trip(v.tkt_vno);
    lemma_string_elem_round_trip(v.realm);
    lemma_principal_name_round_trip(v.sname);
    lemma_encrypted_data_round_trip(v.enc_part);
}

/// A buffer whose first byte is not the ticket's tag is refused as an
/// unexpected tag.
pub proof fn lemma_ticket_wrong_tag(s: Seq<u8>)
    requires
        s.len() > 0,
        s[0] != TAG_TICKET,
    ensures
        spec_parse_ticket(s) == Err::<TicketView, DerError>(DerError::UnexpectedTag),
{
}

impl Ticket {
    pub open spec fn wf(&self) -> bool {
        ticket_wf(self@)
    }

    /// The ticket with these fields.
    pub fn new(tkt_vno: i8, realm: Realm, sname: PrincipalName, enc_part: EncryptedData) -> (r: Ticket)
        ensures
            r@ == (TicketView {
                tkt_vno: tkt_vno as int,
                realm: realm@,
                sname: sname@,
                enc_part: enc_part@,
            }),
    {
        Ticket { tkt_vno, realm, sname, enc_part }
    }

    pub fn tkt_vno(&self) -> (r: i8)
        ensures
            r as int == self@.tkt_vno,
    {
        self.tkt_vno
    }

    pub fn realm(&self) -> (r: &Realm)
        ensures
            r@ == self@.realm,
    {
        &self.realm
    }

    pub fn sname(&self) -> (r: &PrincipalName)
        ensures
            r@ == self@.sname,
    {
        &self.sname
    }

    pub fn enc_part(&self) -> (r: &EncryptedData)
        ensures
            r@ == self@.enc_part,
    {
        &self.enc_part
    }

    /// Reads the ticket that fills `bytes`.
    pub fn decode(bytes: &[u8]) -> (r: Result<Ticket, DerError>)
        ensures
            match spec_parse_ticket(bytes@) {
                Ok(v) => r matches Ok(x) && x@ == v,
                Err(e) => r matches Err(e2) && e2 == e,
            },
    {
        assert(span(bytes, 0, bytes@.len() as int) =~= bytes@);
        let (a, b) = match read_elem(bytes, 0, bytes.len(), TAG_TICKET) {
            Ok(p) => p,
            Err(e) => return Err(e),
        };
        let t = match read_members(bytes, a, b, TAG_SEQUENCE, 4) {
            Ok(t) => t,
            Err(e) => return Err(e),
        };
        let ghost st = spec_table_of_spans(bytes, t@);
        assert(st[0] == match t@[0] { Some((x, y)) => Some(span(bytes, x as int, y as int)), None => None::<Seq<u8>> });
        assert(st[1] == match t@[1] { Some((x, y)) => Some(span(bytes, x as int, y as int)), None => None::<Seq<u8>> });
        assert(st[2] == match t@[2] { Some((x, y)) => Some(span(bytes, x as int, y as int)), None => None::<Seq<u8>> });
        assert(st[3] == match t@[3] { Some((x, y)) => Some(span(bytes, x as int, y as int)), None => None::<Seq<u8>> });
        let tkt_vno = match t[0] {
            None => return Err(DerError::MissingRequiredField),
            Some((x, y)) => match read_int_elem(bytes, x, y) {
                Ok(v) => if -128 <= v && v <= 127 {
                    v as i8
                } else {
                    return Err(DerError::MalformedScalar);
                },
                Err(e) => return Err(e),
            },
        };
        let realm = match t[1] {
            None => return Err(DerError::MissingRequiredField),
            Some((x, y)) => match KerberosString::decode(bytes, x, y) {
                Ok(v) => v,
                Err(e) => return Err(e),
            },
        };
        let sname = match t[2] {
            None => return Err(DerError::MissingRequiredField),
            Some((x, y)) => match PrincipalName::decode(bytes, x, y) {
                Ok(v) => v,
                Err(e) => return Err(e),
            },
        };
        let enc_part = match t[3] {
            None => return Err(DerError::MissingRequiredField),
            Some((x, y)) => match EncryptedData::decode(bytes, x, y) {
                Ok(v) => v,
                Err(e) => return Err(e),
            },
        };
        if b != bytes.len() {
            return Err(DerError::TrailingBytes);
        }
        Ok(Ticket { tkt_vno, realm, sname, enc_part })
    }

    /// Writes the ticket; fails only when the encoding would exceed
    /// `MAX_ENCODED_LEN` bytes.
    pub fn encode(&self) -> (r: Result<Vec<u8>, DerError>)
        ensures
            match r {
                Ok(b) => b@ == spec_ticket(self@) && b@.len() <= MAX_ENCODED_LEN && spec_parse_ticket(b@)
                    == Ok::<TicketView, DerError>(self@),
                Err(e) => e == DerError::ValueTooLong && spec_ticket(self@).len() > MAX_ENCODED_LEN,
            },
    {
        let ghost st = spec_ticket_table(self@);
        proof {
            lemma_member_shorter(TAG_SEQUENCE, st);
            assert(st[1] is Some && st[2] is Some && st[3] is Some);
        }
        let f0 = write_int_elem(self.tkt_vno as i32);
        let f1 = match self.realm.encode() {
            Ok(f) => f,
            Err(e) => return Err(e),
        };
        let f2 = match self.sname.encode() {
            Ok(f) => f,
            Err(e) => return Err(e),
        };
        let f3 = match self.enc_part.encode() {
            Ok(f) => f,
            Err(e) => return Err(e),
        };
        let mut t: Vec<Option<Vec<u8>>> = Vec::new();
        t.push(Some(f0));
        t.push(Some(f1));
        t.push(Some(f2));
        t.push(Some(f3));
        assert(spec_table_of_vecs(t@) =~= st);
        let body = match write_members(TAG_SEQUENCE, &t) {
            Ok(b) => b,
            Err(e) => return Err(e),
        };
        let r = write_tlv(TAG_TICKET, body.as_slice());
        proof {
            if r is Ok {
                lemma_ticket_round_trip(self@);
            }
        }
        r
    }
}

} // verus!
