use krb_ticket::integer::{read_int_content, write_int_content};
use krb_ticket::leaf::{read_time_content, ANONYMOUS, FORWARDABLE, RENEWABLE};
use krb_ticket::{
    AuthorizationData, DerError, EncTicketPart, EncryptedData, EncryptionKey, HostAddress,
    KerberosString, KerberosTime, PrincipalName, Ticket, TicketFlags, TransitedEncoding,
};

fn kstr(s: &str) -> KerberosString {
    KerberosString::new(s.as_bytes().to_vec()).unwrap()
}

fn tlv(tag: u8, content: &[u8]) -> Vec<u8> {
    assert!(content.len() < 128);
    let mut v = vec![tag, content.len() as u8];
    v.extend_from_slice(content);
    v
}

fn principal() -> PrincipalName {
    PrincipalName { name_type: 2, name_string: vec![kstr("krbtgt"), kstr("EXAMPLE.COM")] }
}

fn sample_ticket() -> Ticket {
    Ticket::new(
        5,
        kstr("EXAMPLE.COM"),
        principal(),
        EncryptedData { etype: 18, kvno: Some(3), cipher: vec![0xAA; 32] },
    )
}

fn time(y: u16, mo: u8, d: u8, h: u8, mi: u8, s: u8) -> KerberosTime {
    KerberosTime::new(y, mo, d, h, mi, s).unwrap()
}

fn sample_part(start_time: Option<KerberosTime>) -> EncTicketPart {
    EncTicketPart::new(
        TicketFlags::new(0, vec![0x40, 0x81, 0x00, 0x00]).unwrap(),
        EncryptionKey { etype: 18, key_value: vec![7; 32] },
        kstr("EXAMPLE.COM"),
        PrincipalName { name_type: 1, name_string: vec![kstr("alice")] },
        TransitedEncoding { tr_type: 1, contents: vec![] },
        time(2024, 2, 29, 10, 0, 0),
        start_time,
        time(2024, 3, 1, 10, 0, 0),
        Some(time(2024, 3, 7, 10, 0, 0)),
        Some(vec![HostAddress { addr_type: 2, address: vec![192, 168, 1, 10] }]),
        Some(vec![
            AuthorizationData { ad_type: 1, ad_data: vec![1, 2, 3] },
            AuthorizationData { ad_type: -129, ad_data: vec![] },
        ]),
    )
}

#[test]
fn end_to_end_ticket() {
    let t = sample_ticket();
    let bytes = t.encode().unwrap();
    assert_eq!(bytes[0], 0x61);
    let d = Ticket::decode(&bytes).unwrap();
    assert_eq!(d.tkt_vno(), 5);
    assert_eq!(d.realm().as_bytes(), &b"EXAMPLE.COM".to_vec());
    assert_eq!(d.sname(), &principal());
    assert_eq!(d.enc_part().etype, 18);
    assert_eq!(d.enc_part().kvno, Some(3));
    assert_eq!(d.enc_part().cipher, vec![0xAA; 32]);
    assert_eq!(d, t);
}

#[test]
fn enc_ticket_part_round_trip() {
    let p = sample_part(Some(time(2024, 2, 29, 11, 30, 59)));
    let bytes = p.encode().unwrap();
    assert_eq!(bytes[0], 0x63);
    assert_eq!(EncTicketPart::decode(&bytes).unwrap(), p);
}

#[test]
fn absent_start_time_is_omitted() {
    let with = sample_part(Some(time(2024, 2, 29, 11, 30, 59))).encode().unwrap();
    let without_part = sample_part(None);
    let without = without_part.encode().unwrap();
    // the member [6] with its 17-byte GeneralizedTime is 19 bytes
    assert_eq!(with.len(), without.len() + 19);
    assert!(!without.windows(4).any(|w| w == [0xa6, 0x11, 0x18, 0x0f]));
    let d = EncTicketPart::decode(&without).unwrap();
    assert_eq!(d.start_time, None);
    assert_eq!(d, without_part);
}

#[test]
fn exact_encrypted_data_bytes() {
    let e = EncryptedData { etype: 18, kvno: None, cipher: vec![1, 2] };
    assert_eq!(
        e.encode().unwrap(),
        vec![0x30, 0x0b, 0xa0, 0x03, 0x02, 0x01, 0x12, 0xa2, 0x04, 0x04, 0x02, 0x01, 0x02]
    );
}

#[test]
fn long_form_lengths() {
    let e = EncryptedData { etype: 1, kvno: None, cipher: vec![0; 200] };
    let b = e.encode().unwrap();
    assert_eq!(&b[0..3], &[0x30, 0x81, 0xd3]);
    assert_eq!(&b[8..14], &[0xa2, 0x81, 0xcb, 0x04, 0x81, 0xc8]);
    let e2 = EncryptedData { etype: 1, kvno: None, cipher: vec![0; 300] };
    let b2 = e2.encode().unwrap();
    assert_eq!(&b2[0..4], &[0x30, 0x82, 0x01, 0x39]);
    assert_eq!(EncryptedData::decode(&b2, 0, b2.len()).unwrap(), e2);
}

#[test]
fn non_minimal_length_rejected() {
    let t = sample_ticket().encode().unwrap();
    // a content length below 128 written in the long form
    let mut bad = vec![0x61, 0x81, t[1]];
    bad.extend_from_slice(&t[2..]);
    assert_eq!(Ticket::decode(&bad), Err(DerError::InvalidLength));
    let mut bad2 = vec![0x61, 0x82, 0x00, t[1]];
    bad2.extend_from_slice(&t[2..]);
    assert_eq!(Ticket::decode(&bad2), Err(DerError::InvalidLength));
    let mut indefinite = vec![0x61, 0x80];
    indefinite.extend_from_slice(&t[2..]);
    assert_eq!(Ticket::decode(&indefinite), Err(DerError::InvalidLength));
}

#[test]
fn out_of_order_member_rejected() {
    let flags = tlv(0xa0, &tlv(0x03, &[0, 0x40, 0, 0, 0]));
    let key = tlv(0xa1, &EncryptionKey { etype: 18, key_value: vec![1] }.encode().unwrap());
    let crealm = tlv(0xa2, &kstr("EXAMPLE.COM").encode().unwrap());
    let cname = tlv(0xa3, &PrincipalName { name_type: 1, name_string: vec![kstr("bob")] }.encode().unwrap());
    let mut body = Vec::new();
    body.extend_from_slice(&flags);
    body.extend_from_slice(&key);
    body.extend_from_slice(&cname);
    body.extend_from_slice(&crealm);
    let bytes = tlv(0x63, &tlv(0x30, &body));
    assert_eq!(EncTicketPart::decode(&bytes), Err(DerError::OutOfOrderField));
}

#[test]
fn unknown_flag_bits_preserved() {
    // bit 31, beyond every named flag, and the reserved bit 0
    let bit_string = [0x03, 0x05, 0x00, 0x80, 0x00, 0x00, 0x01];
    let p = sample_part(None);
    let original = p.encode().unwrap();
    let start = original.windows(7).position(|w| w == [0x03, 0x05, 0x00, 0x40, 0x81, 0x00, 0x00]).unwrap();
    let mut crafted = original.clone();
    crafted[start..start + 7].copy_from_slice(&bit_string);
    let d = EncTicketPart::decode(&crafted).unwrap();
    assert!(d.flags.is_set(0));
    assert!(d.flags.is_set(31));
    assert!(!d.flags.is_set(FORWARDABLE));
    assert_eq!(d.encode().unwrap(), crafted);
}

#[test]
fn flags_with_unused_bits() {
    let f = TicketFlags::new(1, vec![0x40, 0x82]).unwrap();
    assert!(f.is_set(FORWARDABLE));
    assert!(f.is_set(ANONYMOUS));
    assert!(f.is_set(RENEWABLE));
    assert!(!f.is_set(15));
    // an unused bit that is set breaks DER
    assert!(TicketFlags::new(1, vec![0x41]).is_none());
    assert!(TicketFlags::new(8, vec![0x00]).is_none());
    assert!(TicketFlags::new(3, vec![]).is_none());
    let m = TicketFlags::from_u32(0x5080_0000);
    assert_eq!(m.octets(), &vec![0x50, 0x80, 0x00, 0x00]);
    assert!(m.is_set(RENEWABLE));
}

#[test]
fn ticket_given_to_enc_ticket_part() {
    let t = sample_ticket().encode().unwrap();
    assert_eq!(EncTicketPart::decode(&t), Err(DerError::UnexpectedTag));
    let p = sample_part(None).encode().unwrap();
    assert_eq!(Ticket::decode(&p), Err(DerError::UnexpectedTag));
}

#[test]
fn integer_minimal_forms() {
    assert_eq!(write_int_content(0), vec![0x00]);
    assert_eq!(write_int_content(127), vec![0x7f]);
    assert_eq!(write_int_content(128), vec![0x00, 0x80]);
    assert_eq!(write_int_content(-128), vec![0x80]);
    assert_eq!(write_int_content(-129), vec![0xff, 0x7f]);
    assert_eq!(write_int_content(65536), vec![0x01, 0x00, 0x00]);
    assert_eq!(write_int_content(i32::MIN), vec![0x80, 0x00, 0x00, 0x00]);
    assert_eq!(write_int_content(i32::MAX), vec![0x7f, 0xff, 0xff, 0xff]);
    assert_eq!(read_int_content(&[0xff, 0x7f], 0, 2), Ok(-129));
    assert_eq!(read_int_content(&[0x00, 0x05], 0, 2), Err(DerError::MalformedScalar));
    assert_eq!(read_int_content(&[0xff, 0x80], 0, 2), Err(DerError::MalformedScalar));
    assert_eq!(read_int_content(&[], 0, 0), Err(DerError::MalformedScalar));
    assert_eq!(read_int_content(&[1, 2, 3, 4, 5], 0, 5), Err(DerError::MalformedScalar));
}

#[test]
fn calendar_validation() {
    assert!(KerberosTime::new(2024, 2, 29, 0, 0, 0).is_some());
    assert!(KerberosTime::new(2023, 2, 29, 0, 0, 0).is_none());
    assert!(KerberosTime::new(1900, 2, 28, 0, 0, 0).is_none());
    assert!(KerberosTime::new(2024, 4, 31, 0, 0, 0).is_none());
    assert!(KerberosTime::new(2024, 1, 1, 24, 0, 0).is_none());
    assert!(KerberosTime::new(9999, 12, 31, 23, 59, 59).is_some());
    assert!(KerberosTime::new(10000, 1, 1, 0, 0, 0).is_none());
}

#[test]
fn generalized_time_format() {
    let t = read_time_content(b"20240229103059Z", 0, 15).unwrap();
    assert_eq!((t.year(), t.month(), t.day(), t.hour(), t.minute(), t.second()), (2024, 2, 29, 10, 30, 59));
    assert_eq!(read_time_content(b"20240229103059.5Z", 0, 17), Err(DerError::MalformedScalar));
    assert_eq!(read_time_content(b"20240229103059+0100", 0, 19), Err(DerError::MalformedScalar));
    assert_eq!(read_time_content(b"20230229103059Z", 0, 15), Err(DerError::MalformedScalar));
    assert_eq!(read_time_content(b"2024022910305aZ", 0, 15), Err(DerError::MalformedScalar));
}

#[test]
fn missing_required_member() {
    let vno = tlv(0xa0, &[0x02, 0x01, 0x05]);
    let realm = tlv(0xa1, &kstr("R").encode().unwrap());
    let enc = tlv(0xa3, &EncryptedData { etype: 1, kvno: None, cipher: vec![] }.encode().unwrap());
    let mut body = Vec::new();
    body.extend_from_slice(&vno);
    body.extend_from_slice(&realm);
    body.extend_from_slice(&enc);
    let bytes = tlv(0x61, &tlv(0x30, &body));
    assert_eq!(Ticket::decode(&bytes), Err(DerError::MissingRequiredField));
}

#[test]
fn trailing_and_truncated_input() {
    let t = sample_ticket().encode().unwrap();
    let mut longer = t.clone();
    longer.push(0);
    assert_eq!(Ticket::decode(&longer), Err(DerError::TrailingBytes));
    assert_eq!(Ticket::decode(&t[..t.len() - 1]), Err(DerError::TruncatedInput));
    assert_eq!(Ticket::decode(&[]), Err(DerError::TruncatedInput));
}

#[test]
fn unknown_member_rejected() {
    let bytes = [0x30, 0x05, 0xa5, 0x03, 0x02, 0x01, 0x00];
    assert_eq!(EncryptedData::decode(&bytes, 0, bytes.len()), Err(DerError::UnknownField));
}

#[test]
fn oversized_value_refused() {
    let e = EncryptedData { etype: 1, kvno: None, cipher: vec![0; 70000] };
    assert_eq!(e.encode(), Err(DerError::ValueTooLong));
}

#[test]
fn general_string_rules() {
    assert!(KerberosString::new(vec![0x41, 0x07]).is_none());
    let bytes = [0x1b, 0x02, 0x41, 0x07];
    assert_eq!(KerberosString::decode(&bytes, 0, 4), Err(DerError::MalformedScalar));
    let ok = [0x1b, 0x02, 0x41, 0x42];
    assert_eq!(KerberosString::decode(&ok, 0, 4).unwrap().as_bytes(), &vec![0x41, 0x42]);
}

#[test]
fn version_number_out_of_range() {
    // tkt-vno 200 is a valid INTEGER but does not fit the 8-bit field
    let vno = tlv(0xa0, &[0x02, 0x02, 0x00, 0xc8]);
    let realm = tlv(0xa1, &kstr("R").encode().unwrap());
    let sname = tlv(0xa2, &principal().encode().unwrap());
    let enc = tlv(0xa3, &EncryptedData { etype: 1, kvno: None, cipher: vec![] }.encode().unwrap());
    let mut body = Vec::new();
    for part in [&vno, &realm, &sname, &enc] {
        body.extend_from_slice(part);
    }
    let bytes = tlv(0x61, &tlv(0x30, &body));
    assert_eq!(Ticket::decode(&bytes), Err(DerError::MalformedScalar));
}

#[test]
fn long_declared_length_is_truncated_input() {
    let mut b = vec![0x61, 0x84, 0x7f, 0xff, 0xff, 0xff];
    b.extend_from_slice(&[0u8; 10]);
    assert_eq!(Ticket::decode(&b), Err(DerError::TruncatedInput));
    let mut b3 = vec![0x61, 0x83, 0x01, 0x00, 0x00];
    b3.extend_from_slice(&[0u8; 10]);
    assert_eq!(Ticket::decode(&b3), Err(DerError::TruncatedInput));
    // a four-octet length with a leading zero octet is not minimal
    let mut b4 = vec![0x61, 0x84, 0x00, 0x00, 0x00, 0x05];
    b4.extend_from_slice(&[0u8; 5]);
    assert_eq!(Ticket::decode(&b4), Err(DerError::InvalidLength));
}

#[test]
fn oversized_input_refused_on_decode() {
    // a well-framed TLV of 65537 bytes exceeds what the codec reads and writes
    let mut b = vec![0x61, 0x82, 0xff, 0xfd];
    b.extend_from_slice(&vec![0u8; 0xfffd]);
    assert_eq!(Ticket::decode(&b), Err(DerError::ValueTooLong));
}

#[test]
fn decoded_ticket_re_encodes() {
    let bytes = sample_ticket().encode().unwrap();
    let d = Ticket::decode(&bytes).unwrap();
    assert_eq!(d.encode().unwrap(), bytes);
    let part = sample_part(None).encode().unwrap();
    let p = EncTicketPart::decode(&part).unwrap();
    assert_eq!(p.encode().unwrap(), part);
}

#[test]
fn high_numbered_members_are_unknown() {
    // [31] in the multi-byte tag form
    let b31 = [0x30, 0x06, 0xbf, 0x1f, 0x03, 0x02, 0x01, 0x00];
    assert_eq!(EncryptedData::decode(&b31, 0, b31.len()), Err(DerError::UnknownField));
    // [200] in the multi-byte tag form
    let b200 = [0x30, 0x07, 0xbf, 0x81, 0x48, 0x03, 0x02, 0x01, 0x00];
    assert_eq!(EncryptedData::decode(&b200, 0, b200.len()), Err(DerError::UnknownField));
    // a multi-byte form for a number that fits one octet is refused
    let short = [0x30, 0x06, 0xbf, 0x02, 0x03, 0x02, 0x01, 0x00];
    assert_eq!(EncryptedData::decode(&short, 0, short.len()), Err(DerError::UnexpectedTag));
    // a ticket with a member [4] after its four members
    let t = sample_ticket().encode().unwrap();
    let inner = &t[2..];
    assert_eq!(inner[0], 0x30);
    let mut body = inner[2..].to_vec();
    body.extend_from_slice(&[0xa4, 0x03, 0x02, 0x01, 0x00]);
    let bytes = tlv(0x61, &tlv(0x30, &body));
    assert_eq!(Ticket::decode(&bytes), Err(DerError::UnknownField));
}

fn header_len(b: &[u8]) -> usize {
    if b[1] < 128 { 2 } else { 2 + (b[1] - 0x80) as usize }
}

fn wrap(tag: u8, content: &[u8]) -> Vec<u8> {
    let n = content.len();
    let mut v = if n < 128 {
        vec![tag, n as u8]
    } else if n < 256 {
        vec![tag, 0x81, n as u8]
    } else {
        vec![tag, 0x82, (n >> 8) as u8, n as u8]
    };
    v.extend_from_slice(content);
    v
}

#[test]
fn enc_ticket_part_member_eleven_unknown() {
    let p = sample_part(None).encode().unwrap();
    let inner = &p[header_len(&p)..];
    assert_eq!(inner[0], 0x30);
    let mut body = inner[header_len(inner)..].to_vec();
    assert_eq!(wrap(0x63, &wrap(0x30, &body)), p);
    body.extend_from_slice(&[0xab, 0x03, 0x02, 0x01, 0x00]);
    let bytes = wrap(0x63, &wrap(0x30, &body));
    assert_eq!(EncTicketPart::decode(&bytes), Err(DerError::UnknownField));
}

#[test]
fn application_length_shorter_than_its_value() {
    let t = sample_ticket().encode().unwrap();
    let inner = &t[header_len(&t)..];
    // the application TLV claims one byte less than the SEQUENCE inside it
    let mut b = wrap(0x61, &inner[..inner.len() - 1]);
    b.push(inner[inner.len() - 1]);
    assert_eq!(Ticket::decode(&b), Err(DerError::TruncatedInput));
    let p = sample_part(None).encode().unwrap();
    let pinner = &p[header_len(&p)..];
    let mut pb = wrap(0x63, &pinner[..pinner.len() - 1]);
    pb.push(pinner[pinner.len() - 1]);
    assert_eq!(EncTicketPart::decode(&pb), Err(DerError::TruncatedInput));
}

#[test]
fn extra_bytes_inside_application_value() {
    let t = sample_ticket().encode().unwrap();
    let mut inner = t[header_len(&t)..].to_vec();
    inner.push(0);
    assert_eq!(Ticket::decode(&wrap(0x61, &inner)), Err(DerError::TrailingBytes));
}

fn tlv_len(b: &[u8]) -> usize {
    match header_len(b) {
        2 => b[1] as usize,
        3 => b[2] as usize,
        _ => ((b[2] as usize) << 8) | b[3] as usize,
    }
}

#[test]
fn nested_non_minimal_length_rejected() {
    let p = sample_part(None).encode().unwrap();
    let inner = &p[header_len(&p)..];
    let body = &inner[header_len(inner)..];
    let mut members: Vec<Vec<u8>> = Vec::new();
    let mut i = 0;
    while i < body.len() {
        let n = header_len(&body[i..]) + tlv_len(&body[i..]);
        members.push(body[i..i + n].to_vec());
        i += n;
    }
    assert_eq!(members[2][0], 0xa2);
    assert!(members[2][1] < 128);
    let mut crealm = vec![0xa2, 0x81, members[2][1]];
    crealm.extend_from_slice(&members[2][2..]);
    members[2] = crealm;
    let rebuilt: Vec<u8> = members.concat();
    let b2 = wrap(0x63, &wrap(0x30, &rebuilt));
    assert_eq!(EncTicketPart::decode(&b2), Err(DerError::InvalidLength));
}
