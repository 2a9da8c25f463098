//! DER encoding and decoding of the Kerberos `Ticket` and `EncTicketPart`
//! messages, with every codec proved against a byte-level specification.
use vstd::prelude::*;

pub mod tlv;
pub mod fields;
pub mod integer;
pub mod leaf;
pub mod element;
pub mod types;
pub mod ticket;
pub mod enc_ticket_part;

pub use tlv::{DerError, MAX_ENCODED_LEN};
pub use leaf::{KerberosTime, TicketFlags};
pub use types::{
    KerberosString, Realm, PrincipalName, EncryptionKey, EncryptedData, TransitedEncoding,
    HostAddress, AuthorizationData,
};
pub use ticket::Ticket;
pub use enc_ticket_part::EncTicketPart;

verus! {

} // verus!
