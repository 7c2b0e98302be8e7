//! The question record: an encoded name followed by the record type
//! and class, each as two big-endian bytes.

use crate::header::be16;
use crate::header::push_be16;
use crate::name::spec_encode_name;
use crate::name::valid_name;
use crate::name::DomainName;
use crate::name::EncodingError;
use vstd::prelude::*;

verus! {

/// One question of a query: the name asked about, the record type
/// requested, and the addressing class.
#[derive(Debug, Clone)]
pub struct DnsQuestion {
    pub name: DomainName,
    pub class: u16,
    pub record_type: u16,
}

/// The wire form of a question: the encoded name, then the type and
/// the class — type first, though the struct declares class first.
pub open spec fn spec_question_bytes(name: Seq<u8>, record_type: u16, class: u16) -> Seq<u8> {
    spec_encode_name(name) + be16(record_type) + be16(class)
}

impl DnsQuestion {
    /// Serializes the question to its wire form. Fails exactly when
    /// the name holds a label longer than 255 bytes.
    pub fn to_bytes(&self) -> (r: Result<Vec<u8>, EncodingError>)
        ensures
            valid_name(self.name@) <==> r is Ok,
            r matches Ok(b) ==> b@ == spec_question_bytes(self.name@, self.record_type, self.class),
            r matches Err(e) ==> e == EncodingError::LabelTooLong,
    {
        match self.name.encode_dns_name() {
            Ok(mut buf) => {
                push_be16(&mut buf, self.record_type);
                push_be16(&mut buf, self.class);
                proof {
                    assert(buf@ =~= spec_question_bytes(self.name@, self.record_type, self.class));
                }
                Ok(buf)
            },
            Err(e) => Err(e),
        }
    }
}

} // verus!
