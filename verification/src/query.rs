//! Composing a complete query: a header carrying a fresh correlation
//! identifier, then one question record.

use crate::header::spec_header_bytes;
use crate::header::DnsHeader;
use crate::name::valid_name;
use crate::name::DomainName;
use crate::name::EncodingError;
use crate::question::spec_question_bytes;
use crate::question::DnsQuestion;
use vstd::prelude::*;
use vstd::string::StringSliceAdditionalSpecFns;

verus! {

/// The "Internet" addressing class.
pub const CLASS_IN: u16 = 1;

/// The address-lookup record type.
pub const TYPE_A: u16 = 1;

/// The flags word with only the recursion-desired bit (bit 8) set.
pub const RECURSION_DESIRED: u16 = 0x0100;

/// Relies on rand::random with its thread-local generator to draw a
/// fresh 16-bit correlation identifier; nothing is assumed about the
/// value drawn.
#[verifier::external_body]
fn fresh_query_id() -> u16 {
    rand::random()
}

/// The 16-bit value read big-endian from the byte pair `(hi, lo)`.
pub open spec fn u16_from_be_pair(hi: u8, lo: u8) -> u16 {
    (hi * 256 + lo) as u16
}

/// The header of a fresh query with identifier `id`: recursion
/// desired, one question, no other records.
pub open spec fn spec_query_header(id: u16) -> DnsHeader {
    DnsHeader {
        id,
        flags: RECURSION_DESIRED,
        num_questions: 1,
        num_answers: 0,
        num_authorities: 0,
        num_additionals: 0,
    }
}

/// The complete wire form of a query for `name` with `record_type`:
/// the header bytes, then the question bytes with the Internet class.
pub open spec fn spec_query_bytes(name: Seq<u8>, record_type: u16, id: u16) -> Seq<u8> {
    spec_header_bytes(spec_query_header(id)) + spec_question_bytes(name, record_type, CLASS_IN)
}

/// A query's total length is the 12 header bytes, then the encoded
/// name — the labels' own bytes, one length byte per label, and one
/// terminator byte — then 4 bytes of record type and class.
pub proof fn lemma_query_len(name: Seq<u8>, record_type: u16, id: u16)
    ensures
        spec_query_bytes(name, record_type, id).len() == 12 + (crate::name::sum_label_lens(
            crate::name::spec_labels(name),
        ) + crate::name::spec_labels(name).len() + 1) + 4,
{
    crate::name::lemma_encode_name_len(name);
}

/// Builds the query bytes for `domain_name` and `record_type` under
/// the given correlation identifier. Fails exactly when the name
/// holds a label longer than 255 bytes.
pub fn build_query_with_id(domain_name: &str, record_type: u16, id: u16) -> (r: Result<
    Vec<u8>,
    EncodingError,
>)
    ensures
        valid_name(domain_name.spec_bytes()) <==> r is Ok,
        r matches Ok(q) ==> q@ == spec_query_bytes(domain_name.spec_bytes(), record_type, id),
        r matches Err(e) ==> e == EncodingError::LabelTooLong,
{
    let header = DnsHeader {
        id,
        flags: RECURSION_DESIRED,
        num_questions: 1,
        num_answers: 0,
        num_authorities: 0,
        num_additionals: 0,
    };
    let name = DomainName::new(domain_name);
    let question = DnsQuestion { name, class: CLASS_IN, record_type };
    let mut buf = header.to_bytes();
    match question.to_bytes() {
        Ok(mut qb) => {
            buf.append(&mut qb);
            proof {
                assert(buf@ =~= spec_query_bytes(domain_name.spec_bytes(), record_type, id));
            }
            Ok(buf)
        },
        Err(e) => Err(e),
    }
}

/// Builds a complete query for `domain_name` and `record_type` under
/// a freshly drawn random correlation identifier. Whatever identifier
/// was drawn, it stands big-endian in the first two bytes and the
/// rest of the message is fixed by the inputs. Fails exactly when the
/// name holds a label longer than 255 bytes.
pub fn build_query(domain_name: &str, record_type: u16) -> (r: Result<Vec<u8>, EncodingError>)
    ensures
        valid_name(domain_name.spec_bytes()) <==> r is Ok,
        r matches Ok(q) ==> q@.len() >= 2 && q@ == spec_query_bytes(
            domain_name.spec_bytes(),
            record_type,
            u16_from_be_pair(q@[0], q@[1]),
        ),
        r matches Err(e) ==> e == EncodingError::LabelTooLong,
{
    let id = fresh_query_id();
    let r = build_query_with_id(domain_name, record_type, id);
    proof {
        if r is Ok {
            let q = r->Ok_0;
            assert(q@[0] == (id / 256) as u8);
            assert(q@[1] == (id % 256) as u8);
            assert(u16_from_be_pair(q@[0], q@[1]) == id);
        }
    }
    r
}

} // verus!
