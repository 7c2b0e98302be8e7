//! The fixed twelve-byte message header: six 16-bit fields, each
//! serialized big-endian in declaration order.

use vstd::prelude::*;

verus! {

/// The two bytes of `x` in big-endian order: high byte first.
pub open spec fn be16(x: u16) -> Seq<u8> {
    seq![(x / 256) as u8, (x % 256) as u8]
}

/// Appends the big-endian bytes of `x` to `buf`.
pub(crate) fn push_be16(buf: &mut Vec<u8>, x: u16)
    ensures
        final(buf)@ == old(buf)@ + be16(x),
{
    let hi: u16 = x / 256;
    let lo: u16 = x % 256;
    buf.push(hi as u8);
    buf.push(lo as u8);
    proof {
        assert(buf@ =~= old(buf)@ + be16(x));
    }
}

/// The header of a query or response message: a correlation
/// identifier, a bit-packed flags field, and four section counts.
#[derive(Debug, Clone, Copy)]
pub struct DnsHeader {
    pub id: u16,
    pub flags: u16,
    pub num_questions: u16,
    pub num_answers: u16,
    pub num_authorities: u16,
    pub num_additionals: u16,
}

/// The twelve header bytes: the six fields in declaration order,
/// each as two big-endian bytes.
pub open spec fn spec_header_bytes(h: DnsHeader) -> Seq<u8> {
    be16(h.id) + be16(h.flags) + be16(h.num_questions) + be16(h.num_answers) + be16(
        h.num_authorities,
    ) + be16(h.num_additionals)
}

impl DnsHeader {
    /// Serializes the header to its twelve-byte wire form.
    pub fn to_bytes(self) -> (r: Vec<u8>)
        ensures
            r@ == spec_header_bytes(self),
            r@.len() == 12,
    {
        let mut buf: Vec<u8> = Vec::with_capacity(12);
        push_be16(&mut buf, self.id);
        push_be16(&mut buf, self.flags);
        push_be16(&mut buf, self.num_questions);
        push_be16(&mut buf, self.num_answers);
        push_be16(&mut buf, self.num_authorities);
        push_be16(&mut buf, self.num_additionals);
        proof {
            assert(buf@ =~= spec_header_bytes(self));
        }
        buf
    }
}

} // verus!
