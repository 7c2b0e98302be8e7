//! The hierarchical-name encoder: a dot-delimited name becomes a
//! sequence of (length byte, label bytes) pairs closed by a zero byte.

use vstd::prelude::*;
use vstd::string::StrSliceExecFns;
use vstd::string::StringSliceAdditionalSpecFns;

verus! {

/// The label delimiter, `.` as a byte.
pub const DOT: u8 = 0x2e;

/// The longest label the one-byte length prefix can describe.
pub const MAX_LABEL_LEN: usize = 255;

/// Why a name could not be encoded.
#[derive(Debug, Clone, Copy, PartialEq, Eq)]
pub enum EncodingError {
    /// A label is longer than the one-byte length prefix allows.
    LabelTooLong,
}

/// The index of the first delimiter byte in `s`, or `s.len()` if
/// there is none.
pub open spec fn first_dot(s: Seq<u8>) -> int
    decreases s.len(),
{
    if s.len() == 0 {
        0
    } else if s[0] == DOT {
        0
    } else {
        1 + first_dot(s.drop_first())
    }
}

proof fn lemma_first_dot_le(s: Seq<u8>)
    ensures
        0 <= first_dot(s) <= s.len(),
    decreases s.len(),
{
    if s.len() != 0 && s[0] != DOT {
        lemma_first_dot_le(s.drop_first());
    }
}

/// The labels of `s`: the runs of bytes between delimiters, in input
/// order. A name without a delimiter is one label; every delimiter
/// separates two labels, either of which may be empty.
pub open spec fn spec_labels(s: Seq<u8>) -> Seq<Seq<u8>>
    decreases s.len(),
    via spec_labels_decreases
{
    let i = first_dot(s);
    if i >= s.len() {
        seq![s]
    } else {
        seq![s.take(i)] + spec_labels(s.skip(i + 1))
    }
}

#[via_fn]
proof fn spec_labels_decreases(s: Seq<u8>) {
    lemma_first_dot_le(s);
}

/// If the first `k` bytes of `s` hold no delimiter and byte `k` is a
/// delimiter (or `k` is the end), the first delimiter stands at `k`.
proof fn lemma_first_dot_at(s: Seq<u8>, k: int)
    requires
        0 <= k <= s.len(),
        forall|j: int| 0 <= j < k ==> s[j] != DOT,
        k < s.len() ==> s[k] == DOT,
    ensures
        first_dot(s) == k,
    decreases k,
{
    if k == 0 {
    } else {
        assert(s[0] != DOT);
        assert(forall|j: int| 0 <= j < k - 1 ==> s.drop_first()[j] == s[j + 1] && s.drop_first()[j]
            != DOT);
        if k - 1 < s.drop_first().len() {
            assert(s.drop_first()[k - 1] == s[k]);
        }
        lemma_first_dot_at(s.drop_first(), k - 1);
    }
}

/// If the first `k` bytes of `s` hold no delimiter and byte `k` is a
/// delimiter (or `k` is the end), the first label of `s` is exactly
/// `s.take(k)`.
proof fn lemma_labels_split(s: Seq<u8>, k: int)
    requires
        0 <= k <= s.len(),
        forall|j: int| 0 <= j < k ==> s[j] != DOT,
        k < s.len() ==> s[k] == DOT,
    ensures
        k == s.len() ==> spec_labels(s) == seq![s],
        k < s.len() ==> spec_labels(s) == seq![s.take(k)] + spec_labels(s.skip(k + 1)),
{
    lemma_first_dot_at(s, k);
}

/// The wire form of one label: its length in one byte, then its bytes.
pub open spec fn spec_encode_label(l: Seq<u8>) -> Seq<u8> {
    seq![l.len() as u8] + l
}

/// The wire form of a label sequence: each label's encoding, in order,
/// with no separators and no terminator.
pub open spec fn spec_encode_labels(ls: Seq<Seq<u8>>) -> Seq<u8>
    decreases ls.len(),
{
    if ls.len() == 0 {
        Seq::empty()
    } else {
        spec_encode_label(ls[0]) + spec_encode_labels(ls.drop_first())
    }
}

/// Whether the length of `l` fits in the one-byte prefix.
pub open spec fn label_fits(l: Seq<u8>) -> bool {
    l.len() <= 255
}

/// Whether every label of the sequence fits.
pub open spec fn valid_labels(ls: Seq<Seq<u8>>) -> bool {
    forall|i: int| 0 <= i < ls.len() ==> label_fits(#[trigger] ls[i])
}

/// Whether every label of the name `s` fits.
pub open spec fn valid_name(s: Seq<u8>) -> bool {
    valid_labels(spec_labels(s))
}

/// The full wire form of the name `s`: its labels' encodings followed
/// by one zero byte.
pub open spec fn spec_encode_name(s: Seq<u8>) -> Seq<u8> {
    spec_encode_labels(spec_labels(s)) + seq![0u8]
}

proof fn lemma_encode_labels_push(ls: Seq<Seq<u8>>, l: Seq<u8>)
    ensures
        spec_encode_labels(ls.push(l)) == spec_encode_labels(ls) + spec_encode_label(l),
    decreases ls.len(),
{
    let p = ls.push(l);
    if ls.len() == 0 {
        assert(p[0] == l);
        assert(p.drop_first() =~= Seq::<Seq<u8>>::empty());
        assert(spec_encode_labels(p.drop_first()) == Seq::<u8>::empty());
        assert(spec_encode_labels(p) =~= spec_encode_label(l));
        assert(spec_encode_labels(ls) == Seq::<u8>::empty());
        assert(spec_encode_labels(ls) + spec_encode_label(l) =~= spec_encode_label(l));
    } else {
        assert(p[0] == ls[0]);
        assert(p.drop_first() =~= ls.drop_first().push(l));
        lemma_encode_labels_push(ls.drop_first(), l);
        assert(spec_encode_labels(p) == spec_encode_label(ls[0]) + spec_encode_labels(
            p.drop_first(),
        ));
        assert(spec_encode_labels(ls) == spec_encode_label(ls[0]) + spec_encode_labels(
            ls.drop_first(),
        ));
        assert(spec_encode_labels(p) =~= spec_encode_labels(ls) + spec_encode_label(l));
    }
}

/// The total number of bytes across the labels.
pub open spec fn sum_label_lens(ls: Seq<Seq<u8>>) -> nat
    decreases ls.len(),
{
    if ls.len() == 0 {
        0
    } else {
        ls[0].len() + sum_label_lens(ls.drop_first())
    }
}

/// The encoded labels occupy one length byte per label plus the
/// labels' own bytes.
pub proof fn lemma_encode_labels_len(ls: Seq<Seq<u8>>)
    ensures
        spec_encode_labels(ls).len() == sum_label_lens(ls) + ls.len(),
    decreases ls.len(),
{
    if ls.len() != 0 {
        lemma_encode_labels_len(ls.drop_first());
    }
}

/// The encoded name occupies one length byte per label, the labels'
/// own bytes, and one terminator byte.
pub proof fn lemma_encode_name_len(s: Seq<u8>)
    ensures
        spec_encode_name(s).len() == sum_label_lens(spec_labels(s)) + spec_labels(s).len() + 1,
{
    lemma_encode_labels_len(spec_labels(s));
}

/// Reading an encoding back: repeatedly take a length byte and that
/// many label bytes, until a zero length byte ends the name; `None`
/// when the bytes run out first.
pub open spec fn spec_decode_labels(enc: Seq<u8>) -> Option<Seq<Seq<u8>>>
    decreases enc.len(),
{
    if enc.len() == 0 {
        None
    } else if enc[0] == 0 {
        Some(Seq::empty())
    } else if enc.len() < 1 + enc[0] {
        None
    } else {
        match spec_decode_labels(enc.skip(1 + enc[0] as int)) {
            Some(rest) => Some(seq![enc.subrange(1, 1 + enc[0] as int)] + rest),
            None => None,
        }
    }
}

/// Decoding inverts encoding: when every label is nonempty and fits
/// in its length byte, reading the encoded form back yields exactly
/// the original label sequence. An empty label is excluded because it
/// encodes as a zero length byte, which reads back as the terminator.
pub proof fn lemma_decode_encode_labels(ls: Seq<Seq<u8>>)
    requires
        forall|i: int| 0 <= i < ls.len() ==> 1 <= (#[trigger] ls[i]).len() <= 255,
    ensures
        spec_decode_labels(spec_encode_labels(ls) + seq![0u8]) == Some(ls),
    decreases ls.len(),
{
    let enc = spec_encode_labels(ls) + seq![0u8];
    if ls.len() == 0 {
        assert(enc =~= seq![0u8]);
    } else {
        let l = ls[0];
        let n = l.len() as int;
        assert(spec_encode_labels(ls) == spec_encode_label(l) + spec_encode_labels(
            ls.drop_first(),
        ));
        assert(enc[0] == l.len() as u8);
        assert(enc[0] as int == n);
        lemma_encode_labels_len(ls.drop_first());
        assert(enc.len() == 1 + n + spec_encode_labels(ls.drop_first()).len() + 1);
        assert(enc.subrange(1, 1 + n) =~= l);
        assert(enc.skip(1 + n) =~= spec_encode_labels(ls.drop_first()) + seq![0u8]);
        lemma_decode_encode_labels(ls.drop_first());
        assert(seq![l] + ls.drop_first() =~= ls);
    }
}

/// The round trip at the level of a whole name: decoding the name's
/// wire form recovers its label sequence, provided no label is empty
/// and every label fits in its length byte.
pub proof fn lemma_decode_encode_name(s: Seq<u8>)
    requires
        forall|i: int|
            0 <= i < spec_labels(s).len() ==> 1 <= (#[trigger] spec_labels(s)[i]).len() <= 255,
    ensures
        spec_decode_labels(spec_encode_name(s)) == Some(spec_labels(s)),
{
    lemma_decode_encode_labels(spec_labels(s));
}

/// A dot-separated hierarchical name, held as the text it was given.
/// Its view is the byte sequence of that text.
#[derive(Debug, Clone)]
pub struct DomainName(String);

impl View for DomainName {
    type V = Seq<u8>;

    closed spec fn view(&self) -> Seq<u8> {
        vstd::utf8::encode_utf8(self.0@)
    }
}

impl From<String> for DomainName {
    fn from(value: String) -> (r: Self) {
        DomainName(value)
    }
}

impl vstd::std_specs::convert::FromSpecImpl<String> for DomainName {
    open spec fn obeys_from_spec() -> bool {
        true
    }

    closed spec fn from_spec(value: String) -> Self {
        DomainName(value)
    }
}

/// Splits `bytes` on the delimiter into its labels, in input order.
fn split_labels(bytes: &Vec<u8>) -> (r: Vec<Vec<u8>>)
    ensures
        r@.map_values(|l: Vec<u8>| l@) == spec_labels(bytes@),
{
    let mut labels: Vec<Vec<u8>> = Vec::new();
    let mut cur: Vec<u8> = Vec::new();
    let ghost mut start: int = 0;
    let mut i: usize = 0;
    proof {
        assert(bytes@.skip(0) =~= bytes@);
        assert(cur@ =~= bytes@.subrange(0, 0));
        assert(labels@.map_values(|l: Vec<u8>| l@) + spec_labels(bytes@) =~= spec_labels(bytes@));
    }
    while i < bytes.len()
        invariant
            0 <= start <= i <= bytes@.len(),
            cur@ == bytes@.subrange(start, i as int),
            forall|j: int| start <= j < i ==> bytes@[j] != DOT,
            spec_labels(bytes@) == labels@.map_values(|l: Vec<u8>| l@) + spec_labels(
                bytes@.skip(start),
            ),
        decreases bytes@.len() - i,
    {
        let b = bytes[i];
        if b == DOT {
            proof {
                let s = bytes@.skip(start);
                let k = i - start;
                assert(forall|j: int| 0 <= j < k ==> s[j] == bytes@[start + j] && s[j] != DOT);
                assert(s[k] == bytes@[i as int]);
                lemma_labels_split(s, k);
                assert(s.take(k) =~= cur@);
                assert(s.skip(k + 1) =~= bytes@.skip(i + 1));
            }
            let ghost old_labels = labels@;
            let ghost done = cur@;
            labels.push(cur);
            cur = Vec::new();
            proof {
                start = i + 1;
                assert(labels@.map_values(|l: Vec<u8>| l@) =~= old_labels.map_values(
                    |l: Vec<u8>| l@,
                ).push(done));
                assert(cur@ =~= bytes@.subrange(start, i + 1));
            }
        } else {
            cur.push(b);
            proof {
                assert(cur@ =~= bytes@.subrange(start, i + 1));
            }
        }
        i += 1;
    }
    proof {
        let s = bytes@.skip(start);
        let k = i - start;
        assert(forall|j: int| 0 <= j < k ==> s[j] == bytes@[start + j] && s[j] != DOT);
        lemma_labels_split(s, k);
        assert(s =~= cur@);
    }
    let ghost old_labels = labels@;
    let ghost done = cur@;
    labels.push(cur);
    proof {
        assert(labels@.map_values(|l: Vec<u8>| l@) =~= old_labels.map_values(
            |l: Vec<u8>| l@,
        ).push(done));
        assert(labels@.map_values(|l: Vec<u8>| l@) =~= spec_labels(bytes@));
    }
    labels
}

/// Encodes each label as a length byte and its bytes, rejecting any
/// label longer than the prefix can describe.
fn encode_labels(labels: &Vec<Vec<u8>>) -> (r: Result<Vec<u8>, EncodingError>)
    ensures
        valid_labels(labels@.map_values(|l: Vec<u8>| l@)) <==> r is Ok,
        r matches Ok(b) ==> b@ == spec_encode_labels(labels@.map_values(|l: Vec<u8>| l@)),
        r matches Err(e) ==> e == EncodingError::LabelTooLong,
{
    let ghost ls = labels@.map_values(|l: Vec<u8>| l@);
    let mut buf: Vec<u8> = Vec::new();
    let mut i: usize = 0;
    while i < labels.len()
        invariant
            0 <= i <= labels@.len(),
            ls == labels@.map_values(|l: Vec<u8>| l@),
            forall|j: int| 0 <= j < i ==> label_fits(#[trigger] ls[j]),
            buf@ == spec_encode_labels(ls.take(i as int)),
        decreases labels@.len() - i,
    {
        let lab: &Vec<u8> = &labels[i];
        if lab.len() > MAX_LABEL_LEN {
            proof {
                assert(!label_fits(ls[i as int]));
            }
            return Err(EncodingError::LabelTooLong);
        }
        buf.push(lab.len() as u8);
        buf.extend_from_slice(lab.as_slice());
        proof {
            lemma_encode_labels_push(ls.take(i as int), ls[i as int]);
            assert(ls.take(i + 1) =~= ls.take(i as int).push(ls[i as int]));
            assert(buf@ =~= spec_encode_labels(ls.take(i as int)) + spec_encode_label(
                ls[i as int],
            ));
        }
        i += 1;
    }
    proof {
        assert(ls.take(ls.len() as int) =~= ls);
    }
    Ok(buf)
}

impl DomainName {
    /// Wraps the given text as a hierarchical name, unvalidated.
    pub fn new(domain_name: &str) -> (r: Self)
        ensures
            r@ == domain_name.spec_bytes(),
    {
        DomainName(domain_name.to_owned())
    }

    /// Serializes the name to its wire form: for each dot-separated
    /// label a length byte and the label's bytes, then a zero byte.
    /// A label longer than 255 bytes is rejected as `LabelTooLong`.
    ///
    /// An empty label — from a repeated, leading or trailing
    /// delimiter, or from an empty name — is not rejected: it is
    /// encoded faithfully as a zero length byte. Whether such names
    /// should instead be refused is left open; note that their
    /// encoding does not read back correctly, since a zero length
    /// byte doubles as the terminator.
    pub fn encode_dns_name(&self) -> (r: Result<Vec<u8>, EncodingError>)
        ensures
            valid_name(self@) <==> r is Ok,
            r matches Ok(b) ==> b@ == spec_encode_name(self@),
            r matches Err(e) ==> e == EncodingError::LabelTooLong,
    {
        let bytes: Vec<u8> = self.0.as_str().as_bytes_vec();
        let labels = split_labels(&bytes);
        match encode_labels(&labels) {
            Ok(mut buf) => {
                buf.push(0u8);
                proof {
                    assert(buf@ =~= spec_encode_name(self@));
                }
                Ok(buf)
            },
            Err(e) => Err(e),
        }
    }
}

} // verus!

