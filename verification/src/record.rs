//! The structural record capability: what a record type must provide so that
//! the framed codec can cut one record off the front of a byte buffer.

use vstd::prelude::*;

verus! {

/// Why a structural decode of the leading bytes failed.
///
/// A buffer that merely does not yet hold a record's full length-prefixed
/// span surfaces as `InputTooShort`; the remaining variants report bytes that
/// no extension can turn into a record. The framing layer does not tell the
/// two situations apart: both are surfaced to the caller, who decides whether
/// more input is forthcoming.
#[derive(Clone, Copy, Debug)]
pub enum StructuralError {
    /// The buffer ends before the record's length-prefixed span does.
    InputTooShort,
    /// A numeric payload does not fit the record's field.
    Overflow,
    /// A numeric payload carries a forbidden leading zero byte.
    LeadingZero,
    /// A single-byte payload that should have been inlined was not.
    NonCanonicalSingleByte,
    /// A length was written wider than necessary.
    NonCanonicalSize,
    /// A span's length does not match what its header announced.
    UnexpectedLength,
    /// A string was found where another shape was expected.
    UnexpectedString,
    /// A list was found where another shape was expected.
    UnexpectedList,
    /// A list's payload length disagrees with the sum of its items.
    ListLengthMismatch {
        /// The item count the header announced.
        expected: usize,
        /// The item count actually present.
        got: usize,
    },
    /// Any other structural fault, with a short description.
    Custom(&'static str),
}

/// A record that can be cut from, and appended to, a raw byte stream.
///
/// `enc` is the record's canonical serialized form. The three laws make the
/// encoding a prefix code: no record's encoding is empty or a strict prefix
/// of another's, and equal encodings mean equal records. Together they
/// guarantee that a buffer determines at most one leading record, which is
/// what lets the framed codec promise a unique parse.
pub trait Record: Sized {
    /// The record's canonical serialized byte form.
    spec fn enc(&self) -> Seq<u8>;

    /// An encoding is never empty.
    proof fn lemma_enc_nonempty(&self)
        ensures
            self.enc().len() > 0,
    ;

    /// Encodings form a prefix code: one encoding leading another means they
    /// are the same encoding.
    proof fn lemma_enc_prefix_free(&self, other: &Self)
        requires
            self.enc().is_prefix_of(other.enc()),
        ensures
            self.enc() == other.enc(),
    ;

    /// An encoding determines its record.
    proof fn lemma_enc_injective(&self, other: &Self)
        requires
            self.enc() == other.enc(),
        ensures
            self == other,
    ;

    /// Attempt to parse one record off the front of `buf`, reporting how many
    /// leading bytes its encoding occupies. Succeeds exactly when some
    /// record's encoding leads the buffer, and then consumes that encoding
    /// and no more.
    fn decode_prefix(buf: &[u8]) -> (r: Result<(Self, usize), StructuralError>)
        ensures
            r matches Ok((rec, n)) ==> {
                &&& n == rec.enc().len()
                &&& n <= buf@.len()
                &&& buf@.take(n as int) == rec.enc()
            },
            r is Err ==> forall|rec: Self| !(#[trigger] rec.enc()).is_prefix_of(buf@),
    ;

    /// Append the record's canonical encoding to `out`, leaving what is
    /// already there untouched.
    fn encode_to(&self, out: &mut Vec<u8>)
        ensures
            final(out)@ == old(out)@ + self.enc(),
    ;
}

/// Some record's encoding leads the byte sequence `s`.
pub open spec fn starts_with_record<B: Record>(s: Seq<u8>) -> bool {
    exists|rec: B| (#[trigger] rec.enc()).is_prefix_of(s)
}

} // verus!
