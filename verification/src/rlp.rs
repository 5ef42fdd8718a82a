//! A concrete record type: `u64`, carried in the stream as its canonical RLP
//! encoding. The encoding is pinned down by the spec function [`rlp_u64`];
//! the executable encoder and decoder are `alloy_rlp`'s, reached through
//! trusted wrappers whose contracts speak of that spec function.

use vstd::prelude::*;
use vstd::arithmetic::div_mod::{lemma_fundamental_div_mod, lemma_multiply_divide_lt};
use crate::record::{Record, StructuralError, starts_with_record};

verus! {

/// The minimal big-endian byte form of `v`: no leading zero byte, empty
/// exactly when `v` is zero.
pub open spec fn be_bytes(v: nat) -> Seq<u8>
    decreases v,
{
    if v == 0 {
        Seq::empty()
    } else {
        be_bytes(v / 256) + seq![(v % 256) as u8]
    }
}

/// `256^k`: the bound under which a value's minimal big-endian form fits in
/// `k` bytes.
pub open spec fn pow256(k: nat) -> nat
    decreases k,
{
    if k == 0 {
        1
    } else {
        256 * pow256((k - 1) as nat)
    }
}

/// The canonical RLP encoding of a `u64`: zero is the empty-string code
/// `0x80`; a value below `0x80` is its own single byte; anything larger is a
/// `0x80 + length` header followed by the minimal big-endian bytes.
pub open spec fn rlp_u64(v: u64) -> Seq<u8> {
    if v == 0 {
        seq![0x80u8]
    } else if v < 0x80 {
        seq![v as u8]
    } else {
        seq![(0x80 + be_bytes(v as nat).len()) as u8] + be_bytes(v as nat)
    }
}

/// A value below `256^k` needs at most `k` big-endian bytes.
proof fn lemma_be_bytes_len(v: nat, k: nat)
    requires
        v < pow256(k),
    ensures
        be_bytes(v).len() <= k,
    decreases k,
{
    if v == 0 {
    } else {
        assert(k > 0) by {
            if k == 0 {
                assert(pow256(0) == 1);
            }
        }
        lemma_multiply_divide_lt(v as int, 256, pow256((k - 1) as nat) as int);
        lemma_be_bytes_len(v / 256, (k - 1) as nat);
    }
}

/// The minimal big-endian form determines its value.
proof fn lemma_be_bytes_injective(a: nat, b: nat)
    requires
        be_bytes(a) == be_bytes(b),
    ensures
        a == b,
    decreases a,
{
    if a == 0 {
        if b != 0 {
            assert(be_bytes(b).len() >= 1);
        }
    } else if b == 0 {
        assert(be_bytes(a).len() >= 1);
    } else {
        let sa = be_bytes(a / 256);
        let sb = be_bytes(b / 256);
        assert(be_bytes(a) == sa + seq![(a % 256) as u8]);
        assert(be_bytes(b) == sb + seq![(b % 256) as u8]);
        assert(sa.len() == sb.len());
        assert(sa =~= (sa + seq![(a % 256) as u8]).subrange(0, sa.len() as int));
        assert(sb =~= (sb + seq![(b % 256) as u8]).subrange(0, sb.len() as int));
        assert(sa == sb);
        lemma_be_bytes_injective(a / 256, b / 256);
        assert((sa + seq![(a % 256) as u8])[sa.len() as int] == (a % 256) as u8);
        assert((sb + seq![(b % 256) as u8])[sb.len() as int] == (b % 256) as u8);
        assert((a % 256) as u8 == (b % 256) as u8);
        assert(a % 256 < 256);
        assert(b % 256 < 256);
        assert(a % 256 == b % 256);
        lemma_fundamental_div_mod(a as int, 256);
        lemma_fundamental_div_mod(b as int, 256);
    }
}

/// The shape of a `u64`'s RLP encoding: one to nine bytes, and above `0x7f`
/// a header byte `0x81..=0x88` followed by the minimal big-endian bytes.
pub proof fn lemma_rlp_u64_shape(v: u64)
    ensures
        1 <= rlp_u64(v).len() <= 9,
        v == 0 ==> rlp_u64(v) == seq![0x80u8],
        0 < v < 0x80 ==> rlp_u64(v) == seq![v as u8],
        v < 0x80 ==> rlp_u64(v).len() == 1 && rlp_u64(v)[0] <= 0x80,
        v >= 0x80 ==> 1 <= be_bytes(v as nat).len() <= 8
            && rlp_u64(v).len() == 1 + be_bytes(v as nat).len()
            && rlp_u64(v)[0] == (0x80 + be_bytes(v as nat).len()) as u8
            && 0x81 <= rlp_u64(v)[0] <= 0x88
            && rlp_u64(v).subrange(1, rlp_u64(v).len() as int) =~= be_bytes(v as nat),
{
    if v >= 0x80 {
        assert(pow256(8) == 0x10000000000000000) by {
            reveal_with_fuel(pow256, 9);
        }
        lemma_be_bytes_len(v as nat, 8);
        assert(be_bytes(v as nat).len() >= 1);
        let m = be_bytes(v as nat);
        let e = seq![(0x80 + m.len()) as u8] + m;
        assert(e[0] == (0x80 + m.len()) as u8);
        assert(e.subrange(1, e.len() as int) =~= m);
    }
}

/// The `u64` RLP encodings form a prefix code.
pub proof fn lemma_rlp_u64_prefix_free(a: u64, b: u64)
    requires
        rlp_u64(a).is_prefix_of(rlp_u64(b)),
    ensures
        rlp_u64(a) == rlp_u64(b),
{
    lemma_rlp_u64_shape(a);
    lemma_rlp_u64_shape(b);
    let ea = rlp_u64(a);
    let eb = rlp_u64(b);
    assert(ea[0] == eb.subrange(0, ea.len() as int)[0]);
    assert(ea[0] == eb[0]);
    if a >= 0x80 {
        assert(b >= 0x80);
        assert(be_bytes(a as nat).len() == be_bytes(b as nat).len());
        assert(ea.len() == eb.len());
        assert(ea =~= eb);
    } else {
        if b >= 0x80 {
            assert(ea[0] <= 0x80 && eb[0] >= 0x81);
        }
        assert(ea.len() == 1 && eb.len() == 1);
        assert(ea =~= eb);
    }
}

/// A `u64`'s RLP encoding determines the value.
pub proof fn lemma_rlp_u64_injective(a: u64, b: u64)
    requires
        rlp_u64(a) == rlp_u64(b),
    ensures
        a == b,
{
    lemma_rlp_u64_shape(a);
    lemma_rlp_u64_shape(b);
    let ea = rlp_u64(a);
    let eb = rlp_u64(b);
    if a >= 0x80 {
        assert(b >= 0x80);
        assert(be_bytes(a as nat) =~= ea.subrange(1, ea.len() as int));
        assert(be_bytes(b as nat) =~= eb.subrange(1, eb.len() as int));
        assert(be_bytes(a as nat) == be_bytes(b as nat));
        lemma_be_bytes_injective(a as nat, b as nat);
    } else {
        assert(b < 0x80);
        if a == 0 {
            assert(eb[0] == 0x80);
            if b != 0 {
                assert(eb[0] == b as u8 && b < 0x80);
            }
        } else {
            assert(ea[0] == a as u8 && a < 0x80);
            if b == 0 {
                assert(eb[0] == 0x80);
            } else {
                assert(a as u8 == b as u8);
            }
        }
    }
}

#[verifier::external_type_specification]
#[verifier::external_body]
pub struct ExRlpError(alloy_rlp::Error);

/// Relies on `alloy_rlp::Decodable` for `u64`: it parses exactly one
/// canonical RLP integer off the front of the input, leaving the rest of the
/// slice, and fails exactly when no canonical RLP `u64` encoding leads the
/// input (truncated input included). The returned count is the length of the
/// unread remainder.
#[verifier::external_body]
fn rlp_decode_u64(buf: &[u8]) -> (r: Result<(u64, usize), alloy_rlp::Error>)
    ensures
        r matches Ok((v, rem)) ==> rlp_u64(v).is_prefix_of(buf@) && rem + rlp_u64(v).len()
            == buf@.len(),
        r is Err ==> forall|v: u64| !(#[trigger] rlp_u64(v)).is_prefix_of(buf@),
{
    let mut rest = buf;
    match <u64 as alloy_rlp::Decodable>::decode(&mut rest) {
        Ok(v) => Ok((v, rest.len())),
        Err(e) => Err(e),
    }
}

/// Relies on `alloy_rlp::Error`'s variants: each one is carried over to the
/// library's structural error, field for field.
#[verifier::external_body]
fn structural_error_of(e: alloy_rlp::Error) -> (r: StructuralError) {
    match e {
        alloy_rlp::Error::Overflow => StructuralError::Overflow,
        alloy_rlp::Error::LeadingZero => StructuralError::LeadingZero,
        alloy_rlp::Error::InputTooShort => StructuralError::InputTooShort,
        alloy_rlp::Error::NonCanonicalSingleByte => StructuralError::NonCanonicalSingleByte,
        alloy_rlp::Error::NonCanonicalSize => StructuralError::NonCanonicalSize,
        alloy_rlp::Error::UnexpectedLength => StructuralError::UnexpectedLength,
        alloy_rlp::Error::UnexpectedString => StructuralError::UnexpectedString,
        alloy_rlp::Error::UnexpectedList => StructuralError::UnexpectedList,
        alloy_rlp::Error::ListLengthMismatch { expected, got } => {
            StructuralError::ListLengthMismatch { expected, got }
        },
        alloy_rlp::Error::Custom(msg) => StructuralError::Custom(msg),
    }
}

/// Relies on `alloy_rlp::Encodable` for `u64`: it appends the canonical RLP
/// encoding of the integer — `0x80` for zero, the byte itself below `0x80`,
/// else a `0x80 + length` header followed by the minimal big-endian bytes —
/// and touches nothing already in `out`.
#[verifier::external_body]
fn rlp_encode_u64(v: u64, out: &mut Vec<u8>)
    ensures
        final(out)@ == old(out)@ + rlp_u64(v),
{
    alloy_rlp::Encodable::encode(&v, out);
}

impl Record for u64 {
    open spec fn enc(&self) -> Seq<u8> {
        rlp_u64(*self)
    }

    proof fn lemma_enc_nonempty(&self) {
        lemma_rlp_u64_shape(*self);
    }

    proof fn lemma_enc_prefix_free(&self, other: &Self) {
        lemma_rlp_u64_prefix_free(*self, *other);
    }

    proof fn lemma_enc_injective(&self, other: &Self) {
        lemma_rlp_u64_injective(*self, *other);
    }

    fn decode_prefix(buf: &[u8]) -> (r: Result<(Self, usize), StructuralError>) {
        match rlp_decode_u64(buf) {
            Ok((v, rem)) => {
                let n: usize = buf.len() - rem;
                proof {
                    assert(buf@.take(n as int) =~= rlp_u64(v));
                }
                Ok((v, n))
            },
            Err(e) => {
                proof {
                    assert forall|rec: u64| !(#[trigger] rec.enc()).is_prefix_of(buf@) by {
                        assert(!rlp_u64(rec).is_prefix_of(buf@));
                    }
                }
                Err(structural_error_of(e))
            },
        }
    }

    fn encode_to(&self, out: &mut Vec<u8>) {
        rlp_encode_u64(*self, out);
    }
}

} // verus!
