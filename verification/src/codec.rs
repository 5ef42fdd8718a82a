//! The framed record codec: a stateless transformation that cuts one leading
//! record off an accumulation buffer, or appends one record's encoding to an
//! output sink. Record boundaries are not marked out of band; they are
//! derived from each record's own length-prefixed encoding, so the decoder
//! recognises a buffer that does not yet hold a complete record and reports
//! it instead of handing back a partial parse.

use vstd::prelude::*;
use crate::record::{Record, StructuralError, starts_with_record};

verus! {

/// A parse failure surfaced by [`RecordCodec::decode`]: the structural
/// decoder's verdict on the leading bytes, together with a verbatim snapshot
/// of the buffer at the time of failure, so malformed input can be diagnosed
/// offline.
#[derive(Debug)]
pub struct FramedError {
    /// The structural decoder's verdict.
    pub cause: StructuralError,
    /// The buffer contents when the failure was observed.
    pub bytes: Vec<u8>,
}

/// The codec itself. It holds no state across calls: every decode either
/// consumes exactly one record's encoding from the front of the buffer or
/// consumes nothing, and the record type is fixed per codec instance.
pub struct RecordCodec<B> {
    /// The record type the codec is fixed to; no run-time state.
    pub marker: core::marker::PhantomData<B>,
}

/// Decoding is deterministic: a buffer that begins with one record's
/// encoding begins with no other's, so any two parses of the same bytes
/// agree on the record and on the remainder.
pub proof fn lemma_decode_deterministic<B: Record>(s: Seq<u8>, a: B, sa: Seq<u8>, b: B, sb: Seq<u8>)
    requires
        s == a.enc() + sa,
        s == b.enc() + sb,
    ensures
        a == b,
        sa == sb,
{
    if a.enc().len() <= b.enc().len() {
        assert forall|i: int| 0 <= i < a.enc().len() implies a.enc()[i] == b.enc().subrange(
            0,
            a.enc().len() as int,
        )[i] by {
            assert(a.enc()[i] == s[i]);
            assert(b.enc()[i] == s[i]);
        }
        assert(a.enc() =~= b.enc().subrange(0, a.enc().len() as int));
        a.lemma_enc_prefix_free(&b);
    } else {
        assert forall|i: int| 0 <= i < b.enc().len() implies b.enc()[i] == a.enc().subrange(
            0,
            b.enc().len() as int,
        )[i] by {
            assert(b.enc()[i] == s[i]);
            assert(a.enc()[i] == s[i]);
        }
        assert(b.enc() =~= a.enc().subrange(0, b.enc().len() as int));
        b.lemma_enc_prefix_free(&a);
    }
    a.lemma_enc_injective(&b);
    assert(a.enc() == b.enc());
    assert((a.enc() + sa).len() == a.enc().len() + sa.len());
    assert((b.enc() + sb).len() == b.enc().len() + sb.len());
    assert(sa.len() == sb.len());
    assert forall|i: int| 0 <= i < sa.len() implies sa[i] == sb[i] by {
        assert((a.enc() + sa)[a.enc().len() + i] == sa[i]);
        assert((b.enc() + sb)[b.enc().len() + i] == sb[i]);
    }
    assert(sa =~= sb);
}

/// Truncation is rejected, not misread: a strict prefix of a record's
/// encoding is led by no record's encoding at all, so decoding exactly those
/// bytes (when there are any) surfaces a parse error rather than a record.
pub proof fn lemma_truncated_prefix_rejected<B: Record>(rec: B, p: Seq<u8>)
    requires
        p.len() < rec.enc().len(),
        p == rec.enc().take(p.len() as int),
    ensures
        !starts_with_record::<B>(p),
{
    assert forall|q: B| !(#[trigger] q.enc()).is_prefix_of(p) by {
        if q.enc().is_prefix_of(p) {
            assert forall|i: int| 0 <= i < q.enc().len() implies q.enc()[i] == rec.enc().subrange(
                0,
                q.enc().len() as int,
            )[i] by {
                assert(q.enc()[i] == p.subrange(0, q.enc().len() as int)[i]);
                assert(p[i] == rec.enc().take(p.len() as int)[i]);
            }
            assert(q.enc() =~= rec.enc().subrange(0, q.enc().len() as int));
            q.lemma_enc_prefix_free(&rec);
        }
    }
}

/// Concatenated encodings come back in order: however a buffer holding
/// exactly three records' encodings is split into three successful decode
/// steps, the steps recover those records, in order, and leave the buffer
/// empty.
pub proof fn lemma_concatenated_records<B: Record>(
    r1: B,
    r2: B,
    r3: B,
    q1: B,
    q2: B,
    q3: B,
    s1: Seq<u8>,
    s2: Seq<u8>,
    s3: Seq<u8>,
)
    requires
        r1.enc() + r2.enc() + r3.enc() == q1.enc() + s1,
        s1 == q2.enc() + s2,
        s2 == q3.enc() + s3,
    ensures
        q1 == r1,
        q2 == r2,
        q3 == r3,
        s1 == r2.enc() + r3.enc(),
        s2 == r3.enc(),
        s3.len() == 0,
{
    assert(r1.enc() + r2.enc() + r3.enc() =~= r1.enc() + (r2.enc() + r3.enc()));
    lemma_decode_deterministic::<B>(
        r1.enc() + r2.enc() + r3.enc(),
        r1,
        r2.enc() + r3.enc(),
        q1,
        s1,
    );
    lemma_decode_deterministic::<B>(s1, r2, r3.enc(), q2, s2);
    assert(r3.enc() =~= r3.enc() + Seq::<u8>::empty());
    lemma_decode_deterministic::<B>(s2, r3, Seq::<u8>::empty(), q3, s3);
}

/// A fresh byte vector with the same contents.
fn copy_bytes(src: &Vec<u8>) -> (r: Vec<u8>)
    ensures
        r@ == src@,
{
    let mut out: Vec<u8> = Vec::new();
    let mut i: usize = 0;
    while i < src.len()
        invariant
            i <= src@.len(),
            out@ == src@.take(i as int),
        decreases src@.len() - i,
    {
        out.push(src[i]);
        proof {
            assert(src@.take(i as int).push(src@[i as int]) =~= src@.take(i + 1int));
        }
        i = i + 1;
    }
    proof {
        assert(src@.take(src@.len() as int) =~= src@);
    }
    out
}

impl<B: Record> RecordCodec<B> {
    /// A fresh codec.
    pub fn new() -> (r: Self)
        ensures
            r == (RecordCodec::<B> { marker: core::marker::PhantomData }),
    {
        RecordCodec { marker: core::marker::PhantomData }
    }

    /// Attempt to cut one record off the front of the accumulation buffer.
    ///
    /// An empty buffer is the idle signal: no record, no error, buffer
    /// untouched. Otherwise, exactly when some record's encoding leads the
    /// buffer, that unique record is returned and precisely its encoding is
    /// evicted from the front, so the bytes consumed plus the bytes remaining
    /// account for every byte that was present. When no record's encoding
    /// leads a nonempty buffer — the bytes are truncated or malformed; the
    /// two are deliberately not told apart here — the buffer is left
    /// untouched and the error carries the structural cause together with a
    /// verbatim snapshot of the buffer.
    pub fn decode(&self, src: &mut Vec<u8>) -> (r: Result<Option<B>, FramedError>)
        ensures
            old(src)@.len() == 0 ==> r == Ok::<Option<B>, FramedError>(None) && final(src)@
                == old(src)@,
            r == Ok::<Option<B>, FramedError>(None) ==> old(src)@.len() == 0,
            r matches Ok(Some(rec)) ==> rec.enc().is_prefix_of(old(src)@) && final(src)@
                == old(src)@.skip(rec.enc().len() as int) && rec.enc().len() + final(src)@.len()
                == old(src)@.len(),
            r is Err <==> old(src)@.len() > 0 && !starts_with_record::<B>(old(src)@),
            r matches Err(e) ==> e.bytes@ == old(src)@ && final(src)@ == old(src)@,
            forall|rec: B, suffix: Seq<u8>|
                old(src)@ == #[trigger] (rec.enc() + suffix) ==> r == Ok::<Option<B>, FramedError>(
                    Some(rec),
                ) && final(src)@ == suffix,
    {
        if src.len() == 0 {
            proof {
                assert forall|rec: B, suffix: Seq<u8>|
                    src@ != #[trigger] (rec.enc() + suffix) by {
                    rec.lemma_enc_nonempty();
                }
            }
            return Ok(None);
        }
        let ghost before = src@;
        match B::decode_prefix(src.as_slice()) {
            Ok((rec, n)) => {
                let tail = src.split_off(n);
                *src = tail;
                proof {
                    assert(rec.enc().is_prefix_of(before));
                    assert(src@ =~= before.skip(rec.enc().len() as int));
                    assert(starts_with_record::<B>(before));
                    assert(before =~= rec.enc() + src@);
                    assert forall|rec2: B, suffix: Seq<u8>|
                        before == #[trigger] (rec2.enc() + suffix) implies rec2 == rec && suffix
                        == src@ by {
                        lemma_decode_deterministic::<B>(before, rec, src@, rec2, suffix);
                    }
                }
                Ok(Some(rec))
            },
            Err(cause) => {
                let bytes = copy_bytes(src);
                proof {
                    assert(!starts_with_record::<B>(before));
                    assert forall|rec2: B, suffix: Seq<u8>|
                        before != #[trigger] (rec2.enc() + suffix) by {
                        if before == rec2.enc() + suffix {
                            assert(rec2.enc() =~= before.subrange(0, rec2.enc().len() as int));
                            assert(rec2.enc().is_prefix_of(before));
                        }
                    }
                }
                Err(FramedError { cause, bytes })
            },
        }
    }

    /// Append one record's canonical encoding to the output sink. Nothing
    /// already in the sink is truncated or rewritten, the call always
    /// succeeds, and equal records yield byte-identical output.
    pub fn encode(&self, item: B, dst: &mut Vec<u8>) -> (r: Result<(), FramedError>)
        ensures
            r is Ok,
            final(dst)@ == old(dst)@ + item.enc(),
    {
        item.encode_to(dst);
        Ok(())
    }
}

impl<B: Record> Default for RecordCodec<B> {
    /// The same fresh, stateless codec that [`RecordCodec::new`] builds.
    fn default() -> (r: Self)
        ensures
            r == (RecordCodec::<B> { marker: core::marker::PhantomData }),
    {
        RecordCodec::new()
    }
}

} // verus!
