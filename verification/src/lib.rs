//! A framed record codec: reconstructs discrete, self-describing records from
//! a continuous byte stream, and serializes records back into that stream.
//!
//! Records are length-prefixed by their own structural encoding, so record
//! boundaries are derived by parsing in place; the decoder recognises when the
//! accumulated buffer does not yet hold a complete record.

pub mod codec;
pub mod record;
pub mod rlp;

pub use codec::FramedError;
pub use codec::RecordCodec;
pub use record::Record;
pub use record::StructuralError;
pub use record::starts_with_record;
