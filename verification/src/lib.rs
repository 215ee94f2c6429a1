//! Label encodings for garbled circuits.
//!
//! Every wire of a binary circuit carries a pair of 128-bit labels, one for
//! each bit value. The pair is tied together by a global offset: the label
//! for bit value 1 is the label for bit value 0 XORed with that offset.
//! A full encoding knows both labels of each wire, an active encoding the
//! one that stands for the wire's bit.
//!
//! For arithmetic circuits a number is encoded residue by residue, modulo
//! the first ten primes, with one label for each modulus.

pub mod array;
pub mod bits;
pub mod block;
pub mod commit;
pub mod crt;
pub mod crt_value;
pub mod encoder;
pub mod equality;
pub mod free_xor;
pub mod label;
pub mod labels;
pub mod residue;
pub mod state;
pub mod value;
pub mod wire;

pub use array::EncodedArray;
pub use block::Block;
pub use commit::{commit_inputs, tweak, tweak2, verify_inputs, EncodingCommitment};
pub use crt::{add_label, cmul_label, negate_label, LabelModN};
pub use crt_value::{
    get_delta_by_modulus, ActiveCrtValue, CrtDecoding, CrtDelta, DecodeError, FullCrtValue,
};
pub use encoder::{ChaChaCrtEncoder, ChaChaEncoder};
pub use equality::EqualityCheck;
pub use label::{Delta, Label};
pub use labels::Labels;
pub use value::{Decoding, EncodedValue, Value, ValueError, ValueType};
