//! Affine quantization of tensors.
//!
//! A [`Quantizer`] holds the parameters of a uniform affine quantizer: a bit
//! width, a scale, a zero point, an offset, and the flags that say whether
//! and how codes are clamped. It is read from a JSON document
//! ([`Quantizer::from_json_str`]), in which the zero point and the offset may
//! each be written in more than one shape, and it turns tensors of any rank
//! into integer codes ([`Quantizer::quantize`]), with the zero point and the
//! offset broadcast to the shape of the tensor.
//!
//! The library computes on integers only. A binary64 value is carried by its
//! bit pattern, as a [`Double`], and the one thing done to it here is to round
//! it to a code. The arithmetic on the values themselves is the caller's:
//! to quantize, the caller computes `value / scale + zero_point` at each
//! position, with the zero point from [`Quantizer::broadcast_zero_point`],
//! and hands the result to [`Quantizer::quantize`]; to dequantize, the caller
//! computes `(code - zero_point) * scale` in the same way.
//!
//! Every function is verified against its contract. The contracts of the
//! calls into `serde_json`, which are gathered in [`json`], are taken on
//! trust.

pub mod double;
pub mod json;
pub mod quantizer;
pub mod schema;
pub mod tensor;

pub use double::Double;
pub use quantizer::{parse_offset_value, parse_zero_point_value, Quantizer};
pub use schema::{
    default_n_bits, Field, OffsetValue, QuantizerSerializedValue, SchemaError, SerializedValue,
    UniformQuantizerSerialized, ZeroPointValue,
};
pub use tensor::{can_broadcast, volume_of, BroadcastError, Tensor};
