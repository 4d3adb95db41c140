//! AMF0 values, decoded and encoded by the `amf` crate.

use std::io::Cursor;
use vstd::prelude::*;

verus! {

#[verifier::external_type_specification]
#[verifier::external_body]
pub struct ExAmfValue(amf::Value);

/// What `amf::amf0::Value::read_from` decodes from the start of `bytes`: the
/// value, wrapped in `amf::Value::Amf0`, and the number of bytes it reads; or
/// `None` when it fails.
pub uninterp spec fn amf0_read(bytes: Seq<u8>) -> Option<(amf::Value, nat)>;

/// Calls `amf::amf0::Value::read_from` on a cursor over `bytes`, and wraps a
/// decoded value in `amf::Value::Amf0`. The decoder starts from an empty
/// reference table, so the value, how many bytes it reads, and whether it
/// fails depend on `bytes` alone; it reads at least the marker byte. It
/// recurses once per level of nesting, and nothing excludes the stack running
/// out on deep nesting.
#[verifier::external_body]
pub(crate) fn decode_amf0(bytes: &[u8]) -> (r: Option<(amf::Value, usize)>)
    ensures
        match r {
            Some((v, n)) => amf0_read(bytes@) == Some((v, n as nat)) && 0 < n <= bytes@.len(),
            None => amf0_read(bytes@) is None,
        },
{
    let mut cursor = Cursor::new(bytes);
    match amf::amf0::Value::read_from(&mut cursor) {
        Ok(v) => Some((amf::Value::Amf0(v), cursor.position() as usize)),
        Err(_) => None,
    }
}

/// The bytes that `amf::Value::write_to` writes for `v`, or `None` for a value
/// on which it panics: among others a key, class name or string longer than
/// its length field holds, an AMF3 integer outside 29 bits, or a date whose
/// milliseconds overflow.
pub uninterp spec fn amf_encoding(v: amf::Value) -> Option<Seq<u8>>;

/// Calls `amf::Value::write_to` with a `Vec<u8>` writer, which cannot fail on
/// its own: the encoding of `v` is appended to `out`. The values on which the
/// encoder panics are left out by `requires`.
#[verifier::external_body]
pub(crate) fn encode_amf_value(v: &amf::Value, out: &mut Vec<u8>)
    requires
        amf_encoding(*v) is Some,
    ensures
        final(out)@ == old(out)@ + amf_encoding(*v).unwrap(),
{
    v.write_to(out).unwrap()
}

/// The values that decoding `bytes` one AMF0 value after another yields
/// before the first failure, in order.
pub open spec fn amf0_values(bytes: Seq<u8>) -> Seq<amf::Value>
    decreases bytes.len(),
{
    match amf0_read(bytes) {
        Some((v, n)) => if 0 < n <= bytes.len() {
            seq![v] + amf0_values(bytes.subrange(n as int, bytes.len() as int))
        } else {
            Seq::empty()
        },
        None => Seq::empty(),
    }
}

/// Whether the encoder takes every value of `vs` without panicking.
pub open spec fn amf_encodable(vs: Seq<amf::Value>) -> bool {
    forall|i: int| 0 <= i < vs.len() ==> #[trigger] amf_encoding(vs[i]) is Some
}

/// The encodings of the values of `vs`, one after another.
pub open spec fn amf_encodings(vs: Seq<amf::Value>) -> Seq<u8>
    decreases vs.len(),
{
    if vs.len() == 0 {
        Seq::empty()
    } else {
        amf_encodings(vs.drop_last()) + amf_encoding(vs.last()).unwrap()
    }
}

} // verus!
