//! Messages and the byte codec.
//!
//! A payload crosses the wire as one frame: its length, as eight
//! little-endian bytes, then its bytes. Framing errors are fatal to the
//! connection that produced them, never skipped. The conversion between a
//! typed message and its payload bytes is the [`TryIntoBytes`] /
//! [`TryFromBytes`] capability, which message types implement.

use vstd::prelude::*;
use vstd::bytes::{
    lemma_auto_spec_u64_to_from_le_bytes, spec_u64_from_le_bytes, spec_u64_to_le_bytes,
    u64_from_le_bytes, u64_to_le_bytes,
};
use vstd::slice::{slice_subrange, slice_to_vec};
use vstd::utf8::encode_utf8;

verus! {

/// Data that can be sent to and received by a transport.
///
/// A marker capability: message types must be shareable across the backend
/// tasks and owned for the transport's whole life. Implemented for every
/// type meeting those bounds.
pub trait Message: Send + Sync + 'static {

}

impl<T: Send + Sync + 'static> Message for T {

}

/// Why a byte buffer was rejected by the codec.
#[derive(Debug, Clone, Copy, PartialEq, Eq, Structural)]
pub enum CodecError {
    /// The buffer ends before the framed payload does.
    Truncated,
    /// The buffer continues past the framed payload.
    Trailing,
    /// The bytes hold no well-formed message of the requested type.
    Invalid,
}

/// The framed byte form of a payload: its length, as eight little-endian
/// bytes, then the payload itself.
pub open spec fn frame_bytes(payload: Seq<u8>) -> Seq<u8> {
    spec_u64_to_le_bytes(payload.len() as u64) + payload
}

/// Frames `payload` for the wire.
pub fn encode(payload: &Vec<u8>) -> (r: Vec<u8>)
    ensures
        r@ == frame_bytes(payload@),
{
    let mut r = u64_to_le_bytes(payload.len() as u64);
    let mut rest = slice_to_vec(payload.as_slice());
    r.append(&mut rest);
    r
}

/// Parses one framed payload back out of `buf`.
///
/// Succeeds if and only if `buf` is exactly one frame; a buffer that ends
/// too early (no full header, or fewer payload bytes than the header
/// declares) is `Truncated`, one that continues past the declared payload
/// is `Trailing`.
pub fn decode(buf: &[u8]) -> (r: Result<Vec<u8>, CodecError>)
    ensures
        r matches Ok(m) ==> buf@ == frame_bytes(m@) && m@ == buf@.skip(8),
        buf@.len() < 8 ==> r == Err::<Vec<u8>, CodecError>(CodecError::Truncated),
        buf@.len() >= 8 ==> {
            let declared = spec_u64_from_le_bytes(buf@.take(8));
            &&& buf@.len() - 8 < declared ==> r == Err::<Vec<u8>, CodecError>(
                CodecError::Truncated,
            )
            &&& buf@.len() - 8 > declared ==> r == Err::<Vec<u8>, CodecError>(
                CodecError::Trailing,
            )
            &&& buf@.len() - 8 == declared ==> r is Ok
        },
{
    proof {
        lemma_auto_spec_u64_to_from_le_bytes();
    }
    if buf.len() < 8 {
        return Err(CodecError::Truncated);
    }
    let header = slice_subrange(buf, 0, 8);
    let declared = u64_from_le_bytes(header);
    let rest_len = buf.len() - 8;
    if declared > rest_len as u64 {
        Err(CodecError::Truncated)
    } else if declared < rest_len as u64 {
        Err(CodecError::Trailing)
    } else {
        let payload = slice_to_vec(slice_subrange(buf, 8, buf.len()));
        proof {
            assert(payload@ =~= buf@.skip(8));
            assert(buf@.take(8) =~= spec_u64_to_le_bytes(payload@.len() as u64));
            assert(buf@ =~= buf@.take(8) + buf@.skip(8));
        }
        Ok(payload)
    }
}

/// Round trip: framing adds exactly the eight header bytes in front of the
/// payload, and is injective, so a framed payload parses back to exactly
/// that payload.
pub proof fn lemma_frame_round_trip(p: Seq<u8>, q: Seq<u8>)
    requires
        p.len() <= u64::MAX,
        q.len() <= u64::MAX,
    ensures
        frame_bytes(p).len() == p.len() + 8,
        frame_bytes(p).skip(8) == p,
        frame_bytes(p) == frame_bytes(q) ==> p == q,
{
    lemma_auto_spec_u64_to_from_le_bytes();
    assert(frame_bytes(p).skip(8) =~= p);
    if frame_bytes(p) == frame_bytes(q) {
        assert(frame_bytes(q).skip(8) =~= q);
    }
}

/// Data that can be converted into a sequence of payload bytes, for a
/// transport that carries messages in byte form.
///
/// See [`TryFromBytes`] for the receiving counterpart.
pub trait TryIntoBytes: Sized {
    /// The byte form this value converts into, when the conversion
    /// succeeds.
    spec fn byte_form(self) -> Seq<u8>;

    /// Performs the conversion. Errors if the value has no byte form.
    fn try_into_bytes(self) -> (r: Result<Vec<u8>, CodecError>)
        ensures
            r matches Ok(b) ==> b@ == self.byte_form(),
    ;
}

/// Data that can be converted back from a sequence of payload bytes.
///
/// See [`TryIntoBytes`] for the sending counterpart.
pub trait TryFromBytes: Sized {
    /// Whether `bytes` parse back as exactly `m`.
    spec fn parses_to(bytes: Seq<u8>, m: Self) -> bool;

    /// Performs the conversion. Errors exactly when no value of this type
    /// parses from `buf`.
    fn try_from_bytes(buf: &[u8]) -> (r: Result<Self, CodecError>)
        ensures
            r matches Ok(m) ==> Self::parses_to(buf@, m),
            r is Err ==> !exists|m: Self| #[trigger] Self::parses_to(buf@, m),
    ;
}

impl TryIntoBytes for Vec<u8> {
    /// A raw byte message is its own byte form.
    open spec fn byte_form(self) -> Seq<u8> {
        self@
    }

    /// Never fails: the byte form is the message itself.
    fn try_into_bytes(self) -> (r: Result<Vec<u8>, CodecError>)
        ensures
            r is Ok,
            r matches Ok(b) ==> b@ == self@,
    {
        Ok(self)
    }
}

impl TryFromBytes for Vec<u8> {
    /// A raw byte message parses from exactly its own bytes.
    open spec fn parses_to(bytes: Seq<u8>, m: Self) -> bool {
        m@ == bytes
    }

    /// Never fails: every buffer is a byte message.
    fn try_from_bytes(buf: &[u8]) -> (r: Result<Self, CodecError>)
        ensures
            r is Ok,
            r matches Ok(m) ==> m@ == buf@,
    {
        Ok(slice_to_vec(buf))
    }
}

/// The byte form of a text message: the frame of its UTF-8 encoding. This
/// is exactly how the serialization crate lays a string out on the wire —
/// eight little-endian length bytes, then the UTF-8 bytes.
pub open spec fn text_bytes(s: Seq<char>) -> Seq<u8> {
    frame_bytes(encode_utf8(s))
}

/// Relies on bincode::serialize (v1.3.3, fixint encoding, no size limit):
/// a string serializes as its UTF-8 length in eight little-endian bytes,
/// then its UTF-8 bytes, and writing into a fresh buffer cannot fail.
#[verifier::external_body]
fn bincode_serialize_string(s: &String) -> (r: Result<Vec<u8>, CodecError>)
    ensures
        r is Ok,
        r matches Ok(b) ==> b@ == text_bytes(s@),
{
    bincode::serialize(s).map_err(|_| CodecError::Invalid)
}

/// Relies on bincode::deserialize (v1.3.3, fixint encoding): a buffer that
/// is exactly the serialized form of a string deserializes back to that
/// string.
#[verifier::external_body]
fn bincode_deserialize_string(buf: &[u8]) -> (r: Result<String, CodecError>)
    ensures
        r is Ok <== exists|s: Seq<char>| buf@ == #[trigger] text_bytes(s),
        r matches Ok(m) ==> forall|s: Seq<char>| buf@ == #[trigger] text_bytes(s) ==> m@ == s,
{
    bincode::deserialize(buf).map_err(|_| CodecError::Invalid)
}

fn bytes_equal(a: &[u8], b: &[u8]) -> (r: bool)
    ensures
        r == (a@ == b@),
{
    if a.len() != b.len() {
        return false;
    }
    let n = a.len();
    let mut i: usize = 0;
    while i < n
        invariant
            i <= n,
            n == a@.len(),
            a@.len() == b@.len(),
            forall|j: int| 0 <= j < i ==> a@[j] == b@[j],
        decreases n - i,
    {
        if a[i] != b[i] {
            return false;
        }
        i = i + 1;
    }
    proof {
        assert(a@ =~= b@);
    }
    true
}

impl TryIntoBytes for String {
    /// A text message converts to the frame of its UTF-8 encoding.
    open spec fn byte_form(self) -> Seq<u8> {
        text_bytes(self@)
    }

    /// Never fails, and two equal messages encode to the same bytes: the
    /// byte form depends on the characters alone.
    fn try_into_bytes(self) -> (r: Result<Vec<u8>, CodecError>)
        ensures
            r is Ok,
            r matches Ok(b) ==> b@ == text_bytes(self@),
    {
        bincode_serialize_string(&self)
    }
}

impl TryFromBytes for String {
    /// A text message parses from exactly the frame of its UTF-8 encoding.
    open spec fn parses_to(bytes: Seq<u8>, m: Self) -> bool {
        bytes == text_bytes(m@)
    }

    /// Round trip: a buffer that is exactly a text message's byte form
    /// converts back to that message.
    fn try_from_bytes(buf: &[u8]) -> (r: Result<Self, CodecError>)
        ensures
            r is Ok <== exists|s: Seq<char>| buf@ == #[trigger] text_bytes(s),
            r matches Ok(m) ==> forall|s: Seq<char>| buf@ == #[trigger] text_bytes(s)
                ==> m@ == s,
    {
        match bincode_deserialize_string(buf) {
            Err(e) => Err(e),
            Ok(m) => {
                match bincode_serialize_string(&m) {
                    Ok(reencoded) => {
                        if bytes_equal(reencoded.as_slice(), buf) {
                            Ok(m)
                        } else {
                            Err(CodecError::Trailing)
                        }
                    }
                    Err(e) => Err(e),
                }
            }
        }
    }
}

} // verus!
