use vstd::prelude::*;
use vstd::bytes::{
    spec_u16_from_le_bytes, spec_u16_to_le_bytes, spec_u32_from_le_bytes, spec_u32_to_le_bytes,
    u16_from_le_bytes, u16_to_le_bytes, u32_from_le_bytes, u32_to_le_bytes,
};
use vstd::utf8::valid_utf8;
use vstd::string::StringSliceAdditionalSpecFns;

verus! {

pub const WL_DISPLAY_INTERFACE: u32 = 1;
pub const WL_REGISTRY_INTERFACE: u32 = 2;
pub const WL_COMPOSITOR_INTERFACE: u32 = 3;
pub const WL_SHM_INTERFACE: u32 = 4;
pub const WL_SURFACE_INTERFACE: u32 = 5;
pub const WL_REGION_INTERFACE: u32 = 6;
pub const WL_SHM_POOL_INTERFACE: u32 = 7;
pub const WL_BUFFER_INTERFACE: u32 = 8;
pub const WL_SEAT_INTERFACE: u32 = 9;
pub const WL_POINTER_INTERFACE: u32 = 10;
pub const WL_KEYBOARD_INTERFACE: u32 = 11;
pub const XDG_WM_BASE_INTERFACE: u32 = 12;
pub const XDG_SURFACE_INTERFACE: u32 = 13;
pub const XDG_TOPLEVEL_INTERFACE: u32 = 14;

/// The fixed eight-byte header of a wire message. Multi-byte fields are in
/// the native byte order of the x86 target, which is little-endian.
pub struct WaylandMessage {
    pub object_id: u32,
    pub opcode: u16,
    pub size: u16,
}

/// The little-endian `u32` that starts at byte `off` of `s`.
pub open spec fn wire_u32(s: Seq<u8>, off: int) -> u32 {
    spec_u32_from_le_bytes(s.subrange(off, off + 4))
}

/// The little-endian `u16` that starts at byte `off` of `s`.
pub open spec fn wire_u16(s: Seq<u8>, off: int) -> u16 {
    spec_u16_from_le_bytes(s.subrange(off, off + 2))
}

/// A buffer holds a whole message: its header, and at least as many bytes as
/// the header's size field announces.
pub open spec fn holds_message(data: Seq<u8>) -> bool {
    data.len() >= 8 && data.len() >= wire_u16(data, 6)
}

/// A header whose size field announces fewer bytes than the header itself.
pub open spec fn malformed_header(data: Seq<u8>) -> bool {
    holds_message(data) && wire_u16(data, 6) < 8
}

/// Reads the little-endian `u32` at `off`.
pub fn read_u32(data: &[u8], off: usize) -> (r: u32)
    requires
        off + 4 <= data@.len(),
    ensures
        r == wire_u32(data@, off as int),
{
    let n = data.len();
    assert(n == data@.len());
    u32_from_le_bytes(&data[off..off + 4])
}

/// Reads the little-endian `u16` at `off`.
pub fn read_u16(data: &[u8], off: usize) -> (r: u16)
    requires
        off + 2 <= data@.len(),
    ensures
        r == wire_u16(data@, off as int),
{
    let n = data.len();
    assert(n == data@.len());
    u16_from_le_bytes(&data[off..off + 2])
}

/// Splits a buffer into a message header and its payload.
///
/// Gives `None` when the buffer is shorter than the header or than the size
/// the header announces; the payload is the bytes from 8 up to that size.
pub fn parse_message(data: &[u8]) -> (r: Option<(WaylandMessage, &[u8])>)
    requires
        !malformed_header(data@),
    ensures
        r.is_none() <==> !holds_message(data@),
        r matches Some((msg, payload)) ==> {
            &&& msg.object_id == wire_u32(data@, 0)
            &&& msg.opcode == wire_u16(data@, 4)
            &&& msg.size == wire_u16(data@, 6)
            &&& payload@ == data@.subrange(8, msg.size as int)
        },
{
    if data.len() < 8 {
        return None;
    }
    let object_id = read_u32(data, 0);
    let opcode = read_u16(data, 4);
    let size = read_u16(data, 6);
    if data.len() < size as usize {
        return None;
    }
    let msg = WaylandMessage { object_id, opcode, size };
    let payload = &data[8..size as usize];
    Some((msg, payload))
}

/// The bytes of a message as `create_message` lays them out.
pub open spec fn message_bytes(object_id: u32, opcode: u16, payload: Seq<u8>) -> Seq<u8> {
    spec_u32_to_le_bytes(object_id) + spec_u16_to_le_bytes(opcode) + spec_u16_to_le_bytes(
        (8 + payload.len() as int) as u16,
    ) + payload
}

/// Builds a message: the object id, the opcode, the total size (header
/// included, truncated to 16 bits) and the payload.
pub fn create_message(object_id: u32, opcode: u16, payload: &[u8]) -> (msg: Vec<u8>)
    requires
        8 + payload@.len() <= usize::MAX,
    ensures
        msg@ == message_bytes(object_id, opcode, payload@),
{
    let n = payload.len();
    let size = 8 + n;
    let mut msg: Vec<u8> = Vec::with_capacity(size);
    let mut a = u32_to_le_bytes(object_id);
    msg.append(&mut a);
    let mut b = u16_to_le_bytes(opcode);
    msg.append(&mut b);
    let mut c = u16_to_le_bytes(size as u16);
    msg.append(&mut c);
    let mut i: usize = 0;
    while i < payload.len()
        invariant
            i <= payload@.len(),
            msg@ == spec_u32_to_le_bytes(object_id) + spec_u16_to_le_bytes(opcode)
                + spec_u16_to_le_bytes(size as u16) + payload@.subrange(0, i as int),
        decreases payload@.len() - i,
    {
        msg.push(payload[i]);
        i += 1;
    }
    proof {
        assert(payload@.subrange(0, payload@.len() as int) == payload@);
    }
    msg
}

/// Padding that brings a string of `len` bytes to a multiple of four.
pub open spec fn pad4(len: int) -> int {
    (4 - (len % 4)) % 4
}

/// The bytes of `encode_string(s)`: a 32-bit length, the bytes, then zero
/// padding up to a multiple of four.
pub open spec fn string_bytes(s: Seq<u8>) -> Seq<u8> {
    let len = s.len() as u32;
    spec_u32_to_le_bytes(len) + s + Seq::new(pad4(len as int) as nat, |i: int| 0u8)
}

/// Encodes a string argument: its length (truncated to 32 bits), its bytes,
/// and zero padding up to a multiple of four.
pub fn encode_string(s: &str) -> (encoded: Vec<u8>)
    ensures
        encoded@ == string_bytes(s.spec_bytes()),
{
    let bytes = s.as_bytes();
    let len = bytes.len() as u32;
    let mut encoded = u32_to_le_bytes(len);
    let mut i: usize = 0;
    while i < bytes.len()
        invariant
            i <= bytes@.len(),
            bytes@ == s.spec_bytes(),
            encoded@ == spec_u32_to_le_bytes(len) + bytes@.subrange(0, i as int),
        decreases bytes@.len() - i,
    {
        encoded.push(bytes[i]);
        i += 1;
    }
    let padding = (4 - (len % 4)) % 4;
    let ghost base = encoded@;
    let mut k: u32 = 0;
    while k < padding
        invariant
            k <= padding,
            padding == pad4(len as int),
            encoded@ == base + Seq::new(k as nat, |j: int| 0u8),
        decreases padding - k,
    {
        encoded.push(0);
        k += 1;
        proof {
            assert(encoded@ =~= base + Seq::new(k as nat, |j: int| 0u8));
        }
    }
    proof {
        assert(bytes@.subrange(0, bytes@.len() as int) == bytes@);
    }
    encoded
}

/// `core::str::from_utf8`: the bytes as a string slice when they are valid
/// UTF-8, and `None` otherwise. The contract states what std documents.
#[verifier::external_body]
pub(crate) fn str_from_utf8(v: &[u8]) -> (r: Option<&str>)
    ensures
        r.is_some() <==> valid_utf8(v@),
        r matches Some(s) ==> s.spec_bytes() == v@,
{
    core::str::from_utf8(v).ok()
}

/// The total length that a string argument occupies, length word included.
pub open spec fn string_total(len: int) -> int {
    4 + len + pad4(len)
}

/// Decodes a string argument: gives the string and the number of bytes that
/// it occupies, or `None` when the buffer is too short for the length word or
/// the padded string, or the bytes are not UTF-8.
pub fn decode_string(data: &[u8]) -> (r: Option<(&str, usize)>)
    requires
        data@.len() >= 4 ==> string_total(wire_u32(data@, 0) as int) <= usize::MAX,
    ensures
        r matches Some((s, total)) ==> {
            let len = wire_u32(data@, 0) as int;
            &&& data@.len() >= 4
            &&& total == string_total(len)
            &&& total <= data@.len()
            &&& s.spec_bytes() == data@.subrange(4, 4 + len)
        },
        r is None <==> (data@.len() < 4 || data@.len() < string_total(wire_u32(data@, 0) as int)
            || !valid_utf8(data@.subrange(4, 4 + wire_u32(data@, 0) as int))),
{
    if data.len() < 4 {
        return None;
    }
    let len = read_u32(data, 0) as usize;
    let total_size = 4 + len + ((4 - (len % 4)) % 4);
    if data.len() < total_size {
        return None;
    }
    match str_from_utf8(&data[4..4 + len]) {
        Some(s) => Some((s, total_size)),
        None => None,
    }
}

/// Decoding what `create_message` built gives back the object id, the
/// opcode, the size and the payload, when the message fits the 16-bit size.
pub proof fn lemma_message_roundtrip(object_id: u32, opcode: u16, payload: Seq<u8>)
    requires
        8 + payload.len() <= u16::MAX,
    ensures
        ({
            let m = message_bytes(object_id, opcode, payload);
            &&& holds_message(m)
            &&& !malformed_header(m)
            &&& wire_u32(m, 0) == object_id
            &&& wire_u16(m, 4) == opcode
            &&& wire_u16(m, 6) == 8 + payload.len()
            &&& m.subrange(8, 8 + payload.len() as int) == payload
        }),
{
    vstd::bytes::lemma_auto_spec_u32_to_from_le_bytes();
    vstd::bytes::lemma_auto_spec_u16_to_from_le_bytes();
    let m = message_bytes(object_id, opcode, payload);
    let a = spec_u32_to_le_bytes(object_id);
    let b = spec_u16_to_le_bytes(opcode);
    let c = spec_u16_to_le_bytes((8 + payload.len() as int) as u16);
    assert(m.subrange(0, 4) == a);
    assert(m.subrange(4, 6) == b);
    assert(m.subrange(6, 8) == c);
    assert(m.subrange(8, 8 + payload.len() as int) == payload);
}

/// Decoding what `encode_string` built gives back the string and the
/// number of bytes it occupies.
pub proof fn lemma_string_roundtrip(s: Seq<u8>)
    requires
        s.len() <= u32::MAX,
        valid_utf8(s),
    ensures
        ({
            let e = string_bytes(s);
            &&& e.len() == string_total(s.len() as int)
            &&& e.len() >= 4
            &&& wire_u32(e, 0) == s.len()
            &&& e.subrange(4, 4 + s.len() as int) == s
        }),
{
    vstd::bytes::lemma_auto_spec_u32_to_from_le_bytes();
    let e = string_bytes(s);
    assert(e.subrange(0, 4) == spec_u32_to_le_bytes(s.len() as u32));
    assert(e.subrange(4, 4 + s.len() as int) == s);
}

} // verus!
