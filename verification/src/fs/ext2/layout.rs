use vstd::prelude::*;
use vstd::bytes::{spec_u16_to_le_bytes, spec_u32_to_le_bytes, u16_to_le_bytes, u32_to_le_bytes};
use crate::wayland::protocol::{wire_u16, wire_u32};

verus! {

/// `s` with the bytes `b` laid over it from `off` on.
pub open spec fn put_bytes(s: Seq<u8>, off: int, b: Seq<u8>) -> Seq<u8> {
    s.subrange(0, off) + b + s.subrange(off + b.len(), s.len() as int)
}

/// `s` with the little-endian `v` at `off`.
pub open spec fn put32(s: Seq<u8>, off: int, v: u32) -> Seq<u8> {
    put_bytes(s, off, spec_u32_to_le_bytes(v))
}

/// `s` with the little-endian `v` at `off`.
pub open spec fn put16(s: Seq<u8>, off: int, v: u16) -> Seq<u8> {
    put_bytes(s, off, spec_u16_to_le_bytes(v))
}

/// `n` zero bytes.
pub open spec fn zeros(n: nat) -> Seq<u8> {
    Seq::new(n, |i: int| 0u8)
}

/// Reading back what `put_bytes` laid down gives it; reading a range it
/// did not touch gives what was there.
pub proof fn lemma_put_bytes(s: Seq<u8>, off: int, b: Seq<u8>, o: int, n: int)
    requires
        0 <= off,
        off + b.len() <= s.len(),
        0 <= o,
        0 <= n,
        o + n <= s.len(),
    ensures
        put_bytes(s, off, b).len() == s.len(),
        off <= o && o + n <= off + b.len() ==> put_bytes(s, off, b).subrange(o, o + n) == b.subrange(o - off, o - off + n),
        o + n <= off || off + b.len() <= o ==> put_bytes(s, off, b).subrange(o, o + n) == s.subrange(o, o + n),
{
    let p = put_bytes(s, off, b);
    assert(p.len() == s.len());
    if off <= o && o + n <= off + b.len() {
        assert(p.subrange(o, o + n) =~= b.subrange(o - off, o - off + n));
    }
    if o + n <= off || off + b.len() <= o {
        assert(p.subrange(o, o + n) =~= s.subrange(o, o + n));
    }
}

/// A `u32` laid down reads back; other fields stay.
pub proof fn lemma_put32(s: Seq<u8>, off: int, v: u32)
    requires
        0 <= off,
        off + 4 <= s.len(),
    ensures
        put32(s, off, v).len() == s.len(),
        wire_u32(put32(s, off, v), off) == v,
        forall|o: int| 0 <= o && o + 4 <= s.len() && (o + 4 <= off || off + 4 <= o) ==> #[trigger] wire_u32(put32(s, off, v), o) == wire_u32(s, o),
        forall|o: int| 0 <= o && o + 2 <= s.len() && (o + 2 <= off || off + 4 <= o) ==> #[trigger] wire_u16(put32(s, off, v), o) == wire_u16(s, o),
        forall|o: int| 0 <= o < s.len() && (o < off || off + 4 <= o) ==> #[trigger] put32(s, off, v)[o] == s[o],
{
    vstd::bytes::lemma_auto_spec_u32_to_from_le_bytes();
    let b = spec_u32_to_le_bytes(v);
    lemma_put_bytes(s, off, b, off, 4);
    assert(b.subrange(0, 4) =~= b);
    assert forall|o: int| 0 <= o && o + 4 <= s.len() && (o + 4 <= off || off + 4 <= o) implies #[trigger] wire_u32(put32(s, off, v), o) == wire_u32(s, o) by {
        lemma_put_bytes(s, off, b, o, 4);
    }
    assert forall|o: int| 0 <= o && o + 2 <= s.len() && (o + 2 <= off || off + 4 <= o) implies #[trigger] wire_u16(put32(s, off, v), o) == wire_u16(s, o) by {
        lemma_put_bytes(s, off, b, o, 2);
    }
    assert forall|o: int| 0 <= o < s.len() && (o < off || off + 4 <= o) implies #[trigger] put32(s, off, v)[o] == s[o] by {
        lemma_put_bytes(s, off, b, o, 1);
        assert(put32(s, off, v).subrange(o, o + 1)[0] == put32(s, off, v)[o]);
    }
}

/// A `u16` laid down reads back; other fields stay.
pub proof fn lemma_put16(s: Seq<u8>, off: int, v: u16)
    requires
        0 <= off,
        off + 2 <= s.len(),
    ensures
        put16(s, off, v).len() == s.len(),
        wire_u16(put16(s, off, v), off) == v,
        forall|o: int| 0 <= o && o + 4 <= s.len() && (o + 4 <= off || off + 2 <= o) ==> #[trigger] wire_u32(put16(s, off, v), o) == wire_u32(s, o),
        forall|o: int| 0 <= o && o + 2 <= s.len() && (o + 2 <= off || off + 2 <= o) ==> #[trigger] wire_u16(put16(s, off, v), o) == wire_u16(s, o),
        forall|o: int| 0 <= o < s.len() && (o < off || off + 2 <= o) ==> #[trigger] put16(s, off, v)[o] == s[o],
{
    vstd::bytes::lemma_auto_spec_u16_to_from_le_bytes();
    let b = spec_u16_to_le_bytes(v);
    lemma_put_bytes(s, off, b, off, 2);
    assert(b.subrange(0, 2) =~= b);
    assert forall|o: int| 0 <= o && o + 4 <= s.len() && (o + 4 <= off || off + 2 <= o) implies #[trigger] wire_u32(put16(s, off, v), o) == wire_u32(s, o) by {
        lemma_put_bytes(s, off, b, o, 4);
    }
    assert forall|o: int| 0 <= o && o + 2 <= s.len() && (o + 2 <= off || off + 2 <= o) implies #[trigger] wire_u16(put16(s, off, v), o) == wire_u16(s, o) by {
        lemma_put_bytes(s, off, b, o, 2);
    }
    assert forall|o: int| 0 <= o < s.len() && (o < off || off + 2 <= o) implies #[trigger] put16(s, off, v)[o] == s[o] by {
        lemma_put_bytes(s, off, b, o, 1);
        assert(put16(s, off, v).subrange(o, o + 1)[0] == put16(s, off, v)[o]);
    }
}

/// Lays the little-endian `v` into the buffer at `off`.
pub fn put_u32(buf: &mut [u8; 512], off: usize, v: u32)
    requires
        off + 4 <= 512,
    ensures
        final(buf)@ == put32(old(buf)@, off as int, v),
{
    let b = u32_to_le_bytes(v);
    proof {
        vstd::bytes::lemma_auto_spec_u32_to_from_le_bytes();
        assert(b@.len() == 4);
    }
    let mut i: usize = 0;
    while i < 4
        invariant
            i <= 4,
            off + 4 <= 512,
            b@ == spec_u32_to_le_bytes(v),
            b@.len() == 4,
            buf@.len() == 512,
            forall|k: int| 0 <= k < i ==> buf@[off + k] == b@[k],
            forall|k: int| 0 <= k < 512 && !(off <= k < off + i) ==> buf@[k] == old(buf)@[k],
        decreases 4 - i,
    {
        buf[off + i] = b[i];
        i += 1;
    }
    proof {
        assert(buf@ =~= put32(old(buf)@, off as int, v));
    }
}

/// Lays the little-endian `v` into the buffer at `off`.
pub fn put_u16(buf: &mut [u8; 512], off: usize, v: u16)
    requires
        off + 2 <= 512,
    ensures
        final(buf)@ == put16(old(buf)@, off as int, v),
{
    let b = u16_to_le_bytes(v);
    proof {
        vstd::bytes::lemma_auto_spec_u16_to_from_le_bytes();
        assert(b@.len() == 2);
    }
    let mut i: usize = 0;
    while i < 2
        invariant
            i <= 2,
            off + 2 <= 512,
            b@ == spec_u16_to_le_bytes(v),
            b@.len() == 2,
            buf@.len() == 512,
            forall|k: int| 0 <= k < i ==> buf@[off + k] == b@[k],
            forall|k: int| 0 <= k < 512 && !(off <= k < off + i) ==> buf@[k] == old(buf)@[k],
        decreases 2 - i,
    {
        buf[off + i] = b[i];
        i += 1;
    }
    proof {
        assert(buf@ =~= put16(old(buf)@, off as int, v));
    }
}

/// Reads the little-endian `u32` at `off` of a sector buffer.
pub fn get_u32(buf: &[u8; 512], off: usize) -> (v: u32)
    requires
        off + 4 <= 512,
    ensures
        v == wire_u32(buf@, off as int),
{
    crate::wayland::protocol::read_u32(buf.as_slice(), off)
}

/// Reads the little-endian `u16` at `off` of a sector buffer.
pub fn get_u16(buf: &[u8; 512], off: usize) -> (v: u16)
    requires
        off + 2 <= 512,
    ensures
        v == wire_u16(buf@, off as int),
{
    crate::wayland::protocol::read_u16(buf.as_slice(), off)
}

} // verus!
