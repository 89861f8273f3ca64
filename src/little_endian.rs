//! Little-endian encoding of 16- and 32-bit unsigned integers.
use vstd::prelude::*;

verus! {

/// The value of two bytes read least significant first.
pub open spec fn le16(b0: u8, b1: u8) -> int {
    b0 + 256 * b1
}

/// The value of four bytes read least significant first.
pub open spec fn le32(b0: u8, b1: u8, b2: u8, b3: u8) -> int {
    b0 + 256 * b1 + 65536 * b2 + 16777216 * b3
}

/// The two bytes of `x`, least significant first.
pub open spec fn u16_bytes(x: u16) -> Seq<u8> {
    seq![(x % 256) as u8, (x / 256) as u8]
}

/// The four bytes of `x`, least significant first.
pub open spec fn u32_bytes(x: u32) -> Seq<u8> {
    seq![(x % 256) as u8, (x / 256 % 256) as u8, (x / 65536 % 256) as u8, (x / 16777216) as u8]
}

/// Reads a `u16` from the first two bytes of `bytes`, least significant first.
pub fn read_u16(bytes: &[u8]) -> (r: u16)
    requires
        bytes@.len() >= 2,
    ensures
        r == le16(bytes@[0], bytes@[1]),
{
    let b0: u8 = bytes[0];
    let b1: u8 = bytes[1];
    let byte0 = (b0 as u16) << 0;
    let byte1 = (b1 as u16) << 8;
    assert(byte0 == b0 && byte1 == 256 * b1) by (bit_vector)
        requires
            byte0 == (b0 as u16) << 0,
            byte1 == (b1 as u16) << 8,
    ;
    byte0 + byte1
}

/// Reads a `u32` from the first four bytes of `bytes`, least significant first.
pub fn read_u32(bytes: &[u8]) -> (r: u32)
    requires
        bytes@.len() >= 4,
    ensures
        r == le32(bytes@[0], bytes@[1], bytes@[2], bytes@[3]),
{
    let b0: u8 = bytes[0];
    let b1: u8 = bytes[1];
    let b2: u8 = bytes[2];
    let b3: u8 = bytes[3];
    let byte0 = (b0 as u32) << 0;
    let byte1 = (b1 as u32) << 8;
    let byte2 = (b2 as u32) << 16;
    let byte3 = (b3 as u32) << 24;
    assert(byte0 == b0 && byte1 == 256 * b1 && byte2 == 65536 * b2 && byte3 == 16777216 * b3)
        by (bit_vector)
        requires
            byte0 == (b0 as u32) << 0,
            byte1 == (b1 as u32) << 8,
            byte2 == (b2 as u32) << 16,
            byte3 == (b3 as u32) << 24,
    ;
    byte0 + byte1 + byte2 + byte3
}

/// The two bytes of `x`, least significant first.
pub fn write_u16(x: u16) -> (r: [u8; 2])
    ensures
        r@ == u16_bytes(x),
{
    let byte0 = ((x >> 0) & 0x00FF) as u8;
    let byte1 = ((x >> 8) & 0x00FF) as u8;
    assert(((x >> 0) & 0x00FF) == x % 256 && ((x >> 8) & 0x00FF) == x / 256) by (bit_vector);
    let r = [byte0, byte1];
    assert(r@ =~= u16_bytes(x));
    r
}

/// The four bytes of `x`, least significant first.
pub fn write_u32(x: u32) -> (r: [u8; 4])
    ensures
        r@ == u32_bytes(x),
{
    let byte0 = ((x >> 0) & 0x00FF) as u8;
    let byte1 = ((x >> 8) & 0x00FF) as u8;
    let byte2 = ((x >> 16) & 0x00FF) as u8;
    let byte3 = ((x >> 24) & 0x00FF) as u8;
    assert(((x >> 0) & 0x00FF) == x % 256 && ((x >> 8) & 0x00FF) == x / 256 % 256 && ((x >> 16)
        & 0x00FF) == x / 65536 % 256 && ((x >> 24) & 0x00FF) == x / 16777216) by (bit_vector);
    let r = [byte0, byte1, byte2, byte3];
    assert(r@ =~= u32_bytes(x));
    r
}

/// Reading back the bytes that `write_u16` produces gives the value written.
pub proof fn lemma_u16_round_trip(x: u16)
    ensures
        le16(u16_bytes(x)[0], u16_bytes(x)[1]) == x,
{
    assert(x % 256 + 256 * (x / 256) == x) by (nonlinear_arith);
}

/// Writing the value of two bytes gives back those bytes.
pub proof fn lemma_le16_bytes(b0: u8, b1: u8)
    ensures
        0 <= le16(b0, b1) < 65536,
        u16_bytes(le16(b0, b1) as u16) =~= seq![b0, b1],
{
    let x = le16(b0, b1);
    assert(x % 256 == b0 && x / 256 == b1) by (nonlinear_arith)
        requires
            x == b0 + 256 * b1,
            0 <= b0 < 256,
            0 <= b1 < 256,
    ;
}

/// Reading back the bytes that `write_u32` produces gives the value written.
pub proof fn lemma_u32_round_trip(x: u32)
    ensures
        le32(u32_bytes(x)[0], u32_bytes(x)[1], u32_bytes(x)[2], u32_bytes(x)[3]) == x,
{
    assert(x % 256 + 256 * (x / 256 % 256) + 65536 * (x / 65536 % 256) + 16777216 * (x / 16777216)
        == x) by (bit_vector);
}

/// Writing the value of four bytes gives back those bytes.
pub proof fn lemma_le32_bytes(b0: u8, b1: u8, b2: u8, b3: u8)
    ensures
        0 <= le32(b0, b1, b2, b3) < 0x1_0000_0000,
        u32_bytes(le32(b0, b1, b2, b3) as u32) =~= seq![b0, b1, b2, b3],
{
    let x = le32(b0, b1, b2, b3);
    assert(x % 256 == b0 && x / 256 % 256 == b1 && x / 65536 % 256 == b2 && x / 16777216 == b3)
        by (nonlinear_arith)
        requires
            x == b0 + 256 * b1 + 65536 * b2 + 16777216 * b3,
            0 <= b0 < 256,
            0 <= b1 < 256,
            0 <= b2 < 256,
            0 <= b3 < 256,
    ;
}


/// The `u16` stored little-endian at position `i` of `b`.
pub open spec fn u16_at(b: Seq<u8>, i: int) -> u16 {
    le16(b[i], b[i + 1]) as u16
}

/// The `u32` stored little-endian at position `i` of `b`.
pub open spec fn u32_at(b: Seq<u8>, i: int) -> u32 {
    le32(b[i], b[i + 1], b[i + 2], b[i + 3]) as u32
}

/// Reads the `u16` stored little-endian at position `i` of `bytes`.
pub fn read_u16_at(bytes: &[u8], i: usize) -> (r: u16)
    requires
        i + 2 <= bytes@.len(),
    ensures
        r == u16_at(bytes@, i as int),
{
    let (_, rest) = bytes.split_at(i);
    read_u16(rest)
}

/// Reads the `u32` stored little-endian at position `i` of `bytes`.
pub fn read_u32_at(bytes: &[u8], i: usize) -> (r: u32)
    requires
        i + 4 <= bytes@.len(),
    ensures
        r == u32_at(bytes@, i as int),
{
    let (_, rest) = bytes.split_at(i);
    read_u32(rest)
}

/// Appends the two bytes of `x`, least significant first.
pub fn push_u16(out: &mut Vec<u8>, x: u16)
    ensures
        final(out)@ == old(out)@ + u16_bytes(x),
{
    let b = write_u16(x);
    out.push(b[0]);
    out.push(b[1]);
    assert(out@ =~= old(out)@ + u16_bytes(x));
}

/// Appends the four bytes of `x`, least significant first.
pub fn push_u32(out: &mut Vec<u8>, x: u32)
    ensures
        final(out)@ == old(out)@ + u32_bytes(x),
{
    let b = write_u32(x);
    out.push(b[0]);
    out.push(b[1]);
    out.push(b[2]);
    out.push(b[3]);
    assert(out@ =~= old(out)@ + u32_bytes(x));
}

/// Bytes appended after a field do not change what is read from it.
pub proof fn lemma_read_ignores_suffix()
    ensures
        forall|a: Seq<u8>, c: Seq<u8>, i: int|
            0 <= i && i + 4 <= a.len() ==> #[trigger] u32_at(a + c, i) == u32_at(a, i),
        forall|a: Seq<u8>, c: Seq<u8>, i: int|
            0 <= i && i + 2 <= a.len() ==> #[trigger] u16_at(a + c, i) == u16_at(a, i),
{
    assert forall|a: Seq<u8>, c: Seq<u8>, i: int| 0 <= i && i + 4 <= a.len() implies #[trigger] u32_at(
        a + c,
        i,
    ) == u32_at(a, i) by {
        assert((a + c)[i] == a[i] && (a + c)[i + 1] == a[i + 1] && (a + c)[i + 2] == a[i + 2] && (a
            + c)[i + 3] == a[i + 3]);
    }
    assert forall|a: Seq<u8>, c: Seq<u8>, i: int| 0 <= i && i + 2 <= a.len() implies #[trigger] u16_at(
        a + c,
        i,
    ) == u16_at(a, i) by {
        assert((a + c)[i] == a[i] && (a + c)[i + 1] == a[i + 1]);
    }
}

/// Bytes put before a field shift where it is read from, and nothing else.
pub proof fn lemma_read_after_prefix()
    ensures
        forall|a: Seq<u8>, c: Seq<u8>, j: int|
            a.len() <= j && j + 4 <= a.len() + c.len() ==> #[trigger] u32_at(a + c, j) == u32_at(
                c,
                j - a.len(),
            ),
        forall|a: Seq<u8>, c: Seq<u8>, j: int|
            a.len() <= j && j + 2 <= a.len() + c.len() ==> #[trigger] u16_at(a + c, j) == u16_at(
                c,
                j - a.len(),
            ),
{
    assert forall|a: Seq<u8>, c: Seq<u8>, j: int|
        a.len() <= j && j + 4 <= a.len() + c.len() implies #[trigger] u32_at(a + c, j) == u32_at(
        c,
        j - a.len(),
    ) by {
        let k = j - a.len();
        assert((a + c)[j] == c[k] && (a + c)[j + 1] == c[k + 1] && (a + c)[j + 2] == c[k + 2] && (a
            + c)[j + 3] == c[k + 3]);
    }
    assert forall|a: Seq<u8>, c: Seq<u8>, j: int|
        a.len() <= j && j + 2 <= a.len() + c.len() implies #[trigger] u16_at(a + c, j) == u16_at(
        c,
        j - a.len(),
    ) by {
        let k = j - a.len();
        assert((a + c)[j] == c[k] && (a + c)[j + 1] == c[k + 1]);
    }
}

/// A field appended to some bytes reads back as the value written.
pub proof fn lemma_read_appended()
    ensures
        forall|a: Seq<u8>, x: u32| #[trigger] u32_at(a + u32_bytes(x), a.len() as int) == x,
        forall|a: Seq<u8>, x: u16| #[trigger] u16_at(a + u16_bytes(x), a.len() as int) == x,
{
    assert forall|a: Seq<u8>, x: u32| #[trigger] u32_at(a + u32_bytes(x), a.len() as int) == x by {
        lemma_u32_round_trip(x);
        let b = a + u32_bytes(x);
        let n = a.len() as int;
        assert(b[n] == u32_bytes(x)[0] && b[n + 1] == u32_bytes(x)[1] && b[n + 2] == u32_bytes(x)[2]
            && b[n + 3] == u32_bytes(x)[3]);
    }
    assert forall|a: Seq<u8>, x: u16| #[trigger] u16_at(a + u16_bytes(x), a.len() as int) == x by {
        lemma_u16_round_trip(x);
        let b = a + u16_bytes(x);
        let n = a.len() as int;
        assert(b[n] == u16_bytes(x)[0] && b[n + 1] == u16_bytes(x)[1]);
    }
}

/// The bytes from `s` up to the end of the field at `i` are those before the
/// field followed by the field's value written back.
pub proof fn lemma_extend_u32(b: Seq<u8>, s: int, i: int)
    requires
        0 <= s <= i,
        i + 4 <= b.len(),
    ensures
        b.subrange(s, i + 4) == b.subrange(s, i) + u32_bytes(u32_at(b, i)),
{
    lemma_le32_bytes(b[i], b[i + 1], b[i + 2], b[i + 3]);
    assert(b.subrange(s, i + 4) =~= b.subrange(s, i) + u32_bytes(u32_at(b, i)));
}

/// The bytes from `s` up to the end of the field at `i` are those before the
/// field followed by the field's value written back.
pub proof fn lemma_extend_u16(b: Seq<u8>, s: int, i: int)
    requires
        0 <= s <= i,
        i + 2 <= b.len(),
    ensures
        b.subrange(s, i + 2) == b.subrange(s, i) + u16_bytes(u16_at(b, i)),
{
    lemma_le16_bytes(b[i], b[i + 1]);
    assert(b.subrange(s, i + 2) =~= b.subrange(s, i) + u16_bytes(u16_at(b, i)));
}

} // verus!
