//! Full-key hashing. Identifiers are never reduced with `(a * u + c) % b`.

use vstd::prelude::*;
use vstd::utf8::encode_utf8;

verus! {

/// `x` rotated left by `k` bits, for `0 < k < 64`.
pub open spec fn rotate_spec(x: u64, k: u64) -> u64 {
    (x << k) | (x >> (64 - k) as u64)
}

fn rotate(x: u64, k: u64) -> (r: u64)
    requires
        0 < k < 64,
    ensures
        r == rotate_spec(x, k),
{
    (x << k) | (x >> (64 - k))
}

/// The bytes of a chunk as a little-endian lane.
pub open spec fn lane_spec(chunk: Seq<u8>) -> u64
    decreases chunk.len(),
{
    if chunk.len() == 0 {
        0
    } else {
        lane_spec(chunk.drop_last()) | ((chunk.last() as u64) << ((chunk.len() - 1) * 8) as u64)
    }
}

/// One step of the mixing loop over an 8-byte (or shorter, final) chunk.
pub open spec fn absorb_step(hash: u64, chunk: Seq<u8>) -> u64 {
    rotate_spec(hash.wrapping_mul(0xBF58_476D_1CE4_E5B9) ^ rotate_spec(lane_spec(chunk), 17), 31)
}

/// The mixing loop over all chunks of `bytes`, eight bytes at a time.
pub open spec fn absorb(hash: u64, bytes: Seq<u8>) -> u64
    decreases bytes.len(),
{
    if bytes.len() == 0 {
        hash
    } else {
        let n = if bytes.len() < 8 { bytes.len() as int } else { 8int };
        absorb(absorb_step(hash, bytes.take(n)), bytes.skip(n))
    }
}

/// The finalizer: length, then three xor-shift-multiply rounds.
pub open spec fn finish_spec(hash: u64, len: u64) -> u64 {
    let h0 = hash ^ len;
    let h1 = h0 ^ (h0 >> 33u64);
    let h2 = h1.wrapping_mul(0xFF51_AFD7_ED55_8CCD);
    let h3 = h2 ^ (h2 >> 33u64);
    let h4 = h3.wrapping_mul(0xC4CE_B9FE_1A85_EC53);
    h4 ^ (h4 >> 33u64)
}

/// The full-key hash of `bytes` under `seed`.
pub open spec fn mix_spec(seed: u64, bytes: Seq<u8>) -> u64 {
    finish_spec(absorb(seed ^ 0x9E37_79B9_7F4A_7C15, bytes), bytes.len() as u64)
}

fn lane(bytes: &[u8], start: usize, end: usize) -> (r: u64)
    requires
        start <= end <= bytes@.len(),
        end - start <= 8,
    ensures
        r == lane_spec(bytes@.subrange(start as int, end as int)),
{
    let ghost chunk = bytes@.subrange(start as int, end as int);
    let mut acc: u64 = 0;
    let mut index: usize = 0;
    while index < end - start
        invariant
            start <= end <= bytes@.len(),
            end - start <= 8,
            chunk == bytes@.subrange(start as int, end as int),
            index <= end - start,
            acc == lane_spec(chunk.take(index as int)),
        decreases end - start - index,
    {
        let byte = bytes[start + index];
        proof {
            assert(chunk.take(index + 1).drop_last() =~= chunk.take(index as int));
            assert(chunk.take(index + 1).last() == byte);
        }
        acc = acc | ((byte as u64) << ((index * 8) as u64));
        index += 1;
    }
    assert(chunk.take((end - start) as int) =~= chunk);
    acc
}

/// Hashes every byte of `bytes` under `seed`.
pub fn mix(seed: u64, bytes: &[u8]) -> (r: u64)
    ensures
        r == mix_spec(seed, bytes@),
{
    let mut hash: u64 = seed ^ 0x9E37_79B9_7F4A_7C15;
    let mut start: usize = 0;
    assert(bytes@.skip(0) =~= bytes@);
    while start < bytes.len()
        invariant
            start <= bytes@.len(),
            absorb(hash, bytes@.skip(start as int)) == absorb(seed ^ 0x9E37_79B9_7F4A_7C15, bytes@),
        decreases bytes@.len() - start,
    {
        let end: usize = if bytes.len() - start < 8 { bytes.len() } else { start + 8 };
        let lane_value = lane(bytes, start, end);
        let ghost rest = bytes@.skip(start as int);
        proof {
            assert(rest.take((end - start) as int) =~= bytes@.subrange(start as int, end as int));
            assert(rest.skip((end - start) as int) =~= bytes@.skip(end as int));
        }
        hash = hash.wrapping_mul(0xBF58_476D_1CE4_E5B9) ^ rotate(lane_value, 17);
        hash = rotate(hash, 31);
        start = end;
    }
    assert(bytes@.skip(start as int) =~= Seq::<u8>::empty());
    hash = hash ^ (bytes.len() as u64);
    hash = hash ^ (hash >> 33);
    hash = hash.wrapping_mul(0xFF51_AFD7_ED55_8CCD);
    hash = hash ^ (hash >> 33);
    hash = hash.wrapping_mul(0xC4CE_B9FE_1A85_EC53);
    hash ^ (hash >> 33)
}

/// The four little-endian bytes of `x`.
pub open spec fn le32_spec(x: u32) -> Seq<u8> {
    seq![(x % 256) as u8, ((x / 256) % 256) as u8, ((x / 65536) % 256) as u8, ((x / 16777216) % 256) as u8]
}

/// The length prefix of a field: its byte length, capped at `u32::MAX`.
pub open spec fn length_prefix(len: nat) -> Seq<u8> {
    le32_spec(if len > u32::MAX { u32::MAX } else { len as u32 })
}

/// The fields, each as its length prefix followed by its UTF-8 bytes.
pub open spec fn encoded_fields(parts: Seq<Seq<char>>) -> Seq<u8>
    decreases parts.len(),
{
    if parts.len() == 0 {
        Seq::empty()
    } else {
        let last = encode_utf8(parts.last());
        encoded_fields(parts.drop_last()) + length_prefix(last.len()) + last
    }
}

/// The text of each field.
pub open spec fn field_texts(parts: Seq<&str>) -> Seq<Seq<char>> {
    parts.map_values(|p: &str| p@)
}

/// Length-prefixed fields, so a NUL inside a label cannot split the tuple.
pub fn encode_fields(parts: &[&str]) -> (r: Vec<u8>)
    ensures
        r@ == encoded_fields(field_texts(parts@)),
{
    let ghost texts = field_texts(parts@);
    let mut out: Vec<u8> = Vec::new();
    let mut i: usize = 0;
    while i < parts.len()
        invariant
            i <= parts@.len(),
            texts == field_texts(parts@),
            out@ == encoded_fields(texts.take(i as int)),
        decreases parts@.len() - i,
    {
        let bytes = parts[i].as_bytes();
        let len: u32 = if bytes.len() > 4_294_967_295usize { 4_294_967_295u32 } else { bytes.len() as u32 };
        let ghost before = out@;
        out.push((len % 256) as u8);
        out.push(((len / 256) % 256) as u8);
        out.push(((len / 65536) % 256) as u8);
        out.push(((len / 16777216) % 256) as u8);
        let ghost prefixed = out@;
        assert(prefixed =~= before + length_prefix(bytes@.len()));
        let mut j: usize = 0;
        while j < bytes.len()
            invariant
                j <= bytes@.len(),
                out@ == prefixed + bytes@.take(j as int),
            decreases bytes@.len() - j,
        {
            out.push(bytes[j]);
            j += 1;
            assert(out@ =~= prefixed + bytes@.take(j as int));
        }
        proof {
            assert(bytes@.take(bytes@.len() as int) =~= bytes@);
            assert(texts.take(i + 1).drop_last() =~= texts.take(i as int));
            assert(texts.take(i + 1).last() == parts@[i as int]@);
        }
        i += 1;
    }
    assert(texts.take(parts@.len() as int) =~= texts);
    out
}

/// The bucket of `hash` among `max(width, 1)` buckets: `hash * width / 2^64`.
pub open spec fn bucket_spec(hash: u64, width: usize) -> int {
    let w = if width == 0 { 1int } else { width as int };
    (hash as int * w) / 0x1_0000_0000_0000_0000int
}

/// Scales a full 64-bit hash onto `max(width, 1)` buckets.
pub fn bucket(hash: u64, width: usize) -> (r: usize)
    ensures
        r == bucket_spec(hash, width),
        r < (if width == 0 { 1 } else { width }),
{
    let w: u128 = if width == 0 { 1 } else { width as u128 };
    let h: u128 = hash as u128;
    assert(h * w < 0x1_0000_0000_0000_0000_0000_0000_0000_0000) by (nonlinear_arith)
        requires
            h < 0x1_0000_0000_0000_0000,
            w < 0x1_0000_0000_0000_0000,
    ;
    let product: u128 = h * w;
    let shifted: u128 = product >> 64u32;
    assert(shifted == product / 0x1_0000_0000_0000_0000) by (bit_vector)
        requires
            shifted == product >> 64u32,
    ;
    assert(product / 0x1_0000_0000_0000_0000 < w) by (nonlinear_arith)
        requires
            product == h * w,
            h < 0x1_0000_0000_0000_0000,
            w >= 1,
    ;
    shifted as usize
}

} // verus!

verus! {

/// Read from the front, the encoding is the first field's prefix and bytes, then the rest.
pub proof fn lemma_encoded_fields_front(parts: Seq<Seq<char>>)
    requires
        parts.len() > 0,
    ensures
        encoded_fields(parts) == length_prefix(encode_utf8(parts[0]).len()) + encode_utf8(parts[0])
            + encoded_fields(parts.drop_first()),
    decreases parts.len(),
{
    if parts.len() == 1 {
        assert(parts.drop_last() =~= Seq::<Seq<char>>::empty());
        assert(parts.drop_first() =~= Seq::<Seq<char>>::empty());
        assert(encoded_fields(parts) =~= length_prefix(encode_utf8(parts[0]).len()) + encode_utf8(parts[0])
            + encoded_fields(parts.drop_first()));
    } else {
        let p = parts.drop_last();
        lemma_encoded_fields_front(p);
        assert(p.drop_first() =~= parts.drop_first().drop_last());
        assert(parts.drop_first().last() == parts.last());
        assert(p[0] == parts[0]);
        let head = length_prefix(encode_utf8(parts[0]).len()) + encode_utf8(parts[0]);
        let tail = length_prefix(encode_utf8(parts.last()).len()) + encode_utf8(parts.last());
        assert(encoded_fields(parts) =~= head + encoded_fields(p.drop_first()) + tail);
        assert(encoded_fields(parts.drop_first()) =~= encoded_fields(p.drop_first()) + tail);
    }
}

/// Four little-endian bytes determine the integer.
proof fn lemma_le32_injective(x: u32, y: u32)
    requires
        le32_spec(x) == le32_spec(y),
    ensures
        x == y,
{
    let (a0, a1, a2, a3) = (x % 256, (x / 256) % 256, (x / 65536) % 256, (x / 16777216) % 256);
    let (b0, b1, b2, b3) = (y % 256, (y / 256) % 256, (y / 65536) % 256, (y / 16777216) % 256);
    assert(le32_spec(x)[0] == le32_spec(y)[0]);
    assert(le32_spec(x)[1] == le32_spec(y)[1]);
    assert(le32_spec(x)[2] == le32_spec(y)[2]);
    assert(le32_spec(x)[3] == le32_spec(y)[3]);
    assert(a0 == b0 && a1 == b1 && a2 == b2 && a3 == b3);
    assert(x == y) by (bit_vector)
        requires
            x % 256 == y % 256,
            (x / 256) % 256 == (y / 256) % 256,
            (x / 65536) % 256 == (y / 65536) % 256,
            (x / 16777216) % 256 == (y / 16777216) % 256,
    ;
}

/// Two three-part splits of one sequence with parts of the same lengths are the same split.
proof fn lemma_split_alike(x1: Seq<u8>, y1: Seq<u8>, z1: Seq<u8>, x2: Seq<u8>, y2: Seq<u8>, z2: Seq<u8>)
    requires
        x1 + y1 + z1 == x2 + y2 + z2,
        x1.len() == x2.len(),
        y1.len() == y2.len(),
    ensures
        x1 == x2,
        y1 == y2,
        z1 == z2,
{
    let s = x1 + y1 + z1;
    let m = x1.len() as int;
    let n = y1.len() as int;
    assert(x1 =~= s.subrange(0, m));
    assert(x2 =~= (x2 + y2 + z2).subrange(0, m));
    assert(y1 =~= s.subrange(m, m + n));
    assert(y2 =~= (x2 + y2 + z2).subrange(m, m + n));
    assert(z1 =~= s.subrange(m + n, s.len() as int));
    assert(z2 =~= (x2 + y2 + z2).subrange(m + n, s.len() as int));
}

/// Length-prefixed fields can be told apart: two lists of fields, each under 2^32 bytes,
/// with the same encoding are the same list, so no label can split or merge a tuple.
pub proof fn law_encoded_fields_injective(a: Seq<Seq<char>>, b: Seq<Seq<char>>)
    requires
        forall|i: int| 0 <= i < a.len() ==> encode_utf8(#[trigger] a[i]).len() <= u32::MAX,
        forall|i: int| 0 <= i < b.len() ==> encode_utf8(#[trigger] b[i]).len() <= u32::MAX,
        encoded_fields(a) == encoded_fields(b),
    ensures
        a == b,
    decreases a.len(),
{
    if a.len() == 0 && b.len() == 0 {
        assert(a =~= b);
    } else if a.len() == 0 {
        lemma_encoded_fields_front(b);
        assert(encoded_fields(b).len() >= 4);
    } else if b.len() == 0 {
        lemma_encoded_fields_front(a);
        assert(encoded_fields(a).len() >= 4);
    } else {
        lemma_encoded_fields_front(a);
        lemma_encoded_fields_front(b);
        let ua = encode_utf8(a[0]);
        let ub = encode_utf8(b[0]);
        let pa = length_prefix(ua.len());
        let pb = length_prefix(ub.len());
        let ra = encoded_fields(a.drop_first());
        let rb = encoded_fields(b.drop_first());
        assert(pa + (ua + ra) =~= pa + ua + ra);
        assert(pb + (ub + rb) =~= pb + ub + rb);
        lemma_split_alike(pa, ua + ra, Seq::empty(), pb, ub + rb, Seq::empty());
        assert(pa == pb);
        lemma_le32_injective(ua.len() as u32, ub.len() as u32);
        assert(ua + ra =~= ua + ra + Seq::<u8>::empty());
        assert(ub + rb =~= ub + rb + Seq::<u8>::empty());
        lemma_split_alike(ua, ra, Seq::empty(), ub, rb, Seq::empty());
        vstd::utf8::encode_utf8_decode_utf8(a[0]);
        vstd::utf8::encode_utf8_decode_utf8(b[0]);
        assert(a[0] == b[0]);
        assert forall|i: int| 0 <= i < a.drop_first().len() implies encode_utf8(#[trigger] a.drop_first()[i]).len() <= u32::MAX by {
            assert(a.drop_first()[i] == a[i + 1]);
        }
        assert forall|i: int| 0 <= i < b.drop_first().len() implies encode_utf8(#[trigger] b.drop_first()[i]).len() <= u32::MAX by {
            assert(b.drop_first()[i] == b[i + 1]);
        }
        law_encoded_fields_injective(a.drop_first(), b.drop_first());
        assert(a =~= seq![a[0]] + a.drop_first());
        assert(b =~= seq![b[0]] + b.drop_first());
    }
}

} // verus!
