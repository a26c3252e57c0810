//! Masking: every payload byte is combined by exclusive-or with one byte of a 32-bit key, the
//! key's bytes taken in turn from the most significant on and repeated every four.

use vstd::prelude::*;

verus! {

/// The four bytes of a key, most significant first.
pub open spec fn spec_key_bytes(key: u32) -> Seq<u8> {
    seq![
        ((key >> 24) & 0xff) as u8,
        ((key >> 16) & 0xff) as u8,
        ((key >> 8) & 0xff) as u8,
        (key & 0xff) as u8,
    ]
}

/// The key whose four bytes, most significant first, are these.
pub open spec fn spec_key_from_bytes(b0: u8, b1: u8, b2: u8, b3: u8) -> u32 {
    ((b0 as u32) << 24) | ((b1 as u32) << 16) | ((b2 as u32) << 8) | (b3 as u32)
}

/// The key byte that masks the payload byte at `index`.
pub open spec fn spec_key_byte(key: u32, index: int) -> u8 {
    spec_key_bytes(key)[index % 4]
}

/// A payload with the key applied. Applying the key to the result gives the payload back.
pub open spec fn spec_apply_mask(data: Seq<u8>, key: u32) -> Seq<u8> {
    Seq::new(data.len(), |i: int| data[i] ^ spec_key_byte(key, i))
}

pub fn key_bytes(key: u32) -> (r: [u8; 4])
    ensures
        r@ == spec_key_bytes(key),
{
    assert(((key >> 24) & 0xff) < 0x100 && ((key >> 16) & 0xff) < 0x100 && ((key >> 8) & 0xff)
        < 0x100 && (key & 0xff) < 0x100) by (bit_vector);
    let r: [u8; 4] = [
        ((key >> 24) & 0xff) as u8,
        ((key >> 16) & 0xff) as u8,
        ((key >> 8) & 0xff) as u8,
        (key & 0xff) as u8,
    ];
    assert(r@ =~= spec_key_bytes(key));
    r
}

pub fn key_from_bytes(b0: u8, b1: u8, b2: u8, b3: u8) -> (r: u32)
    ensures
        r == spec_key_from_bytes(b0, b1, b2, b3),
        spec_key_bytes(r) == seq![b0, b1, b2, b3],
{
    let r: u32 = ((b0 as u32) << 24) | ((b1 as u32) << 16) | ((b2 as u32) << 8) | (b3 as u32);
    proof {
        lemma_key_from_bytes_round_trip(b0, b1, b2, b3);
    }
    r
}

/// Four bytes put together into a key are that key's four bytes.
pub proof fn lemma_key_from_bytes_round_trip(b0: u8, b1: u8, b2: u8, b3: u8)
    ensures
        spec_key_bytes(spec_key_from_bytes(b0, b1, b2, b3)) == seq![b0, b1, b2, b3],
{
    let r: u32 = spec_key_from_bytes(b0, b1, b2, b3);
    assert(r == ((b0 as u32) << 24) | ((b1 as u32) << 16) | ((b2 as u32) << 8) | (b3 as u32));
    assert(((r >> 24) & 0xff) as u8 == b0 && ((r >> 16) & 0xff) as u8 == b1 && ((r >> 8) & 0xff) as u8
        == b2 && (r & 0xff) as u8 == b3) by (bit_vector)
        requires
            r == ((b0 as u32) << 24) | ((b1 as u32) << 16) | ((b2 as u32) << 8) | (b3 as u32),
    ;
    assert(spec_key_bytes(r) =~= seq![b0, b1, b2, b3]);
}

/// Masks, or unmasks, a payload in place.
pub fn apply_mask(data: &mut Vec<u8>, key: u32)
    ensures
        final(data)@ == spec_apply_mask(old(data)@, key),
{
    let kb: [u8; 4] = key_bytes(key);
    let n: usize = data.len();
    let mut i: usize = 0;
    while i < n
        invariant
            i <= n,
            n == data@.len(),
            data@.len() == old(data)@.len(),
            kb@ == spec_key_bytes(key),
            forall|j: int| 0 <= j < i ==> data@[j] == old(data)@[j] ^ spec_key_byte(key, j),
            forall|j: int| i <= j < n ==> data@[j] == old(data)@[j],
        decreases n - i,
    {
        let b: u8 = data[i] ^ kb[i % 4];
        data.set(i, b);
        i = i + 1;
    }
    assert(data@ =~= spec_apply_mask(old(data)@, key));
}

/// Masking twice with one key changes nothing.
pub proof fn lemma_mask_involution(data: Seq<u8>, key: u32)
    ensures
        spec_apply_mask(spec_apply_mask(data, key), key) == data,
{
    let once = spec_apply_mask(data, key);
    let twice = spec_apply_mask(once, key);
    assert forall|i: int| 0 <= i < data.len() implies twice[i] == data[i] by {
        let a: u8 = data[i];
        let k: u8 = spec_key_byte(key, i);
        assert((a ^ k) ^ k == a) by (bit_vector);
    }
    assert(twice =~= data);
}

/// A key is its four bytes put together again.
pub proof fn lemma_key_bytes_round_trip(key: u32)
    ensures
        spec_key_from_bytes(
            spec_key_bytes(key)[0],
            spec_key_bytes(key)[1],
            spec_key_bytes(key)[2],
            spec_key_bytes(key)[3],
        ) == key,
{
    let b0: u8 = ((key >> 24) & 0xff) as u8;
    let b1: u8 = ((key >> 16) & 0xff) as u8;
    let b2: u8 = ((key >> 8) & 0xff) as u8;
    let b3: u8 = (key & 0xff) as u8;
    assert(((b0 as u32) << 24) | ((b1 as u32) << 16) | ((b2 as u32) << 8) | (b3 as u32) == key)
        by (bit_vector)
        requires
            b0 == ((key >> 24) & 0xff) as u8,
            b1 == ((key >> 16) & 0xff) as u8,
            b2 == ((key >> 8) & 0xff) as u8,
            b3 == (key & 0xff) as u8,
    ;
}

} // verus!
