//! OCB2-AES128 with the mitigations against XEX* forgeries, and the packet
//! state that goes with it: two counters, the replay history and statistics.
//!
//! A block is sixteen bytes, read as a big-endian element of GF(2^128) with
//! the reduction polynomial 0x87.

use vstd::prelude::*;

use aes::cipher::generic_array::GenericArray;
use aes::cipher::{BlockDecrypt, BlockEncrypt, KeyInit};
use aes::Aes128;

verus! {

/// AES-128 block size in bytes.
pub const BLOCK_SIZE: usize = 16;

/// AES-128 key size in bytes.
pub const KEY_SIZE: usize = 16;

/// A single block.
pub type Block = [u8; 16];

/// AES-128 applied to one block.
pub uninterp spec fn aes128_encrypted(key: Seq<u8>, block: Seq<u8>) -> Seq<u8>;

/// The inverse of AES-128 applied to one block.
pub uninterp spec fn aes128_decrypted(key: Seq<u8>, block: Seq<u8>) -> Seq<u8>;

/// Calls `encrypt_block` of the aes crate's `Aes128` under the given key. The
/// result has a name. A block cipher is a keyed permutation: decrypting the
/// result gives the block back.
#[verifier::external_body]
fn aes_encrypt(key: &[u8; 16], input: &Block) -> (output: Block)
    ensures
        output@ == aes128_encrypted(key@, input@),
        aes128_decrypted(key@, output@) == input@,
{
    let mut buffer = GenericArray::clone_from_slice(input);
    Aes128::new(GenericArray::from_slice(key)).encrypt_block(&mut buffer);
    buffer.into()
}

/// Calls `decrypt_block` of the aes crate's `Aes128` under the given key. The
/// result has a name. A block cipher is a keyed permutation: encrypting the
/// result gives the block back.
#[verifier::external_body]
fn aes_decrypt(key: &[u8; 16], input: &Block) -> (output: Block)
    ensures
        output@ == aes128_decrypted(key@, input@),
        aes128_encrypted(key@, output@) == input@,
{
    let mut buffer = GenericArray::clone_from_slice(input);
    Aes128::new(GenericArray::from_slice(key)).decrypt_block(&mut buffer);
    buffer.into()
}

// Arithmetic on blocks.

pub open spec fn xored(a: Seq<u8>, b: Seq<u8>) -> Seq<u8> {
    Seq::new(16, |i: int| a[i] ^ b[i])
}

/// Twice a block: one bit to the left, reduced by 0x87.
pub open spec fn doubled(block: Seq<u8>) -> Seq<u8> {
    Seq::new(
        16,
        |i: int|
            if i < 15 {
                (block[i] << 1) | (block[i + 1] >> 7)
            } else {
                (block[15] << 1) ^ (if block[0] >> 7 == 1 {
                    0x87u8
                } else {
                    0u8
                })
            },
    )
}

/// Three times a block: itself and its double.
pub open spec fn tripled(block: Seq<u8>) -> Seq<u8> {
    xored(block, doubled(block))
}

/// A block with its lowest bit of the first byte flipped, where that is asked for.
pub open spec fn flipped(block: Seq<u8>, flip: bool) -> Seq<u8> {
    if flip {
        block.update(0, block[0] ^ 1)
    } else {
        block
    }
}

pub open spec fn zero_block() -> Seq<u8> {
    Seq::new(16, |i: int| 0u8)
}

/// The number of bits in a final part of `len` bytes, as a block.
pub open spec fn length_of(len: nat) -> Seq<u8> {
    Seq::new(
        16,
        |i: int|
            if i == 15 {
                (8 * len) as u8
            } else {
                0u8
            },
    )
}

proof fn lemma_xor_bytes(a: u8, b: u8)
    ensures
        a ^ (a ^ b) == b,
        (a ^ b) ^ a == b,
        0u8 ^ a == a,
        (a ^ b) ^ 1 == a ^ (b ^ 1),
{
    assert(a ^ (a ^ b) == b) by (bit_vector);
    assert((a ^ b) ^ a == b) by (bit_vector);
    assert(0u8 ^ a == a) by (bit_vector);
    assert((a ^ b) ^ 1 == a ^ (b ^ 1)) by (bit_vector);
}

/// Adding a block twice leaves the other one.
proof fn lemma_xored_twice(a: Seq<u8>, b: Seq<u8>)
    requires
        a.len() == 16,
        b.len() == 16,
    ensures
        xored(a, xored(a, b)) == b,
{
    assert forall|i: int| 0 <= i < 16 implies xored(a, xored(a, b))[i] == b[i] by {
        lemma_xor_bytes(a[i], b[i]);
    }
    assert(xored(a, xored(a, b)) =~= b);
}

/// Flipping a bit of a sum is flipping it in one of its terms.
proof fn lemma_xored_flipped(a: Seq<u8>, b: Seq<u8>, flip: bool)
    requires
        a.len() == 16,
        b.len() == 16,
    ensures
        flipped(xored(a, b), flip) == xored(a, flipped(b, flip)),
{
    lemma_xor_bytes(a[0], b[0]);
    assert(flipped(xored(a, b), flip) =~= xored(a, flipped(b, flip)));
}

fn xor(a: &Block, b: &Block) -> (sum: Block)
    ensures
        sum@ == xored(a@, b@),
{
    let mut sum: Block = [0u8;16];
    let mut i: usize = 0;
    while i < 16
        invariant
            i <= 16,
            forall|k: int| 0 <= k < i ==> sum@[k] == a@[k] ^ b@[k],
        decreases 16 - i,
    {
        sum[i] = a[i] ^ b[i];
        i = i + 1;
    }
    assert(sum@ =~= xored(a@, b@));
    sum
}

fn times2(block: &Block) -> (double: Block)
    ensures
        double@ == doubled(block@),
{
    let mut double: Block = [0u8;16];
    let mut i: usize = 0;
    while i < 15
        invariant
            i <= 15,
            forall|k: int| 0 <= k < i ==> double@[k] == (block@[k] << 1) | (block@[k + 1] >> 7),
        decreases 15 - i,
    {
        double[i] = (block[i] << 1) | (block[i + 1] >> 7);
        i = i + 1;
    }
    let reduction: u8 = if block[0] >> 7 == 1 {
        0x87
    } else {
        0
    };
    double[15] = (block[15] << 1) ^ reduction;
    assert(double@ =~= doubled(block@));
    double
}

fn times3(block: &Block) -> (triple: Block)
    ensures
        triple@ == tripled(block@),
{
    xor(block, &times2(block))
}

fn length_block(len: usize) -> (block: Block)
    requires
        len <= 16,
    ensures
        block@ == length_of(len as nat),
{
    let mut block: Block = [0u8;16];
    block[15] = (len as u8) * 8;
    assert(block@ =~= length_of(len as nat));
    block
}

fn flip_bit(block: Block, flip: bool) -> (result: Block)
    ensures
        result@ == flipped(block@, flip),
{
    let mut result: Block = block;
    if flip {
        result[0] = result[0] ^ 1;
    }
    assert(result@ =~= flipped(block@, flip));
    result
}

/// The block at `offset`.
fn read_block(data: &[u8], offset: usize) -> (block: Block)
    requires
        offset + 16 <= data@.len(),
    ensures
        block@ == data@.subrange(offset as int, offset + 16),
{
    assert(data.len() <= usize::MAX);
    let mut block: Block = [0u8;16];
    let mut i: usize = 0;
    while i < 16
        invariant
            i <= 16,
            offset + 16 <= data@.len(),
            data@.len() <= usize::MAX,
            forall|k: int| 0 <= k < i ==> block@[k] == data@[offset + k],
        decreases 16 - i,
    {
        block[i] = data[offset + i];
        i = i + 1;
    }
    assert(block@ =~= data@.subrange(offset as int, offset + 16));
    block
}

/// The bytes from `offset` on, continued by those of `pad`.
fn read_tail(data: &[u8], offset: usize, pad: &Block) -> (block: Block)
    requires
        offset <= data@.len() <= offset + 16,
    ensures
        block@ == tail_of(data@.skip(offset as int), pad@),
{
    let mut block: Block = *pad;
    let mut i: usize = 0;
    while i < data.len() - offset
        invariant
            data@.len() == data.len(),
            offset <= data@.len() <= offset + 16,
            i <= data@.len() - offset,
            forall|k: int| 0 <= k < i ==> block@[k] == data@[offset + k],
            forall|k: int| i <= k < 16 ==> block@[k] == pad@[k],
        decreases data@.len() - offset - i,
    {
        block[i] = data[offset + i];
        i = i + 1;
    }
    assert(block@ =~= tail_of(data@.skip(offset as int), pad@));
    block
}

fn append_prefix(bytes: &mut Vec<u8>, block: &Block, len: usize)
    requires
        len <= 16,
    ensures
        final(bytes)@ == old(bytes)@ + block@.take(len as int),
{
    let ghost before = bytes@;
    let mut i: usize = 0;
    while i < len
        invariant
            i <= len <= 16,
            bytes@ == before + block@.take(i as int),
        decreases len - i,
    {
        bytes.push(block[i]);
        assert(bytes@ =~= before + block@.take(i + 1));
        i = i + 1;
    }
}

/// The last, possibly partial block: `data`, continued by those bytes of `pad`
/// that it leaves over.
pub open spec fn tail_of(data: Seq<u8>, pad: Seq<u8>) -> Seq<u8> {
    Seq::new(
        16,
        |i: int|
            if i < data.len() {
                data[i]
            } else {
                pad[i]
            },
    )
}

/// A block that is zero but possibly for its last byte.
pub open spec fn near_zero(block: Seq<u8>) -> bool {
    forall|i: int| 0 <= i < 15 ==> block[i] == 0
}

/// What encryption or decryption yields.
pub struct Sealed {
    pub authentic: bool,
    pub bytes: Seq<u8>,
    pub tag: Seq<u8>,
}

/// Whether the first block of `plain` is critical: it is the last but one, and
/// near zero.
pub open spec fn critical(plain: Seq<u8>) -> bool {
    16 < plain.len() <= 32 && near_zero(plain.take(16))
}

/// The encryption of `plain` from a state of the mode on.
pub open spec fn sealed_from(
    key: Seq<u8>,
    plain: Seq<u8>,
    delta: Seq<u8>,
    checksum: Seq<u8>,
    modify: bool,
) -> Sealed
    decreases plain.len(),
{
    let next = doubled(delta);
    if plain.len() > 16 {
        let block = plain.take(16);
        let flip = critical(plain) && modify;
        let output = xored(next, aes128_encrypted(key, flipped(xored(next, block), flip)));
        let rest = sealed_from(
            key,
            plain.skip(16),
            next,
            flipped(xored(checksum, block), flip),
            modify,
        );
        Sealed {
            authentic: rest.authentic && (!critical(plain) || modify),
            bytes: output + rest.bytes,
            tag: rest.tag,
        }
    } else {
        let pad = aes128_encrypted(key, xored(length_of(plain.len()), next));
        let tail = tail_of(plain, pad);
        Sealed {
            authentic: true,
            bytes: xored(pad, tail).take(plain.len() as int),
            tag: aes128_encrypted(key, xored(tripled(next), xored(checksum, tail))),
        }
    }
}

/// The decryption of `encrypted` from a state of the mode on.
pub open spec fn opened_from(
    key: Seq<u8>,
    encrypted: Seq<u8>,
    delta: Seq<u8>,
    checksum: Seq<u8>,
) -> Sealed
    decreases encrypted.len(),
{
    let next = doubled(delta);
    if encrypted.len() > 16 {
        let block = xored(next, aes128_decrypted(key, xored(next, encrypted.take(16))));
        let rest = opened_from(key, encrypted.skip(16), next, xored(checksum, block));
        Sealed { authentic: rest.authentic, bytes: block + rest.bytes, tag: rest.tag }
    } else {
        let pad = aes128_encrypted(key, xored(length_of(encrypted.len()), next));
        let tail = xored(tail_of(encrypted, zero_block()), pad);
        Sealed {
            authentic: tail.take(15) != next.take(15),
            bytes: tail.take(encrypted.len() as int),
            tag: aes128_encrypted(key, xored(tripled(next), xored(checksum, tail))),
        }
    }
}

/// OCB2 encryption.
pub open spec fn ocb_sealed(key: Seq<u8>, plain: Seq<u8>, nonce: Seq<u8>, modify: bool) -> Sealed {
    sealed_from(key, plain, aes128_encrypted(key, nonce), zero_block(), modify)
}

/// OCB2 decryption.
pub open spec fn ocb_opened(key: Seq<u8>, encrypted: Seq<u8>, nonce: Seq<u8>) -> Sealed {
    opened_from(key, encrypted, aes128_encrypted(key, nonce), zero_block())
}

/// What a receiver reads of `plain`: where the mitigation applies, a bit of the
/// critical block is flipped.
pub open spec fn received(plain: Seq<u8>, modify: bool) -> Seq<u8>
    decreases plain.len(),
{
    if plain.len() > 16 {
        flipped(plain.take(16), critical(plain) && modify) + received(plain.skip(16), modify)
    } else {
        plain
    }
}

/// `delta`, doubled `k` times.
pub open spec fn delta_after(delta: Seq<u8>, k: nat) -> Seq<u8>
    decreases k,
{
    if k == 0 {
        delta
    } else {
        delta_after(doubled(delta), (k - 1) as nat)
    }
}

/// AES is inverted on every full block that encrypting `plain` puts into it.
pub open spec fn inverted(key: Seq<u8>, plain: Seq<u8>, delta: Seq<u8>, modify: bool) -> bool
    decreases plain.len(),
{
    plain.len() > 16 ==> {
        let next = doubled(delta);
        let input = flipped(xored(next, plain.take(16)), critical(plain) && modify);
        &&& aes128_decrypted(key, aes128_encrypted(key, input)) == input
        &&& aes128_encrypted(key, input).len() == 16
        &&& inverted(key, plain.skip(16), next, modify)
    }
}

/// Decryption undoes encryption, and both sides compute one tag.
proof fn lemma_round_trip(
    key: Seq<u8>,
    plain: Seq<u8>,
    delta: Seq<u8>,
    checksum: Seq<u8>,
    modify: bool,
)
    requires
        delta.len() == 16,
        checksum.len() == 16,
        inverted(key, plain, delta, modify),
    ensures
        ({
            let sealed = sealed_from(key, plain, delta, checksum, modify);
            let opened = opened_from(key, sealed.bytes, delta, checksum);
            &&& opened.bytes == received(plain, modify)
            &&& opened.tag == sealed.tag
            &&& sealed.bytes.len() == plain.len()
        }),
    decreases plain.len(),
{
    let sealed = sealed_from(key, plain, delta, checksum, modify);
    let next = doubled(delta);
    if plain.len() > 16 {
        let block = plain.take(16);
        let flip = critical(plain) && modify;
        let input = flipped(xored(next, block), flip);
        let output = xored(next, aes128_encrypted(key, input));
        let sum = flipped(xored(checksum, block), flip);
        let rest = sealed_from(key, plain.skip(16), next, sum, modify);
        lemma_round_trip(key, plain.skip(16), next, sum, modify);
        assert(sealed.bytes == output + rest.bytes);
        assert(sealed.bytes.take(16) =~= output);
        assert(sealed.bytes.skip(16) =~= rest.bytes);
        lemma_xored_twice(next, aes128_encrypted(key, input));
        lemma_xored_flipped(next, block, flip);
        lemma_xored_twice(next, flipped(block, flip));
        lemma_xored_flipped(checksum, block, flip);
        assert(xored(next, aes128_decrypted(key, xored(next, output))) == flipped(block, flip));
    } else {
        let pad = aes128_encrypted(key, xored(length_of(plain.len()), next));
        let tail = tail_of(plain, pad);
        let read = xored(tail_of(sealed.bytes, zero_block()), pad);
        assert(sealed.bytes.len() == plain.len());
        assert forall|i: int| 0 <= i < 16 implies read[i] == tail[i] by {
            lemma_xor_bytes(pad[i], tail[i]);
        }
        assert(read =~= tail);
        assert(tail.take(plain.len() as int) =~= plain);
    }
}

/// With the mitigation, encryption is always authentic.
proof fn lemma_mitigated(key: Seq<u8>, plain: Seq<u8>, delta: Seq<u8>, checksum: Seq<u8>)
    ensures
        sealed_from(key, plain, delta, checksum, true).authentic,
    decreases plain.len(),
{
    if plain.len() > 16 {
        let next = doubled(delta);
        lemma_mitigated(
            key,
            plain.skip(16),
            next,
            flipped(xored(checksum, plain.take(16)), critical(plain)),
        );
    }
}

/// Whether the first fifteen bytes of two blocks agree.
fn same_front(a: &Block, b: &Block) -> (same: bool)
    ensures
        same == (a@.take(15) == b@.take(15)),
{
    let mut i: usize = 0;
    while i < 15
        invariant
            i <= 15,
            forall|k: int| 0 <= k < i ==> a@[k] == b@[k],
        decreases 15 - i,
    {
        if a[i] != b[i] {
            assert(a@.take(15)[i as int] != b@.take(15)[i as int]);
            return false;
        }
        i = i + 1;
    }
    assert(a@.take(15) =~= b@.take(15));
    true
}

fn is_near_zero(block: &Block) -> (zero: bool)
    ensures
        zero == near_zero(block@),
{
    let mut i: usize = 0;
    while i < 15
        invariant
            i <= 15,
            forall|k: int| 0 <= k < i ==> block@[k] == 0,
        decreases 15 - i,
    {
        if block[i] != 0 {
            return false;
        }
        i = i + 1;
    }
    true
}

/// The full blocks that the encryption has put through AES so far were inverted.
spec fn inverted_so_far(key: Seq<u8>, plain: Seq<u8>, delta: Seq<u8>, modify: bool, done: nat) -> bool
    decreases done,
{
    done > 0 ==> {
        let next = doubled(delta);
        let input = flipped(xored(next, plain.take(16)), critical(plain) && modify);
        &&& plain.len() > 16
        &&& aes128_decrypted(key, aes128_encrypted(key, input)) == input
        &&& aes128_encrypted(key, input).len() == 16
        &&& inverted_so_far(key, plain.skip(16), next, modify, (done - 1) as nat)
    }
}

/// One more block was inverted.
proof fn lemma_inverted_more(key: Seq<u8>, plain: Seq<u8>, delta: Seq<u8>, modify: bool, done: nat)
    requires
        inverted_so_far(key, plain, delta, modify, done),
        16 * done <= plain.len(),
        ({
            let left = plain.skip(16 * done as int);
            let next = doubled(delta_after(delta, done));
            let input = flipped(xored(next, left.take(16)), critical(left) && modify);
            &&& left.len() > 16
            &&& aes128_decrypted(key, aes128_encrypted(key, input)) == input
            &&& aes128_encrypted(key, input).len() == 16
        }),
    ensures
        inverted_so_far(key, plain, delta, modify, done + 1),
    decreases done,
{
    if done > 0 {
        assert(plain.skip(16).skip(16 * (done - 1)) =~= plain.skip(16 * done as int));
        lemma_inverted_more(key, plain.skip(16), doubled(delta), modify, (done - 1) as nat);
    } else {
        assert(plain.skip(0) =~= plain);
        assert(inverted_so_far(key, plain.skip(16), doubled(delta), modify, 0));
    }
}

/// Once all full blocks are done, the encryption was inverted throughout.
proof fn lemma_inverted_all(key: Seq<u8>, plain: Seq<u8>, delta: Seq<u8>, modify: bool, done: nat)
    requires
        inverted_so_far(key, plain, delta, modify, done),
        plain.len() <= 16 * done + 16,
    ensures
        inverted(key, plain, delta, modify),
    decreases done,
{
    if done > 0 {
        lemma_inverted_all(key, plain.skip(16), doubled(delta), modify, (done - 1) as nat);
    }
}

proof fn lemma_delta_after(delta: Seq<u8>, k: nat)
    ensures
        delta_after(delta, k + 1) == doubled(delta_after(delta, k)),
    decreases k,
{
    if k > 0 {
        lemma_delta_after(doubled(delta), (k - 1) as nat);
    } else {
        assert(delta_after(doubled(delta), 0) == doubled(delta));
    }
}

/// OCB2 encryption of `plain` under `key` with the given `nonce`: whether it is
/// authentic, the bytes and the tag.
///
/// It is inauthentic only where a critical block is found and not modified. A
/// modified critical block has a bit flipped.
pub fn ocb_encrypt(
    key: &[u8; 16],
    plain: &[u8],
    nonce: &Block,
    modify_on_xexstar_attack: bool,
) -> (result: (bool, Vec<u8>, Block))
    ensures
        ({
            let sealed = ocb_sealed(key@, plain@, nonce@, modify_on_xexstar_attack);
            let opened = ocb_opened(key@, result.1@, nonce@);
            &&& result.0 == sealed.authentic
            &&& result.1@ == sealed.bytes
            &&& result.2@ == sealed.tag
            &&& result.1@.len() == plain@.len()
            &&& opened.bytes == received(plain@, modify_on_xexstar_attack)
            &&& opened.tag == result.2@
        }),
{
    let mut authentic = true;
    let mut delta = aes_encrypt(key, nonce);
    let mut checksum: Block = [0u8;16];
    let mut encrypted: Vec<u8> = Vec::new();
    let ghost modify = modify_on_xexstar_attack;
    let ghost whole = ocb_sealed(key@, plain@, nonce@, modify);
    let ghost first = delta@;
    let ghost mut done: nat = 0;
    let mut offset: usize = 0;
    assert(checksum@ =~= zero_block());
    assert(plain@.skip(0) =~= plain@);
    assert(encrypted@ + sealed_from(key@, plain@, delta@, checksum@, modify).bytes
        =~= whole.bytes);
    while plain.len() - offset > 16
        invariant
            offset <= plain@.len(),
            offset == 16 * done,
            modify == modify_on_xexstar_attack,
            delta@ == delta_after(first, done),
            inverted_so_far(key@, plain@, first, modify, done),
            ({
                let rest = sealed_from(
                    key@,
                    plain@.skip(offset as int),
                    delta@,
                    checksum@,
                    modify,
                );
                &&& whole.authentic == (authentic && rest.authentic)
                &&& whole.bytes == encrypted@ + rest.bytes
                &&& whole.tag == rest.tag
            }),
        decreases plain@.len() - offset,
    {
        let ghost left = plain@.skip(offset as int);
        let ghost so_far = encrypted@;
        let block = read_block(plain, offset);
        assert(block@ =~= left.take(16));
        let mut flip_a_bit = false;
        if plain.len() - offset <= 32 {
            if is_near_zero(&block) {
                if modify_on_xexstar_attack {
                    flip_a_bit = true;
                } else {
                    authentic = false;
                }
            }
        }
        delta = times2(&delta);
        let input = flip_bit(xor(&delta, &block), flip_a_bit);
        let output = xor(&delta, &aes_encrypt(key, &input));
        append_prefix(&mut encrypted, &output, 16);
        checksum = flip_bit(xor(&checksum, &block), flip_a_bit);
        proof {
            assert(output@.take(16) =~= output@);
            lemma_inverted_more(key@, plain@, first, modify, done);
            lemma_delta_after(first, done);
            assert(left.skip(16) =~= plain@.skip(offset + 16));
            let rest = sealed_from(key@, left.skip(16), delta@, checksum@, modify);
            assert(so_far + (output@ + rest.bytes) =~= encrypted@ + rest.bytes);
            done = done + 1;
        }
        offset = offset + 16;
    }
    let remaining: usize = plain.len() - offset;
    let ghost left = plain@.skip(offset as int);
    delta = times2(&delta);
    let pad = aes_encrypt(key, &xor(&length_block(remaining), &delta));
    let tail = read_tail(plain, offset, &pad);
    checksum = xor(&checksum, &tail);
    append_prefix(&mut encrypted, &xor(&pad, &tail), remaining);
    let tag = aes_encrypt(key, &xor(&times3(&delta), &checksum));
    proof {
        lemma_inverted_all(key@, plain@, first, modify, done);
        lemma_round_trip(key@, plain@, first, zero_block(), modify);
    }
    (authentic, encrypted, tag)
}

/// OCB2 decryption of `encrypted` under `key` with the given `nonce`: whether
/// it is authentic, the bytes and the tag. The tag is still to be compared
/// with the one that was sent.
pub fn ocb_decrypt(key: &[u8; 16], encrypted: &[u8], nonce: &Block) -> (result: (
    bool,
    Vec<u8>,
    Block,
))
    ensures
        ({
            let opened = ocb_opened(key@, encrypted@, nonce@);
            &&& result.0 == opened.authentic
            &&& result.1@ == opened.bytes
            &&& result.2@ == opened.tag
            &&& result.1@.len() == encrypted@.len()
        }),
{
    let mut delta = aes_encrypt(key, nonce);
    let mut checksum: Block = [0u8;16];
    let zeros: Block = [0u8;16];
    let mut plain: Vec<u8> = Vec::new();
    let ghost whole = ocb_opened(key@, encrypted@, nonce@);
    let mut offset: usize = 0;
    assert(checksum@ =~= zero_block());
    assert(zeros@ =~= zero_block());
    assert(encrypted@.skip(0) =~= encrypted@);
    assert(plain@ + opened_from(key@, encrypted@, delta@, checksum@).bytes =~= whole.bytes);
    while encrypted.len() - offset > 16
        invariant
            offset <= encrypted@.len(),
            plain@.len() == offset,
            ({
                let rest = opened_from(
                    key@,
                    encrypted@.skip(offset as int),
                    delta@,
                    checksum@,
                );
                &&& whole.authentic == rest.authentic
                &&& whole.bytes == plain@ + rest.bytes
                &&& whole.tag == rest.tag
            }),
        decreases encrypted@.len() - offset,
    {
        let ghost left = encrypted@.skip(offset as int);
        let ghost so_far = plain@;
        let block = read_block(encrypted, offset);
        assert(block@ =~= left.take(16));
        delta = times2(&delta);
        let decoded = xor(&delta, &aes_decrypt(key, &xor(&delta, &block)));
        append_prefix(&mut plain, &decoded, 16);
        checksum = xor(&checksum, &decoded);
        proof {
            assert(decoded@.take(16) =~= decoded@);
            assert(left.skip(16) =~= encrypted@.skip(offset + 16));
            let rest = opened_from(key@, left.skip(16), delta@, checksum@);
            assert(so_far + (decoded@ + rest.bytes) =~= plain@ + rest.bytes);
        }
        offset = offset + 16;
    }
    let remaining: usize = encrypted.len() - offset;
    delta = times2(&delta);
    let pad = aes_encrypt(key, &xor(&length_block(remaining), &delta));
    let tail = xor(&read_tail(encrypted, offset, &zeros), &pad);
    checksum = xor(&checksum, &tail);
    append_prefix(&mut plain, &tail, remaining);
    let authentic = !same_front(&tail, &delta);
    let tag = aes_encrypt(key, &xor(&times3(&delta), &checksum));
    (authentic, plain, tag)
}

// Counters.

/// The counter with one added from byte `start` on: little-endian, wrapping.
pub open spec fn incremented(iv: Seq<u8>, start: nat) -> Seq<u8>
    decreases iv.len() - start,
{
    if start >= iv.len() {
        iv
    } else if iv[start as int] == 255 {
        incremented(iv.update(start as int, 0), start + 1)
    } else {
        iv.update(start as int, (iv[start as int] + 1) as u8)
    }
}

/// The counter with one taken away from byte `start` on: little-endian, wrapping.
pub open spec fn decremented(iv: Seq<u8>, start: nat) -> Seq<u8>
    decreases iv.len() - start,
{
    if start >= iv.len() {
        iv
    } else if iv[start as int] == 0 {
        decremented(iv.update(start as int, 255), start + 1)
    } else {
        iv.update(start as int, (iv[start as int] - 1) as u8)
    }
}

fn increment_iv_from(iv: &mut Block, start: usize)
    requires
        start <= 16,
    ensures
        final(iv)@ == incremented(old(iv)@, start as nat),
{
    let ghost goal = incremented(iv@, start as nat);
    let mut i: usize = start;
    while i < 16
        invariant_except_break
            i <= 16,
            iv@.len() == 16,
            goal == incremented(iv@, i as nat),
        ensures
            iv@ == goal,
        decreases 16 - i,
    {
        if iv[i] == 255 {
            iv[i] = 0;
        } else {
            iv[i] = iv[i] + 1;
            break;
        }
        i = i + 1;
    }
}

fn decrement_iv_from(iv: &mut Block, start: usize)
    requires
        start <= 16,
    ensures
        final(iv)@ == decremented(old(iv)@, start as nat),
{
    let ghost goal = decremented(iv@, start as nat);
    let mut i: usize = start;
    while i < 16
        invariant_except_break
            i <= 16,
            iv@.len() == 16,
            goal == decremented(iv@, i as nat),
        ensures
            iv@ == goal,
        decreases 16 - i,
    {
        if iv[i] == 0 {
            iv[i] = 255;
        } else {
            iv[i] = iv[i] - 1;
            break;
        }
        i = i + 1;
    }
}

/// A statistic after a signed change. It grows with wrapping, and shrinks only
/// where it stays above zero, read as a signed number.
pub open spec fn stat_changed(counter: u32, delta: int) -> u32 {
    if delta > 0 {
        ((counter + delta) % 0x1_0000_0000) as u32
    } else if counter <= i32::MAX && counter > -delta {
        (counter + delta) as u32
    } else {
        counter
    }
}

fn apply_stat(counter: &mut u32, delta: i32)
    requires
        -128 <= delta <= 128,
    ensures
        *final(counter) == stat_changed(*old(counter), delta as int),
{
    if delta > 0 {
        *counter = counter.wrapping_add(delta as u32);
    } else {
        let amount: u32 = (-delta) as u32;
        if *counter <= 0x7fff_ffff && *counter > amount {
            *counter = *counter - amount;
        }
    }
}

/// The state of one peer's packet encryption.
#[verifier::ext_equal]
pub struct CryptModel {
    pub key: Seq<u8>,
    pub encrypt_iv: Seq<u8>,
    pub decrypt_iv: Seq<u8>,
    pub decrypt_history: Seq<u8>,
    pub good: u32,
    pub late: u32,
    pub lost: u32,
}

/// How far a packet's counter byte is ahead of the last one: the shorter way
/// round, forward where both are equally long and no wrap is needed.
pub open spec fn distance(last: u8, next: u8) -> int {
    let raw = next - last;
    if raw > 128 {
        raw - 256
    } else if raw < -128 {
        raw + 256
    } else {
        raw
    }
}

/// The counter moved by a distance of less than one round of its lowest byte.
pub open spec fn moved(iv: Seq<u8>, by: int) -> Seq<u8> {
    let low = iv[0] + by;
    if low > 255 {
        incremented(iv.update(0, (low - 256) as u8), 1)
    } else if low < 0 {
        decremented(iv.update(0, (low + 256) as u8), 1)
    } else {
        iv.update(0, low as u8)
    }
}

impl CryptModel {
    pub open spec fn wf(self) -> bool {
        &&& self.key.len() == 16
        &&& self.encrypt_iv.len() == 16
        &&& self.decrypt_iv.len() == 16
        &&& self.decrypt_history.len() == 256
    }

    /// The state after a packet was encrypted.
    pub open spec fn encrypted(self) -> CryptModel {
        CryptModel { encrypt_iv: incremented(self.encrypt_iv, 0), ..self }
    }

    /// The packet that encrypts `plain`: the low byte of the counter, three
    /// bytes of the tag, the encrypted bytes.
    pub open spec fn packet(self, plain: Seq<u8>) -> Seq<u8> {
        let iv = incremented(self.encrypt_iv, 0);
        let sealed = ocb_sealed(self.key, plain, iv, true);
        seq![iv[0]] + sealed.tag.take(3) + sealed.bytes
    }

    /// Whether a packet's counter byte lies in the window: ahead by at most
    /// half a round, or late by less than thirty.
    pub open spec fn in_window(self, packet: Seq<u8>) -> bool {
        let d = distance(self.decrypt_iv[0], packet[0]);
        0 < d || -30 < d < 0
    }

    /// The counter under which a packet in the window was encrypted.
    pub open spec fn packet_iv(self, packet: Seq<u8>) -> Seq<u8> {
        moved(self.decrypt_iv, distance(self.decrypt_iv[0], packet[0]))
    }

    /// Whether the history holds a packet's counter. A packet in order is not
    /// looked up.
    pub open spec fn seen(self, packet: Seq<u8>) -> bool {
        let iv = self.packet_iv(packet);
        distance(self.decrypt_iv[0], packet[0]) != 1 && self.decrypt_history[iv[0] as int] == iv[1]
    }

    /// The packet's content, under the counter that it was encrypted under.
    pub open spec fn content(self, packet: Seq<u8>) -> Sealed {
        ocb_opened(self.key, packet.skip(4), self.packet_iv(packet))
    }

    /// Whether a packet is accepted.
    pub open spec fn accepts(self, packet: Seq<u8>) -> bool {
        &&& packet.len() >= 4
        &&& self.in_window(packet)
        &&& !self.seen(packet)
        &&& self.content(packet).authentic
        &&& self.content(packet).tag.take(3) == packet.subrange(1, 4)
    }

    /// The state after a packet came in.
    pub open spec fn decrypted(self, packet: Seq<u8>) -> CryptModel {
        if self.accepts(packet) {
            let d = distance(self.decrypt_iv[0], packet[0]);
            let iv = self.packet_iv(packet);
            CryptModel {
                decrypt_iv: if d < 0 {
                    self.decrypt_iv
                } else {
                    iv
                },
                decrypt_history: self.decrypt_history.update(iv[0] as int, iv[1]),
                good: ((self.good + 1) % 0x1_0000_0000) as u32,
                late: stat_changed(
                    self.late,
                    if d < 0 {
                        1
                    } else {
                        0
                    },
                ),
                lost: stat_changed(
                    self.lost,
                    if d < 0 {
                        -1
                    } else {
                        d - 1
                    },
                ),
                ..self
            }
        } else {
            self
        }
    }
}

/// One peer's packet encryption: the key, both counters, the replay history and
/// the statistics.
pub struct CryptState {
    key: [u8; 16],
    encrypt_iv: Block,
    decrypt_iv: Block,
    decrypt_history: [u8; 256],
    /// Count of packets that were decrypted.
    pub good: u32,
    /// Running count of packets that came late and were recovered.
    pub late: u32,
    /// Running count of packets lost, as gaps in the counter show them.
    pub lost: u32,
}

impl View for CryptState {
    type V = CryptModel;

    closed spec fn view(&self) -> CryptModel {
        CryptModel {
            key: self.key@,
            encrypt_iv: self.encrypt_iv@,
            decrypt_iv: self.decrypt_iv@,
            decrypt_history: self.decrypt_history@,
            good: self.good,
            late: self.late,
            lost: self.lost,
        }
    }
}

proof fn lemma_incremented_len(iv: Seq<u8>, start: nat)
    ensures
        incremented(iv, start).len() == iv.len(),
        forall|k: int|
            0 <= k < start && k < iv.len() ==> #[trigger] incremented(iv, start)[k] == iv[k],
    decreases iv.len() - start,
{
    if start < iv.len() && iv[start as int] == 255 {
        let next = iv.update(start as int, 0);
        lemma_incremented_len(next, start + 1);
        assert(incremented(iv, start) == incremented(next, start + 1));
        assert forall|k: int| 0 <= k < start implies #[trigger] incremented(iv, start)[k] == iv[k] by {
            assert(incremented(next, start + 1)[k] == next[k]);
        }
    }
}

proof fn lemma_decremented_len(iv: Seq<u8>, start: nat)
    ensures
        decremented(iv, start).len() == iv.len(),
        forall|k: int|
            0 <= k < start && k < iv.len() ==> #[trigger] decremented(iv, start)[k] == iv[k],
    decreases iv.len() - start,
{
    if start < iv.len() && iv[start as int] == 0 {
        let next = iv.update(start as int, 255);
        lemma_decremented_len(next, start + 1);
        assert(decremented(iv, start) == decremented(next, start + 1));
        assert forall|k: int| 0 <= k < start implies #[trigger] decremented(iv, start)[k] == iv[k] by {
            assert(decremented(next, start + 1)[k] == next[k]);
        }
    }
}

/// A counter moved by the distance to a byte has that byte at its low end.
proof fn lemma_moved(iv: Seq<u8>, next: u8)
    requires
        iv.len() == 16,
    ensures
        moved(iv, distance(iv[0], next)).len() == 16,
        moved(iv, distance(iv[0], next))[0] == next,
{
    let d = distance(iv[0], next);
    let low = iv[0] + d;
    if low > 255 {
        let start = iv.update(0, (low - 256) as u8);
        lemma_incremented_len(start, 1);
        assert(incremented(start, 1)[0] == start[0]);
    } else if low < 0 {
        let start = iv.update(0, (low + 256) as u8);
        lemma_decremented_len(start, 1);
        assert(decremented(start, 1)[0] == start[0]);
    }
}

/// Adding one is moving by one.
proof fn lemma_moved_by_one(iv: Seq<u8>)
    requires
        iv.len() == 16,
    ensures
        moved(iv, 1) == incremented(iv, 0),
        distance(iv[0], incremented(iv, 0)[0]) == 1,
{
    lemma_incremented_len(iv, 0);
    if iv[0] == 255 {
        lemma_incremented_len(iv.update(0, 0), 1);
        assert(incremented(iv.update(0, 0), 1)[0] == 0);
    }
}

impl CryptState {
    /// A state from a key and the two initial counters.
    pub fn new(raw_key: &[u8; 16], encrypt_iv: &Block, decrypt_iv: &Block) -> (state: Self)
        ensures
            state@ == (CryptModel {
                key: raw_key@,
                encrypt_iv: encrypt_iv@,
                decrypt_iv: decrypt_iv@,
                decrypt_history: Seq::new(256, |i: int| 0u8),
                good: 0,
                late: 0,
                lost: 0,
            }),
            state@.wf(),
    {
        let state = CryptState {
            key: *raw_key,
            encrypt_iv: *encrypt_iv,
            decrypt_iv: *decrypt_iv,
            decrypt_history: [0u8;256],
            good: 0,
            late: 0,
            lost: 0,
        };
        assert(state.decrypt_history@ =~= Seq::new(256, |i: int| 0u8));
        state
    }

    /// Every state is well formed.
    pub proof fn lemma_wf(&self)
        ensures
            self@.wf(),
    {
    }

    /// The counter of the last packet that was encrypted.
    pub fn encrypt_iv(&self) -> (iv: Block)
        ensures
            iv@ == self@.encrypt_iv,
    {
        self.encrypt_iv
    }

    /// The counter of the last packet that was decrypted in order.
    pub fn decrypt_iv(&self) -> (iv: Block)
        ensures
            iv@ == self@.decrypt_iv,
    {
        self.decrypt_iv
    }

    /// Replaces the encryption counter.
    pub fn set_encrypt_iv(&mut self, iv: &Block)
        ensures
            final(self)@ == (CryptModel { encrypt_iv: iv@, ..old(self)@ }),
    {
        self.encrypt_iv = *iv;
    }

    /// Replaces the decryption counter.
    pub fn set_decrypt_iv(&mut self, iv: &Block)
        ensures
            final(self)@ == (CryptModel { decrypt_iv: iv@, ..old(self)@ }),
    {
        self.decrypt_iv = *iv;
    }

    /// Encrypts a packet. It never fails: a critical block is modified.
    ///
    /// A peer that has the key, and whose decryption counter is this state's
    /// encryption counter, finds the bytes and the tag in the packet, and
    /// accepts it unless the last block has the shape of a forgery.
    pub fn encrypt(&mut self, plain: &[u8]) -> (packet: Option<Vec<u8>>)
        ensures
            final(self)@ == old(self)@.encrypted(),
            packet matches Some(bytes) && bytes@ == old(self)@.packet(plain@) && bytes@.len()
                == plain@.len() + 4,
            packet matches Some(bytes) ==> forall|peer: CryptModel|
                #![trigger peer.content(bytes@)]
                peer.wf() && peer.key == old(self)@.key && peer.decrypt_iv == old(self)@.encrypt_iv
                    ==> {
                    &&& peer.content(bytes@).bytes == received(plain@, true)
                    &&& peer.accepts(bytes@) == peer.content(bytes@).authentic
                },
    {
        increment_iv_from(&mut self.encrypt_iv, 0);
        let (authentic, ciphertext, tag) = ocb_encrypt(&self.key, plain, &self.encrypt_iv, true);
        proof {
            lemma_mitigated(
                self.key@,
                plain@,
                aes128_encrypted(self.key@, self.encrypt_iv@),
                zero_block(),
            );
        }
        if !authentic {
            return None;
        }
        let mut packet: Vec<u8> = Vec::new();
        packet.push(self.encrypt_iv[0]);
        append_prefix(&mut packet, &tag, 3);
        let ghost head = packet@;
        let mut i: usize = 0;
        while i < ciphertext.len()
            invariant
                i <= ciphertext@.len(),
                packet@ == head + ciphertext@.take(i as int),
            decreases ciphertext@.len() - i,
        {
            packet.push(ciphertext[i]);
            assert(packet@ =~= head + ciphertext@.take(i + 1));
            i = i + 1;
        }
        assert(ciphertext@.take(i as int) =~= ciphertext@);
        assert(packet@ =~= old(self)@.packet(plain@));
        proof {
            assert forall|peer: CryptModel|
                #![trigger peer.content(packet@)]
                peer.wf() && peer.key == old(self)@.key && peer.decrypt_iv == old(
                    self,
                )@.encrypt_iv implies {
                &&& peer.content(packet@).bytes == received(plain@, true)
                &&& peer.accepts(packet@) == peer.content(packet@).authentic
            } by {
                lemma_moved_by_one(peer.decrypt_iv);
                assert(packet@.skip(4) =~= ciphertext@);
                assert(packet@.subrange(1, 4) =~= tag@.take(3));
            }
        }
        Some(packet)
    }

    /// Decrypts a packet, with recovery of late and lost ones.
    pub fn decrypt(&mut self, source: &[u8]) -> (plain: Option<Vec<u8>>)
        ensures
            final(self)@ == old(self)@.decrypted(source@),
            match plain {
                Some(bytes) => {
                    &&& old(self)@.accepts(source@)
                    &&& bytes@ == old(self)@.content(source@).bytes
                    &&& bytes@.len() + 4 == source@.len()
                },
                None => !old(self)@.accepts(source@),
            },
    {
        if source.len() < 4 {
            return None;
        }
        let ivbyte: u8 = source[0];
        let last: u8 = self.decrypt_iv[0];
        let mut diff: i32 = ivbyte as i32 - last as i32;
        if diff > 128 {
            diff = diff - 256;
        } else if diff < -128 {
            diff = diff + 256;
        }
        if !(diff > 0 || (diff > -30 && diff < 0)) {
            return None;
        }
        let mut iv: Block = self.decrypt_iv;
        iv[0] = ivbyte;
        if ivbyte > last && diff < 0 {
            // Last was e.g. 0x02, here comes 0xff from the previous round.
            decrement_iv_from(&mut iv, 1);
        } else if ivbyte < last && diff > 0 {
            increment_iv_from(&mut iv, 1);
        }
        proof {
            lemma_moved(self.decrypt_iv@, ivbyte);
            assert(iv@ =~= self@.packet_iv(source@));
        }
        if diff != 1 && self.decrypt_history[iv[0] as usize] == iv[1] {
            return None;
        }
        let ciphertext = vstd::slice::slice_subrange(source, 4, source.len());
        assert(ciphertext@ =~= source@.skip(4));
        let (authentic, plain, tag) = ocb_decrypt(&self.key, ciphertext, &iv);
        let same_tag = tag[0] == source[1] && tag[1] == source[2] && tag[2] == source[3];
        proof {
            let sent = source@.subrange(1, 4);
            assert(tag@.take(3)[0] == tag@[0] && tag@.take(3)[1] == tag@[1] && tag@.take(3)[2]
                == tag@[2]);
            assert(sent[0] == source@[1] && sent[1] == source@[2] && sent[2] == source@[3]);
            assert(same_tag == (tag@.take(3) == sent)) by {
                if same_tag {
                    assert(tag@.take(3) =~= sent);
                }
            }
        }
        if !authentic || !same_tag {
            return None;
        }
        self.decrypt_history[iv[0] as usize] = iv[1];
        let mut late: i32 = 0;
        let mut lost: i32 = diff - 1;
        if diff < 0 {
            late = 1;
            lost = -1;
        } else {
            self.decrypt_iv = iv;
        }
        self.good = self.good.wrapping_add(1);
        apply_stat(&mut self.late, late);
        apply_stat(&mut self.lost, lost);
        Some(plain)
    }
}

// What the counters and the window promise.

/// The number that a little-endian counter stands for.
pub open spec fn counter_value(iv: Seq<u8>) -> nat
    decreases iv.len(),
{
    if iv.len() == 0 {
        0
    } else {
        iv[0] as nat + 256 * counter_value(iv.drop_first())
    }
}

/// The number of values that a counter of `len` bytes has.
pub open spec fn counter_range(len: nat) -> nat
    decreases len,
{
    if len == 0 {
        1
    } else {
        256 * counter_range((len - 1) as nat)
    }
}

proof fn lemma_incremented_tail(iv: Seq<u8>, start: nat)
    requires
        0 < start <= iv.len(),
    ensures
        incremented(iv, start).drop_first() == incremented(iv.drop_first(), (start - 1) as nat),
        incremented(iv, start).len() == iv.len(),
        incremented(iv, start)[0] == iv[0],
    decreases iv.len() - start,
{
    lemma_incremented_len(iv, start);
    if start < iv.len() {
        if iv[start as int] == 255 {
            let next = iv.update(start as int, 0);
            lemma_incremented_tail(next, start + 1);
            assert(next.drop_first() =~= iv.drop_first().update(start - 1, 0));
        } else {
            assert(incremented(iv, start).drop_first() =~= incremented(
                iv.drop_first(),
                (start - 1) as nat,
            ));
        }
    } else {
        assert(incremented(iv.drop_first(), (start - 1) as nat) == iv.drop_first());
    }
}

/// The encryption counter counts: it goes up by one, and round at its range.
pub proof fn the_counter_counts(iv: Seq<u8>)
    ensures
        incremented(iv, 0).len() == iv.len(),
        counter_value(iv) < counter_range(iv.len()),
        counter_value(incremented(iv, 0)) == (counter_value(iv) + 1) % counter_range(iv.len()),
    decreases iv.len(),
{
    lemma_incremented_len(iv, 0);
    if iv.len() == 0 {
        assert(counter_range(0) == 1);
    } else {
        let rest = iv.drop_first();
        let range = counter_range(rest.len());
        the_counter_counts(rest);
        if iv[0] == 255 {
            let wrapped = iv.update(0, 0);
            assert(wrapped.drop_first() =~= rest);
            lemma_incremented_tail(wrapped, 1);
            let next = counter_value(incremented(rest, 0));
            assert(counter_value(incremented(iv, 0)) == 256 * next);
            if counter_value(rest) + 1 == range {
                vstd::arithmetic::div_mod::lemma_mod_self_0(range as int);
                vstd::arithmetic::div_mod::lemma_mod_self_0(256 * range as int);
            } else {
                vstd::arithmetic::div_mod::lemma_small_mod(counter_value(rest) + 1, range);
                vstd::arithmetic::div_mod::lemma_small_mod(counter_value(iv) + 1, 256 * range);
            }
        } else {
            let next = incremented(iv, 0);
            assert(next.drop_first() =~= rest);
            vstd::arithmetic::div_mod::lemma_small_mod(counter_value(iv) + 1, 256 * range);
        }
    }
}

/// A packet that was accepted is rejected when it comes again.
pub proof fn a_replay_is_rejected(state: CryptModel, packet: Seq<u8>)
    requires
        state.wf(),
        state.accepts(packet),
    ensures
        !state.decrypted(packet).accepts(packet),
{
    lemma_moved(state.decrypt_iv, packet[0]);
}

/// A packet that is not accepted leaves the whole state as it was.
pub proof fn a_rejected_packet_changes_nothing(state: CryptModel, packet: Seq<u8>)
    requires
        !state.accepts(packet),
    ensures
        state.decrypted(packet) == state,
{
}

/// A late packet does not move the decryption counter.
pub proof fn a_late_packet_keeps_the_counter(state: CryptModel, packet: Seq<u8>)
    requires
        distance(state.decrypt_iv[0], packet[0]) < 0,
    ensures
        state.decrypted(packet).decrypt_iv == state.decrypt_iv,
{
}

/// After a packet in order, receiver and sender agree on the counter again.
pub proof fn peers_stay_in_step(sender: CryptModel, receiver: CryptModel, plain: Seq<u8>)
    requires
        sender.wf(),
        receiver.wf(),
        receiver.decrypt_iv == sender.encrypt_iv,
        receiver.accepts(sender.packet(plain)),
    ensures
        receiver.decrypted(sender.packet(plain)).decrypt_iv == sender.encrypted().encrypt_iv,
        receiver.decrypted(sender.packet(plain)).lost == receiver.lost,
        receiver.decrypted(sender.packet(plain)).late == receiver.late,
{
    lemma_moved_by_one(sender.encrypt_iv);
}

/// A text that has no critical block arrives as it was sent.
pub proof fn an_uncritical_text_arrives_unchanged(plain: Seq<u8>)
    requires
        plain.len() <= 16 || !near_zero(
            plain.subrange(16 * ((plain.len() - 1) / 16 - 1), 16 * ((plain.len() - 1) / 16)),
        ),
    ensures
        received(plain, true) == plain,
    decreases plain.len(),
{
    if plain.len() > 16 {
        let rest = plain.skip(16);
        if rest.len() > 16 {
            let n = (plain.len() - 1) / 16;
            assert((rest.len() - 1) / 16 == n - 1);
            assert(rest.subrange(16 * (n - 2), 16 * (n - 1)) =~= plain.subrange(
                16 * (n - 1),
                16 * n,
            ));
            assert(!critical(plain));
        } else {
            assert((plain.len() - 1) / 16 == 1);
            assert(plain.subrange(0, 16) =~= plain.take(16));
        }
        an_uncritical_text_arrives_unchanged(rest);
        assert(plain.take(16) + rest =~= plain);
    }
}

/// The number that bytes stand for, the most significant byte first.
pub open spec fn number_of(bytes: Seq<u8>) -> nat
    decreases bytes.len(),
{
    if bytes.len() == 0 {
        0
    } else {
        256 * number_of(bytes.drop_last()) + bytes.last() as nat
    }
}

proof fn lemma_number_of_zeros(bytes: Seq<u8>)
    requires
        forall|i: int| 0 <= i < bytes.len() ==> #[trigger] bytes[i] == 0,
    ensures
        number_of(bytes) == 0,
    decreases bytes.len(),
{
    if bytes.len() > 0 {
        lemma_number_of_zeros(bytes.drop_last());
    }
}

/// The length block of a final part of `len` bytes is the number of its bits. So no two
/// lengths share a length block, nor what a length block gives under one mask.
pub proof fn a_length_block_tells_the_length(len: nat, other: nat, mask: Seq<u8>)
    requires
        len <= 16,
        other <= 16,
    ensures
        length_of(len).len() == 16,
        number_of(length_of(len)) == 8 * len,
        len != other ==> length_of(len) != length_of(other),
        len != other ==> xored(length_of(len), mask) != xored(length_of(other), mask),
{
    let block = length_of(len);
    let second = length_of(other);
    lemma_number_of_zeros(block.drop_last());
    lemma_number_of_zeros(second.drop_last());
    if len != other {
        let a = block[15];
        let b = second[15];
        let m = mask[15];
        assert(a != b);
        assert(a != b ==> a ^ m != b ^ m) by (bit_vector);
        assert(xored(block, mask)[15] != xored(second, mask)[15]);
    }
}

/// 256 to the power of `n`.
pub open spec fn bytes_range(n: nat) -> nat
    decreases n,
{
    if n == 0 {
        1
    } else {
        256 * bytes_range((n - 1) as nat)
    }
}

proof fn lemma_shifted(block: Seq<u8>, k: int)
    requires
        block.len() == 16,
        1 <= k <= 15,
    ensures
        ({
            let carry: nat = if block[0] >= 128 {
                1
            } else {
                0
            };
            let next: nat = if block[k] >= 128 {
                1
            } else {
                0
            };
            number_of(doubled(block).take(k)) + carry * bytes_range(k as nat) == 2 * number_of(
                block.take(k),
            ) + next
        }),
    decreases k,
{
    let twice = doubled(block);
    let here = block[k - 1];
    let after = block[k];
    assert(twice.take(k).drop_last() =~= twice.take(k - 1));
    assert(block.take(k).drop_last() =~= block.take(k - 1));
    assert(twice.take(k).last() == (here << 1) | (after >> 7));
    assert(((here << 1) | (after >> 7)) == 2 * (here % 128) + (if after >= 128 {
        1int
    } else {
        0int
    })) by {
        assert(after >= 128 ==> ((here << 1) | (after >> 7)) == 2 * (here % 128) + 1)
            by (bit_vector);
        assert(after < 128 ==> ((here << 1) | (after >> 7)) == 2 * (here % 128)) by (bit_vector);
    }
    if k == 1 {
        assert(block.take(0).len() == 0);
        assert(twice.take(0).len() == 0);
        assert(bytes_range(1) == 256) by {
            reveal_with_fuel(bytes_range, 2);
        }
    } else {
        lemma_shifted(block, k - 1);
    }
}

/// The double of a block is twice its number, without the bit that falls out on the
/// left; where one does, 0x87 is added to the lowest byte, bit by bit.
pub proof fn a_double_is_twice_the_number(block: Seq<u8>)
    requires
        block.len() == 16,
    ensures
        block[0] < 128 ==> number_of(doubled(block)) == 2 * number_of(block),
        block[0] >= 128 ==> number_of(
            doubled(block).update(15, doubled(block)[15] ^ 0x87),
        ) + bytes_range(16) == 2 * number_of(block),
        doubled(block).len() == 16,
{
    let twice = doubled(block);
    let last = block[15];
    let first = block[0];
    lemma_shifted(block, 15);
    assert(block.drop_last() =~= block.take(15));
    assert(twice.drop_last() =~= twice.take(15));
    assert((first >> 7 == 1) == (first >= 128)) by (bit_vector);
    assert((last << 1) ^ 0u8 == last << 1) by (bit_vector);
    assert(((last << 1) ^ 0x87u8) ^ 0x87u8 == last << 1) by (bit_vector);
    assert(last >= 128 ==> (last << 1) == 2 * last - 256) by (bit_vector);
    assert(last < 128 ==> (last << 1) == 2 * last) by (bit_vector);
    assert(bytes_range(16) == 256 * bytes_range(15));
    let fixed = twice.update(15, twice[15] ^ 0x87);
    assert(fixed.drop_last() =~= twice.take(15));
}

proof fn lemma_decremented_tail(iv: Seq<u8>, start: nat)
    requires
        0 < start <= iv.len(),
    ensures
        decremented(iv, start).drop_first() == decremented(iv.drop_first(), (start - 1) as nat),
        decremented(iv, start).len() == iv.len(),
        decremented(iv, start)[0] == iv[0],
    decreases iv.len() - start,
{
    lemma_decremented_len(iv, start);
    if start < iv.len() {
        if iv[start as int] == 0 {
            let next = iv.update(start as int, 255);
            lemma_decremented_tail(next, start + 1);
            assert(next.drop_first() =~= iv.drop_first().update(start - 1, 255));
        } else {
            assert(decremented(iv, start).drop_first() =~= decremented(
                iv.drop_first(),
                (start - 1) as nat,
            ));
        }
    } else {
        assert(decremented(iv.drop_first(), (start - 1) as nat) == iv.drop_first());
    }
}

/// Counting back is the way back: it goes down by one, and round at zero.
pub proof fn the_counter_counts_back(iv: Seq<u8>)
    ensures
        decremented(iv, 0).len() == iv.len(),
        counter_value(iv) < counter_range(iv.len()),
        counter_value(iv) > 0 ==> counter_value(decremented(iv, 0)) == counter_value(iv) - 1,
        counter_value(iv) == 0 ==> counter_value(decremented(iv, 0)) == counter_range(iv.len()) - 1,
    decreases iv.len(),
{
    lemma_decremented_len(iv, 0);
    if iv.len() == 0 {
        assert(counter_range(0) == 1);
    } else {
        let rest = iv.drop_first();
        the_counter_counts_back(rest);
        if iv[0] == 0 {
            let wrapped = iv.update(0, 255);
            assert(wrapped.drop_first() =~= rest);
            lemma_decremented_tail(wrapped, 1);
        } else {
            assert(decremented(iv, 0).drop_first() =~= rest);
        }
    }
}

/// The distance to a packet's counter byte leads there: the last byte moved by it, round
/// at 256, is that byte. No way round is more than half a turn.
pub proof fn the_distance_leads_to_the_byte(last: u8, next: u8)
    ensures
        (last + distance(last, next)) % 256 == next as int,
        -128 <= distance(last, next) <= 128,
        distance(last, next) == 0 <==> last == next,
{
}

/// The counter that a packet was sent under is this side's own, moved by the distance to
/// the byte that the packet carries. The two numbers differ by that distance, but for
/// whole turns of the counter.
pub proof fn a_counter_moves_by_the_distance(iv: Seq<u8>, next: u8)
    requires
        iv.len() == 16,
    ensures
        ({
            let by = distance(iv[0], next);
            let after = counter_value(moved(iv, by));
            let turn = counter_range(16);
            &&& moved(iv, by).len() == 16
            &&& moved(iv, by)[0] == next
            &&& after < turn
            &&& 0 <= counter_value(iv) + by < turn ==> after == counter_value(iv) + by
            &&& counter_value(iv) + by >= turn ==> after == counter_value(iv) + by - turn
            &&& counter_value(iv) + by < 0 ==> after == counter_value(iv) + by + turn
        }),
{
    let by = distance(iv[0], next);
    let low = iv[0] + by;
    let rest = iv.drop_first();
    lemma_moved(iv, next);
    the_counter_counts_back(iv);
    the_counter_counts_back(moved(iv, by));
    the_counter_counts_back(rest);
    assert(counter_range(16) == 256 * counter_range(15));
    if low > 255 {
        let start = iv.update(0, (low - 256) as u8);
        assert(start.drop_first() =~= rest);
        lemma_incremented_tail(start, 1);
        the_counter_counts(rest);
        if counter_value(rest) + 1 == counter_range(15) {
            vstd::arithmetic::div_mod::lemma_mod_self_0(counter_range(15) as int);
        } else {
            vstd::arithmetic::div_mod::lemma_small_mod(counter_value(rest) + 1, counter_range(15));
        }
    } else if low < 0 {
        let start = iv.update(0, (low + 256) as u8);
        assert(start.drop_first() =~= rest);
        lemma_decremented_tail(start, 1);
    } else {
        assert(moved(iv, by).drop_first() =~= rest);
    }
}

/// A packet is let through to decryption exactly where its counter byte lies ahead by less
/// than half a turn, or by half a turn that does not wrap, or late by at most twenty-nine.
/// An equal byte is a repetition or a whole turn away.
pub proof fn the_window_is_half_a_turn_ahead_and_less_behind(state: CryptModel, packet: Seq<u8>)
    requires
        state.wf(),
        packet.len() > 0,
    ensures
        ({
            let ahead = (packet[0] - state.decrypt_iv[0]) % 256;
            state.in_window(packet) <==> 1 <= ahead <= 127 || 256 - 29 <= ahead || (ahead == 128
                && packet[0] > state.decrypt_iv[0])
        }),
        packet[0] == state.decrypt_iv[0] ==> !state.in_window(packet),
{
}

/// A packet that is accepted is counted as good. One that is ahead moves the counter to
/// its own, and those that it overtook are counted as lost. One that is late is counted
/// as late, leaves the counter alone, and takes one off the lost, as far as that leaves
/// some. Its counter is noted, and no other note is touched.
pub proof fn an_accepted_packet_is_counted(state: CryptModel, packet: Seq<u8>, other: int)
    requires
        state.wf(),
        state.accepts(packet),
        state.good < u32::MAX,
        state.late < u32::MAX,
        state.lost + 128 <= u32::MAX,
    ensures
        ({
            let after = state.decrypted(packet);
            let by = distance(state.decrypt_iv[0], packet[0]);
            &&& after.good == state.good + 1
            &&& by > 0 ==> {
                &&& after.decrypt_iv[0] == packet[0]
                &&& after.late == state.late
                &&& after.lost == state.lost + (by - 1)
                &&& counter_value(after.decrypt_iv) == (counter_value(state.decrypt_iv) + by)
                    % counter_range(16) as int
            }
            &&& by < 0 ==> {
                &&& after.decrypt_iv == state.decrypt_iv
                &&& after.late == state.late + 1
                &&& 1 < state.lost <= i32::MAX ==> after.lost == state.lost - 1
                &&& state.lost <= 1 || state.lost > i32::MAX ==> after.lost == state.lost
            }
            &&& after.decrypt_history[packet[0] as int] == state.packet_iv(packet)[1]
            &&& other != packet[0] && 0 <= other < 256 ==> after.decrypt_history[other]
                == state.decrypt_history[other]
            &&& after.key == state.key
            &&& after.encrypt_iv == state.encrypt_iv
            &&& after.wf()
        }),
{
    let by = distance(state.decrypt_iv[0], packet[0]);
    let turn = counter_range(16);
    lemma_moved(state.decrypt_iv, packet[0]);
    a_counter_moves_by_the_distance(state.decrypt_iv, packet[0]);
    the_counter_counts(state.decrypt_iv);
    if by > 0 {
        let sum = counter_value(state.decrypt_iv) + by;
        assert(turn >= 256) by {
            reveal_with_fuel(counter_range, 17);
        }
        if sum < turn {
            vstd::arithmetic::div_mod::lemma_small_mod(sum as nat, turn);
        } else {
            vstd::arithmetic::div_mod::lemma_mod_sub_multiples_vanish(sum, turn as int);
            vstd::arithmetic::div_mod::lemma_small_mod((sum - turn) as nat, turn);
        }
    }
}

/// A packet starts with the low byte of its counter, which is the next one, and with
/// three bytes of the tag. The rest is as long as the text.
pub proof fn a_packet_carries_its_counter_and_tag(state: CryptModel, plain: Seq<u8>)
    requires
        state.wf(),
        ocb_sealed(state.key, plain, state.encrypted().encrypt_iv, true).tag.len() >= 3,
    ensures
        ({
            let packet = state.packet(plain);
            let after = state.encrypted();
            let sealed = ocb_sealed(state.key, plain, after.encrypt_iv, true);
            &&& packet[0] == after.encrypt_iv[0]
            &&& packet[1] == sealed.tag[0]
            &&& packet[2] == sealed.tag[1]
            &&& packet[3] == sealed.tag[2]
            &&& packet.skip(4) == sealed.bytes
            &&& counter_value(after.encrypt_iv) == (counter_value(state.encrypt_iv) + 1)
                % counter_range(16)
            &&& after.decrypt_iv == state.decrypt_iv
            &&& after.key == state.key
            &&& after.good == state.good
        }),
{
    let packet = state.packet(plain);
    let sealed = ocb_sealed(state.key, plain, state.encrypted().encrypt_iv, true);
    the_counter_counts(state.encrypt_iv);
    assert(packet.skip(4) =~= sealed.bytes);
    assert(sealed.tag.take(3)[0] == sealed.tag[0]);
}

/// A block is critical exactly where one more, whole or partial, follows it, and all its
/// bytes but the last are zero. A receiver then finds one bit of its first byte flipped,
/// and all else as it was.
pub proof fn only_a_critical_block_is_touched(plain: Seq<u8>, i: int)
    requires
        0 <= i < plain.len(),
    ensures
        critical(plain) <==> 16 < plain.len() <= 32 && forall|k: int|
            0 <= k < 15 ==> #[trigger] plain[k] == 0,
        received(plain, true).len() == plain.len(),
        received(plain, false) == plain,
        ({
            let first = 16 * ((plain.len() - 1) / 16 - 1);
            let touched = plain.len() > 16 && i == first && forall|k: int|
                first <= k < first + 15 ==> #[trigger] plain[k] == 0;
            received(plain, true)[i] == if touched {
                1u8
            } else {
                plain[i]
            }
        }),
    decreases plain.len(),
{
    if plain.len() > 16 {
        let rest = plain.skip(16);
        let head = plain.take(16);
        if near_zero(head) {
            assert forall|k: int| 0 <= k < 15 implies #[trigger] plain[k] == 0 by {
                assert(head[k] == plain[k]);
            }
        }
        if forall|k: int| 0 <= k < 15 ==> #[trigger] plain[k] == 0 {
            assert(near_zero(head));
        }
        let j: int = if i >= 16 {
            i - 16
        } else {
            0
        };
        only_a_critical_block_is_touched(rest, j);
        assert(head + rest =~= plain);
        assert(0u8 ^ 1u8 == 1u8) by (bit_vector);
        let first = 16 * ((plain.len() - 1) / 16 - 1);
        let after = 16 * ((rest.len() - 1) / 16 - 1);
        assert(after == first - 16);
        if rest.len() > 16 {
            if forall|k: int| first <= k < first + 15 ==> #[trigger] plain[k] == 0 {
                assert forall|k: int| after <= k < after + 15 implies #[trigger] rest[k] == 0 by {
                    assert(rest[k] == plain[k + 16]);
                }
            }
            if forall|k: int| after <= k < after + 15 ==> #[trigger] rest[k] == 0 {
                assert forall|k: int| first <= k < first + 15 implies #[trigger] plain[k] == 0 by {
                    assert(rest[k - 16] == plain[k]);
                }
            }
        } else {
            assert(first == 0);
        }
        assert(received(plain, true)[i] == if i < 16 {
            flipped(head, critical(plain))[i]
        } else {
            received(rest, true)[i - 16]
        });
    }
}

proof fn lemma_number_of_is_unique(a: Seq<u8>, b: Seq<u8>)
    requires
        a.len() == b.len(),
        number_of(a) == number_of(b),
    ensures
        a == b,
    decreases a.len(),
{
    if a.len() > 0 {
        assert(number_of(a) == 256 * number_of(a.drop_last()) + a.last());
        assert(number_of(b) == 256 * number_of(b.drop_last()) + b.last());
        lemma_number_of_is_unique(a.drop_last(), b.drop_last());
        assert(a.drop_last().push(a.last()) =~= a);
        assert(b.drop_last().push(b.last()) =~= b);
        assert(a.last() == b.last());
    }
    assert(a =~= b);
}

/// The last part of a text is covered by a pad that is made from the number of its bits.
/// Each byte of it is covered by its own byte of the pad, and uncovered by the same.
pub proof fn the_last_part_is_padded_by_its_length(
    key: Seq<u8>,
    part: Seq<u8>,
    delta: Seq<u8>,
    checksum: Seq<u8>,
    modify: bool,
    bits: Seq<u8>,
    i: int,
)
    requires
        part.len() <= 16,
        bits.len() == 16,
        number_of(bits) == 8 * part.len(),
        0 <= i < part.len(),
    ensures
        ({
            let pad = aes128_encrypted(key, xored(bits, doubled(delta)));
            &&& sealed_from(key, part, delta, checksum, modify).bytes[i] == pad[i] ^ part[i]
            &&& opened_from(key, part, delta, checksum).bytes[i] == part[i] ^ pad[i]
            &&& sealed_from(key, part, delta, checksum, modify).authentic
        }),
{
    a_length_block_tells_the_length(part.len(), part.len(), delta);
    lemma_number_of_is_unique(bits, length_of(part.len()));
}

/// What was opened is taken for a forgery exactly where the last part, uncovered, agrees
/// with the mask in every byte but the last. What stands before the last part has no say.
pub proof fn a_forged_last_part_is_told(
    key: Seq<u8>,
    part: Seq<u8>,
    delta: Seq<u8>,
    checksum: Seq<u8>,
    longer: Seq<u8>,
)
    requires
        part.len() <= 16,
        longer.len() > 16,
    ensures
        ({
            let mask = doubled(delta);
            let pad = aes128_encrypted(key, xored(length_of(part.len()), mask));
            opened_from(key, part, delta, checksum).authentic <==> exists|i: int|
                0 <= i < 15 && #[trigger] mask[i] != (if i < part.len() {
                    part[i]
                } else {
                    0u8
                }) ^ pad[i]
        }),
        exists|sum: Seq<u8>|
            opened_from(key, longer, delta, checksum).authentic == (#[trigger] opened_from(
                key,
                longer.skip(16),
                doubled(delta),
                sum,
            )).authentic,
{
    let mask = doubled(delta);
    let pad = aes128_encrypted(key, xored(length_of(part.len()), mask));
    let tail = xored(tail_of(part, zero_block()), pad);
    if tail.take(15) != mask.take(15) {
        if forall|i: int| 0 <= i < 15 ==> tail[i] == #[trigger] mask[i] {
            assert(tail.take(15) =~= mask.take(15));
        }
    } else {
        assert forall|i: int| 0 <= i < 15 implies #[trigger] mask[i] == tail[i] by {
            assert(tail.take(15)[i] == mask.take(15)[i]);
        }
    }
    let block = xored(mask, aes128_decrypted(key, xored(mask, longer.take(16))));
    let sum = xored(checksum, block);
    assert(opened_from(key, longer, delta, checksum).authentic == opened_from(
        key,
        longer.skip(16),
        doubled(delta),
        sum,
    ).authentic);
}

/// Three times a block is the block and its double, added bit by bit.
pub proof fn a_triple_is_the_block_and_its_double(block: Seq<u8>, i: int)
    requires
        block.len() == 16,
        0 <= i < 16,
    ensures
        tripled(block).len() == 16,
        tripled(block)[i] == block[i] ^ doubled(block)[i],
{
}

} // verus!
