//! The cipher pipeline: segments a byte stream into fixed-width blocks,
//! transforms every block independently with AES-256 — no chaining, no
//! initialization vector, so identical plaintext blocks give identical
//! ciphertext blocks — and moves the result across the hexadecimal text
//! boundary.

use vstd::prelude::*;
use aes::cipher::generic_array::GenericArray;
use aes::cipher::BlockDecrypt;
use aes::cipher::BlockEncrypt;
use aes::cipher::NewBlockCipher;
use crate::BLOCK_WIDTH;
use crate::KEY_WIDTH;
use crate::hexcode::DecodeError;
use crate::hexcode::decode_hex;
use crate::hexcode::encode_hex;
use crate::hexcode::hex_valid;
use crate::hexcode::is_hex_digit;
use crate::hexcode::spec_hex_decode;
use crate::hexcode::spec_hex_encode;
use crate::segment::concat_blocks;
use crate::segment::get_blocks;
use crate::segment::lemma_concat_take_step;
use crate::segment::lemma_segment_concat;
use crate::segment::lemma_segment_of_exact_blocks;
use crate::segment::spec_segment;
use crate::segment::spec_zero_pad;
use vstd::arithmetic::div_mod::lemma_div_is_ordered;
use vstd::arithmetic::div_mod::lemma_fundamental_div_mod;
use vstd::arithmetic::div_mod::lemma_mod_self_0;

verus! {

/// What AES-256 makes of one 16-byte block under a 32-byte key, in the
/// encrypting direction.  The transform is a fixed function of the key and
/// the block alone; its value is not restated here.
pub uninterp spec fn aes256_encrypt(key: Seq<u8>, block: Seq<u8>) -> Seq<u8>;

/// What AES-256 makes of one 16-byte block under a 32-byte key, in the
/// decrypting direction.
pub uninterp spec fn aes256_decrypt(key: Seq<u8>, block: Seq<u8>) -> Seq<u8>;

/// Relies on `aes::Aes256` (`NewBlockCipher::new`, `BlockEncrypt::encrypt_block`):
/// the AES-256 block transform is a deterministic function of key and block
/// alone, it yields exactly one 16-byte block, and `decrypt_block` inverts it.
#[verifier::external_body]
fn aes256_encrypt_block(key: &[u8], block: &[u8]) -> (out: Vec<u8>)
    requires
        key@.len() == KEY_WIDTH,
        block@.len() == BLOCK_WIDTH,
    ensures
        out@ == aes256_encrypt(key@, block@),
        out@.len() == BLOCK_WIDTH,
        aes256_decrypt(key@, out@) == block@,
{
    let cipher = aes::Aes256::new(GenericArray::from_slice(key));
    let mut b = aes::Block::clone_from_slice(block);
    cipher.encrypt_block(&mut b);
    b.to_vec()
}

/// Relies on `aes::Aes256` (`NewBlockCipher::new`, `BlockDecrypt::decrypt_block`):
/// the inverse AES-256 block transform, a deterministic function of key and
/// block alone, yielding exactly one 16-byte block.
#[verifier::external_body]
fn aes256_decrypt_block(key: &[u8], block: &[u8]) -> (out: Vec<u8>)
    requires
        key@.len() == KEY_WIDTH,
        block@.len() == BLOCK_WIDTH,
    ensures
        out@ == aes256_decrypt(key@, block@),
        out@.len() == BLOCK_WIDTH,
{
    let cipher = aes::Aes256::new(GenericArray::from_slice(key));
    let mut b = aes::Block::clone_from_slice(block);
    cipher.decrypt_block(&mut b);
    b.to_vec()
}

/// The blocks of `data`, each encrypted independently under `key`.
pub open spec fn spec_encrypted_segment(key: Seq<u8>, data: Seq<u8>) -> Seq<Seq<u8>> {
    Seq::new(
        spec_segment(data, BLOCK_WIDTH as int).len(),
        |i: int| aes256_encrypt(key, spec_segment(data, BLOCK_WIDTH as int)[i]),
    )
}

/// The blocks of `data`, each decrypted independently under `key`.
pub open spec fn spec_decrypted_segment(key: Seq<u8>, data: Seq<u8>) -> Seq<Seq<u8>> {
    Seq::new(
        spec_segment(data, BLOCK_WIDTH as int).len(),
        |i: int| aes256_decrypt(key, spec_segment(data, BLOCK_WIDTH as int)[i]),
    )
}

/// The ciphertext of `data` under `key`: encrypted blocks, concatenated in
/// block order.
pub open spec fn spec_encrypt_blocks(key: Seq<u8>, data: Seq<u8>) -> Seq<u8> {
    concat_blocks(spec_encrypted_segment(key, data))
}

/// The plaintext (with any zero padding still attached) of `data` under
/// `key`: decrypted blocks, concatenated in block order.
pub open spec fn spec_decrypt_blocks(key: Seq<u8>, data: Seq<u8>) -> Seq<u8> {
    concat_blocks(spec_decrypted_segment(key, data))
}

/// What decryption makes of a stream of text under `key`: the decrypted
/// bytes when the text is valid hexadecimal, nothing otherwise.
pub open spec fn spec_decrypt_pipeline(key: Seq<u8>, text: Seq<u8>) -> Option<Seq<u8>> {
    if hex_valid(text) {
        Option::Some(spec_decrypt_blocks(key, spec_hex_decode(text)))
    } else {
        Option::None
    }
}

/// Each block is transformed independently of every other block — no
/// chaining, no feedback — so two equal plaintext blocks under one key are
/// visible as two equal ciphertext blocks.
pub proof fn lemma_ecb_block_leakage(key: Seq<u8>, data: Seq<u8>, i: int, j: int)
    requires
        0 <= i < spec_segment(data, BLOCK_WIDTH as int).len(),
        0 <= j < spec_segment(data, BLOCK_WIDTH as int).len(),
        spec_segment(data, BLOCK_WIDTH as int)[i] == spec_segment(data, BLOCK_WIDTH as int)[j],
    ensures
        spec_encrypted_segment(key, data)[i] == spec_encrypted_segment(key, data)[j],
{
}

/// Appends every byte of `src` to `dst`.
fn push_all(dst: &mut Vec<u8>, src: &[u8])
    ensures
        final(dst)@ == old(dst)@ + src@,
{
    let mut j: usize = 0;
    while j < src.len()
        invariant
            j <= src@.len(),
            dst@ == old(dst)@ + src@.take(j as int),
        decreases src@.len() - j,
    {
        dst.push(src[j]);
        j = j + 1;
        assert(old(dst)@ + src@.take(j - 1) + seq![src@[j - 1]] =~= old(dst)@ + src@.take(
            j as int,
        ));
    }
    assert(src@.take(src@.len() as int) =~= src@);
}

/// Encrypts a byte stream: segments it into zero-padded 16-byte blocks,
/// encrypts every block independently under `key`, and hex-encodes the
/// concatenated ciphertext.  Decrypting the returned text with the same key
/// yields exactly the input followed by its zero padding — the input itself
/// when its length is a multiple of the block width.
pub fn encrypt(data: &[u8], key: &[u8]) -> (text: Vec<u8>)
    requires
        key@.len() == KEY_WIDTH,
        data@.len() * 2 + 64 <= usize::MAX,
    ensures
        text@ == spec_hex_encode(spec_encrypt_blocks(key@, data@)),
        hex_valid(text@),
        spec_decrypt_pipeline(key@, text@) == Some(spec_zero_pad(data@, BLOCK_WIDTH as int)),
        data@.len() as int % (BLOCK_WIDTH as int) == 0 ==> spec_decrypt_pipeline(key@, text@) == Some(
            data@,
        ),
{
    let blocks = get_blocks(data, BLOCK_WIDTH);
    let ghost pblocks = spec_segment(data@, BLOCK_WIDTH as int);
    let ghost eblocks = spec_encrypted_segment(key@, data@);
    proof {
        assert forall|k: int| 0 <= k < pblocks.len() implies (#[trigger] pblocks[k]).len()
            == BLOCK_WIDTH by {
            assert(pblocks[k] == crate::segment::spec_block_at(data@, BLOCK_WIDTH as int, k));
        }
    }
    let mut ct: Vec<u8> = Vec::new();
    let mut i: usize = 0;
    while i < blocks.len()
        invariant
            key@.len() == KEY_WIDTH,
            pblocks == spec_segment(data@, BLOCK_WIDTH as int),
            eblocks == spec_encrypted_segment(key@, data@),
            blocks@.len() == pblocks.len(),
            forall|k: int| 0 <= k < pblocks.len() ==> blocks@[k]@ == pblocks[k],
            forall|k: int| 0 <= k < pblocks.len() ==> (#[trigger] pblocks[k]).len() == BLOCK_WIDTH,
            i <= blocks@.len(),
            ct@ == concat_blocks(eblocks.take(i as int)),
            forall|k: int| 0 <= k < i ==> (#[trigger] eblocks[k]).len() == BLOCK_WIDTH,
            forall|k: int| 0 <= k < i ==> aes256_decrypt(key@, #[trigger] eblocks[k])
                == pblocks[k],
        decreases blocks@.len() - i,
    {
        proof {
            assert(blocks@[i as int]@ == pblocks[i as int]);
            assert(pblocks[i as int].len() == BLOCK_WIDTH);
        }
        let eb = aes256_encrypt_block(key, blocks[i].as_slice());
        proof {
            lemma_concat_take_step(eblocks, i as int);
        }
        push_all(&mut ct, eb.as_slice());
        assert(eblocks.take(i as int + 1) =~= eblocks.take(i as int).push(eblocks[i as int]));
        i = i + 1;
    }
    assert(eblocks.take(eblocks.len() as int) =~= eblocks);
    proof {
        lemma_fundamental_div_mod(data@.len() as int + BLOCK_WIDTH - 1, BLOCK_WIDTH as int);
        lemma_segment_of_exact_blocks(eblocks, BLOCK_WIDTH as int);
    }
    let text = encode_hex(ct.as_slice());
    proof {
        assert(spec_decrypted_segment(key@, ct@) =~= pblocks);
        lemma_segment_concat(data@, BLOCK_WIDTH as int);
        if data@.len() as int % (BLOCK_WIDTH as int) == 0 {
            lemma_mod_self_0(BLOCK_WIDTH as int);
            assert(spec_zero_pad(data@, BLOCK_WIDTH as int) =~= data@);
        }
    }
    text
}

/// Decrypts hexadecimal text: decodes it — refusing odd-length or non-digit
/// text with the exact reason — segments the ciphertext bytes into
/// zero-padded 16-byte blocks, decrypts every block independently under
/// `key`, and concatenates the result in block order.  Trailing zero padding
/// that encryption introduced is not stripped.
pub fn decrypt(text: &[u8], key: &[u8]) -> (r: Result<Vec<u8>, DecodeError>)
    requires
        key@.len() == KEY_WIDTH,
    ensures
        r is Ok <==> hex_valid(text@),
        match r {
            Ok(plain) => spec_decrypt_pipeline(key@, text@) == Some(plain@),
            Err(DecodeError::OddLength) => text@.len() % 2 != 0,
            Err(DecodeError::InvalidHexCharacter { c, index }) => {
                &&& text@.len() % 2 == 0
                &&& index < text@.len()
                &&& !is_hex_digit(text@[index as int])
                &&& forall|j: int| 0 <= j < index ==> is_hex_digit(#[trigger] text@[j])
                &&& c == text@[index as int]
            },
        },
{
    let decoded = match decode_hex(text) {
        Ok(v) => v,
        Err(e) => {
            return Err(e);
        },
    };
    let tn = text.len();
    proof {
        assert(decoded@.len() == text@.len() / 2);
        lemma_div_is_ordered(tn as int, usize::MAX as int, 2);
    }
    let blocks = get_blocks(decoded.as_slice(), BLOCK_WIDTH);
    let ghost cblocks = spec_segment(decoded@, BLOCK_WIDTH as int);
    let ghost dblocks = spec_decrypted_segment(key@, decoded@);
    proof {
        assert forall|k: int| 0 <= k < cblocks.len() implies (#[trigger] cblocks[k]).len()
            == BLOCK_WIDTH by {
            assert(cblocks[k] == crate::segment::spec_block_at(decoded@, BLOCK_WIDTH as int, k));
        }
    }
    let mut plain: Vec<u8> = Vec::new();
    let mut i: usize = 0;
    while i < blocks.len()
        invariant
            key@.len() == KEY_WIDTH,
            cblocks == spec_segment(decoded@, BLOCK_WIDTH as int),
            dblocks == spec_decrypted_segment(key@, decoded@),
            blocks@.len() == cblocks.len(),
            forall|k: int| 0 <= k < cblocks.len() ==> blocks@[k]@ == cblocks[k],
            forall|k: int| 0 <= k < cblocks.len() ==> (#[trigger] cblocks[k]).len() == BLOCK_WIDTH,
            i <= blocks@.len(),
            plain@ == concat_blocks(dblocks.take(i as int)),
        decreases blocks@.len() - i,
    {
        proof {
            assert(blocks@[i as int]@ == cblocks[i as int]);
            assert(cblocks[i as int].len() == BLOCK_WIDTH);
        }
        let db = aes256_decrypt_block(key, blocks[i].as_slice());
        proof {
            lemma_concat_take_step(dblocks, i as int);
        }
        push_all(&mut plain, db.as_slice());
        i = i + 1;
    }
    assert(dblocks.take(dblocks.len() as int) =~= dblocks);
    Ok(plain)
}

} // verus!
