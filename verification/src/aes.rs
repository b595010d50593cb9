//! AES-128 in counter mode, in place, on a buffer of bytes.
//!
//! A buffer is read as blocks of sixteen bytes, each with its least
//! significant byte first; so is the key. Block `i` is added to the cipher's
//! image of the initial counter plus `i`. Encryption and decryption are the
//! same operation, and the blocks are independent of one another:
//! `AesBlock::decompose` hands them out as tasks that may run in any order.
use crate::block::{block_bytes, block_to_bytes, le_byte, le_bytes_to_block, le_value};
use crate::ctr::{
    aes_ctr, block_count, chunk, counter_block, counter_modulus, keystream_block, keystream_byte,
    lemma_counter_offset, xor_block,
};
use crate::entropy::fresh_iv;
use crate::rijndael::{cipher_spec, key_schedule};
use crate::sisd::{cipher, key_expansion};
use std::sync::Arc;
use vstd::prelude::*;

verus! {

/// What one block needs to be encrypted: its counter, its bytes in the
/// caller's buffer, and the round keys, shared with the other blocks.
pub struct AesBlock<'a> {
    /// The counter of the block.
    pub ctr_block: u128,
    /// The block: at least one byte and at most sixteen.
    pub data: &'a mut [u8],
    /// The eleven round keys.
    pub round_keys: Arc<[u128; 11]>,
}

/// The tasks count their blocks upwards from `start`: task `i` holds the
/// counter of block `i`.
pub open spec fn counts_from(blocks: Seq<AesBlock<'_>>, start: u128) -> bool {
    forall|i: int|
        0 <= i < blocks.len() ==> (#[trigger] blocks[i]).ctr_block == counter_block(start, i)
}

/// `Arc::clone`: another handle to the same round keys.
#[verifier::external_body]
fn share(round_keys: &Arc<[u128; 11]>) -> (shared: Arc<[u128; 11]>)
    ensures
        shared == *round_keys,
{
    Arc::clone(round_keys)
}

/// The counter of a block, computed with wrap-around.
fn counter_at(iv: u128, index: usize) -> (counter: u128)
    ensures
        counter == counter_block(iv, index as int),
{
    proof {
        let m = counter_modulus();
        let sum = iv + index;
        if sum < m {
            vstd::arithmetic::div_mod::lemma_small_mod(sum as nat, m as nat);
        } else {
            vstd::arithmetic::div_mod::lemma_small_mod((sum - m) as nat, m as nat);
            vstd::arithmetic::div_mod::lemma_mod_add_multiples_vanish(sum - m, m);
        }
    }
    iv.wrapping_add(index as u128)
}

/// The initial counter to use: the one given, or a fresh one.
fn initial_counter(iv: Option<u128>) -> (used: u128)
    ensures
        iv matches Some(given) ==> used == given,
{
    match iv {
        Some(given) => given,
        None => fresh_iv(),
    }
}

/// Adds the low bytes of a keystream block to a block of at most sixteen
/// bytes: byte `j` of the block takes byte `j` of the keystream block,
/// counted from the least significant.
pub fn add_keystream(block: &mut [u8], keystream: u128)
    requires
        old(block)@.len() <= 16,
    ensures
        final(block)@ == xor_block(old(block)@, keystream),
{
    let bytes: [u8; 16] = block_to_bytes(keystream);
    let n: usize = block.len();
    let mut j: usize = 0;
    while j < n
        invariant
            n <= 16,
            j <= n,
            block@.len() == n,
            old(block)@.len() == n,
            bytes@ == block_bytes(keystream),
            forall|k: int| 0 <= k < j ==> block@[k] == old(block)@[k] ^ le_byte(keystream, k),
            forall|k: int| j <= k < n ==> block@[k] == old(block)@[k],
        decreases n - j,
    {
        block[j] = block[j] ^ bytes[15 - j];
        j += 1;
    }
    assert(block@ =~= xor_block(old(block)@, keystream));
}

impl<'a> AesBlock<'a> {
    /// A task holds a block of at least one byte and at most sixteen.
    pub open spec fn wf(&self) -> bool {
        1 <= self.data@.len() <= 16
    }

    /// Cuts `data` into its blocks and makes one task of each, in the order
    /// of the buffer: task `i` borrows block `i`, counts `i` from the initial
    /// counter, and shares the round keys of `key`. The initial counter is
    /// `iv`, or a fresh one where none is given. When the tasks are gone the
    /// buffer holds what they left in their blocks.
    pub fn decompose(data: &'a mut [u8], key: &[u8], iv: Option<u128>) -> (blocks: Vec<
        AesBlock<'a>,
    >)
        requires
            key@.len() == 16,
        ensures
            blocks@.len() == block_count(old(data)@.len() as int),
            forall|i: int|
                0 <= i < blocks@.len() ==> {
                    &&& (#[trigger] blocks@[i]).wf()
                    &&& blocks@[i].data@ == chunk(old(data)@, i)
                    &&& blocks@[i].round_keys@ == key_schedule(le_value(key@))
                },
            iv matches Some(given) ==> counts_from(blocks@, given),
            blocks@.len() > 0 ==> counts_from(blocks@, blocks@[0].ctr_block),
            final(data)@ == Seq::new(blocks@.len(), |i: int| final(blocks@[i].data)@).flatten(),
    {
        let start: u128 = initial_counter(iv);
        let round_keys: Arc<[u128; 11]> = Arc::new(key_expansion(le_bytes_to_block(key)));
        let n: usize = data.len();
        let mut blocks: Vec<AesBlock<'a>> = Vec::new();
        let mut rest: &'a mut [u8] = data;
        let mut index: usize = 0;
        proof {
            let none = Seq::new(0, |i: int| final(blocks@[i].data)@);
            assert(none.flatten() + final(rest)@ =~= final(rest)@);
        }
        while rest.len() > 0
            invariant
                n == old(data)@.len(),
                blocks@.len() == index,
                index <= n,
                16 * index + rest@.len() == n || (rest@.len() == 0 && n <= 16 * index < n + 16),
                rest@.len() > 0 ==> rest@ == old(data)@.subrange(16 * index, n as int),
                round_keys@ == key_schedule(le_value(key@)),
                forall|i: int|
                    0 <= i < index ==> {
                        &&& (#[trigger] blocks@[i]).wf()
                        &&& blocks@[i].data@ == chunk(old(data)@, i)
                        &&& blocks@[i].round_keys == round_keys
                        &&& blocks@[i].ctr_block == counter_block(start, i)
                    },
                final(old(data))@ == Seq::new(
                    blocks@.len(),
                    |i: int| final(blocks@[i].data)@,
                ).flatten() + final(rest)@,
            decreases rest@.len(),
        {
            let take: usize = if rest.len() < 16 {
                rest.len()
            } else {
                16
            };
            let ghost before = Seq::new(blocks@.len(), |i: int| final(blocks@[i].data)@);
            let (head, tail) = rest.split_at_mut(take);
            let ghost head_final = final(head)@;
            assert(head@ =~= chunk(old(data)@, index as int));
            assert(tail@.len() > 0 ==> tail@ =~= old(data)@.subrange(16 * (index + 1), n as int));
            blocks.push(
                AesBlock {
                    ctr_block: counter_at(start, index),
                    data: head,
                    round_keys: share(&round_keys),
                },
            );
            proof {
                let after = Seq::new(blocks@.len(), |i: int| final(blocks@[i].data)@);
                assert(after =~= before.push(head_final));
                before.lemma_flatten_push(head_final);
                assert((before.flatten() + head_final) + final(tail)@ =~= before.flatten() + (
                head_final + final(tail)@));
            }
            rest = tail;
            index += 1;
        }
        proof {
            assert(counts_from(blocks@, start));
            if blocks@.len() > 0 {
                assert forall|i: int| 0 <= i < blocks@.len() implies (#[trigger] blocks@[i]).ctr_block
                    == counter_block(blocks@[0].ctr_block, i) by {
                    lemma_counter_offset(start, 0, i);
                }
            }
            let all = Seq::new(blocks@.len(), |i: int| final(blocks@[i].data)@);
            assert(final(rest)@ =~= Seq::<u8>::empty());
            assert(all.flatten() + Seq::<u8>::empty() =~= all.flatten());
        }
        blocks
    }

    /// Encrypts or decrypts this block in place: the keystream block of its
    /// counter is added to its bytes.
    pub fn encrypt(&mut self)
        requires
            old(self).wf(),
        ensures
            final(self).wf(),
            final(self).data@ == xor_block(
                old(self).data@,
                cipher_spec(old(self).ctr_block, old(self).round_keys@),
            ),
            final(final(self).data)@ == final(old(self).data)@,
            final(self).ctr_block == old(self).ctr_block,
            final(self).round_keys == old(self).round_keys,
    {
        let keystream: u128 = cipher(self.ctr_block, self.round_keys.as_slice());
        add_keystream(self.data, keystream);
    }
}

/// Performs AES-128 in counter mode on `data`, in place, under the sixteen
/// key bytes `key` and the initial counter `iv`, or under a fresh counter
/// where none is given. Returns the initial counter that was used: it is
/// what decryption needs.
pub fn aes_encrypt_decrypt(data: &mut [u8], key: &[u8], iv: Option<u128>) -> (used: u128)
    requires
        key@.len() == 16,
    ensures
        iv matches Some(given) ==> used == given,
        final(data)@ == aes_ctr(old(data)@, key@, used),
{
    let iv: u128 = initial_counter(iv);
    let round_keys: [u128; 11] = key_expansion(le_bytes_to_block(key));
    let n: usize = data.len();
    let mut offset: usize = 0;
    let mut index: usize = 0;
    while offset < n
        invariant
            data@.len() == n,
            old(data)@.len() == n,
            offset <= n,
            offset == 16 * index || offset == n,
            forall|p: int|
                0 <= p < offset ==> data@[p] == old(data)@[p] ^ keystream_byte(
                    round_keys@,
                    iv,
                    p,
                ),
            forall|p: int| offset <= p < n ==> data@[p] == old(data)@[p],
        decreases n - offset,
    {
        let keystream: u128 = cipher(counter_at(iv, index), round_keys.as_slice());
        let bytes: [u8; 16] = block_to_bytes(keystream);
        let m: usize = if n - offset < 16 {
            n - offset
        } else {
            16
        };
        let mut j: usize = 0;
        while j < m
            invariant
                data@.len() == n,
                old(data)@.len() == n,
                offset == 16 * index,
                offset + m <= n,
                j <= m <= 16,
                keystream == keystream_block(round_keys@, iv, index as int),
                bytes@ == block_bytes(keystream),
                forall|p: int|
                    0 <= p < offset + j ==> data@[p] == old(data)@[p] ^ keystream_byte(
                        round_keys@,
                        iv,
                        p,
                    ),
                forall|p: int| offset + j <= p < n ==> data@[p] == old(data)@[p],
            decreases m - j,
        {
            let at: usize = offset + j;
            assert(at as int / 16 == index && at as int % 16 == j);
            data[at] = data[at] ^ bytes[15 - j];
            j += 1;
        }
        offset += m;
        index += 1;
    }
    assert(data@ =~= aes_ctr(old(data)@, key@, iv));
    iv
}

/// Encrypts `data` in place under the sixteen key bytes `key` and a fresh
/// initial counter, which it returns: store it beside the ciphertext.
pub fn aes_encrypt(data: &mut [u8], key: &[u8]) -> (iv: u128)
    requires
        key@.len() == 16,
    ensures
        final(data)@ == aes_ctr(old(data)@, key@, iv),
{
    aes_encrypt_decrypt(data, key, None)
}

/// Decrypts `data` in place under the sixteen key bytes `key` and the
/// initial counter `iv` that the encryption returned.
pub fn aes_decrypt(data: &mut [u8], key: &[u8], iv: u128)
    requires
        key@.len() == 16,
    ensures
        final(data)@ == aes_ctr(old(data)@, key@, iv),
{
    aes_encrypt_decrypt(data, key, Some(iv));
}

} // verus!
