//! Counter mode as mathematics: what a buffer becomes under a key schedule
//! and an initial counter, and the laws of that transformation.
//!
//! Block `i` of a buffer is its bytes `16 * i .. 16 * i + 16`, the last block
//! being shorter where the length is no multiple of sixteen. A block holds
//! its least significant byte first.
use crate::block::{le_byte, le_value};
use crate::rijndael::{cipher_spec, key_schedule};
use vstd::prelude::*;

verus! {

/// The number of counters: `2^128`.
pub open spec fn counter_modulus() -> int {
    u128::MAX + 1
}

/// The counter of block `index`: the initial counter plus the index, modulo
/// `2^128`.
pub open spec fn counter_block(iv: u128, index: int) -> u128 {
    ((iv + index) % counter_modulus()) as u128
}

/// The number of blocks in a buffer of `len` bytes.
pub open spec fn block_count(len: int) -> int {
    (len + 15) / 16
}

/// Where block `i` of a buffer of `len` bytes ends.
pub open spec fn chunk_end(len: int, i: int) -> int {
    if 16 * i + 16 <= len {
        16 * i + 16
    } else {
        len
    }
}

/// Block `i` of a buffer.
pub open spec fn chunk(data: Seq<u8>, i: int) -> Seq<u8> {
    data.subrange(16 * i, chunk_end(data.len() as int, i))
}

/// The keystream block of block `index`: its counter, enciphered.
pub open spec fn keystream_block(round_keys: Seq<u128>, iv: u128, index: int) -> u128 {
    cipher_spec(counter_block(iv, index), round_keys)
}

/// The keystream byte at position `pos` of a buffer.
pub open spec fn keystream_byte(round_keys: Seq<u128>, iv: u128, pos: int) -> u8 {
    le_byte(keystream_block(round_keys, iv, pos / 16), pos % 16)
}

/// A buffer with the keystream added to every byte.
pub open spec fn ctr_xor(data: Seq<u8>, round_keys: Seq<u128>, iv: u128) -> Seq<u8> {
    Seq::new(data.len(), |pos: int| data[pos] ^ keystream_byte(round_keys, iv, pos))
}

/// AES-128 in counter mode: the buffer `data` under the sixteen key bytes
/// `key`, least significant first, and the initial counter `iv`. Encryption
/// and decryption are this one function.
pub open spec fn aes_ctr(data: Seq<u8>, key: Seq<u8>, iv: u128) -> Seq<u8> {
    ctr_xor(data, key_schedule(le_value(key)), iv)
}

/// A block of at most sixteen bytes with the low bytes of one keystream
/// block added to it.
pub open spec fn xor_block(block: Seq<u8>, keystream: u128) -> Seq<u8> {
    Seq::new(block.len(), |j: int| block[j] ^ le_byte(keystream, j))
}

/// Adding the same byte twice changes nothing.
pub proof fn lemma_xor_twice(a: u8, k: u8)
    by (bit_vector)
    ensures
        (a ^ k) ^ k == a,
{
}

/// Counters add up: block `k` counted from the counter of block `m` is block
/// `m + k`.
pub proof fn lemma_counter_offset(iv: u128, m: int, k: int)
    requires
        0 <= m,
        0 <= k,
    ensures
        counter_block(counter_block(iv, m), k) == counter_block(iv, m + k),
{
    let modulus: int = counter_modulus();
    vstd::arithmetic::div_mod::lemma_add_mod_noop(iv + m, k, modulus);
    vstd::arithmetic::div_mod::lemma_small_mod((k % modulus) as nat, modulus as nat);
    vstd::arithmetic::div_mod::lemma_mod_twice(iv + m, modulus);
    vstd::arithmetic::div_mod::lemma_add_mod_noop((iv + m) % modulus, k, modulus);
}

/// Decryption undoes encryption: the transformation, applied twice with one
/// key and one initial counter, gives the buffer back.
pub proof fn lemma_ctr_involution(data: Seq<u8>, round_keys: Seq<u128>, iv: u128)
    ensures
        ctr_xor(ctr_xor(data, round_keys, iv), round_keys, iv) == data,
{
    let once = ctr_xor(data, round_keys, iv);
    let twice = ctr_xor(once, round_keys, iv);
    assert forall|pos: int| 0 <= pos < data.len() implies twice[pos] == data[pos] by {
        lemma_xor_twice(data[pos], keystream_byte(round_keys, iv, pos));
    }
    assert(twice =~= data);
}

/// Decrypting with the key and the initial counter of the encryption
/// restores the plaintext.
pub proof fn lemma_decrypt_inverts_encrypt(data: Seq<u8>, key: Seq<u8>, iv: u128)
    ensures
        aes_ctr(aes_ctr(data, key, iv), key, iv) == data,
{
    lemma_ctr_involution(data, key_schedule(le_value(key)), iv);
}

/// A buffer split at a block boundary: the whole, transformed, is the first
/// part transformed with the same initial counter, followed by the second
/// part transformed with the counter of the block at which it starts.
pub proof fn lemma_ctr_split(data: Seq<u8>, round_keys: Seq<u128>, iv: u128, m: int)
    requires
        0 <= m,
        16 * m <= data.len(),
    ensures
        ctr_xor(data, round_keys, iv) == ctr_xor(data.subrange(0, 16 * m), round_keys, iv)
            + ctr_xor(
            data.subrange(16 * m, data.len() as int),
            round_keys,
            counter_block(iv, m),
        ),
{
    let head = data.subrange(0, 16 * m);
    let tail = data.subrange(16 * m, data.len() as int);
    let whole = ctr_xor(data, round_keys, iv);
    let parts = ctr_xor(head, round_keys, iv) + ctr_xor(tail, round_keys, counter_block(iv, m));
    assert forall|pos: int| 0 <= pos < data.len() implies whole[pos] == parts[pos] by {
        if pos >= 16 * m {
            let q = pos - 16 * m;
            assert(q / 16 + m == pos / 16 && q % 16 == pos % 16);
            lemma_counter_offset(iv, m, q / 16);
        }
    }
    assert(whole =~= parts);
}

/// What the task of block `i` finds in its block and what it leaves there:
/// the keystream block of its counter, added to the block.
pub proof fn lemma_task_output(data: Seq<u8>, round_keys: Seq<u128>, iv: u128, i: int)
    requires
        0 <= i < block_count(data.len() as int),
    ensures
        xor_block(chunk(data, i), keystream_block(round_keys, iv, i)) == chunk(
            ctr_xor(data, round_keys, iv),
            i,
        ),
{
    let done = xor_block(chunk(data, i), keystream_block(round_keys, iv, i));
    let want = chunk(ctr_xor(data, round_keys, iv), i);
    assert forall|j: int| 0 <= j < done.len() implies done[j] == want[j] by {
        assert((16 * i + j) / 16 == i && (16 * i + j) % 16 == j);
    }
    assert(done =~= want);
}

/// The blocks of a buffer, joined, are the buffer up to the end of the last
/// of them.
pub proof fn lemma_chunks_join(data: Seq<u8>, k: int)
    requires
        0 <= k <= block_count(data.len() as int),
    ensures
        Seq::new(k as nat, |i: int| chunk(data, i)).flatten() == data.subrange(
            0,
            if k == 0 {
                0
            } else {
                chunk_end(data.len() as int, k - 1)
            },
        ),
    decreases k,
{
    let joined = Seq::new(k as nat, |i: int| chunk(data, i));
    if k == 0 {
        assert(joined.flatten() =~= data.subrange(0, 0));
    } else {
        let before = Seq::new((k - 1) as nat, |i: int| chunk(data, i));
        lemma_chunks_join(data, k - 1);
        assert(joined =~= before.push(chunk(data, k - 1)));
        before.lemma_flatten_push(chunk(data, k - 1));
        assert(before.flatten() + chunk(data, k - 1) =~= data.subrange(
            0,
            chunk_end(data.len() as int, k - 1),
        ));
    }
}

/// The tasks of a buffer compose: where every task has left in its block
/// the block with its keystream added, the buffer as a whole has been
/// transformed. It does not matter when each task ran.
pub proof fn lemma_tasks_compose(
    data: Seq<u8>,
    round_keys: Seq<u128>,
    iv: u128,
    outputs: Seq<Seq<u8>>,
)
    requires
        outputs.len() == block_count(data.len() as int),
        forall|i: int|
            0 <= i < outputs.len() ==> #[trigger] outputs[i] == xor_block(
                chunk(data, i),
                keystream_block(round_keys, iv, i),
            ),
    ensures
        outputs.flatten() == ctr_xor(data, round_keys, iv),
{
    let done = ctr_xor(data, round_keys, iv);
    let k = block_count(data.len() as int);
    assert forall|i: int| 0 <= i < k implies #[trigger] outputs[i] == chunk(done, i) by {
        lemma_task_output(data, round_keys, iv, i);
    }
    assert(outputs =~= Seq::new(k as nat, |i: int| chunk(done, i)));
    lemma_chunks_join(done, k);
    assert(outputs.flatten() =~= done);
}

/// The buffer after the task of block `i` has run on it, and no other.
pub open spec fn run_block(buffer: Seq<u8>, round_keys: Seq<u128>, iv: u128, i: int) -> Seq<u8> {
    buffer.subrange(0, 16 * i) + xor_block(chunk(buffer, i), keystream_block(round_keys, iv, i))
        + buffer.subrange(chunk_end(buffer.len() as int, i), buffer.len() as int)
}

/// The buffer after the tasks of the blocks `order[0]`, `order[1]`, ... have
/// run on it, one after the other.
pub open spec fn run_blocks(
    buffer: Seq<u8>,
    round_keys: Seq<u128>,
    iv: u128,
    order: Seq<int>,
) -> Seq<u8>
    decreases order.len(),
{
    if order.len() == 0 {
        buffer
    } else {
        run_block(run_blocks(buffer, round_keys, iv, order.drop_last()), round_keys, iv, order.last())
    }
}

/// `order` names each of the blocks `0 .. count` once.
pub open spec fn is_block_order(order: Seq<int>, count: int) -> bool {
    &&& order.len() == count
    &&& order.no_duplicates()
    &&& forall|k: int| 0 <= k < order.len() ==> 0 <= #[trigger] order[k] < count
}

/// After some of the tasks have run, each once, the blocks of those tasks
/// are transformed and the others untouched.
proof fn lemma_run_some_blocks(data: Seq<u8>, round_keys: Seq<u128>, iv: u128, order: Seq<int>)
    requires
        order.no_duplicates(),
        forall|k: int|
            0 <= k < order.len() ==> 0 <= #[trigger] order[k] < block_count(data.len() as int),
    ensures
        run_blocks(data, round_keys, iv, order).len() == data.len(),
        forall|pos: int|
            0 <= pos < data.len() ==> #[trigger] run_blocks(data, round_keys, iv, order)[pos] == (
            if order.contains(pos / 16) {
                data[pos] ^ keystream_byte(round_keys, iv, pos)
            } else {
                data[pos]
            }),
    decreases order.len(),
{
    if order.len() > 0 {
        let earlier = order.drop_last();
        let i = order.last();
        let before = run_blocks(data, round_keys, iv, earlier);
        let after = run_block(before, round_keys, iv, i);
        lemma_run_some_blocks(data, round_keys, iv, earlier);
        assert(after.len() == data.len());
        assert forall|pos: int| 0 <= pos < data.len() implies #[trigger] after[pos] == (
        if order.contains(pos / 16) {
            data[pos] ^ keystream_byte(round_keys, iv, pos)
        } else {
            data[pos]
        }) by {
            if pos / 16 == i {
                assert(order[order.len() - 1] == pos / 16);
                assert(!earlier.contains(i)) by {
                    if earlier.contains(i) {
                        let k = choose|k: int| 0 <= k < earlier.len() && earlier[k] == i;
                        assert(order[k] == order[order.len() - 1]);
                    }
                }
                let j = pos - 16 * i;
                assert(pos % 16 == j);
                assert(after[pos] == xor_block(chunk(before, i), keystream_block(round_keys, iv, i))[j]);
            } else {
                assert(after[pos] == before[pos]);
                if earlier.contains(pos / 16) {
                    let k = choose|k: int| 0 <= k < earlier.len() && earlier[k] == pos / 16;
                    assert(order[k] == pos / 16);
                } else if order.contains(pos / 16) {
                    let k = choose|k: int| 0 <= k < order.len() && order[k] == pos / 16;
                    assert(earlier[k] == pos / 16);
                }
            }
        }
    }
}

/// The order of the blocks does not matter: when the task of every block has
/// run once, in whatever order, the buffer has been transformed as a whole.
pub proof fn lemma_block_order_independent(
    data: Seq<u8>,
    round_keys: Seq<u128>,
    iv: u128,
    order: Seq<int>,
)
    requires
        is_block_order(order, block_count(data.len() as int)),
    ensures
        run_blocks(data, round_keys, iv, order) == ctr_xor(data, round_keys, iv),
{
    let count = block_count(data.len() as int);
    let done = run_blocks(data, round_keys, iv, order);
    lemma_run_some_blocks(data, round_keys, iv, order);
    assert(order.to_set() =~= vstd::set_lib::set_int_range(0, count)) by {
        order.unique_seq_to_set();
        vstd::seq_lib::seq_to_set_is_finite(order);
        vstd::set_lib::lemma_int_range(0, count);
        assert(order.to_set().subset_of(vstd::set_lib::set_int_range(0, count)));
        vstd::set_lib::lemma_subset_equality(
            order.to_set(),
            vstd::set_lib::set_int_range(0, count),
        );
    }
    assert forall|pos: int| 0 <= pos < data.len() implies done[pos] == data[pos] ^ keystream_byte(
        round_keys,
        iv,
        pos,
    ) by {
        assert(vstd::set_lib::set_int_range(0, count).contains(pos / 16));
        assert(order.to_set().contains(pos / 16));
    }
    assert(done =~= ctr_xor(data, round_keys, iv));
}

} // verus!
