//! The work buffer of an index, read and written as a row of 64-bit words.
//!
//! A record of the index is a run of words, and a link between two records is the number
//! of the word that the record it leads to starts at. Nothing in the buffer depends on
//! where the buffer lies in memory.
use vstd::prelude::*;

verus! {

/// Size in bytes of a word of the buffer.
pub const WORD_SIZE: usize = 8;

/// The word that stands for a link that leads nowhere.
pub const NULL_LINK: u64 = 0xffff_ffff_ffff_ffff;

/// The number of whole words that a buffer of `len` bytes holds.
pub open spec fn spec_word_count(len: int) -> int {
    len / 8
}

/// The number that the `n` bytes of `buf` from `at` on stand for, the lowest byte first.
pub open spec fn spec_le_value(buf: Seq<u8>, at: int, n: nat) -> int
    decreases n,
{
    if n == 0 {
        0
    } else {
        buf[at] as int + 0x100 * spec_le_value(buf, at + 1, (n - 1) as nat)
    }
}

/// The word number `i` of `buf`: its bytes `8 * i` to `8 * i + 7`, the lowest first.
pub open spec fn spec_word(buf: Seq<u8>, i: int) -> int
    recommends
        0 <= i < spec_word_count(buf.len() as int),
{
    spec_le_value(buf, 8 * i, 8)
}

/// The words of `buf`, in a row.
pub open spec fn spec_words(buf: Seq<u8>) -> Seq<int> {
    Seq::new(spec_word_count(buf.len() as int) as nat, |i: int| spec_word(buf, i))
}

/// Bytes that are equal stand for equal numbers.
pub proof fn lemma_le_value_same(a: Seq<u8>, b: Seq<u8>, at: int, n: nat)
    requires
        forall|k: int| at <= k < at + n ==> a[k] == b[k],
    ensures
        spec_le_value(a, at, n) == spec_le_value(b, at, n),
    decreases n,
{
    if n > 0 {
        lemma_le_value_same(a, b, at + 1, (n - 1) as nat);
    }
}

/// Reads the word number `i` of `buf`.
pub(crate) fn read_word(buf: &[u8], i: usize) -> (w: u64)
    requires
        i < spec_word_count(buf@.len() as int),
    ensures
        w == spec_words(buf@)[i as int],
{
    let len: usize = buf.len();
    let base: usize = i * 8;
    let b0: u64 = buf[base] as u64;
    let b1: u64 = buf[base + 1] as u64;
    let b2: u64 = buf[base + 2] as u64;
    let b3: u64 = buf[base + 3] as u64;
    let b4: u64 = buf[base + 4] as u64;
    let b5: u64 = buf[base + 5] as u64;
    let b6: u64 = buf[base + 6] as u64;
    let b7: u64 = buf[base + 7] as u64;
    let v7: u64 = b7;
    let v6: u64 = b6 + 0x100 * v7;
    let v5: u64 = b5 + 0x100 * v6;
    let v4: u64 = b4 + 0x100 * v5;
    let v3: u64 = b3 + 0x100 * v4;
    let v2: u64 = b2 + 0x100 * v3;
    let v1: u64 = b1 + 0x100 * v2;
    let v0: u64 = b0 + 0x100 * v1;
    proof {
        let s = buf@;
        let at = base as int;
        assert(spec_le_value(s, at + 8, 0) == 0);
        assert(spec_le_value(s, at + 7, 1) == v7);
        assert(spec_le_value(s, at + 6, 2) == v6);
        assert(spec_le_value(s, at + 5, 3) == v5);
        assert(spec_le_value(s, at + 4, 4) == v4);
        assert(spec_le_value(s, at + 3, 5) == v3);
        assert(spec_le_value(s, at + 2, 6) == v2);
        assert(spec_le_value(s, at + 1, 7) == v1);
        assert(spec_le_value(s, at, 8) == v0);
    }
    v0
}

/// Writes `w` as the word number `i` of `buf`. The other words stay as they are.
pub(crate) fn write_word(buf: &mut [u8], i: usize, w: u64)
    requires
        i < spec_word_count(old(buf)@.len() as int),
    ensures
        final(buf)@.len() == old(buf)@.len(),
        spec_words(final(buf)@) == spec_words(old(buf)@).update(i as int, w as int),
{
    let len: usize = buf.len();
    let base: usize = i * 8;
    let ghost before = buf@;
    let v1: u64 = w / 0x100;
    let v2: u64 = v1 / 0x100;
    let v3: u64 = v2 / 0x100;
    let v4: u64 = v3 / 0x100;
    let v5: u64 = v4 / 0x100;
    let v6: u64 = v5 / 0x100;
    let v7: u64 = v6 / 0x100;
    buf[base] = (w % 0x100) as u8;
    buf[base + 1] = (v1 % 0x100) as u8;
    buf[base + 2] = (v2 % 0x100) as u8;
    buf[base + 3] = (v3 % 0x100) as u8;
    buf[base + 4] = (v4 % 0x100) as u8;
    buf[base + 5] = (v5 % 0x100) as u8;
    buf[base + 6] = (v6 % 0x100) as u8;
    buf[base + 7] = (v7 % 0x100) as u8;
    proof {
        let after = buf@;
        let at = base as int;
        assert(after.len() == before.len());
        assert(v7 < 0x100);
        assert(spec_le_value(after, at + 8, 0) == 0);
        assert(spec_le_value(after, at + 7, 1) == v7);
        assert(spec_le_value(after, at + 6, 2) == v6);
        assert(spec_le_value(after, at + 5, 3) == v5);
        assert(spec_le_value(after, at + 4, 4) == v4);
        assert(spec_le_value(after, at + 3, 5) == v3);
        assert(spec_le_value(after, at + 2, 6) == v2);
        assert(spec_le_value(after, at + 1, 7) == v1);
        assert(spec_le_value(after, at, 8) == w);
        assert forall|j: int| 0 <= j < spec_word_count(after.len() as int) implies spec_words(
            after,
        )[j] == spec_words(before).update(i as int, w as int)[j] by {
            if j != i {
                lemma_le_value_same(after, before, 8 * j, 8);
            }
        }
        assert(spec_words(after) =~= spec_words(before).update(i as int, w as int));
    }
}

} // verus!
