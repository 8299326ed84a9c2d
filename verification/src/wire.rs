//! Byte layouts shared with the device: 32-bit words as the host lays them
//! out in memory.

use vstd::prelude::*;

verus! {

/// The four bytes of a word, lowest byte first.
pub open spec fn word_le(x: u32) -> Seq<u8> {
    seq![
        (x % 256) as u8,
        ((x / 256) % 256) as u8,
        ((x / 65536) % 256) as u8,
        (x / 16777216) as u8,
    ]
}

/// The four bytes of a word, highest byte first.
pub open spec fn word_be(x: u32) -> Seq<u8> {
    seq![
        (x / 16777216) as u8,
        ((x / 65536) % 256) as u8,
        ((x / 256) % 256) as u8,
        (x % 256) as u8,
    ]
}

/// The bytes of a run of words, each lowest byte first.
pub open spec fn words_le(words: Seq<u32>) -> Seq<u8>
    decreases words.len(),
{
    if words.len() == 0 {
        Seq::empty()
    } else {
        words_le(words.drop_last()) + word_le(words.last())
    }
}

/// The bytes of a run of words, each highest byte first.
pub open spec fn words_be(words: Seq<u32>) -> Seq<u8>
    decreases words.len(),
{
    if words.len() == 0 {
        Seq::empty()
    } else {
        words_be(words.drop_last()) + word_be(words.last())
    }
}

/// `bytes` is the memory image of `words` on a host of either byte order.
pub open spec fn host_image(bytes: Seq<u8>, words: Seq<u32>) -> bool {
    bytes == words_le(words) || bytes == words_be(words)
}

/// A run of words takes four bytes per word.
pub(crate) proof fn lemma_words_len(words: Seq<u32>)
    ensures
        words_le(words).len() == 4 * words.len(),
        words_be(words).len() == 4 * words.len(),
    decreases words.len(),
{
    if words.len() > 0 {
        lemma_words_len(words.drop_last());
    }
}

/// `n` bytes of the value `b`.
pub open spec fn filled(n: nat, b: u8) -> Seq<u8> {
    Seq::new(n, |i: int| b)
}

/// `n` words of the value `w`.
pub open spec fn repeated(n: nat, w: u32) -> Seq<u32> {
    Seq::new(n, |i: int| w)
}

/// Words with every bit set have the same memory image in either byte order:
/// bytes with every bit set.
pub proof fn lemma_all_ones_image(n: nat)
    ensures
        words_le(repeated(n, 0xffff_ffff)) == filled(4 * n, 0xff),
        words_be(repeated(n, 0xffff_ffff)) == filled(4 * n, 0xff),
    decreases n,
{
    let words = repeated(n, 0xffff_ffff);
    if n > 0 {
        lemma_all_ones_image((n - 1) as nat);
        assert(words.drop_last() =~= repeated((n - 1) as nat, 0xffff_ffff));
        assert(words_le(words) =~= filled(4 * n, 0xff));
        assert(words_be(words) =~= filled(4 * n, 0xff));
    } else {
        assert(words_le(words) =~= filled(4 * n, 0xff));
        assert(words_be(words) =~= filled(4 * n, 0xff));
    }
}

} // verus!
