//! Words of sixty-four cells and the bitwise operations that advance them.
//!
//! A word holds sixty-four horizontally adjacent cells. Cell `0` is the most
//! significant bit and lies furthest west; cell `63` is the least significant
//! bit and lies furthest east.

use crate::board::{indicator, life_rule};
use vstd::prelude::*;

verus! {

/// The word whose only live cell is the westmost one.
pub const TOP_BIT: u64 = 0x8000_0000_0000_0000;

/// The word whose only live cell is cell `k`.
pub open spec fn cell_mask(k: int) -> u64 {
    TOP_BIT >> (k as u64)
}

/// Whether cell `k` of the word is alive.
pub open spec fn word_bit(word: u64, k: int) -> bool {
    word & cell_mask(k) != 0
}

/// Each cell takes the state of its western neighbour; the westmost cell
/// takes the eastmost cell of the word `west`.
pub open spec fn shift_west(word: u64, west: u64) -> u64 {
    (word >> 1) | (west << 63)
}

/// Each cell takes the state of its eastern neighbour; the eastmost cell
/// takes the westmost cell of the word `east`.
pub open spec fn shift_east(word: u64, east: u64) -> u64 {
    (word << 1) | (east >> 63)
}

/// The carry-save adder network over eight neighbour planes, followed by the
/// rule: the next state of all sixty-four cells of `center` at once.
pub open spec fn rule_word(
    center: u64,
    n0: u64,
    n1: u64,
    n2: u64,
    n3: u64,
    n4: u64,
    n5: u64,
    n6: u64,
    n7: u64,
) -> u64 {
    let ta0 = n0 ^ n1;
    let a8 = ta0 ^ n2;
    let b0 = (n0 & n1) | (ta0 & n2);
    let ta3 = n3 ^ n4;
    let a9 = ta3 ^ n5;
    let b1 = (n3 & n4) | (ta3 & n5);
    let aa = n6 ^ n7;
    let b2 = n6 & n7;
    let ta8 = a8 ^ a9;
    let ab = ta8 ^ aa;
    let b3 = (a8 & a9) | (ta8 & aa);
    let tb0 = b0 ^ b1;
    let b4 = tb0 ^ b2;
    let c0 = (b0 & b1) | (tb0 & b2);
    ((center | ab) & (b3 ^ b4)) & !c0
}

/// How many of eight words have cell `k` alive.
pub open spec fn plane_count(
    n0: u64,
    n1: u64,
    n2: u64,
    n3: u64,
    n4: u64,
    n5: u64,
    n6: u64,
    n7: u64,
    k: int,
) -> nat {
    indicator(word_bit(n0, k)) + indicator(word_bit(n1, k)) + indicator(word_bit(n2, k))
        + indicator(word_bit(n3, k)) + indicator(word_bit(n4, k)) + indicator(word_bit(n5, k))
        + indicator(word_bit(n6, k)) + indicator(word_bit(n7, k))
}

/// The mask of a word of which only the `keep` westmost cells lie inside
/// the grid.
pub open spec fn keep_mask(keep: int) -> u64 {
    if keep <= 0 {
        0
    } else if keep >= 64 {
        !0u64
    } else {
        !0u64 << ((64 - keep) as u64)
    }
}

proof fn lemma_rule_word_bv(
    center: u64,
    n0: u64,
    n1: u64,
    n2: u64,
    n3: u64,
    n4: u64,
    n5: u64,
    n6: u64,
    n7: u64,
    k: u64,
)
    by (bit_vector)
    requires
        k < 64,
    ensures
        (rule_word(center, n0, n1, n2, n3, n4, n5, n6, n7) & (0x8000_0000_0000_0000u64 >> k) != 0)
            == ({
            let m = 0x8000_0000_0000_0000u64 >> k;
            let s = (if n0 & m != 0 { 1u64 } else { 0u64 }) + (if n1 & m != 0 { 1u64 } else { 0u64 })
                + (if n2 & m != 0 { 1u64 } else { 0u64 }) + (if n3 & m != 0 { 1u64 } else { 0u64 })
                + (if n4 & m != 0 { 1u64 } else { 0u64 }) + (if n5 & m != 0 { 1u64 } else { 0u64 })
                + (if n6 & m != 0 { 1u64 } else { 0u64 }) + (if n7 & m != 0 { 1u64 } else { 0u64 });
            s == 3 || (center & m != 0 && s == 2)
        }),
{
}

/// The adder network computes Conway's rule in every cell of the word: for
/// each of the 512 combinations of a centre cell and eight neighbour cells.
pub proof fn lemma_rule_word(
    center: u64,
    n0: u64,
    n1: u64,
    n2: u64,
    n3: u64,
    n4: u64,
    n5: u64,
    n6: u64,
    n7: u64,
    k: int,
)
    requires
        0 <= k < 64,
    ensures
        word_bit(rule_word(center, n0, n1, n2, n3, n4, n5, n6, n7), k) == life_rule(
            word_bit(center, k),
            plane_count(n0, n1, n2, n3, n4, n5, n6, n7, k) as int,
        ),
{
    lemma_rule_word_bv(center, n0, n1, n2, n3, n4, n5, n6, n7, k as u64);
}

proof fn lemma_shift_west_bv(word: u64, west: u64, k: u64)
    by (bit_vector)
    requires
        k < 64,
    ensures
        (((word >> 1) | (west << 63)) & (0x8000_0000_0000_0000u64 >> k) != 0) == (if k == 0 {
            west & (0x8000_0000_0000_0000u64 >> 63) != 0
        } else {
            word & (0x8000_0000_0000_0000u64 >> ((k - 1) as u64)) != 0
        }),
{
}

proof fn lemma_shift_east_bv(word: u64, east: u64, k: u64)
    by (bit_vector)
    requires
        k < 64,
    ensures
        (((word << 1) | (east >> 63)) & (0x8000_0000_0000_0000u64 >> k) != 0) == (if k == 63 {
            east & (0x8000_0000_0000_0000u64 >> 0) != 0
        } else {
            word & (0x8000_0000_0000_0000u64 >> ((k + 1) as u64)) != 0
        }),
{
}

/// Cell `k` of a word shifted west is cell `k - 1` of the word, or the
/// eastmost cell of the western word.
pub proof fn lemma_shift_west(word: u64, west: u64, k: int)
    requires
        0 <= k < 64,
    ensures
        word_bit(shift_west(word, west), k) == (if k == 0 {
            word_bit(west, 63)
        } else {
            word_bit(word, k - 1)
        }),
{
    lemma_shift_west_bv(word, west, k as u64);
}

/// Cell `k` of a word shifted east is cell `k + 1` of the word, or the
/// westmost cell of the eastern word.
pub proof fn lemma_shift_east(word: u64, east: u64, k: int)
    requires
        0 <= k < 64,
    ensures
        word_bit(shift_east(word, east), k) == (if k == 63 {
            word_bit(east, 0)
        } else {
            word_bit(word, k + 1)
        }),
{
    lemma_shift_east_bv(word, east, k as u64);
}

proof fn lemma_and_bv(a: u64, b: u64, k: u64)
    by (bit_vector)
    requires
        k < 64,
    ensures
        ((a & b) & (0x8000_0000_0000_0000u64 >> k) != 0) == (a & (0x8000_0000_0000_0000u64 >> k)
            != 0 && b & (0x8000_0000_0000_0000u64 >> k) != 0),
{
}

/// A cell of `a & b` is alive when it is alive in both.
pub proof fn lemma_and_bit(a: u64, b: u64, k: int)
    requires
        0 <= k < 64,
    ensures
        word_bit(a & b, k) == (word_bit(a, k) && word_bit(b, k)),
{
    lemma_and_bv(a, b, k as u64);
}

proof fn lemma_set_bv(word: u64, j: u64, k: u64)
    by (bit_vector)
    requires
        j < 64,
        k < 64,
    ensures
        ((word | (0x8000_0000_0000_0000u64 >> j)) & (0x8000_0000_0000_0000u64 >> k) != 0) == (k == j
            || word & (0x8000_0000_0000_0000u64 >> k) != 0),
{
}

/// Setting cell `j` makes that cell alive and leaves the others alone.
pub proof fn lemma_set_bit(word: u64, j: int, k: int)
    requires
        0 <= j < 64,
        0 <= k < 64,
    ensures
        word_bit(word | cell_mask(j), k) == (k == j || word_bit(word, k)),
{
    lemma_set_bv(word, j as u64, k as u64);
}

proof fn lemma_keep_mask_bv(shift: u64, k: u64)
    by (bit_vector)
    requires
        1 <= shift <= 63,
        k < 64,
    ensures
        ((!0u64 << shift) & (0x8000_0000_0000_0000u64 >> k) != 0) == (k + shift < 64),
        (!0u64) & (0x8000_0000_0000_0000u64 >> k) != 0,
        0u64 & (0x8000_0000_0000_0000u64 >> k) == 0,
{
}

/// Cell `k` of a mask is set exactly when it is among the cells kept.
pub proof fn lemma_keep_mask(keep: int, k: int)
    requires
        0 <= k < 64,
    ensures
        word_bit(keep_mask(keep), k) == (k < keep),
{
    if 1 <= keep <= 63 {
        lemma_keep_mask_bv((64 - keep) as u64, k as u64);
    } else {
        lemma_keep_mask_bv(1, k as u64);
    }
}

proof fn lemma_covered_bv(word: u64, mask: u64, k: u64)
    by (bit_vector)
    requires
        k < 64,
        word & !mask == 0,
    ensures
        word & (0x8000_0000_0000_0000u64 >> k) != 0 ==> mask & (0x8000_0000_0000_0000u64 >> k) != 0,
{
}

/// A word that has no live cell outside a mask has its live cells inside it.
pub proof fn lemma_covered_bit(word: u64, mask: u64, k: int)
    requires
        0 <= k < 64,
        word & !mask == 0,
    ensures
        word_bit(word, k) ==> word_bit(mask, k),
{
    lemma_covered_bv(word, mask, k as u64);
}

/// Facts on whole words that the engine's bookkeeping needs.
pub proof fn lemma_word_facts(a: u64, b: u64)
    by (bit_vector)
    ensures
        (a & b) & !b == 0,
        0u64 & !b == 0,
        a & !0u64 == a,
        a & !(!0u64) == 0,
        (a & !0u64 == 0) ==> a == 0,
        a | 0 == a,
        ((a >> 1) | 0) | ((b & 1) << 63) == (a >> 1) | (b << 63),
        ((a << 1) | 0) | ((b & (1u64 << 63)) >> 63) == (a << 1) | (b >> 63),
        (b << 63) & 0x8000_0000_0000_0000u64 == b << 63,
        (b >> 63) & 1 == b >> 63,
{
}

proof fn lemma_set_covered_bv(word: u64, mask: u64, j: u64)
    by (bit_vector)
    requires
        j < 64,
        word & !mask == 0,
        mask & (0x8000_0000_0000_0000u64 >> j) != 0,
    ensures
        (word | (0x8000_0000_0000_0000u64 >> j)) & !mask == 0,
{
}

/// Setting a cell inside a mask keeps the word inside the mask.
pub proof fn lemma_set_covered(word: u64, mask: u64, j: int)
    requires
        0 <= j < 64,
        word & !mask == 0,
        word_bit(mask, j),
    ensures
        (word | cell_mask(j)) & !mask == 0,
{
    lemma_set_covered_bv(word, mask, j as u64);
}

proof fn lemma_no_bit_step_bv(word: u64, k: u64)
    by (bit_vector)
    requires
        k < 64,
        word & (if k == 0 {
            0u64
        } else {
            !0u64 << ((64 - k) as u64)
        }) == 0,
        word & (0x8000_0000_0000_0000u64 >> k) == 0,
    ensures
        word & (if k == 63 {
            !0u64
        } else {
            !0u64 << ((63 - k) as u64)
        }) == 0,
{
}

proof fn lemma_xor_bv(a: u64, b: u64, k: u64)
    by (bit_vector)
    requires
        k < 64,
    ensures
        ((a ^ b) & (0x8000_0000_0000_0000u64 >> k) != 0) == ((a & (0x8000_0000_0000_0000u64 >> k)
            != 0) != (b & (0x8000_0000_0000_0000u64 >> k) != 0)),
        a ^ b == 0 ==> a == b,
        a & 0 == 0,
        a & !0u64 == 0 ==> a == 0,
{
}

/// A word without a live cell among its `keep` westmost cells has nothing in
/// common with the mask that keeps them.
proof fn lemma_no_bit_upto(word: u64, keep: int)
    requires
        0 <= keep <= 64,
        forall|k: int| 0 <= k < 64 ==> !word_bit(word, k),
    ensures
        word & keep_mask(keep) == 0,
    decreases keep,
{
    if keep == 0 {
        lemma_xor_bv(word, word, 0);
    } else {
        lemma_no_bit_upto(word, keep - 1);
        assert(!word_bit(word, keep - 1));
        lemma_no_bit_step_bv(word, (keep - 1) as u64);
    }
}

/// Two words with the same cells alive are the same word.
pub proof fn lemma_words_equal(a: u64, b: u64)
    requires
        forall|k: int| 0 <= k < 64 ==> word_bit(a, k) == word_bit(b, k),
    ensures
        a == b,
{
    let x = a ^ b;
    assert forall|k: int| 0 <= k < 64 implies !word_bit(x, k) by {
        lemma_xor_bv(a, b, k as u64);
        assert(word_bit(a, k) == word_bit(b, k));
    }
    lemma_no_bit_upto(x, 64);
    lemma_xor_bv(a, b, 0);
    lemma_xor_bv(x, x, 0);
}

} // verus!
