//! The compare-exchange network behind the sorter, as mathematics: what one
//! step does to the array, and why the steps of one stage merge sorted blocks
//! into sorted blocks of twice the size.
//!
//! A step of width `w` works on blocks of `2 * w` positions. The first step of
//! a stage mirrors each block (position `r` against `2 * w - 1 - r`); the
//! later steps compare position `r` against `r + w`.

use vstd::prelude::*;
use vstd::arithmetic::div_mod::{
    lemma_div_denominator, lemma_fundamental_div_mod, lemma_fundamental_div_mod_converse,
    lemma_mod_pos_bound, lemma_div_pos_is_pos, lemma_div_is_ordered,
};
use vstd::arithmetic::mul::{lemma_mul_is_commutative, lemma_mul_inequality};
use crate::lookup::{SpatialLookupEntry, key_at};

verus! {

pub open spec fn lesser(x: int, y: int) -> int {
    if x <= y { x } else { y }
}

pub open spec fn greater(x: int, y: int) -> int {
    if x >= y { x } else { y }
}

/// No four positions `a < b < c < d` alternate low, high, low, high or high,
/// low, high, low.
pub open spec fn no_zigzag(s: Seq<SpatialLookupEntry>, a: int, b: int, c: int, d: int) -> bool {
    &&& !(greater(key_at(s, a), key_at(s, c)) < lesser(key_at(s, b), key_at(s, d)))
    &&& !(greater(key_at(s, b), key_at(s, d)) < lesser(key_at(s, a), key_at(s, c)))
}

/// The keys over `lo..lo + len` rise and fall at most once, read as a ring.
pub open spec fn block_bitonic(s: Seq<SpatialLookupEntry>, lo: int, len: int) -> bool {
    forall|a: int, b: int, c: int, d: int|
        lo <= a < b < c < d < lo + len ==> #[trigger] no_zigzag(s, a, b, c, d)
}

/// The keys over `lo..lo + len` never decrease.
pub open spec fn block_sorted(s: Seq<SpatialLookupEntry>, lo: int, len: int) -> bool {
    forall|i: int, j: int| lo <= i <= j < lo + len ==> key_at(s, i) <= key_at(s, j)
}

/// The position that `p` is compared with, inside the block that starts at `lo`.
pub open spec fn block_partner(p: int, lo: int, w: int, flip: bool) -> int {
    if flip {
        2 * lo + 2 * w - 1 - p
    } else if p < lo + w {
        p + w
    } else {
        p - w
    }
}

/// Over the block at `lo`, `t` holds the keys of `s` after one step of width
/// `w`: each lower position the lesser key of its pair, each upper position
/// the greater.
pub open spec fn exchanged(
    s: Seq<SpatialLookupEntry>,
    t: Seq<SpatialLookupEntry>,
    lo: int,
    w: int,
    flip: bool,
) -> bool {
    forall|p: int|
        lo <= p < lo + 2 * w ==> #[trigger] key_at(t, p) == (if p < lo + w {
            lesser(key_at(s, p), key_at(s, block_partner(p, lo, w, flip)))
        } else {
            greater(key_at(s, block_partner(p, lo, w, flip)), key_at(s, p))
        })
}

/// After a mirror step over two sorted halves, no key of the lower half
/// exceeds a key of the upper half.
proof fn lemma_flip_orders_halves(
    s: Seq<SpatialLookupEntry>,
    t: Seq<SpatialLookupEntry>,
    lo: int,
    w: int,
    i: int,
    j: int,
)
    requires
        w >= 1,
        block_sorted(s, lo, w),
        block_sorted(s, lo + w, w),
        exchanged(s, t, lo, w, true),
        lo <= i < lo + w <= j < lo + 2 * w,
    ensures
        key_at(t, i) <= key_at(t, j),
{
    let mi = block_partner(i, lo, w, true);
    let mj = block_partner(j, lo, w, true);
    assert(key_at(t, i) == lesser(key_at(s, i), key_at(s, mi)));
    assert(key_at(t, j) == greater(key_at(s, mj), key_at(s, j)));
    if i <= mj {
        assert(key_at(s, i) <= key_at(s, mj));
    } else {
        assert(key_at(s, mi) <= key_at(s, j));
    }
}

/// After a mirror step over two sorted halves, each half is bitonic.
proof fn lemma_flip_leaves_bitonic(
    s: Seq<SpatialLookupEntry>,
    t: Seq<SpatialLookupEntry>,
    lo: int,
    w: int,
    a: int,
    b: int,
    c: int,
    d: int,
)
    requires
        w >= 1,
        block_sorted(s, lo, w),
        block_sorted(s, lo + w, w),
        exchanged(s, t, lo, w, true),
        lo <= a < b < c < d < lo + 2 * w,
        d < lo + w || lo + w <= a,
    ensures
        no_zigzag(t, a, b, c, d),
{
    let ma = block_partner(a, lo, w, true);
    let mb = block_partner(b, lo, w, true);
    let mc = block_partner(c, lo, w, true);
    let md = block_partner(d, lo, w, true);
    if d < lo + w {
        assert(key_at(t, a) == lesser(key_at(s, a), key_at(s, ma)));
        assert(key_at(t, b) == lesser(key_at(s, b), key_at(s, mb)));
        assert(key_at(t, c) == lesser(key_at(s, c), key_at(s, mc)));
        assert(key_at(t, d) == lesser(key_at(s, d), key_at(s, md)));
        // a key of the lower half is never below both of its neighbours
        assert(key_at(s, a) <= key_at(s, b) <= key_at(s, c) <= key_at(s, d));
        assert(key_at(s, md) <= key_at(s, mc) <= key_at(s, mb) <= key_at(s, ma));
    } else {
        assert(key_at(t, a) == greater(key_at(s, ma), key_at(s, a)));
        assert(key_at(t, b) == greater(key_at(s, mb), key_at(s, b)));
        assert(key_at(t, c) == greater(key_at(s, mc), key_at(s, c)));
        assert(key_at(t, d) == greater(key_at(s, md), key_at(s, d)));
        assert(key_at(s, a) <= key_at(s, b) <= key_at(s, c) <= key_at(s, d));
        assert(key_at(s, md) <= key_at(s, mc) <= key_at(s, mb) <= key_at(s, ma));
    }
}

/// After a half-cleaning step over a bitonic block, no key of the lower half
/// exceeds a key of the upper half.
proof fn lemma_clean_orders_halves(
    s: Seq<SpatialLookupEntry>,
    t: Seq<SpatialLookupEntry>,
    lo: int,
    w: int,
    i: int,
    j: int,
)
    requires
        w >= 1,
        block_bitonic(s, lo, 2 * w),
        exchanged(s, t, lo, w, false),
        lo <= i < lo + w <= j < lo + 2 * w,
    ensures
        key_at(t, i) <= key_at(t, j),
{
    let jl = j - w;
    assert(key_at(t, i) == lesser(key_at(s, i), key_at(s, i + w)));
    assert(key_at(t, j) == greater(key_at(s, jl), key_at(s, j)));
    if i < jl {
        assert(no_zigzag(s, i, jl, i + w, j));
    } else if jl < i {
        assert(no_zigzag(s, jl, i, j, i + w));
    }
}

/// After a half-cleaning step over a bitonic block, each half is bitonic.
proof fn lemma_clean_leaves_bitonic(
    s: Seq<SpatialLookupEntry>,
    t: Seq<SpatialLookupEntry>,
    lo: int,
    w: int,
    a: int,
    b: int,
    c: int,
    d: int,
)
    requires
        w >= 1,
        block_bitonic(s, lo, 2 * w),
        exchanged(s, t, lo, w, false),
        lo <= a < b < c < d < lo + 2 * w,
        d < lo + w || lo + w <= a,
    ensures
        no_zigzag(t, a, b, c, d),
{
    if d < lo + w {
        assert(key_at(t, a) == lesser(key_at(s, a), key_at(s, a + w)));
        assert(key_at(t, b) == lesser(key_at(s, b), key_at(s, b + w)));
        assert(key_at(t, c) == lesser(key_at(s, c), key_at(s, c + w)));
        assert(key_at(t, d) == lesser(key_at(s, d), key_at(s, d + w)));
        assert(no_zigzag(s, a, b, c, d));
        assert(no_zigzag(s, a, b, c + w, d + w));
        assert(no_zigzag(s, b, c, d, a + w));
        assert(no_zigzag(s, a + w, b + w, c + w, d + w));
        assert(no_zigzag(s, a, b, c, d + w));
        assert(no_zigzag(s, c, d, a + w, b + w));
    } else {
        assert(key_at(t, a) == greater(key_at(s, a - w), key_at(s, a)));
        assert(key_at(t, b) == greater(key_at(s, b - w), key_at(s, b)));
        assert(key_at(t, c) == greater(key_at(s, c - w), key_at(s, c)));
        assert(key_at(t, d) == greater(key_at(s, d - w), key_at(s, d)));
        assert(no_zigzag(s, a, b, c, d));
        assert(no_zigzag(s, d - w, a, b, c));
        assert(no_zigzag(s, a - w, b - w, c, d));
        assert(no_zigzag(s, a - w, b - w, c - w, d - w));
        assert(no_zigzag(s, c - w, d - w, a, b));
    }
}

/// The position that `p` is compared with in a step of width `w`.
pub open spec fn partner(p: int, w: int, flip: bool) -> int {
    let r = p % (2 * w);
    if flip {
        p - r + (2 * w - 1 - r)
    } else if r < w {
        p + w
    } else {
        p - w
    }
}

/// The entry at position `p` after one step of width `w`: the two entries of
/// a pair change places when the lower position holds the greater key.
pub open spec fn step_at(s: Seq<SpatialLookupEntry>, w: int, flip: bool, p: int)
    -> SpatialLookupEntry {
    let q = partner(p, w, flip);
    if p < q {
        if s[p].cell_key > s[q].cell_key { s[q] } else { s[p] }
    } else {
        if s[q].cell_key > s[p].cell_key { s[q] } else { s[p] }
    }
}

/// The array after one step of width `w`.
pub open spec fn sort_step(s: Seq<SpatialLookupEntry>, w: int, flip: bool)
    -> Seq<SpatialLookupEntry> {
    Seq::new(s.len(), |p: int| step_at(s, w, flip, p))
}

/// Keys never decrease inside a block of `size` positions.
pub open spec fn sorted_in_blocks(s: Seq<SpatialLookupEntry>, size: int) -> bool {
    forall|i: int, j: int|
        #![trigger key_at(s, i), key_at(s, j)]
        0 <= i <= j < s.len() && i / size == j / size ==> key_at(s, i) <= key_at(s, j)
}

/// Every block of `size` positions is bitonic.
pub open spec fn bitonic_in_blocks(s: Seq<SpatialLookupEntry>, size: int) -> bool {
    forall|a: int, b: int, c: int, d: int|
        0 <= a < b < c < d < s.len() && a / size == d / size ==> #[trigger] no_zigzag(
            s,
            a,
            b,
            c,
            d,
        )
}

/// Inside a block of `big` positions, keys never decrease from one block of
/// `size` positions to a later one.
pub open spec fn ordered_across(s: Seq<SpatialLookupEntry>, size: int, big: int) -> bool {
    forall|i: int, j: int|
        #![trigger key_at(s, i), key_at(s, j)]
        0 <= i < j < s.len() && i / big == j / big && i / size != j / size ==> key_at(s, i)
            <= key_at(s, j)
}

/// A position inside the `m`-th block of `size` positions has quotient `m`.
pub(crate) proof fn lemma_in_block(p: int, size: int, m: int)
    requires
        size > 0,
        size * m <= p < size * m + size,
    ensures
        p / size == m,
        p % size == p - size * m,
{
    lemma_mul_is_commutative(size, m);
    lemma_fundamental_div_mod_converse(p, size, m, p - size * m);
}

/// Every position lies in the block that its quotient names.
pub(crate) proof fn lemma_block_of(p: int, size: int)
    requires
        p >= 0,
        size > 0,
    ensures
        p / size >= 0,
        size * (p / size) <= p < size * (p / size) + size,
        p % size == p - size * (p / size),
{
    lemma_fundamental_div_mod(p, size);
    lemma_mod_pos_bound(p, size);
    lemma_div_pos_is_pos(p, size);
}

/// A block of `size` positions that starts inside an array of whole blocks
/// ends inside it.
pub(crate) proof fn lemma_block_fits(p: int, size: int, len: int)
    requires
        0 <= p < len,
        size > 0,
        len % size == 0,
    ensures
        size * (p / size) + size <= len,
{
    lemma_block_of(p, size);
    lemma_fundamental_div_mod(len, size);
    let m = p / size;
    let l = len / size;
    if m >= l {
        lemma_mul_inequality(l, m, size);
        lemma_mul_is_commutative(size, m);
        lemma_mul_is_commutative(size, l);
    } else {
        lemma_mul_inequality(m + 1, l, size);
        lemma_mul_is_commutative(size, m + 1);
        lemma_mul_is_commutative(size, l);
        assert(size * (m + 1) == size * m + size) by (nonlinear_arith);
    }
}

/// The halves of the `m`-th block of `2 * w` positions are the blocks
/// `2 * m` and `2 * m + 1` of `w` positions.
proof fn lemma_halves(w: int, m: int)
    ensures
        (2 * w) * m == w * (2 * m),
        (2 * w) * m + w == w * (2 * m + 1),
        (2 * w) * m + 2 * w == w * (2 * m + 1) + w,
{
    assert((2 * w) * m == w * (2 * m)) by (nonlinear_arith);
    assert((2 * w) * m + w == w * (2 * m + 1)) by (nonlinear_arith);
}

/// Over each whole block, a step is the exchange that the block lemmas speak of.
proof fn lemma_step_exchanges(s: Seq<SpatialLookupEntry>, w: int, flip: bool, m: int)
    requires
        w >= 1,
        m >= 0,
        (2 * w) * m + 2 * w <= s.len(),
    ensures
        exchanged(s, sort_step(s, w, flip), (2 * w) * m, w, flip),
{
    let lo = (2 * w) * m;
    let t = sort_step(s, w, flip);
    assert(lo >= 0) by (nonlinear_arith)
        requires
            w >= 1,
            m >= 0,
            lo == (2 * w) * m,
    ;
    assert forall|p: int| lo <= p < lo + 2 * w implies #[trigger] key_at(t, p) == (if p < lo + w {
        lesser(key_at(s, p), key_at(s, block_partner(p, lo, w, flip)))
    } else {
        greater(key_at(s, block_partner(p, lo, w, flip)), key_at(s, p))
    }) by {
        lemma_in_block(p, 2 * w, m);
        assert(partner(p, w, flip) == block_partner(p, lo, w, flip));
        assert(t[p] == step_at(s, w, flip, p));
    }
}

/// Two positions of one block of `w` lie in the same half of their block of
/// `2 * w`.
proof fn lemma_same_half(a: int, d: int, w: int)
    requires
        0 <= a <= d,
        w >= 1,
        a / w == d / w,
    ensures
        a / (2 * w) == d / (2 * w),
        ({
            let lo = (2 * w) * (a / (2 * w));
            lo <= a <= d < lo + w || lo + w <= a <= d < lo + 2 * w
        }),
{
    let k = a / w;
    let m = a / (2 * w);
    lemma_block_of(a, w);
    lemma_block_of(d, w);
    lemma_block_of(a, 2 * w);
    lemma_div_denominator(a, w, 2);
    lemma_div_denominator(d, w, 2);
    lemma_halves(w, m);
    assert(k == 2 * m || k == 2 * m + 1);
}

/// Two positions of one block of `2 * w` that lie in different blocks of `w`
/// lie in its lower and its upper half.
proof fn lemma_split_halves(i: int, j: int, w: int)
    requires
        0 <= i < j,
        w >= 1,
        i / (2 * w) == j / (2 * w),
        i / w != j / w,
    ensures
        ({
            let lo = (2 * w) * (i / (2 * w));
            lo <= i < lo + w <= j < lo + 2 * w
        }),
{
    let m = i / (2 * w);
    lemma_block_of(i, w);
    lemma_block_of(j, w);
    lemma_block_of(i, 2 * w);
    lemma_block_of(j, 2 * w);
    lemma_div_denominator(i, w, 2);
    lemma_div_denominator(j, w, 2);
    lemma_div_is_ordered(i, j, w);
    lemma_halves(w, m);
    assert(i / w == 2 * m);
    assert(j / w == 2 * m + 1);
}

/// The block of `2 * w` around a position of an array of sorted blocks of `w`.
proof fn lemma_flip_block(s: Seq<SpatialLookupEntry>, w: int, p: int)
    requires
        w >= 1,
        0 <= p < s.len(),
        s.len() as int % (2 * w) == 0,
        sorted_in_blocks(s, w),
    ensures
        ({
            let lo = (2 * w) * (p / (2 * w));
            &&& 0 <= lo <= p < lo + 2 * w <= s.len()
            &&& exchanged(s, sort_step(s, w, true), lo, w, true)
            &&& block_sorted(s, lo, w)
            &&& block_sorted(s, lo + w, w)
        }),
{
    let m = p / (2 * w);
    let lo = (2 * w) * m;
    lemma_block_of(p, 2 * w);
    lemma_block_fits(p, 2 * w, s.len() as int);
    lemma_halves(w, m);
    assert(lo >= 0) by (nonlinear_arith)
        requires
            w >= 1,
            m >= 0,
            lo == (2 * w) * m,
    ;
    lemma_step_exchanges(s, w, true, m);
    assert forall|i: int, j: int| lo <= i <= j < lo + w implies key_at(s, i) <= key_at(s, j) by {
        lemma_in_block(i, w, 2 * m);
        lemma_in_block(j, w, 2 * m);
    }
    assert forall|i: int, j: int| lo + w <= i <= j < lo + w + w implies key_at(s, i) <= key_at(
        s,
        j,
    ) by {
        lemma_in_block(i, w, 2 * m + 1);
        lemma_in_block(j, w, 2 * m + 1);
    }
}

/// The block of `2 * w` around a position of an array of bitonic blocks of
/// `2 * w`.
proof fn lemma_clean_block(s: Seq<SpatialLookupEntry>, w: int, p: int)
    requires
        w >= 1,
        0 <= p < s.len(),
        s.len() as int % (2 * w) == 0,
        bitonic_in_blocks(s, 2 * w),
    ensures
        ({
            let lo = (2 * w) * (p / (2 * w));
            &&& 0 <= lo <= p < lo + 2 * w <= s.len()
            &&& exchanged(s, sort_step(s, w, false), lo, w, false)
            &&& block_bitonic(s, lo, 2 * w)
        }),
{
    let m = p / (2 * w);
    let lo = (2 * w) * m;
    lemma_block_of(p, 2 * w);
    lemma_block_fits(p, 2 * w, s.len() as int);
    assert(lo >= 0) by (nonlinear_arith)
        requires
            w >= 1,
            m >= 0,
            lo == (2 * w) * m,
    ;
    lemma_step_exchanges(s, w, false, m);
    assert forall|a: int, b: int, c: int, d: int|
        lo <= a < b < c < d < lo + 2 * w implies #[trigger] no_zigzag(s, a, b, c, d) by {
        lemma_in_block(a, 2 * w, m);
        lemma_in_block(d, 2 * w, m);
    }
}

/// A mirror step over sorted blocks of `w` leaves bitonic blocks of `w`,
/// ordered inside each block of `2 * w`.
pub proof fn lemma_flip_step(s: Seq<SpatialLookupEntry>, w: int)
    requires
        w >= 1,
        s.len() as int % (2 * w) == 0,
        sorted_in_blocks(s, w),
    ensures
        bitonic_in_blocks(sort_step(s, w, true), w),
        ordered_across(sort_step(s, w, true), w, 2 * w),
{
    let t = sort_step(s, w, true);
    assert forall|a: int, b: int, c: int, d: int|
        0 <= a < b < c < d < t.len() && a / w == d / w implies #[trigger] no_zigzag(
        t,
        a,
        b,
        c,
        d,
    ) by {
        lemma_flip_block(s, w, a);
        lemma_same_half(a, d, w);
        lemma_flip_leaves_bitonic(s, t, (2 * w) * (a / (2 * w)), w, a, b, c, d);
    }
    assert forall|i: int, j: int|
        0 <= i < j < t.len() && i / (2 * w) == j / (2 * w) && i / w != j / w implies key_at(t, i)
        <= key_at(t, j) by {
        lemma_flip_block(s, w, i);
        lemma_split_halves(i, j, w);
        lemma_flip_orders_halves(s, t, (2 * w) * (i / (2 * w)), w, i, j);
    }
}

/// A step never moves an entry out of its block of `2 * w`.
proof fn lemma_step_picks(s: Seq<SpatialLookupEntry>, w: int, flip: bool, p: int)
    requires
        w >= 1,
        0 <= p < s.len(),
        s.len() as int % (2 * w) == 0,
    ensures
        ({
            let q = partner(p, w, flip);
            &&& 0 <= q < s.len()
            &&& q / (2 * w) == p / (2 * w)
            &&& partner(q, w, flip) == p
            &&& q != p
            &&& (sort_step(s, w, flip)[p] == s[p] || sort_step(s, w, flip)[p] == s[q])
        }),
{
    let m = p / (2 * w);
    let q = partner(p, w, flip);
    lemma_block_of(p, 2 * w);
    lemma_block_fits(p, 2 * w, s.len() as int);
    assert((2 * w) * m >= 0) by (nonlinear_arith)
        requires
            w >= 1,
            m >= 0,
    ;
    lemma_in_block(q, 2 * w, m);
}

/// A half-cleaning step of width `w` over bitonic blocks of `2 * w` leaves
/// bitonic blocks of `w` and keeps the order across blocks inside each block
/// of `big`.
pub proof fn lemma_clean_step(s: Seq<SpatialLookupEntry>, w: int, c: int)
    requires
        w >= 1,
        c >= 1,
        s.len() as int % (2 * w) == 0,
        bitonic_in_blocks(s, 2 * w),
        ordered_across(s, 2 * w, (2 * w) * c),
    ensures
        bitonic_in_blocks(sort_step(s, w, false), w),
        ordered_across(sort_step(s, w, false), w, (2 * w) * c),
{
    let t = sort_step(s, w, false);
    let big = (2 * w) * c;
    assert forall|a: int, b: int, c: int, d: int|
        0 <= a < b < c < d < t.len() && a / w == d / w implies #[trigger] no_zigzag(
        t,
        a,
        b,
        c,
        d,
    ) by {
        lemma_clean_block(s, w, a);
        lemma_same_half(a, d, w);
        lemma_clean_leaves_bitonic(s, t, (2 * w) * (a / (2 * w)), w, a, b, c, d);
    }
    assert forall|i: int, j: int|
        0 <= i < j < t.len() && i / big == j / big && i / w != j / w implies key_at(t, i)
        <= key_at(t, j) by {
        if i / (2 * w) == j / (2 * w) {
            lemma_clean_block(s, w, i);
            lemma_split_halves(i, j, w);
            lemma_clean_orders_halves(s, t, (2 * w) * (i / (2 * w)), w, i, j);
        } else {
            let qi = partner(i, w, false);
            let qj = partner(j, w, false);
            let mi = i / (2 * w);
            let mj = j / (2 * w);
            lemma_step_picks(s, w, false, i);
            lemma_step_picks(s, w, false, j);
            lemma_div_is_ordered(i, j, 2 * w);
            lemma_block_of(i, 2 * w);
            lemma_block_of(j, 2 * w);
            lemma_block_of(qi, 2 * w);
            lemma_block_of(qj, 2 * w);
            lemma_mul_inequality(mi + 1, mj, 2 * w);
            lemma_mul_is_commutative(2 * w, mi + 1);
            lemma_mul_is_commutative(2 * w, mj);
            assert((2 * w) * (mi + 1) == (2 * w) * mi + 2 * w) by (nonlinear_arith);
            lemma_div_denominator(i, 2 * w, c);
            lemma_div_denominator(j, 2 * w, c);
            lemma_div_denominator(qi, 2 * w, c);
            lemma_div_denominator(qj, 2 * w, c);
            assert(key_at(s, i) <= key_at(s, j));
            assert(key_at(s, i) <= key_at(s, qj));
            assert(key_at(s, qi) <= key_at(s, j));
            assert(key_at(s, qi) <= key_at(s, qj));
        }
    }
}

/// Blocks whose single positions are ordered are sorted.
pub(crate) proof fn lemma_ordered_singles(s: Seq<SpatialLookupEntry>, big: int)
    requires
        ordered_across(s, 1, big),
    ensures
        sorted_in_blocks(s, big),
{
}

/// Blocks of one position are sorted.
pub(crate) proof fn lemma_singles_sorted(s: Seq<SpatialLookupEntry>)
    ensures
        sorted_in_blocks(s, 1),
{
}

} // verus!
