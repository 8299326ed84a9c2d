//! The parallel sorter: a bitonic network over the padded lookup array, one
//! dispatch per step, each step a set of disjoint compare-exchanges.

use vstd::prelude::*;
use vstd::arithmetic::div_mod::{lemma_basic_div, lemma_mod_multiples_basic};
use vstd::arithmetic::mul::lemma_mul_is_commutative;
use vstd::arithmetic::power2::{
    is_pow2, lemma2_to64, lemma_pow2_adds, lemma_pow2_pos, lemma_pow2_strictly_increases,
    lemma_pow2_unfold, pow2,
};
use vstd::bits::lemma_u32_shl_is_mul;
use crate::lookup::{key_at, lemma_padding_sorts_last, padded_from, sorted_by_key, SpatialLookupEntry};
use crate::network::{
    bitonic_in_blocks, lemma_block_fits, lemma_block_of, lemma_clean_step, lemma_flip_step,
    lemma_in_block, lemma_ordered_singles, lemma_singles_sorted, ordered_across, partner,
    sort_step, sorted_in_blocks, step_at,
};
use crate::power::{lemma_pow2_between, lemma_stage_count_of_pow2, stage_count, MAX_PARTICLES};

verus! {

/// Parameters of one step of the network, as the sort dispatch reads them.
#[derive(Clone, Copy, Debug, PartialEq, Eq, Structural)]
pub struct SortingParams {
    /// Length of the padded lookup array.
    pub n: u32,
    /// Distance between the halves of a block; a power of two.
    pub group_width: u32,
    /// `2 * group_width - 1`.
    pub group_height: u32,
    /// Position of the step inside its stage; step 0 mirrors.
    pub step_index: u32,
}

/// Lower position of the pair that thread `i` handles in a step of width `w`.
pub open spec fn left_index(i: int, w: int) -> int {
    i % w + (2 * w) * (i / w)
}

/// Upper position of the pair that thread `i` handles.
pub open spec fn right_index(i: int, w: int, flip: bool) -> int {
    left_index(i, w) + if flip {
        2 * w - 1 - 2 * (i % w)
    } else {
        w
    }
}

/// The thread that handles position `p`.
pub open spec fn pair_index(p: int, w: int, flip: bool) -> int {
    let r = p % (2 * w);
    (p / (2 * w)) * w + if r < w {
        r
    } else if flip {
        2 * w - 1 - r
    } else {
        r - w
    }
}

/// The array after the first `steps` steps of stage `stage`.
pub open spec fn run_stage(s: Seq<SpatialLookupEntry>, stage: nat, steps: nat) -> Seq<
    SpatialLookupEntry,
>
    decreases steps,
{
    if steps == 0 || steps > stage + 1 {
        s
    } else {
        sort_step(
            run_stage(s, stage, (steps - 1) as nat),
            pow2((stage - (steps - 1)) as nat) as int,
            steps == 1,
        )
    }
}

/// The array after the first `stages` stages.
pub open spec fn run_stages(s: Seq<SpatialLookupEntry>, stages: nat) -> Seq<SpatialLookupEntry>
    decreases stages,
{
    if stages == 0 {
        s
    } else {
        run_stage(run_stages(s, (stages - 1) as nat), (stages - 1) as nat, stages)
    }
}

/// The array after the whole network over `pow2(stages)` entries.
pub open spec fn network_result(s: Seq<SpatialLookupEntry>, stages: nat) -> Seq<SpatialLookupEntry> {
    run_stages(s, stages)
}

/// Thread `i` handles a pair inside the array, and no other thread handles
/// either position.
proof fn lemma_thread_pair(i: int, w: int, flip: bool, n: int)
    requires
        w >= 1,
        0 <= i,
        2 * i < n,
        n % (2 * w) == 0,
    ensures
        ({
            let l = left_index(i, w);
            let r = right_index(i, w, flip);
            &&& 0 <= l < r < n
            &&& 0 <= i % w < w
            &&& 0 <= i / w
            &&& 2 * w <= n
            &&& (2 * w) * (i / w) <= 2 * i
            &&& partner(l, w, flip) == r
            &&& partner(r, w, flip) == l
            &&& pair_index(l, w, flip) == i
            &&& pair_index(r, w, flip) == i
        }),
{
    let b = i / w;
    let l = left_index(i, w);
    let r = right_index(i, w, flip);
    lemma_block_of(i, w);
    assert((2 * w) * b == 2 * (w * b)) by (nonlinear_arith);
    lemma_in_block(l, 2 * w, b);
    lemma_in_block(r, 2 * w, b);
    lemma_block_fits(l, 2 * w, n);
    lemma_mul_is_commutative(b, w);
}

/// Two threads of one step never touch the same position: a step can run
/// its threads in any order, or all at once.
pub proof fn lemma_threads_never_alias(i: int, j: int, w: int, flip: bool, n: int)
    requires
        w >= 1,
        0 <= i,
        0 <= j,
        i != j,
        2 * i < n,
        2 * j < n,
        n % (2 * w) == 0,
    ensures
        left_index(i, w) != left_index(j, w),
        left_index(i, w) != right_index(j, w, flip),
        right_index(i, w, flip) != left_index(j, w),
        right_index(i, w, flip) != right_index(j, w, flip),
{
    lemma_thread_pair(i, w, flip, n);
    lemma_thread_pair(j, w, flip, n);
}

/// A position belongs to the pair of the thread that handles it.
proof fn lemma_pair_unique(p: int, i: int, w: int, flip: bool)
    requires
        p >= 0,
        w >= 1,
        pair_index(p, w, flip) == i,
    ensures
        p == left_index(i, w) || p == right_index(i, w, flip),
{
    let m = p / (2 * w);
    lemma_block_of(p, 2 * w);
    lemma_mul_is_commutative(m, w);
    lemma_in_block(i, w, m);
}

/// Every position is handled by one of the first `n / 2` threads.
proof fn lemma_pair_index_bound(p: int, w: int, flip: bool, n: int)
    requires
        w >= 1,
        0 <= p < n,
        n % (2 * w) == 0,
    ensures
        0 <= pair_index(p, w, flip) < n / 2,
{
    let m = p / (2 * w);
    let k = n / (2 * w);
    lemma_block_of(p, 2 * w);
    lemma_block_fits(p, 2 * w, n);
    vstd::arithmetic::div_mod::lemma_fundamental_div_mod(n, 2 * w);
    assert((2 * w) * k == 2 * (w * k)) by (nonlinear_arith);
    assert((2 * w) * m == 2 * (m * w)) by (nonlinear_arith);
    assert(m * w >= 0) by (nonlinear_arith)
        requires
            m >= 0,
            w >= 1,
    ;
}

/// Exchanging two entries keeps the entries that the array holds.
proof fn lemma_swap_keeps_multiset(s: Seq<SpatialLookupEntry>, i: int, j: int)
    requires
        0 <= i < s.len(),
        0 <= j < s.len(),
    ensures
        s.update(i, s[j]).update(j, s[i]).to_multiset() == s.to_multiset(),
{
    broadcast use vstd::multiset::group_multiset_axioms;

    let a = s[i];
    let b = s[j];
    let s1 = s.update(i, b);
    vstd::seq_lib::to_multiset_update(s, i, b);
    vstd::seq_lib::to_multiset_update(s1, j, a);
    vstd::seq_lib::to_multiset_contains(s, a);
    vstd::seq_lib::to_multiset_contains(s, b);
    assert(s.contains(a));
    assert(s.contains(b));
    assert(s1.update(j, a).to_multiset() =~= s.to_multiset());
}

impl SortingParams {
    /// The parameters of step `step` of stage `stage` over `n` entries.
    pub open spec fn step_params(n: u32, stage: nat, step: nat) -> SortingParams {
        SortingParams {
            n,
            group_width: pow2((stage - step) as nat) as u32,
            group_height: (2 * pow2((stage - step) as nat) - 1) as u32,
            step_index: step as u32,
        }
    }

    /// The parameters describe a step over an array of `len` entries: the
    /// blocks of `2 * group_width` positions tile the array.
    pub open spec fn fits(self, len: nat) -> bool {
        &&& self.n == len
        &&& self.group_width >= 1
        &&& self.group_height == 2 * self.group_width - 1
        &&& len as int % (2 * self.group_width) == 0
    }

    /// The first step of a stage mirrors each block.
    pub open spec fn flips(self) -> bool {
        self.step_index == 0
    }

    /// The array after the step.
    pub open spec fn apply(self, s: Seq<SpatialLookupEntry>) -> Seq<SpatialLookupEntry> {
        sort_step(s, self.group_width as int, self.flips())
    }

    /// The parameters of step `step_index` of stage `stage_index`.
    pub fn for_step(n: u32, stage_index: u32, step_index: u32) -> (p: SortingParams)
        requires
            step_index <= stage_index <= 30,
        ensures
            p == Self::step_params(n, stage_index as nat, step_index as nat),
            p.group_width == pow2((stage_index - step_index) as nat),
            p.group_height == 2 * p.group_width - 1,
    {
        let shift: u32 = stage_index - step_index;
        proof {
            lemma2_to64();
            if shift < 30 {
                lemma_pow2_strictly_increases(shift as nat, 30);
            }
            lemma_pow2_pos(shift as nat);
            lemma_u32_shl_is_mul(1, shift);
        }
        let group_width: u32 = 1u32 << shift;
        let group_height: u32 = 2 * group_width - 1;
        SortingParams { n, group_width, group_height, step_index }
    }

    /// The two positions that thread `i` of the dispatch compares.
    pub fn thread_pair(&self, i: u32) -> (pair: (u32, u32))
        requires
            self.fits(self.n as nat),
            2 * i < self.n,
        ensures
            pair.0 == left_index(i as int, self.group_width as int),
            pair.1 == right_index(i as int, self.group_width as int, self.flips()),
            pair.0 < pair.1 < self.n,
    {
        proof {
            lemma_thread_pair(i as int, self.group_width as int, self.flips(), self.n as int);
        }
        let h_index: u32 = i % self.group_width;
        let index_left: u32 = h_index + (self.group_height + 1) * (i / self.group_width);
        let right_step: u32 = if self.step_index == 0 {
            self.group_height - 2 * h_index
        } else {
            (self.group_height + 1) / 2
        };
        let index_right: u32 = index_left + right_step;
        (index_left, index_right)
    }
}

/// One dispatch of the sorter: every pair of the step is put in key order.
pub fn sort_particles(entries: &mut Vec<SpatialLookupEntry>, params: &SortingParams)
    requires
        params.fits(old(entries)@.len()),
    ensures
        final(entries)@ == params.apply(old(entries)@),
        final(entries)@.to_multiset() == old(entries)@.to_multiset(),
{
    let ghost before = entries@;
    let ghost w = params.group_width as int;
    let ghost flip = params.flips();
    let half: u32 = params.n / 2;
    let mut i: u32 = 0;
    while i < half
        invariant
            params.fits(before.len()),
            w == params.group_width,
            flip == params.flips(),
            half == params.n / 2,
            i <= half,
            entries@.len() == before.len(),
            entries@.to_multiset() == before.to_multiset(),
            forall|p: int|
                0 <= p < before.len() ==> #[trigger] entries@[p] == (if pair_index(p, w, flip) < i {
                    step_at(before, w, flip, p)
                } else {
                    before[p]
                }),
        decreases half - i,
    {
        proof {
            lemma_thread_pair(i as int, w, flip, params.n as int);
        }
        let pair = params.thread_pair(i);
        let l: usize = pair.0 as usize;
        let r: usize = pair.1 as usize;
        let a = entries[l];
        let b = entries[r];
        let ghost prev = entries@;
        if a.cell_key > b.cell_key {
            entries[l] = b;
            entries[r] = a;
            proof {
                lemma_swap_keeps_multiset(prev, l as int, r as int);
            }
        }
        proof {
            assert forall|p: int| 0 <= p < before.len() implies #[trigger] entries@[p] == (
            if pair_index(p, w, flip) < i + 1 {
                step_at(before, w, flip, p)
            } else {
                before[p]
            }) by {
                if p != l && p != r && pair_index(p, w, flip) == i {
                    lemma_pair_unique(p, i as int, w, flip);
                }
            }
        }
        i = i + 1;
    }
    proof {
        assert forall|p: int| 0 <= p < before.len() implies entries@[p] == step_at(
            before,
            w,
            flip,
            p,
        ) by {
            lemma_pair_index_bound(p, w, flip, params.n as int);
        }
        assert(entries@ =~= params.apply(before));
    }
}

/// The whole sorter: every step of every stage, in order. The array comes
/// out in key order, holding the entries it held before, and padding that
/// stood behind the real entries stands behind them afterwards.
pub fn sort_spatial_lookup(entries: &mut Vec<SpatialLookupEntry>)
    requires
        is_pow2(old(entries)@.len() as int),
        old(entries)@.len() <= MAX_PARTICLES,
    ensures
        final(entries)@ == network_result(old(entries)@, stage_count(old(entries)@.len())),
        sorted_by_key(final(entries)@),
        final(entries)@.to_multiset() == old(entries)@.to_multiset(),
        final(entries)@.len() == old(entries)@.len(),
        forall|count: int|
            #[trigger] padded_from(old(entries)@, count) ==> padded_from(final(entries)@, count),
{
    let ghost before = entries@;
    let n: u32 = entries.len() as u32;
    proof {
        reveal(is_pow2);
    }
    let stages: u32 = n.ilog2();
    proof {
        lemma_pow2_between(n as int, stages as nat);
        lemma2_to64();
        if stages > 31 {
            lemma_pow2_strictly_increases(31, stages as nat);
        }
        lemma_singles_sorted(entries@);
        lemma_stage_count_of_pow2(stages as nat);
    }
    let mut stage: u32 = 0;
    while stage < stages
        invariant
            stage <= stages <= 31,
            n == pow2(stages as nat),
            entries@.len() == n,
            entries@.to_multiset() == before.to_multiset(),
            entries@ == run_stages(before, stage as nat),
            sorted_in_blocks(entries@, pow2(stage as nat) as int),
        decreases stages - stage,
    {
        let ghost start = entries@;
        let mut step: u32 = 0;
        while step <= stage
            invariant
                stage < stages <= 31,
                step <= stage + 1,
                n == pow2(stages as nat),
                entries@.len() == n,
                entries@.to_multiset() == before.to_multiset(),
                entries@ == run_stage(start, stage as nat, step as nat),
                step == 0 ==> sorted_in_blocks(entries@, pow2(stage as nat) as int),
                step > 0 ==> bitonic_in_blocks(entries@, pow2((stage + 1 - step) as nat) as int)
                    && ordered_across(
                    entries@,
                    pow2((stage + 1 - step) as nat) as int,
                    pow2((stage + 1) as nat) as int,
                ),
            decreases stage + 1 - step,
        {
            let params = SortingParams::for_step(n, stage, step);
            proof {
                let e = (stage - step) as nat;
                let w = pow2(e) as int;
                let rest = (stages - (stage + 1 - step)) as nat;
                lemma_pow2_pos(e);
                lemma_pow2_unfold(e + 1);
                lemma_pow2_adds(e + 1, rest);
                lemma_mul_is_commutative(pow2(e + 1) as int, pow2(rest) as int);
                lemma_mod_multiples_basic(pow2(rest) as int, 2 * w);
                if step == 0 {
                    lemma_flip_step(entries@, w);
                } else {
                    lemma_pow2_adds(e + 1, step as nat);
                    lemma_pow2_pos(step as nat);
                    lemma_clean_step(entries@, w, pow2(step as nat) as int);
                }
            }
            sort_particles(entries, &params);
            step = step + 1;
        }
        proof {
            lemma2_to64();
            lemma_ordered_singles(entries@, pow2((stage + 1) as nat) as int);
        }
        stage = stage + 1;
    }
    proof {
        assert forall|i: int, j: int| 0 <= i <= j < entries@.len() implies key_at(entries@, i)
            <= key_at(entries@, j) by {
            lemma_basic_div(i, n as int);
            lemma_basic_div(j, n as int);
        }
        assert forall|count: int| #[trigger] padded_from(before, count) implies padded_from(
            entries@,
            count,
        ) by {
            lemma_padding_sorts_last(before, entries@, count);
        }
    }
}

} // verus!
