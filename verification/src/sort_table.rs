//! The table of step parameters that the sorter's dispatches read: one record
//! per step, stage after stage, each in a slot of its own.

use vstd::prelude::*;
use crate::power::{padded_len, padded_length, sort_stages, stage_count, MAX_PARTICLES};
use crate::lookup::SpatialLookupEntry;
use crate::sorter::{network_result, run_stage, SortingParams};
use crate::wire::{host_image, lemma_words_len};

verus! {

/// Distance in bytes between two records of the table: the alignment that a
/// dynamic offset into a uniform buffer must keep.
pub const UNIFORM_ALIGNMENT: usize = 256;

/// Size in bytes of one record.
pub const SORTING_PARAMS_SIZE: usize = 16;

/// The four words of a record, in the order of its fields.
pub open spec fn record_words(p: SortingParams) -> Seq<u32> {
    seq![p.n, p.group_width, p.group_height, p.step_index]
}

/// Slot `it` of the table bytes holds the record `p`: its memory image, then
/// zeros up to the next slot.
pub open spec fn slot_holds(data: Seq<u8>, it: int, p: SortingParams) -> bool {
    &&& 0 <= it
    &&& 256 * it + 256 <= data.len()
    &&& host_image(data.subrange(256 * it, 256 * it + 16), record_words(p))
    &&& forall|q: int| 256 * it + 16 <= q < 256 * it + 256 ==> data[q] == 0
}

/// The sum `1 + 2 + ... + n`: the number of steps in the first `n` stages.
pub open spec fn triangle(n: nat) -> nat
    decreases n,
{
    if n == 0 {
        0
    } else {
        triangle((n - 1) as nat) + n
    }
}

/// The position of step `step` of stage `stage` in dispatch order.
pub open spec fn iteration_index(stage: nat, step: nat) -> int {
    (triangle(stage) + step) as int
}

/// The records of the first `steps` steps of stage `stage`.
pub open spec fn stage_params(n: u32, stage: nat, steps: nat) -> Seq<SortingParams>
    decreases steps,
{
    if steps == 0 {
        Seq::empty()
    } else {
        stage_params(n, stage, (steps - 1) as nat).push(
            SortingParams::step_params(n, stage, (steps - 1) as nat),
        )
    }
}

/// The records of the first `stages` stages, in dispatch order.
pub open spec fn params_table(n: u32, stages: nat) -> Seq<SortingParams>
    decreases stages,
{
    if stages == 0 {
        Seq::empty()
    } else {
        params_table(n, (stages - 1) as nat) + stage_params(n, (stages - 1) as nat, stages)
    }
}

/// Twice the `n`-th triangular number is `n * (n + 1)`.
pub proof fn lemma_triangle_closed_form(n: nat)
    ensures
        2 * triangle(n) == n * (n + 1),
    decreases n,
{
    if n > 0 {
        let m = (n - 1) as nat;
        lemma_triangle_closed_form(m);
        assert(m * (m + 1) + 2 * n == n * (n + 1)) by (nonlinear_arith)
            requires
                m + 1 == n,
        ;
    } else {
        assert(n * (n + 1) == 0) by (nonlinear_arith)
            requires
                n == 0,
        ;
    }
}

/// The triangular numbers grow with their argument.
pub(crate) proof fn lemma_triangle_grows(a: nat, b: nat)
    requires
        a <= b,
    ensures
        triangle(a) <= triangle(b),
    decreases b,
{
    if a < b {
        lemma_triangle_grows(a, (b - 1) as nat);
    }
}

/// The records of one stage: as many as asked for, each at its step.
proof fn lemma_stage_params(n: u32, stage: nat, steps: nat)
    ensures
        stage_params(n, stage, steps).len() == steps,
        forall|t: int|
            0 <= t < steps ==> #[trigger] stage_params(n, stage, steps)[t]
                == SortingParams::step_params(n, stage, t as nat),
    decreases steps,
{
    if steps > 0 {
        lemma_stage_params(n, stage, (steps - 1) as nat);
    }
}

/// The table holds one record per step, and step `step` of stage `stage`
/// stands at position `iteration_index(stage, step)`.
pub proof fn lemma_params_table(n: u32, stages: nat)
    ensures
        params_table(n, stages).len() == triangle(stages),
        forall|stage: nat, step: nat|
            step <= stage < stages ==> #[trigger] params_table(n, stages)[iteration_index(
                stage,
                step,
            )] == SortingParams::step_params(n, stage, step),
    decreases stages,
{
    if stages > 0 {
        let last = (stages - 1) as nat;
        lemma_params_table(n, last);
        lemma_stage_params(n, last, stages);
        assert forall|stage: nat, step: nat| step <= stage < stages implies #[trigger] params_table(
            n,
            stages,
        )[iteration_index(stage, step)] == SortingParams::step_params(n, stage, step) by {
            if stage < last {
                lemma_triangle_grows(stage + 1, last);
            }
        }
    }
}

/// The array after the steps that the records of `table` describe, in order.
pub open spec fn apply_table(s: Seq<SpatialLookupEntry>, table: Seq<SortingParams>) -> Seq<
    SpatialLookupEntry,
>
    decreases table.len(),
{
    if table.len() == 0 {
        s
    } else {
        table.last().apply(apply_table(s, table.drop_last()))
    }
}

/// The steps of two tables, one behind the other, are the steps of the first
/// and then the steps of the second.
proof fn lemma_apply_concat(
    s: Seq<SpatialLookupEntry>,
    a: Seq<SortingParams>,
    b: Seq<SortingParams>,
)
    ensures
        apply_table(s, a + b) == apply_table(apply_table(s, a), b),
    decreases b.len(),
{
    if b.len() == 0 {
        assert(a + b =~= a);
    } else {
        lemma_apply_concat(s, a, b.drop_last());
        assert((a + b).drop_last() =~= a + b.drop_last());
        assert((a + b).last() == b.last());
    }
}

/// The records of one stage describe the steps of that stage.
proof fn lemma_stage_params_run_stage(
    s: Seq<SpatialLookupEntry>,
    n: u32,
    stage: nat,
    steps: nat,
)
    requires
        steps <= stage + 1,
        stage <= 30,
    ensures
        apply_table(s, stage_params(n, stage, steps)) == run_stage(s, stage, steps),
    decreases steps,
{
    if steps > 0 {
        let done = (steps - 1) as nat;
        lemma_stage_params_run_stage(s, n, stage, done);
        let e = (stage - done) as nat;
        vstd::arithmetic::power2::lemma2_to64();
        if e < 30 {
            vstd::arithmetic::power2::lemma_pow2_strictly_increases(e, 30);
        }
        assert(stage_params(n, stage, steps).drop_last() =~= stage_params(n, stage, done));
    }
}

/// The records of the table describe the steps of the network, in order: a
/// sorter that runs one dispatch per record runs the network.
pub proof fn lemma_table_runs_network(s: Seq<SpatialLookupEntry>, n: u32, stages: nat)
    requires
        stages <= 31,
    ensures
        apply_table(s, params_table(n, stages)) == network_result(s, stages),
    decreases stages,
{
    if stages > 0 {
        let last = (stages - 1) as nat;
        lemma_table_runs_network(s, n, last);
        lemma_apply_concat(s, params_table(n, last), stage_params(n, last, stages));
        lemma_stage_params_run_stage(apply_table(s, params_table(n, last)), n, last, stages);
    }
}

/// The number of steps of the network over the padded lookup array.
pub fn total_sort_iterations(particle_count: u32) -> (total: u32)
    requires
        particle_count <= MAX_PARTICLES,
    ensures
        total == triangle(stage_count(particle_count as nat)),
        total <= 496,
{
    let stages: u32 = sort_stages(particle_count);
    let mut total: u32 = 0;
    let mut stage: u32 = 0;
    while stage < stages
        invariant
            stage <= stages <= 31,
            total == triangle(stage as nat),
            2 * total == stage * (stage + 1),
        decreases stages - stage,
    {
        proof {
            lemma_triangle_closed_form((stage + 1) as nat);
            assert(stage * (stage + 1) <= 31 * 32) by (nonlinear_arith)
                requires
                    stage <= 31,
            ;
        }
        total = total + stage + 1;
        stage = stage + 1;
    }
    proof {
        assert(stage * (stage + 1) <= 31 * 32) by (nonlinear_arith)
            requires
                stage <= 31,
        ;
    }
    total
}

/// The table of step parameters for `particle_count` particles.
pub fn sorting_params_table(particle_count: u32) -> (table: Vec<SortingParams>)
    requires
        particle_count <= MAX_PARTICLES,
    ensures
        table@ == params_table(
            padded_len(particle_count as nat) as u32,
            stage_count(particle_count as nat),
        ),
{
    let n: u32 = padded_length(particle_count);
    let stages: u32 = sort_stages(particle_count);
    let mut table: Vec<SortingParams> = Vec::new();
    let mut stage: u32 = 0;
    while stage < stages
        invariant
            stage <= stages <= 31,
            table@ == params_table(n, stage as nat),
        decreases stages - stage,
    {
        let ghost head = table@;
        let mut step: u32 = 0;
        while step <= stage
            invariant
                stage < stages <= 31,
                step <= stage + 1,
                head == params_table(n, stage as nat),
                table@ == head + stage_params(n, stage as nat, step as nat),
            decreases stage + 1 - step,
        {
            table.push(SortingParams::for_step(n, stage, step));
            assert(table@ =~= head + stage_params(n, stage as nat, (step + 1) as nat));
            step = step + 1;
        }
        stage = stage + 1;
    }
    table
}

/// A slot keeps its record when bytes are added behind it.
proof fn lemma_slot_kept(a: Seq<u8>, b: Seq<u8>, it: int, p: SortingParams)
    requires
        slot_holds(a, it, p),
        a.len() <= b.len(),
        forall|q: int| 0 <= q < a.len() ==> a[q] == b[q],
    ensures
        slot_holds(b, it, p),
{
    assert(b.subrange(256 * it, 256 * it + 16) =~= a.subrange(256 * it, 256 * it + 16));
}

/// `bytemuck::bytes_of` on the four words of a record: the bytes that the
/// words occupy in the host's memory, which holds each word lowest byte first
/// or each word highest byte first.
#[verifier::external_body]
fn params_bytes(p: &SortingParams) -> (bytes: Vec<u8>)
    ensures
        host_image(bytes@, record_words(*p)),
{
    bytemuck::bytes_of(&[p.n, p.group_width, p.group_height, p.step_index]).to_vec()
}

/// The bytes of the table of step parameters: record `it` at offset
/// `256 * it`, the rest zero. They never outgrow the buffer of the table.
pub fn sorting_params_bytes(particle_count: u32) -> (data: Vec<u8>)
    requires
        particle_count <= MAX_PARTICLES,
    ensures
        ({
            let table = params_table(
                padded_len(particle_count as nat) as u32,
                stage_count(particle_count as nat),
            );
            &&& data@.len() == 256 * table.len()
            &&& forall|it: int| 0 <= it < table.len() ==> slot_holds(data@, it, #[trigger] table[it])
        }),
        data@.len() <= crate::buffers::sizes_for(particle_count as nat).sorting_params,
{
    proof {
        let stages = stage_count(particle_count as nat);
        lemma_params_table(padded_len(particle_count as nat) as u32, stages);
        crate::power::lemma_stage_count_bound(particle_count as nat);
        lemma_triangle_closed_form(stages);
        assert(stages * (stages + 1) <= 31 * 32) by (nonlinear_arith)
            requires
                stages <= 31,
        ;
    }
    let table = sorting_params_table(particle_count);
    let total: usize = table.len();
    let mut data: Vec<u8> = Vec::new();
    let mut it: usize = 0;
    while it < total
        invariant
            it <= total,
            total == table@.len(),
            data@.len() == 256 * it,
            forall|q: int| 0 <= q < it ==> slot_holds(data@, q, #[trigger] table@[q]),
        decreases total - it,
    {
        let ghost prev = data@;
        let record = params_bytes(&table[it]);
        proof {
            lemma_words_len(record_words(table@[it as int]));
        }
        let mut j: usize = 0;
        while j < SORTING_PARAMS_SIZE
            invariant
                j <= 16,
                record@.len() == 16,
                data@.len() == prev.len() + j,
                forall|q: int| 0 <= q < prev.len() ==> data@[q] == prev[q],
                forall|q: int|
                    prev.len() <= q < prev.len() + j ==> #[trigger] data@[q] == record@[q
                        - prev.len()],
            decreases 16 - j,
        {
            data.push(record[j]);
            j = j + 1;
        }
        while j < UNIFORM_ALIGNMENT
            invariant
                16 <= j <= 256,
                record@.len() == 16,
                data@.len() == prev.len() + j,
                forall|q: int| 0 <= q < prev.len() ==> data@[q] == prev[q],
                forall|q: int|
                    prev.len() <= q < prev.len() + 16 ==> #[trigger] data@[q] == record@[q
                        - prev.len()],
                forall|q: int| prev.len() + 16 <= q < prev.len() + j ==> data@[q] == 0,
            decreases 256 - j,
        {
            data.push(0u8);
            j = j + 1;
        }
        proof {
            assert(data@.subrange(256 * it, 256 * it + 16) =~= record@);
            assert forall|q: int| 0 <= q < it + 1 implies slot_holds(
                data@,
                q,
                #[trigger] table@[q],
            ) by {
                if q < it {
                    lemma_slot_kept(prev, data@, q, table@[q]);
                }
            }
        }
        it = it + 1;
    }
    data
}

} // verus!
