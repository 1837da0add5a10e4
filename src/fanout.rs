//! Batched fan-out of a candidate block to the worker fleet.
use vstd::prelude::*;

verus! {

/// Most workers notified by one distribution step.
pub const BATCH_SIZE: usize = 100;

/// One distribution step: notify workers `[start, end)`, then continue at
/// `next` if there is one.
#[derive(Clone, Copy, Debug, PartialEq, Eq, Structural)]
pub struct FanoutStep {
    pub start: usize,
    pub end: usize,
    pub next: Option<usize>,
}

/// The smaller of two integers.
pub open spec fn min_nat(a: int, b: int) -> int {
    if a < b {
        a
    } else {
        b
    }
}

/// The step taken at `offset` over `n` workers.
pub open spec fn step_spec(offset: nat, n: nat) -> FanoutStep {
    let start = min_nat(offset as int, n as int);
    let end = min_nat(start + BATCH_SIZE, n as int);
    FanoutStep {
        start: start as usize,
        end: end as usize,
        next: if end < n {
            Some(end as usize)
        } else {
            None
        },
    }
}

/// Computes the step taken at `offset` over `n` workers.
pub fn fanout_step(offset: usize, n: usize) -> (r: FanoutStep)
    ensures
        r == step_spec(offset as nat, n as nat),
{
    let start = if offset < n {
        offset
    } else {
        n
    };
    let end = if n - start < BATCH_SIZE {
        n
    } else {
        start + BATCH_SIZE
    };
    FanoutStep { start, end, next: if end < n { Some(end) } else { None } }
}

/// The batches, as `[start, end)` pairs, issued when distribution starts at
/// `offset` and follows every continuation.
pub open spec fn batches_from(offset: nat, n: nat) -> Seq<(nat, nat)>
    decreases n - offset,
{
    if offset >= n {
        Seq::empty()
    } else {
        let end = min_nat(offset + BATCH_SIZE, n as int) as nat;
        seq![(offset, end)] + batches_from(end, n)
    }
}

/// Number of batches needed for `n` workers: `ceil(n / BATCH_SIZE)`.
pub open spec fn batch_count(n: nat) -> nat {
    ((n + BATCH_SIZE - 1) as nat / BATCH_SIZE as nat) as nat
}

proof fn lemma_batches_shape(j0: nat, n: nat)
    requires
        j0 * BATCH_SIZE < n + BATCH_SIZE,
    ensures
        ({
            let b = batches_from((j0 * BATCH_SIZE) as nat, n);
            &&& b.len() == batch_count(n) - j0
            &&& forall|j: int|
                0 <= j < b.len() ==> #[trigger] b[j] == (
                    ((j0 + j) * BATCH_SIZE) as nat,
                    min_nat((j0 + j + 1) * BATCH_SIZE, n as int) as nat,
                )
        }),
    decreases n + BATCH_SIZE - j0 * BATCH_SIZE,
{
    let off: nat = (j0 * BATCH_SIZE) as nat;
    let bs = BATCH_SIZE as int;
    if off >= n {
        assert(batch_count(n) == j0) by (nonlinear_arith)
            requires
                off == j0 * bs,
                off >= n,
                off < n + bs,
                bs == 100,
                batch_count(n) == (n + bs - 1) / bs,
        ;
    } else {
        let end = min_nat(off + bs, n as int) as nat;
        assert((j0 + 1) * bs == off + bs) by (nonlinear_arith)
            requires
                off == j0 * bs,
        ;
        assert(batch_count(n) >= j0 + 1) by (nonlinear_arith)
            requires
                off == j0 * bs,
                off < n,
                bs == 100,
                batch_count(n) == (n + bs - 1) / bs,
        ;
        if end < n {
            lemma_batches_shape(j0 + 1, n);
            let rest = batches_from(end, n);
            let b = batches_from(off, n);
            assert(b == seq![(off, end)] + rest);
            assert forall|j: int| 0 <= j < b.len() implies #[trigger] b[j] == (
                ((j0 + j) * BATCH_SIZE) as nat,
                min_nat((j0 + j + 1) * BATCH_SIZE, n as int) as nat,
            ) by {
                if j > 0 {
                    assert(b[j] == rest[j - 1]);
                    assert(j0 + 1 + (j - 1) == j0 + j);
                }
            }
        } else {
            assert(batches_from(end, n) == Seq::<(nat, nat)>::empty());
            assert(batch_count(n) == j0 + 1) by (nonlinear_arith)
                requires
                    off == j0 * bs,
                    off < n,
                    n <= off + bs,
                    bs == 100,
                    batch_count(n) == (n + bs - 1) / bs,
            ;
        }
    }
}

/// Whether batch `j` of `b` contains worker `i`.
pub open spec fn in_batch(b: Seq<(nat, nat)>, j: int, i: nat) -> bool {
    0 <= j < b.len() && b[j].0 <= i < b[j].1
}

/// Whether some batch of the distribution over `n` workers contains worker `i`.
pub open spec fn worker_covered(n: nat, i: nat) -> bool {
    exists|j: int| #[trigger] in_batch(batches_from(0, n), j, i)
}

/// Distribution over `n` workers, started at offset 0, issues exactly
/// `ceil(n / BATCH_SIZE)` batches, and each worker lies in exactly one of them.
pub proof fn lemma_fanout_covers_once(n: nat)
    ensures
        batches_from(0, n).len() == batch_count(n),
        forall|i: nat| i < n ==> #[trigger] worker_covered(n, i),
        forall|i: nat, j1: int, j2: int|
            #[trigger] in_batch(batches_from(0, n), j1, i) && #[trigger] in_batch(
                batches_from(0, n),
                j2,
                i,
            ) ==> j1 == j2,
{
    lemma_batches_shape(0, n);
    let b = batches_from(0, n);
    let bs = BATCH_SIZE as int;
    assert(0 * BATCH_SIZE == 0);
    assert forall|i: nat| i < n implies #[trigger] worker_covered(n, i) by {
        let j = i as int / bs;
        assert(j * bs <= i < (j + 1) * bs) by (nonlinear_arith)
            requires
                j == i as int / bs,
                bs == 100,
        ;
        assert(j < batch_count(n)) by (nonlinear_arith)
            requires
                j * bs <= i,
                i < n,
                bs == 100,
                batch_count(n) == (n + bs - 1) / bs,
        ;
        assert(b[j] == ((j * bs) as nat, min_nat((j + 1) * bs, n as int) as nat));
        assert(in_batch(b, j, i));
    }
    assert forall|i: nat, j1: int, j2: int|
        #[trigger] in_batch(b, j1, i) && #[trigger] in_batch(b, j2, i) implies j1 == j2 by {
        assert(b[j1] == ((j1 * bs) as nat, min_nat((j1 + 1) * bs, n as int) as nat));
        assert(b[j2] == ((j2 * bs) as nat, min_nat((j2 + 1) * bs, n as int) as nat));
        assert(j1 == j2) by (nonlinear_arith)
            requires
                j1 * bs <= i < (j1 + 1) * bs,
                j2 * bs <= i < (j2 + 1) * bs,
                bs == 100,
                j1 >= 0,
                j2 >= 0,
        ;
    }
}

/// The whole distribution over `n` workers, as the list of its batches.
pub fn fanout_plan(n: usize) -> (r: Vec<(usize, usize)>)
    ensures
        r@.len() == batches_from(0, n as nat).len(),
        forall|j: int|
            0 <= j < r@.len() ==> (#[trigger] r@[j]).0 as nat == batches_from(0, n as nat)[j].0
                && r@[j].1 as nat == batches_from(0, n as nat)[j].1,
{
    let mut r: Vec<(usize, usize)> = Vec::new();
    let mut offset: usize = 0;
    let mut more: bool = n > 0;
    while more
        invariant
            offset <= n,
            more ==> offset < n,
            !more ==> batches_from(offset as nat, n as nat).len() == 0,
            r@.len() + batches_from(offset as nat, n as nat).len() == batches_from(
                0,
                n as nat,
            ).len(),
            forall|j: int|
                0 <= j < r@.len() ==> (#[trigger] r@[j]).0 as nat == batches_from(0, n as nat)[j].0
                    && r@[j].1 as nat == batches_from(0, n as nat)[j].1,
            forall|j: int|
                0 <= j < batches_from(offset as nat, n as nat).len() ==> #[trigger] batches_from(
                    offset as nat,
                    n as nat,
                )[j] == batches_from(0, n as nat)[r@.len() + j],
        decreases n - offset,
    {
        let step = fanout_step(offset, n);
        let ghost rest = batches_from(step.end as nat, n as nat);
        let ghost cur = batches_from(offset as nat, n as nat);
        assert(cur == seq![(offset as nat, step.end as nat)] + rest);
        assert(cur[0] == (offset as nat, step.end as nat));
        r.push((step.start, step.end));
        assert forall|j: int| 0 <= j < rest.len() implies #[trigger] rest[j] == batches_from(
            0,
            n as nat,
        )[r@.len() + j] by {
            assert(rest[j] == cur[j + 1]);
        }
        match step.next {
            Some(next) => {
                offset = next;
            },
            None => {
                offset = n;
                more = false;
            },
        }
    }
    r
}

} // verus!
