//! A model of the ring: its cells, and the steps that change them.
//!
//! The queue changes a cell only by compare-and-swap: a fill (`0 -> w`) by a
//! producer or a take (`w -> 0`) by a consumer. The model takes the cells as a
//! sequence and each successful compare-and-swap as one atomic step, so that an
//! interleaving of callers is a sequence of steps. The laws below hold of every
//! such sequence. The queue's own contracts record, for each call, the
//! compare-and-swaps it issued (`CasCall`); `lemma_cas_is_step` says which
//! step of the model a successful one is. The atomics' contents themselves
//! are not visible to the verifier.

use vstd::multiset::Multiset;
use vstd::prelude::*;

verus! {

/// One successful compare-and-swap on a cell.
pub ghost enum Step {
    /// A producer turned an empty cell into one holding `word`.
    Fill { cell: nat, word: usize },
    /// A consumer took `word` out of a cell and left it empty.
    Take { cell: nat, word: usize },
}

/// One compare-and-swap issued on a cell: the cell's index, the value it
/// expected, the value it would write, and whether it succeeded.
pub ghost struct CasCall {
    pub cell: nat,
    pub current: usize,
    pub new: usize,
    pub ok: bool,
}

/// The step that a successful compare-and-swap `c` makes: a fill when it
/// expected an empty cell, a take otherwise.
pub open spec fn step_of(c: CasCall) -> Step {
    if c.current == 0 {
        Step::Fill { cell: c.cell, word: c.new }
    } else {
        Step::Take { cell: c.cell, word: c.current }
    }
}

/// The cells, with the words enqueued and dequeued so far.
pub ghost struct Ring {
    pub cells: Seq<usize>,
    pub pushed: Multiset<usize>,
    pub popped: Multiset<usize>,
}

/// A fresh ring of `n` cells: all empty, nothing enqueued or dequeued.
pub open spec fn empty_ring(n: nat) -> Ring {
    Ring { cells: Seq::new(n, |i: int| 0usize), pushed: Multiset::empty(), popped: Multiset::empty() }
}

/// The compare-and-swap of `s` can succeed on `r`.
pub open spec fn enabled(r: Ring, s: Step) -> bool {
    match s {
        Step::Fill { cell, word } => cell < r.cells.len() && r.cells[cell as int] == 0 && word != 0,
        Step::Take { cell, word } => cell < r.cells.len() && r.cells[cell as int] == word && word != 0,
    }
}

/// The ring after the successful step `s`.
pub open spec fn apply(r: Ring, s: Step) -> Ring {
    match s {
        Step::Fill { cell, word } => Ring {
            cells: r.cells.update(cell as int, word),
            pushed: r.pushed.insert(word),
            popped: r.popped,
        },
        Step::Take { cell, word } => Ring {
            cells: r.cells.update(cell as int, 0usize),
            pushed: r.pushed,
            popped: r.popped.insert(word),
        },
    }
}

/// The ring after `steps` in order, or `None` if one of them cannot succeed.
pub open spec fn run(r: Ring, steps: Seq<Step>) -> Option<Ring>
    decreases steps.len(),
{
    if steps.len() == 0 {
        Some(r)
    } else {
        match run(r, steps.drop_last()) {
            Some(q) => if enabled(q, steps.last()) {
                Some(apply(q, steps.last()))
            } else {
                None
            },
            None => None,
        }
    }
}

/// The words that the cells hold: one for each occupied cell.
pub open spec fn held(cells: Seq<usize>) -> Multiset<usize>
    decreases cells.len(),
{
    if cells.len() == 0 {
        Multiset::empty()
    } else if cells.last() == 0 {
        held(cells.drop_last())
    } else {
        held(cells.drop_last()).insert(cells.last())
    }
}

/// What the queue keeps true: nothing is dequeued that was not enqueued, and
/// the cells hold exactly the words that are enqueued and not yet dequeued.
pub open spec fn ring_inv(r: Ring) -> bool {
    r.popped.subset_of(r.pushed) && held(r.cells) =~= r.pushed.sub(r.popped)
}

/// Takes, in index order, of the occupied cells among the first `k`.
pub open spec fn drain_steps(cells: Seq<usize>, k: nat) -> Seq<Step>
    decreases k,
{
    if k == 0 {
        Seq::empty()
    } else {
        let before = drain_steps(cells, (k - 1) as nat);
        if k - 1 < cells.len() && cells[k - 1] != 0 {
            before.push(Step::Take { cell: (k - 1) as nat, word: cells[k - 1] })
        } else {
            before
        }
    }
}

proof fn lemma_held_empty(cells: Seq<usize>)
    requires
        forall|i: int| 0 <= i < cells.len() ==> cells[i] == 0,
    ensures
        held(cells) =~= Multiset::<usize>::empty(),
    decreases cells.len(),
{
    if cells.len() > 0 {
        lemma_held_empty(cells.drop_last());
    }
}

proof fn lemma_held_len(cells: Seq<usize>)
    ensures
        held(cells).len() <= cells.len(),
    decreases cells.len(),
{
    if cells.len() > 0 {
        lemma_held_len(cells.drop_last());
    }
}

proof fn lemma_held_contains(cells: Seq<usize>, i: int)
    requires
        0 <= i < cells.len(),
        cells[i] != 0,
    ensures
        held(cells).count(cells[i]) > 0,
    decreases cells.len(),
{
    if i < cells.len() - 1 {
        lemma_held_contains(cells.drop_last(), i);
    }
}

proof fn lemma_held_update(cells: Seq<usize>, i: int, w: usize)
    requires
        0 <= i < cells.len(),
    ensures
        held(cells.update(i, w)) =~= {
            let without = if cells[i] == 0 { held(cells) } else { held(cells).remove(cells[i]) };
            if w == 0 { without } else { without.insert(w) }
        },
    decreases cells.len(),
{
    let u = cells.update(i, w);
    if i == cells.len() - 1 {
        assert(u.drop_last() =~= cells.drop_last());
    } else {
        lemma_held_update(cells.drop_last(), i, w);
        assert(u.drop_last() =~= cells.drop_last().update(i, w));
        if cells[i] != 0 {
            lemma_held_contains(cells.drop_last(), i);
        }
    }
}

/// A fresh ring satisfies the invariant.
pub proof fn lemma_empty_ring_inv(n: nat)
    ensures
        ring_inv(empty_ring(n)),
{
    lemma_held_empty(empty_ring(n).cells);
}

/// Each successful step keeps the invariant.
pub proof fn lemma_step_inv(r: Ring, s: Step)
    requires
        ring_inv(r),
        enabled(r, s),
    ensures
        ring_inv(apply(r, s)),
{
    let q = apply(r, s);
    match s {
        Step::Fill { cell, word } => {
            lemma_held_update(r.cells, cell as int, word);
            assert(held(q.cells) =~= q.pushed.sub(q.popped));
        },
        Step::Take { cell, word } => {
            lemma_held_update(r.cells, cell as int, 0usize);
            lemma_held_contains(r.cells, cell as int);
            assert(held(q.cells) =~= q.pushed.sub(q.popped));
        },
    }
}

/// A compare-and-swap that succeeds on ring `r` found its cell holding the
/// value it expected. When it either fills an empty cell with a word or empties
/// a cell, it is the step `step_of(c)`, which can succeed on `r` and leaves the
/// cell holding what `c` wrote.
pub proof fn lemma_cas_is_step(r: Ring, c: CasCall)
    requires
        c.cell < r.cells.len(),
        r.cells[c.cell as int] == c.current,
        (c.current == 0) != (c.new == 0),
    ensures
        enabled(r, step_of(c)),
        apply(r, step_of(c)).cells == r.cells.update(c.cell as int, c.new),
{
}

/// Any sequence of successful steps keeps the invariant.
pub proof fn lemma_run_inv(r: Ring, steps: Seq<Step>)
    requires
        ring_inv(r),
        run(r, steps) is Some,
    ensures
        ring_inv(run(r, steps).unwrap()),
    decreases steps.len(),
{
    if steps.len() > 0 {
        lemma_run_inv(r, steps.drop_last());
        lemma_step_inv(run(r, steps.drop_last()).unwrap(), steps.last());
    }
}

proof fn lemma_run_len(r: Ring, steps: Seq<Step>)
    requires
        run(r, steps) is Some,
    ensures
        run(r, steps).unwrap().cells.len() == r.cells.len(),
    decreases steps.len(),
{
    if steps.len() > 0 {
        lemma_run_len(r, steps.drop_last());
    }
}

/// No duplication: from a fresh ring of `n` cells, whatever steps succeed, every
/// word dequeued was enqueued at least as many times; once every cell is empty
/// again, the words dequeued are exactly the words enqueued.
pub proof fn lemma_no_duplication(n: nat, steps: Seq<Step>)
    requires
        run(empty_ring(n), steps) is Some,
    ensures
        ({
            let q = run(empty_ring(n), steps).unwrap();
            &&& q.popped.subset_of(q.pushed)
            &&& (forall|i: int| 0 <= i < q.cells.len() ==> q.cells[i] == 0) ==> q.popped =~= q.pushed
        }),
{
    lemma_empty_ring_inv(n);
    lemma_run_inv(empty_ring(n), steps);
    let q = run(empty_ring(n), steps).unwrap();
    if forall|i: int| 0 <= i < q.cells.len() ==> q.cells[i] == 0 {
        lemma_held_empty(q.cells);
        assert forall|w: usize| q.popped.count(w) == q.pushed.count(w) by {
            assert(q.pushed.sub(q.popped).count(w) == 0);
        }
    }
}

/// No fabrication: from a fresh ring, every word dequeued was enqueued.
pub proof fn lemma_no_fabrication(n: nat, steps: Seq<Step>, w: usize)
    requires
        run(empty_ring(n), steps) is Some,
        run(empty_ring(n), steps).unwrap().popped.count(w) > 0,
    ensures
        run(empty_ring(n), steps).unwrap().pushed.count(w) > 0,
{
    lemma_empty_ring_inv(n);
    lemma_run_inv(empty_ring(n), steps);
}

/// Each cell is empty or holds a word that is enqueued and not yet dequeued.
pub proof fn lemma_cell_holds_queued_word(n: nat, steps: Seq<Step>, i: int)
    requires
        run(empty_ring(n), steps) is Some,
        0 <= i < n,
    ensures
        ({
            let q = run(empty_ring(n), steps).unwrap();
            q.cells[i] == 0 || q.pushed.sub(q.popped).count(q.cells[i]) > 0
        }),
{
    lemma_empty_ring_inv(n);
    lemma_run_inv(empty_ring(n), steps);
    lemma_run_len(empty_ring(n), steps);
    let q = run(empty_ring(n), steps).unwrap();
    if q.cells[i] != 0 {
        lemma_held_contains(q.cells, i);
    }
}

/// Bounded occupancy: the ring never holds more than `n` words, one per
/// occupied cell.
pub proof fn lemma_bounded_occupancy(n: nat, steps: Seq<Step>)
    requires
        run(empty_ring(n), steps) is Some,
    ensures
        ({
            let q = run(empty_ring(n), steps).unwrap();
            &&& q.cells.len() == n
            &&& held(q.cells).len() <= n
            &&& q.pushed.len() - q.popped.len() <= n
        }),
{
    lemma_empty_ring_inv(n);
    lemma_run_inv(empty_ring(n), steps);
    lemma_run_len(empty_ring(n), steps);
    let q = run(empty_ring(n), steps).unwrap();
    lemma_held_len(q.cells);
    lemma_sub_len(q.pushed, q.popped);
}

proof fn lemma_sub_len(a: Multiset<usize>, b: Multiset<usize>)
    requires
        b.subset_of(a),
    ensures
        a.sub(b).len() == a.len() - b.len(),
{
    assert(a =~= a.sub(b).add(b));
}

proof fn lemma_drain_prefix(r: Ring, k: nat)
    requires
        k <= r.cells.len(),
    ensures
        run(r, drain_steps(r.cells, k)) matches Some(q) && q.pushed == r.pushed
            && q.cells.len() == r.cells.len()
            && forall|i: int| 0 <= i < r.cells.len() ==> q.cells[i] == (if i < k { 0 } else { r.cells[i] }),
    decreases k,
{
    if k > 0 {
        lemma_drain_prefix(r, (k - 1) as nat);
        let before = drain_steps(r.cells, (k - 1) as nat);
        let steps = drain_steps(r.cells, k);
        if r.cells[k - 1] != 0 {
            assert(steps.drop_last() =~= before);
        }
    }
}

proof fn lemma_drain_nothing(cells: Seq<usize>, k: nat)
    requires
        forall|i: int| 0 <= i < cells.len() ==> cells[i] == 0,
    ensures
        drain_steps(cells, k) =~= Seq::<Step>::empty(),
    decreases k,
{
    if k > 0 {
        lemma_drain_nothing(cells, (k - 1) as nat);
    }
}

/// Draining takes every word still held, leaves every cell empty and the
/// words dequeued equal to the words enqueued; draining again takes nothing.
pub proof fn lemma_drain(r: Ring)
    requires
        ring_inv(r),
    ensures
        run(r, drain_steps(r.cells, r.cells.len())) matches Some(q)
            && q.cells.len() == r.cells.len()
            && (forall|i: int| 0 <= i < q.cells.len() ==> q.cells[i] == 0)
            && q.pushed == r.pushed
            && q.popped =~= q.pushed
            && drain_steps(q.cells, q.cells.len()) =~= Seq::<Step>::empty(),
{
    let n = r.cells.len();
    lemma_drain_prefix(r, n);
    lemma_run_inv(r, drain_steps(r.cells, n));
    let q = run(r, drain_steps(r.cells, n)).unwrap();
    lemma_held_empty(q.cells);
    assert forall|w: usize| q.popped.count(w) == q.pushed.count(w) by {
        assert(q.pushed.sub(q.popped).count(w) == 0);
    }
    lemma_drain_nothing(q.cells, n);
}

} // verus!
