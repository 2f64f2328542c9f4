//! The ring of atomic cells and the per-caller contexts that probe it.

use core::ops::Deref;
use core::sync::atomic::{AtomicUsize, Ordering};

use cache_padded::CachePadded;
use vstd::prelude::*;

use crate::ring::{step_of, CasCall, Step};
use crate::word::NonZeroWord;

verus! {

/// How many times one call probes a cell before it gives up on that cell.
pub const MAX_TRY: usize = 128;

/// A bounded ring of non-zero words, shared by any number of producers and
/// consumers. Each cell holds zero (empty) or a payload word; cells change only
/// by compare-and-swap. `head` and `tail` count the slots claimed so far by
/// producers and consumers, and pick, modulo the capacity, the next cell to
/// claim.
pub struct WfQueue {
    head: CachePadded<AtomicUsize>,
    tail: CachePadded<AtomicUsize>,
    nptr: Vec<CachePadded<AtomicUsize>>,
}

/// A remembered slot index, stored as `i + 1` so that zero means "no hint".
pub struct Index(usize);

impl View for Index {
    type V = Option<nat>;

    closed spec fn view(&self) -> Option<nat> {
        if self.0 == 0 {
            None
        } else {
            Some((self.0 - 1) as nat)
        }
    }
}

impl Index {
    /// An index that holds no hint.
    pub fn none() -> (r: Index)
        ensures
            r@ == None::<nat>,
    {
        Index(0)
    }

    /// The remembered slot, if any.
    pub fn load(&self) -> (r: Option<usize>)
        ensures
            match r {
                Some(i) => self@ == Some(i as nat),
                None => self@ is None,
            },
    {
        self.0.checked_sub(1)
    }

    /// Forgets the remembered slot.
    pub fn clean(&mut self)
        ensures
            final(self)@ == None::<nat>,
    {
        self.0 = 0;
    }

    /// Remembers slot `val`.
    pub fn store(&mut self, val: usize)
        requires
            val < usize::MAX,
        ensures
            final(self)@ == Some(val as nat),
    {
        self.0 = val + 1;
    }
}

/// A producer's private context for one queue. Besides the hint, it keeps a
/// ghost record of the last call made through it: the compare-and-swaps that
/// the call issued in each phase, and the counter value it claimed, if any.
pub struct EnqueueCtx {
    index: Index,
    hint_calls: Ghost<Seq<CasCall>>,
    claim_calls: Ghost<Seq<CasCall>>,
    claimed: Ghost<Option<nat>>,
}

impl EnqueueCtx {
    /// A context with no hint and an empty record.
    pub fn new() -> (r: EnqueueCtx)
        ensures
            r.hint() == None::<nat>,
            r.hint_probes().len() == 0,
            r.claim_probes().len() == 0,
            r.claimed() == None::<nat>,
    {
        EnqueueCtx {
            index: Index::none(),
            hint_calls: Ghost(Seq::empty()),
            claim_calls: Ghost(Seq::empty()),
            claimed: Ghost(None),
        }
    }

    /// The slot that the next call will try first, if any.
    pub closed spec fn hint(&self) -> Option<nat> {
        self.index@
    }

    /// The compare-and-swaps that the last call issued on its hinted cell,
    /// as recorded where it issued them.
    pub closed spec fn hint_probes(&self) -> Seq<CasCall> {
        self.hint_calls@
    }

    /// The compare-and-swaps that the last call issued on the cell it claimed
    /// from the head counter, as recorded where it issued them.
    pub closed spec fn claim_probes(&self) -> Seq<CasCall> {
        self.claim_calls@
    }

    /// The value that the last call's one bump of the head counter
    /// returned, or `None` when it made no bump.
    pub closed spec fn claimed(&self) -> Option<nat> {
        self.claimed@
    }

    /// Whether the last call succeeded on its hinted cell.
    pub open spec fn hint_hit(&self) -> bool {
        succeeded(self.hint_probes())
    }

    /// The compare-and-swap by which the last call succeeded, if it did.
    pub open spec fn last_call(&self) -> Option<CasCall> {
        if self.hint_hit() {
            Some(self.hint_probes().last())
        } else if succeeded(self.claim_probes()) {
            Some(self.claim_probes().last())
        } else {
            None
        }
    }

    /// The step of the ring that the last call made, if any.
    pub open spec fn last_step(&self) -> Option<Step> {
        match self.last_call() {
            Some(c) => Some(step_of(c)),
            None => None,
        }
    }

    /// How many compare-and-swaps the last call issued.
    pub open spec fn attempts(&self) -> nat {
        self.hint_probes().len() + self.claim_probes().len()
    }
}

/// A consumer's private context for one queue. Besides the hint, it keeps a
/// ghost record of the last call made through it: the compare-and-swaps that
/// the call issued in each phase, and the counter value it claimed, if any.
pub struct DequeueCtx {
    index: Index,
    hint_calls: Ghost<Seq<CasCall>>,
    claim_calls: Ghost<Seq<CasCall>>,
    claimed: Ghost<Option<nat>>,
}

impl DequeueCtx {
    /// A context with no hint and an empty record.
    pub fn new() -> (r: DequeueCtx)
        ensures
            r.hint() == None::<nat>,
            r.hint_probes().len() == 0,
            r.claim_probes().len() == 0,
            r.claimed() == None::<nat>,
    {
        DequeueCtx {
            index: Index::none(),
            hint_calls: Ghost(Seq::empty()),
            claim_calls: Ghost(Seq::empty()),
            claimed: Ghost(None),
        }
    }

    /// The slot that the next call will try first, if any.
    pub closed spec fn hint(&self) -> Option<nat> {
        self.index@
    }

    /// The compare-and-swaps that the last call issued on its hinted cell,
    /// as recorded where it issued them.
    pub closed spec fn hint_probes(&self) -> Seq<CasCall> {
        self.hint_calls@
    }

    /// The compare-and-swaps that the last call issued on the cell it claimed
    /// from the tail counter, as recorded where it issued them.
    pub closed spec fn claim_probes(&self) -> Seq<CasCall> {
        self.claim_calls@
    }

    /// The value that the last call's one bump of the tail counter
    /// returned, or `None` when it made no bump.
    pub closed spec fn claimed(&self) -> Option<nat> {
        self.claimed@
    }

    /// Whether the last call succeeded on its hinted cell.
    pub open spec fn hint_hit(&self) -> bool {
        succeeded(self.hint_probes())
    }

    /// The compare-and-swap by which the last call succeeded, if it did.
    pub open spec fn last_call(&self) -> Option<CasCall> {
        if self.hint_hit() {
            Some(self.hint_probes().last())
        } else if succeeded(self.claim_probes()) {
            Some(self.claim_probes().last())
        } else {
            None
        }
    }

    /// The step of the ring that the last call made, if any.
    pub open spec fn last_step(&self) -> Option<Step> {
        match self.last_call() {
            Some(c) => Some(step_of(c)),
            None => None,
        }
    }

    /// How many compare-and-swaps the last call issued.
    pub open spec fn attempts(&self) -> nat {
        self.hint_probes().len() + self.claim_probes().len()
    }
}

/// The last of `calls` succeeded.
pub open spec fn succeeded(calls: Seq<CasCall>) -> bool {
    calls.len() > 0 && calls.last().ok
}

/// `calls` are a producer's probes of `cell`: each expected the cell empty and
/// would write `word`, and none but the last succeeded.
pub open spec fn fill_probes(calls: Seq<CasCall>, cell: nat, word: usize) -> bool {
    forall|i: int|
        0 <= i < calls.len() ==> calls[i].cell == cell && calls[i].current == 0 && calls[i].new == word
            && (calls[i].ok ==> i == calls.len() - 1)
}

/// `calls` are a consumer's probes of `cell`: each expected the cell to hold a
/// word and would write zero, and none but the last succeeded.
pub open spec fn take_probes(calls: Seq<CasCall>, cell: nat) -> bool {
    forall|i: int|
        0 <= i < calls.len() ==> calls[i].cell == cell && calls[i].current != 0 && calls[i].new == 0
            && (calls[i].ok ==> i == calls.len() - 1)
}

/// The hint names a cell of a ring of `cap` cells.
pub open spec fn hint_in_range(hint: Option<nat>, cap: nat) -> bool {
    hint matches Some(h) && h < cap
}

/// The hint after a call: cleared when the hinted cell served it, kept when the
/// claimed cell served it, and the claimed cell when neither did.
pub open spec fn hint_after(old: Option<nat>, hint_hit: bool, claimed: Option<nat>, ok: bool, cap: nat) -> Option<nat> {
    if hint_hit {
        None
    } else if ok {
        old
    } else {
        Some(claimed.unwrap() % cap)
    }
}

/// The hint to keep after a call, from the old hint, whether the hinted cell
/// served the call, the counter value claimed, and whether the call succeeded.
pub fn next_hint(old: Option<usize>, hint_hit: bool, claimed: usize, ok: bool, cap: usize) -> (r: Option<usize>)
    requires
        cap > 0,
    ensures
        r == if hint_hit { None } else if ok { old } else { Some((claimed % cap) as usize) },
{
    if hint_hit {
        None
    } else if ok {
        old
    } else {
        Some(claimed % cap)
    }
}

/// What `WfQueue::len` reports for the counter readings `head` and `tail`:
/// their difference, or zero when the consumers' counter reads ahead.
pub open spec fn advisory_len(head: usize, tail: usize) -> nat {
    if head >= tail { (head - tail) as nat } else { 0 }
}

/// `advisory_len(head, tail)`, computed.
pub fn len_of(head: usize, tail: usize) -> (r: usize)
    ensures
        r == advisory_len(head, tail),
{
    head.saturating_sub(tail)
}

/// Whether `len` reads zero for the counter readings `head` and `tail`.
pub fn is_empty_of(head: usize, tail: usize) -> (r: bool)
    ensures
        r == (advisory_len(head, tail) == 0),
{
    len_of(head, tail) == 0
}

/// Whether `len` reads `cap` for the counter readings `head` and `tail`.
pub fn is_full_of(head: usize, tail: usize, cap: usize) -> (r: bool)
    ensures
        r == (advisory_len(head, tail) == cap),
{
    len_of(head, tail) == cap
}

impl WfQueue {
    #[verifier::type_invariant]
    spec fn has_cells(&self) -> bool {
        self.nptr@.len() > 0
    }

    /// The number of cells.
    pub closed spec fn cap(&self) -> nat {
        self.nptr@.len()
    }

    /// A queue of `cap` empty cells.
    pub fn new(cap: usize) -> (r: WfQueue)
        requires
            cap > 0,
        ensures
            r.cap() == cap,
    {
        let mut nptr: Vec<CachePadded<AtomicUsize>> = Vec::with_capacity(cap);
        let mut i: usize = 0;
        while i < cap
            invariant
                i <= cap,
                nptr@.len() == i,
            decreases cap - i,
        {
            nptr.push(CachePadded::new(AtomicUsize::new(0)));
            i = i + 1;
        }
        WfQueue {
            head: CachePadded::new(AtomicUsize::new(0)),
            tail: CachePadded::new(AtomicUsize::new(0)),
            nptr,
        }
    }

    /// Claimed producer slots minus claimed consumer slots, or zero if fewer
    /// were claimed by producers. Read without synchronization: advisory only,
    /// and it may exceed the capacity for a while.
    pub fn len(&self) -> (r: usize) {
        let head = self.head.deref().load(Ordering::Relaxed);
        let tail = self.tail.deref().load(Ordering::Relaxed);
        len_of(head, tail)
    }

    /// The number of cells.
    pub fn capacity(&self) -> (r: usize)
        ensures
            r == self.cap(),
    {
        self.nptr.len()
    }

    /// Whether `len` reads zero: advisory only.
    pub fn is_empty(&self) -> (r: bool) {
        let head = self.head.deref().load(Ordering::Relaxed);
        let tail = self.tail.deref().load(Ordering::Relaxed);
        is_empty_of(head, tail)
    }

    /// Whether `len` reads the capacity: advisory only.
    pub fn is_full(&self) -> (r: bool) {
        let head = self.head.deref().load(Ordering::Relaxed);
        let tail = self.tail.deref().load(Ordering::Relaxed);
        is_full_of(head, tail, self.nptr.len())
    }

    /// Tries to put `val` into an empty cell: first the context's hinted cell,
    /// if it names one of this queue, then the cell named by one bump of the
    /// head counter, with up to `MAX_TRY` probes each. The hint is cleared if
    /// the hinted cell took the word, kept if the claimed one did, and set to
    /// the claimed cell when neither did: then the queue is busy and the word
    /// is not consumed.
    pub fn try_enqueue(&self, ctx: &mut EnqueueCtx, val: NonZeroWord) -> (r: bool)
        ensures
            hint_in_range(old(ctx).hint(), self.cap()) ==> fill_probes(
                final(ctx).hint_probes(),
                old(ctx).hint().unwrap(),
                val@,
            ),
            !hint_in_range(old(ctx).hint(), self.cap()) ==> final(ctx).hint_probes().len() == 0,
            final(ctx).hint_probes().len() <= MAX_TRY,
            final(ctx).hint_hit() <==> final(ctx).claimed() is None,
            final(ctx).claimed() is Some ==> fill_probes(
                final(ctx).claim_probes(),
                final(ctx).claimed().unwrap() % self.cap(),
                val@,
            ),
            final(ctx).claimed() is None ==> final(ctx).claim_probes().len() == 0,
            final(ctx).claim_probes().len() <= MAX_TRY,
            r == final(ctx).last_call() is Some,
            final(ctx).hint() == hint_after(
                old(ctx).hint(),
                final(ctx).hint_hit(),
                final(ctx).claimed(),
                r,
                self.cap(),
            ),
            final(ctx).attempts() <= 2 * MAX_TRY,
    {
        proof {
            use_type_invariant(self);
        }
        let word = val.get();
        let len = self.nptr.len();
        let old_hint = ctx.index.load();
        ctx.hint_calls = Ghost(Seq::empty());
        ctx.claim_calls = Ghost(Seq::empty());
        ctx.claimed = Ghost(None);
        let mut hit = false;
        if let Some(index) = old_hint {
            if index < len {
                let (ok, calls) = self.fill(index, word);
                ctx.hint_calls = calls;
                hit = ok;
            }
        }
        let mut claimed: usize = 0;
        let mut ok = hit;
        if !hit {
            claimed = self.head.deref().fetch_add(1, Ordering::Relaxed);
            ctx.claimed = Ghost(Some(claimed as nat));
            let (filled, calls) = self.fill(claimed % len, word);
            ctx.claim_calls = calls;
            ok = filled;
        }
        match next_hint(old_hint, hit, claimed, ok, len) {
            Some(i) => ctx.index.store(i),
            None => ctx.index.clean(),
        }
        ok
    }

    /// Tries to take a word out of an occupied cell: first the context's
    /// hinted cell, if it names one of this queue, then the cell named by one
    /// bump of the tail counter, with up to `MAX_TRY` probes each. The hint is
    /// cleared if the hinted cell gave the word, kept if the claimed one did,
    /// and set to the claimed cell when neither did: then the queue reads
    /// empty and `None` comes back.
    pub fn try_dequeue(&self, ctx: &mut DequeueCtx) -> (r: Option<NonZeroWord>)
        ensures
            hint_in_range(old(ctx).hint(), self.cap()) ==> take_probes(
                final(ctx).hint_probes(),
                old(ctx).hint().unwrap(),
            ),
            !hint_in_range(old(ctx).hint(), self.cap()) ==> final(ctx).hint_probes().len() == 0,
            final(ctx).hint_probes().len() <= MAX_TRY,
            final(ctx).hint_hit() <==> final(ctx).claimed() is None,
            final(ctx).claimed() is Some ==> take_probes(
                final(ctx).claim_probes(),
                final(ctx).claimed().unwrap() % self.cap(),
            ),
            final(ctx).claimed() is None ==> final(ctx).claim_probes().len() == 0,
            final(ctx).claim_probes().len() <= MAX_TRY,
            r is Some == final(ctx).last_call() is Some,
            r is Some ==> r.unwrap()@ == final(ctx).last_call().unwrap().current,
            final(ctx).hint() == hint_after(
                old(ctx).hint(),
                final(ctx).hint_hit(),
                final(ctx).claimed(),
                r is Some,
                self.cap(),
            ),
            final(ctx).attempts() <= 2 * MAX_TRY,
    {
        proof {
            use_type_invariant(self);
        }
        let len = self.nptr.len();
        let old_hint = ctx.index.load();
        ctx.hint_calls = Ghost(Seq::empty());
        ctx.claim_calls = Ghost(Seq::empty());
        ctx.claimed = Ghost(None);
        let mut got: Option<NonZeroWord> = None;
        if let Some(index) = old_hint {
            if index < len {
                let (taken, calls) = self.take(index);
                ctx.hint_calls = calls;
                got = taken;
            }
        }
        let hit = got.is_some();
        let mut claimed: usize = 0;
        if !hit {
            claimed = self.tail.deref().fetch_add(1, Ordering::Relaxed);
            ctx.claimed = Ghost(Some(claimed as nat));
            let (taken, calls) = self.take(claimed % len);
            ctx.claim_calls = calls;
            got = taken;
        }
        match next_hint(old_hint, hit, claimed, got.is_some(), len) {
            Some(i) => ctx.index.store(i),
            None => ctx.index.clean(),
        }
        got
    }

    /// Probes cell `idx` up to `MAX_TRY` times: reads it, and while it reads
    /// empty, tries to swap in `word`. Returns whether it did, with the
    /// compare-and-swaps issued.
    fn fill(&self, idx: usize, word: usize) -> (r: (bool, Ghost<Seq<CasCall>>))
        requires
            idx < self.cap(),
        ensures
            fill_probes(r.1@, idx as nat, word),
            r.0 == succeeded(r.1@),
            r.1@.len() <= MAX_TRY,
    {
        let cell = self.nptr[idx].deref();
        let mut curr = cell.load(Ordering::Acquire);
        let mut n: usize = 0;
        let ghost mut calls: Seq<CasCall> = Seq::empty();
        while n < MAX_TRY
            invariant
                n <= MAX_TRY,
                calls.len() <= n,
                fill_probes(calls, idx as nat, word),
                forall|i: int| 0 <= i < calls.len() ==> !calls[i].ok,
            decreases MAX_TRY - n,
        {
            if curr == 0 {
                let ok = cell.compare_exchange_weak(curr, word, Ordering::Release, Ordering::Relaxed).is_ok();
                proof {
                    calls = calls.push(CasCall { cell: idx as nat, current: curr, new: word, ok });
                }
                if ok {
                    return (true, Ghost(calls));
                }
            } else {
                curr = cell.load(Ordering::Acquire);
            }
            n = n + 1;
        }
        (false, Ghost(calls))
    }

    /// Probes cell `idx` up to `MAX_TRY` times: reads it, and while it reads a
    /// word, tries to swap that word out for zero. Returns the word taken, if
    /// any, with the compare-and-swaps issued.
    fn take(&self, idx: usize) -> (r: (Option<NonZeroWord>, Ghost<Seq<CasCall>>))
        requires
            idx < self.cap(),
        ensures
            take_probes(r.1@, idx as nat),
            r.0 is Some == succeeded(r.1@),
            r.0 is Some ==> r.0.unwrap()@ == r.1@.last().current,
            r.1@.len() <= MAX_TRY,
    {
        let cell = self.nptr[idx].deref();
        let mut val = cell.load(Ordering::Acquire);
        let mut n: usize = 0;
        let ghost mut calls: Seq<CasCall> = Seq::empty();
        while n < MAX_TRY
            invariant
                n <= MAX_TRY,
                calls.len() <= n,
                take_probes(calls, idx as nat),
                forall|i: int| 0 <= i < calls.len() ==> !calls[i].ok,
            decreases MAX_TRY - n,
        {
            match NonZeroWord::new(val) {
                Some(w) => {
                    let ok = cell.compare_exchange_weak(val, 0, Ordering::Release, Ordering::Relaxed).is_ok();
                    proof {
                        calls = calls.push(CasCall { cell: idx as nat, current: val, new: 0, ok });
                    }
                    if ok {
                        return (Some(w), Ghost(calls));
                    }
                },
                None => {
                    val = cell.load(Ordering::Acquire);
                },
            }
            n = n + 1;
        }
        (None, Ghost(calls))
    }
}

} // verus!
