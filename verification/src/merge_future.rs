//! Awaiting a whole batch of same-typed operations while reusing the backing
//! storage between batches.
//!
//! `FuturesMergerMemoryOwner` keeps the storage alive between iterations; one
//! `FuturesMerger` per iteration fills it with operations; the
//! `FuturesMergerAwait` it hands out scans them to completion, succeeding when
//! every operation succeeded and resolving to the first failure otherwise.

use vstd::prelude::*;

verus! {

/// The (size, alignment) footprint of a concrete operation type. The owner
/// records the footprint its storage was last used for, and refuses to hand
/// the storage to a session whose operation type is shaped differently.
#[derive(Clone, Copy, Debug, PartialEq, Eq, Structural)]
pub struct OpLayout {
    pub size: usize,
    pub align: usize,
}

/// The footprint of `T`, as a spec-level value.
pub open spec fn layout_of<T>() -> OpLayout {
    OpLayout {
        size: vstd::layout::size_of::<T>() as usize,
        align: vstd::layout::align_of::<T>() as usize,
    }
}

/// The footprint of `T`, computed at run time.
pub fn get_layout<T>() -> (r: OpLayout)
    ensures
        r == layout_of::<T>(),
{
    let size: usize = core::mem::size_of::<T>();
    let align: usize = core::mem::align_of::<T>();
    OpLayout { size, align }
}

/// Returned by a bind attempt whose operation type is shaped differently from
/// the one the storage was last used for. Carries both footprints.
#[derive(Clone, Copy, Debug, PartialEq, Eq, Structural)]
pub struct WrongLayoutError {
    pub old_layout: OpLayout,
    pub new_layout: OpLayout,
}

impl WrongLayoutError {
    pub fn new(old_layout: OpLayout, new_layout: OpLayout) -> (r: Self)
        ensures
            r == (WrongLayoutError { old_layout, new_layout }),
    {
        Self { old_layout, new_layout }
    }
}

/// Keeps the batch storage alive between iterations: the number of
/// operation slots the storage can hold, the recorded footprint of the
/// operation type it was last used for, and the buffer of pending slot
/// indices (kept so that its own allocation is reused too).
pub struct FuturesMergerMemoryOwner {
    capacity: usize,
    to_poll: Vec<usize>,
    layout: Option<OpLayout>,
}

impl FuturesMergerMemoryOwner {
    /// How many operation slots the retained storage can hold.
    pub closed spec fn capacity_spec(&self) -> usize {
        self.capacity
    }

    /// The recorded footprint of the operation type the storage was last
    /// used for, or `None` if it was never used.
    pub closed spec fn layout_spec(&self) -> Option<OpLayout> {
        self.layout
    }

    /// Between sessions the pending-index buffer is empty.
    pub closed spec fn wf(&self) -> bool {
        self.to_poll@.len() == 0
    }

    pub fn capacity(&self) -> (r: usize)
        ensures
            r == self.capacity_spec(),
    {
        self.capacity
    }

    pub fn recorded_layout(&self) -> (r: Option<OpLayout>)
        ensures
            r == self.layout_spec(),
    {
        self.layout
    }
}

impl Default for FuturesMergerMemoryOwner {
    /// An empty owner: no storage, no recorded footprint.
    fn default() -> (r: Self)
        ensures
            r.wf(),
            r.capacity_spec() == 0,
            r.layout_spec() is None,
    {
        Self { capacity: 0, to_poll: Vec::new(), layout: None }
    }
}

impl FuturesMergerMemoryOwner {
    /// Starts an iteration's batch for the operation type `Op`.
    ///
    /// Fails, leaving the owner untouched, exactly when a footprint was
    /// recorded by an earlier batch and differs from `Op`'s. On success the
    /// session starts empty, over storage with the owner's retained capacity.
    pub fn borrow<Op>(&mut self) -> (r: Result<FuturesMerger<Op>, WrongLayoutError>)
        requires
            old(self).wf(),
        ensures
            match r {
                Ok(s) => {
                    &&& old(self).layout_spec() matches Some(l) ==> l == layout_of::<Op>()
                    &&& s.wf()
                    &&& s.ops().len() == 0
                    &&& s.cap() == old(self).capacity_spec()
                    &&& final(self).wf()
                    &&& final(self).capacity_spec() == old(self).capacity_spec()
                    &&& final(self).layout_spec() == old(self).layout_spec()
                },
                Err(e) => {
                    &&& old(self).layout_spec() matches Some(l) && l != layout_of::<Op>()
                    &&& e.old_layout == old(self).layout_spec()->Some_0
                    &&& e.new_layout == layout_of::<Op>()
                    &&& *final(self) == *old(self)
                },
            },
    {
        let new_layout = get_layout::<Op>();
        if let Some(layout) = self.layout {
            if layout != new_layout {
                return Err(WrongLayoutError::new(layout, new_layout));
            }
        }

        let futures: Vec<Op> = Vec::with_capacity(self.capacity);
        let mut to_poll: Vec<usize> = Vec::new();
        core::mem::swap(&mut to_poll, &mut self.to_poll);

        proof {
            assert(to_poll@ =~= Seq::new(futures@.len(), |i: int| i as usize));
        }
        Ok(FuturesMerger { futures, to_poll, cap: self.capacity })
    }
}

/// One iteration's batch: a typed array of operations rebuilt over the
/// owner's retained storage, together with the pending-index buffer taken
/// from the owner. Give it (or the handle `run` turns it into) back to an
/// owner with `finish` when the iteration ends, whether or not it ran.
pub struct FuturesMerger<Op> {
    futures: Vec<Op>,
    to_poll: Vec<usize>,
    cap: usize,
}

impl<Op> FuturesMerger<Op> {
    /// The operations pushed so far, in push order.
    pub closed spec fn ops(&self) -> Seq<Op> {
        self.futures@
    }

    /// Slots the batch storage can hold without growing.
    pub closed spec fn cap(&self) -> usize {
        self.cap
    }

    /// Every pushed operation is pending, so the pending-index buffer reads
    /// 0, 1, ..., one entry per operation; the tracked capacity covers the
    /// operations held.
    pub closed spec fn wf(&self) -> bool {
        &&& self.to_poll@ == Seq::new(self.futures@.len(), |i: int| i as usize)
        &&& self.futures@.len() <= self.cap
    }

    /// Appends `op` to the batch and marks its slot pending. The tracked
    /// capacity never shrinks, and does not grow while the batch is within
    /// it — reusing storage from an earlier batch of the same peak size
    /// therefore never grows it.
    pub fn push(&mut self, op: Op)
        requires
            old(self).wf(),
            old(self).ops().len() < usize::MAX,
        ensures
            final(self).wf(),
            final(self).ops() == old(self).ops().push(op),
            final(self).cap() == if old(self).ops().len() + 1 > old(self).cap() {
                (old(self).ops().len() + 1) as usize
            } else {
                old(self).cap()
            },
            old(self).ops().len() < old(self).cap() ==> final(self).cap() == old(self).cap(),
    {
        let idx = self.futures.len();
        self.futures.push(op);
        self.to_poll.push(idx);
        if self.futures.len() > self.cap {
            self.cap = self.futures.len();
        }
        proof {
            assert(final(self).to_poll@ =~= Seq::new(
                final(self).futures@.len(),
                |i: int| i as usize,
            ));
        }
    }

    /// Grows the storage to hold at least `additional` more operations, so
    /// that the pushes of a batch of known size reallocate at most once.
    pub fn reserve(&mut self, additional: usize)
        requires
            old(self).wf(),
            old(self).ops().len() + additional <= usize::MAX,
        ensures
            final(self).wf(),
            final(self).ops() == old(self).ops(),
            final(self).cap() == if old(self).ops().len() + additional > old(self).cap() {
                (old(self).ops().len() + additional) as usize
            } else {
                old(self).cap()
            },
    {
        self.to_poll.reserve(additional);
        self.futures.reserve(additional);
        let wanted = self.futures.len() + additional;
        if wanted > self.cap {
            self.cap = wanted;
        }
    }

    /// Hands the batch over to the handle that drives it. The operations and
    /// the pending-index buffer move unchanged.
    pub fn run(self) -> (h: FuturesMergerAwait<Op>)
        requires
            self.wf(),
        ensures
            h.wf(),
            h.ops() == self.ops(),
            h.pending() == self.pending(),
            h.cap() == self.cap(),
    {
        proof {
            let p = self.to_poll@;
            assert forall|i: int, j: int| 0 <= i < j < p.len() implies p[i] != p[j] by {
                assert(p[i] == i as usize);
                assert(p[j] == j as usize);
            }
        }
        FuturesMergerAwait { futures: self.futures, to_poll: self.to_poll, cap: self.cap }
    }

    /// The pending slot indices: one per pushed operation, in push order.
    pub closed spec fn pending(&self) -> Seq<usize> {
        self.to_poll@
    }

    /// Returns the batch storage to an owner without running the batch:
    /// every operation still held is dropped in place, both buffers are
    /// cleared without shrinking, and the owner keeps the capacity. If the
    /// owner never recorded an operation footprint, `Op`'s is recorded now.
    pub fn finish(self, owner: &mut FuturesMergerMemoryOwner)
        ensures
            final(owner).wf(),
            final(owner).capacity_spec() == self.cap(),
            final(owner).layout_spec() == if old(owner).layout_spec() is None {
                Some(layout_of::<Op>())
            } else {
                old(owner).layout_spec()
            },
    {
        let mut s = self;
        s.futures.clear();
        s.to_poll.clear();
        give_back::<Op>(s.to_poll, s.cap, owner);
    }
}

/// One operation of a batch: a unit of asynchronous work that each poll
/// either finishes (successfully or with a failure of type `E`) or leaves
/// pending. The driving loop supplies the implementation; nothing is assumed
/// about which outcome a poll produces.
pub trait Operation<E> {
    /// Advances the operation once and reports how far it got.
    fn poll_once(&mut self) -> OpPoll<E>;
}

/// What one poll of one operation reported.
#[derive(Debug)]
pub enum OpPoll<E> {
    /// The operation finished successfully.
    Ready,
    /// The operation finished with this failure.
    Failed(E),
    /// The operation is not finished yet.
    Pending,
}

/// What one processed outcome did to the scan.
#[derive(Debug)]
pub enum ScanStep<E> {
    /// A success: its index was removed from the pending list.
    Removed,
    /// Not ready yet: its index was kept in place.
    Kept,
    /// A failure: the scan was abandoned, every remaining operation dropped.
    Aborted(E),
}

/// What a whole scan of the batch resolved to.
#[derive(Debug)]
pub enum MergePoll<E> {
    /// Every operation of the batch has succeeded.
    Done,
    /// An operation failed; this is the first failure the scan saw.
    Failed(E),
    /// At least one operation is still pending; scan again later.
    Pending,
}

/// The suspension point: repeatedly scanning the batch until every operation
/// succeeded or one failed. Give it back to an owner with `finish` when the
/// iteration ends, resolved or not.
pub struct FuturesMergerAwait<Op> {
    futures: Vec<Op>,
    to_poll: Vec<usize>,
    cap: usize,
}

impl<Op> FuturesMergerAwait<Op> {
    /// The operations of the batch, in push order.
    pub closed spec fn ops(&self) -> Seq<Op> {
        self.futures@
    }

    /// The slot indices still awaiting completion.
    pub closed spec fn pending(&self) -> Seq<usize> {
        self.to_poll@
    }

    /// Slots the batch storage can hold without growing.
    pub closed spec fn cap(&self) -> usize {
        self.cap
    }

    /// Every pending index names a live slot, and no slot is pending twice.
    pub closed spec fn wf(&self) -> bool {
        &&& forall|k: int|
            0 <= k < self.to_poll@.len() ==> (self.to_poll@[k] as int) < self.futures@.len()
        &&& self.to_poll@.no_duplicates()
    }

    /// Applies one reported outcome to the scan, exactly as the scan loop
    /// does: a success removes the pending entry at `pos` by swapping the
    /// last entry into its place; a failure abandons the whole batch,
    /// dropping every remaining operation in place; not-ready keeps
    /// everything as it was.
    pub fn step<E>(&mut self, pos: usize, outcome: OpPoll<E>) -> (r: ScanStep<E>)
        requires
            old(self).wf(),
            pos < old(self).pending().len(),
        ensures
            final(self).wf(),
            final(self).cap() == old(self).cap(),
            match outcome {
                OpPoll::Ready => {
                    &&& final(self).pending() == old(self).pending().update(
                        pos as int,
                        old(self).pending().last(),
                    ).drop_last()
                    &&& final(self).ops() == old(self).ops()
                    &&& r is Removed
                },
                OpPoll::Pending => {
                    &&& *final(self) == *old(self)
                    &&& r is Kept
                },
                OpPoll::Failed(e) => {
                    &&& final(self).pending().len() == 0
                    &&& final(self).ops().len() == 0
                    &&& r == ScanStep::Aborted(e)
                },
            },
    {
        match outcome {
            OpPoll::Ready => {
                self.to_poll.swap_remove(pos);
                proof {
                    lemma_swap_removed_keeps_wf(
                        old(self).to_poll@,
                        self.to_poll@,
                        pos as int,
                        self.futures@.len() as int,
                    );
                }
                ScanStep::Removed
            },
            OpPoll::Pending => ScanStep::Kept,
            OpPoll::Failed(e) => {
                self.to_poll.clear();
                self.futures.clear();
                ScanStep::Aborted(e)
            },
        }
    }
}

/// A mutable borrow of the slot `i` of `vec`, for advancing an operation in
/// its slot rather than moving it out.
fn vec_index_mut<T>(vec: &mut Vec<T>, i: usize) -> (element: &mut T)
    requires
        i < old(vec).len(),
    ensures
        *element == old(vec)@[i as int],
        final(vec)@ == old(vec)@.update(i as int, *final(element)),
{
    &mut vec[i]
}

impl<Op> FuturesMergerAwait<Op> {
    /// One scan of the batch: polls each still-pending operation once, in
    /// place. Indices whose operation succeeds are removed as the scan goes;
    /// the first failure abandons the batch at once, dropping every
    /// remaining operation unpolled; otherwise the scan ends and reports
    /// whether anything is still pending. A later scan resumes with exactly
    /// the indices this one left pending — what was removed stays removed.
    /// A batch with nothing pending resolves to `Done` without polling.
    pub fn poll<E>(&mut self) -> (r: MergePoll<E>) where Op: Operation<E>
        requires
            old(self).wf(),
        ensures
            final(self).wf(),
            final(self).cap() == old(self).cap(),
            old(self).pending().len() == 0 ==> r is Done,
            match r {
                MergePoll::Done => {
                    &&& final(self).pending().len() == 0
                    &&& final(self).ops().len() == 0
                },
                MergePoll::Failed(_) => {
                    &&& final(self).pending().len() == 0
                    &&& final(self).ops().len() == 0
                },
                MergePoll::Pending => {
                    &&& final(self).pending().len() > 0
                    &&& final(self).ops().len() == old(self).ops().len()
                    &&& forall|x: usize|
                        final(self).pending().to_set().contains(x)
                            ==> old(self).pending().to_set().contains(x)
                },
            },
    {
        let mut any_pending = false;
        let mut i: usize = 0;
        while i < self.to_poll.len()
            invariant
                self.wf(),
                self.cap == old(self).cap,
                i <= self.to_poll@.len(),
                self.to_poll@.len() <= old(self).to_poll@.len(),
                self.futures@.len() == old(self).futures@.len(),
                any_pending ==> i >= 1,
                !any_pending ==> i == 0,
                forall|x: usize|
                    self.to_poll@.to_set().contains(x)
                        ==> old(self).to_poll@.to_set().contains(x),
            decreases self.to_poll@.len() - i,
        {
            let ghost prev = self.to_poll@;
            let idx = self.to_poll[i];
            let outcome = vec_index_mut(&mut self.futures, idx).poll_once();
            match self.step(i, outcome) {
                ScanStep::Removed => {
                    proof {
                        lemma_swap_removed_keeps_wf(
                            prev,
                            self.to_poll@,
                            i as int,
                            self.futures@.len() as int,
                        );
                    }
                },
                ScanStep::Kept => {
                    any_pending = true;
                    i = i + 1;
                },
                ScanStep::Aborted(e) => {
                    return MergePoll::Failed(e);
                },
            }
        }

        if any_pending {
            MergePoll::Pending
        } else {
            self.to_poll.clear();
            self.futures.clear();
            MergePoll::Done
        }
    }

    /// Returns the batch storage to an owner, resolved or not: every
    /// operation still held is dropped in place, both buffers are cleared
    /// without shrinking, and the owner keeps the capacity. If the owner
    /// never recorded an operation footprint, `Op`'s is recorded now.
    /// Abandoning the handle mid-scan and finishing later leaves the owner
    /// exactly as a completed scan would.
    pub fn finish(self, owner: &mut FuturesMergerMemoryOwner)
        ensures
            final(owner).wf(),
            final(owner).capacity_spec() == self.cap(),
            final(owner).layout_spec() == if old(owner).layout_spec() is None {
                Some(layout_of::<Op>())
            } else {
                old(owner).layout_spec()
            },
    {
        let mut h = self;
        h.futures.clear();
        h.to_poll.clear();
        give_back::<Op>(h.to_poll, h.cap, owner);
    }
}

/// Hands cleared, capacity-bearing storage back to an owner and records the
/// operation footprint on the owner's first use.
fn give_back<Op>(to_poll: Vec<usize>, cap: usize, owner: &mut FuturesMergerMemoryOwner)
    requires
        to_poll@.len() == 0,
    ensures
        final(owner).wf(),
        final(owner).capacity_spec() == cap,
        final(owner).layout_spec() == if old(owner).layout_spec() is None {
            Some(layout_of::<Op>())
        } else {
            old(owner).layout_spec()
        },
{
    owner.to_poll = to_poll;
    owner.capacity = cap;
    if owner.layout.is_none() {
        owner.layout = Some(get_layout::<Op>());
    }
}

/// One full no-failure scan of a pending list, as a mathematical model of
/// what `poll` does when no operation fails: the entry at position `i` is
/// examined; one in `ready` is removed by swapping the last entry into its
/// place (the scan stays at `i`, a different entry now occupies the slot),
/// any other is left pending and the scan moves on.
pub open spec fn scan_model(pending: Seq<usize>, ready: Set<usize>, i: int) -> Seq<usize>
    decreases pending.len() - i,
{
    if i < 0 || i >= pending.len() {
        pending
    } else if ready.contains(pending[i]) {
        scan_model(pending.update(i, pending.last()).drop_last(), ready, i)
    } else {
        scan_model(pending, ready, i + 1)
    }
}

/// One no-failure scan removes exactly the entries whose operations were
/// ready: what remains pending afterwards is the pending set minus the
/// ready set, still duplicate-free.
pub proof fn lemma_scan_model_removes_exactly_ready(
    pending: Seq<usize>,
    ready: Set<usize>,
    i: int,
)
    requires
        pending.no_duplicates(),
        0 <= i <= pending.len(),
        forall|k: int| 0 <= k < i ==> !ready.contains(#[trigger] pending[k]),
    ensures
        scan_model(pending, ready, i).to_set() =~= pending.to_set().difference(ready),
        scan_model(pending, ready, i).no_duplicates(),
    decreases pending.len() - i,
{
    if i >= pending.len() {
        assert forall|x: usize| pending.to_set().contains(x) implies !ready.contains(x) by {
            let k = choose|k: int| 0 <= k < pending.len() && pending[k] == x;
            assert(!ready.contains(pending[k]));
        }
    } else if ready.contains(pending[i]) {
        let q = pending.update(i, pending.last()).drop_last();
        lemma_swap_removed_keeps_wf(pending, q, i, usize::MAX as int + 1);
        assert forall|k: int| 0 <= k < i implies !ready.contains(#[trigger] q[k]) by {
            assert(q[k] == pending[k]);
        }
        lemma_scan_model_removes_exactly_ready(q, ready, i);
        assert(q.to_set() =~= pending.to_set().remove(pending[i])) by {
            assert forall|x: usize| q.to_set().contains(x)
                implies pending.to_set().remove(pending[i]).contains(x) by {
                let k = choose|k: int| 0 <= k < q.len() && q[k] == x;
                if k == i {
                    assert(pending[pending.len() - 1] == x);
                } else {
                    assert(pending[k] == x);
                }
            }
            assert forall|x: usize| pending.to_set().remove(pending[i]).contains(x)
                implies q.to_set().contains(x) by {
                let k = choose|k: int| 0 <= k < pending.len() && pending[k] == x;
                if k == pending.len() - 1 {
                    assert(q[i] == x);
                } else {
                    assert(q[k] == x);
                }
            }
        }
        assert(q.to_set().difference(ready) =~= pending.to_set().difference(ready));
    } else {
        lemma_scan_model_removes_exactly_ready(pending, ready, i + 1);
    }
}

/// A batch resolves successfully after one no-failure scan exactly when
/// every pending operation was ready.
pub proof fn lemma_scan_model_completion(pending: Seq<usize>, ready: Set<usize>)
    requires
        pending.no_duplicates(),
    ensures
        scan_model(pending, ready, 0).len() == 0 <==> pending.to_set().subset_of(ready),
{
    lemma_scan_model_removes_exactly_ready(pending, ready, 0);
    let r = scan_model(pending, ready, 0);
    if r.len() == 0 {
        assert forall|x: usize| pending.to_set().contains(x) implies ready.contains(x) by {
            assert(!r.to_set().contains(x));
        }
    } else {
        assert(r.to_set().contains(r[0]));
    }
}

/// The pending lists left by successive no-failure scans, one set of ready
/// operations per scan round.
pub open spec fn scan_rounds(pending: Seq<usize>, rounds: Seq<Set<usize>>) -> Seq<usize>
    decreases rounds.len(),
{
    if rounds.len() == 0 {
        pending
    } else {
        scan_rounds(scan_model(pending, rounds[0], 0), rounds.skip(1))
    }
}

/// Every operation that reported ready in some round.
pub open spec fn rounds_union(rounds: Seq<Set<usize>>) -> Set<usize>
    decreases rounds.len(),
{
    if rounds.len() == 0 {
        Set::empty()
    } else {
        rounds[0].union(rounds_union(rounds.skip(1)))
    }
}

/// Completion correctness: across any number of scans, whatever the
/// interleaving of readiness, the entries still pending are exactly those
/// whose operations never reported success. The batch therefore resolves
/// successfully exactly once every operation has succeeded, in whatever
/// order and round readiness arrived, and what a scan removed stays removed.
pub proof fn lemma_completion_any_interleaving(pending: Seq<usize>, rounds: Seq<Set<usize>>)
    requires
        pending.no_duplicates(),
    ensures
        scan_rounds(pending, rounds).to_set() =~= pending.to_set().difference(
            rounds_union(rounds),
        ),
        scan_rounds(pending, rounds).no_duplicates(),
    decreases rounds.len(),
{
    if rounds.len() == 0 {
    } else {
        lemma_scan_model_removes_exactly_ready(pending, rounds[0], 0);
        let p1 = scan_model(pending, rounds[0], 0);
        lemma_completion_any_interleaving(p1, rounds.skip(1));
        assert(p1.to_set().difference(rounds_union(rounds.skip(1))) =~= pending.to_set()
            .difference(rounds_union(rounds)));
    }
}

/// Removing a pending entry by swap keeps the pending list duplicate-free
/// and its entries within bounds.
proof fn lemma_swap_removed_keeps_wf(p: Seq<usize>, q: Seq<usize>, pos: int, bound: int)
    requires
        p.no_duplicates(),
        forall|k: int| 0 <= k < p.len() ==> (p[k] as int) < bound,
        0 <= pos < p.len(),
        q == p.update(pos, p.last()).drop_last(),
    ensures
        q.no_duplicates(),
        forall|k: int| 0 <= k < q.len() ==> (q[k] as int) < bound,
        forall|x: usize| q.to_set().contains(x) ==> p.to_set().contains(x),
{
    assert forall|i: int, j: int| 0 <= i < j < q.len() implies q[i] != q[j] by {
        assert(q[i] == if i == pos { p.last() } else { p[i] });
        assert(q[j] == if j == pos { p.last() } else { p[j] });
    }
    assert forall|x: usize| q.to_set().contains(x) implies p.to_set().contains(x) by {
        let k = choose|k: int| 0 <= k < q.len() && q[k] == x;
        if k == pos {
            assert(p[p.len() - 1] == x);
        } else {
            assert(p[k] == x);
        }
    }
}

} // verus!
