use std::collections::VecDeque;
use std::sync::Arc;
use vstd::prelude::*;
use vstd::rwlock::RwLock;

verus! {

/// How many times a waiting operation re-examines the shared state before it
/// stops waiting.  Each examination takes a full lock round trip, so the
/// budget is never exhausted in practice; it exists so that every loop in
/// this crate provably terminates.
pub const SPIN_BUDGET: u64 = u64::MAX;

// ---------------------------------------------------------------------------
// The mutex-protected core shared by every handle of one channel.
// ---------------------------------------------------------------------------

/// The state guarded by the channel's single lock: the FIFO queue, the count
/// of live sender handles, and the optional capacity bound.
pub struct Inner<T> {
    pub queue: VecDeque<T>,
    pub senders: usize,
    pub bound: Option<usize>,
}

impl<T> Inner<T> {
    /// True when the queue may take one more item without passing the bound.
    pub open spec fn can_accept(&self) -> bool {
        match self.bound {
            Some(b) => self.queue@.len() < b,
            None => true,
        }
    }

    /// Fresh unbounded state: empty queue, one live sender.
    pub fn new() -> (r: Inner<T>)
        ensures
            r.queue@ == Seq::<T>::empty(),
            r.senders == 1,
            r.bound is None,
    {
        Inner { queue: VecDeque::new(), senders: 1, bound: None }
    }

    /// Fresh bounded state: empty queue, one live sender, capacity `bound`.
    pub fn new_bounded(bound: usize) -> (r: Inner<T>)
        ensures
            r.queue@ == Seq::<T>::empty(),
            r.senders == 1,
            r.bound == Some(bound),
    {
        Inner { queue: VecDeque::new(), senders: 1, bound: Some(bound) }
    }

    /// Executable test for [`Self::can_accept`].
    pub fn has_room(&self) -> (r: bool)
        ensures
            r == self.can_accept(),
    {
        match self.bound {
            Some(b) => self.queue.len() < b,
            None => true,
        }
    }

    /// One serialized enqueue: appends `t` at the back of the queue and
    /// touches nothing else.
    pub fn push_item(&mut self, t: T)
        ensures
            final(self).queue@ == old(self).queue@.push(t),
            final(self).senders == old(self).senders,
            final(self).bound == old(self).bound,
    {
        self.queue.push_back(t);
    }

    /// Registers one more live sender.  The count saturates instead of
    /// wrapping: with `usize::MAX` live handles a further clone would be
    /// miscounted, but that many handles cannot exist in one address space.
    pub(crate) fn add_sender(&mut self)
        ensures
            final(self).senders == if old(self).senders < usize::MAX {
                (old(self).senders + 1) as usize
            } else {
                old(self).senders
            },
            final(self).queue@ == old(self).queue@,
            final(self).bound == old(self).bound,
    {
        if self.senders < usize::MAX {
            self.senders = self.senders + 1;
        }
    }

    /// Registers that one live sender went away.  Once the count has reached
    /// zero it stays there: closing is irreversible.
    pub(crate) fn remove_sender(&mut self)
        ensures
            final(self).senders == if old(self).senders > 0 {
                (old(self).senders - 1) as usize
            } else {
                0usize
            },
            final(self).queue@ == old(self).queue@,
            final(self).bound == old(self).bound,
    {
        if self.senders > 0 {
            self.senders = self.senders - 1;
        }
    }
}

/// What one locked receive attempt observed.
pub enum RecvPoll<T> {
    /// The queue had items; the first one is handed out.
    Item(T),
    /// Queue empty and no live sender: the channel is closed for good.
    Closed,
    /// Queue empty but senders remain: the receiver has to wait.
    Pending,
}

/// One serialized receive attempt against the shared state, entered with an
/// empty local buffer.  If the queue holds items, the front item is popped
/// and everything behind it moves into the receiver's local buffer in one
/// swap, so later calls need no lock at all.  An empty queue reports either
/// closure (no live sender) or that the receiver must wait.
pub fn recv_step<T>(inner: &mut Inner<T>, buffer: &mut VecDeque<T>) -> (r: RecvPoll<T>)
    requires
        old(buffer)@.len() == 0,
    ensures
        final(inner).senders == old(inner).senders,
        final(inner).bound == old(inner).bound,
        old(inner).queue@.len() > 0 ==> r == RecvPoll::Item(old(inner).queue@[0])
            && final(inner).queue@ == Seq::<T>::empty()
            && final(buffer)@ == old(inner).queue@.drop_first(),
        old(inner).queue@.len() == 0 ==> final(inner).queue@ == old(inner).queue@
            && final(buffer)@ == old(buffer)@
            && r == (if old(inner).senders == 0 {
                RecvPoll::<T>::Closed
            } else {
                RecvPoll::<T>::Pending
            }),
{
    match inner.queue.pop_front() {
        Some(t) => {
            if inner.queue.len() > 0 {
                core::mem::swap(buffer, &mut inner.queue);
            }
            RecvPoll::Item(t)
        },
        None => {
            if inner.senders == 0 {
                RecvPoll::Closed
            } else {
                RecvPoll::Pending
            }
        },
    }
}

// ---------------------------------------------------------------------------
// The shared container and the public handles.
// ---------------------------------------------------------------------------

/// The lock's predicate: the capacity bound chosen at construction.  Every
/// state that ever sits in the lock carries exactly that bound, so the
/// bound a channel was built with is a machine-checked constant of its
/// whole life.  The semantics of each transition is carried by the exact
/// contracts of the [`Inner`] methods and of [`recv_step`], and the
/// cross-step laws by [`ChannelModel`].
pub struct FixedBound {
    pub bound: Option<usize>,
}

impl<T> vstd::rwlock::RwLockPredicate<Inner<T>> for FixedBound {
    open spec fn inv(self, v: Inner<T>) -> bool {
        v.bound == self.bound
    }
}

/// The lock around [`Inner`], shared by all handles of one channel.  All
/// mutation of queue and sender count happens under this one lock, so every
/// channel history is a serialized sequence of the steps modelled by
/// [`ChannelModel`].
pub struct Shared<T> {
    pub inner: RwLock<Inner<T>, FixedBound>,
}

impl<T> Shared<T> {
    /// The capacity bound this channel was built with.
    pub open spec fn bound_spec(&self) -> Option<usize> {
        self.inner.pred().bound
    }

    /// Fresh unbounded shared state around the state of [`Inner::new`].
    pub fn new() -> (r: Shared<T>)
        ensures
            r.bound_spec() is None,
    {
        Shared { inner: RwLock::new(Inner::new(), Ghost(FixedBound { bound: None })) }
    }

    /// Fresh bounded shared state with capacity `bound`, around the state
    /// of [`Inner::new_bounded`].
    pub fn new_bounded(bound: usize) -> (r: Shared<T>)
        ensures
            r.bound_spec() == Some(bound),
    {
        Shared {
            inner: RwLock::new(Inner::new_bounded(bound), Ghost(FixedBound { bound: Some(bound) })),
        }
    }
}

/// Sending half of an unbounded channel; cloneable, never waits.  Each
/// handle carries a ghost history of what it sent.
pub struct Sender<T> {
    shared: Arc<Shared<T>>,
    sent: Ghost<Seq<T>>,
}

/// Sending half of a bounded channel; cloneable, waits while the queue sits
/// at its bound.  Each handle carries a ghost history of what it sent.
pub struct SyncSender<T> {
    shared: Arc<Shared<T>>,
    sent: Ghost<Seq<T>>,
}

/// Receiving half of a channel; exactly one per channel, with a private
/// local buffer that amortizes lock acquisitions and a ghost history of
/// everything yielded so far.
pub struct Receiver<T> {
    shared: Arc<Shared<T>>,
    buffer: VecDeque<T>,
    got: Ghost<Seq<T>>,
}

impl<T> Sender<T> {
    /// The capacity bound of this handle's channel: none.
    pub closed spec fn bound_of(&self) -> Option<usize> {
        self.shared.bound_spec()
    }

    /// Everything sent through this handle, oldest first.
    pub closed spec fn sent(&self) -> Seq<T> {
        self.sent@
    }

    /// Enqueues one item: lock, push at the back, unlock.  The unbounded
    /// sender never waits and never fails; the item joins this handle's
    /// send history, and, per [`Inner::push_item`], the back of the shared
    /// queue.
    pub fn send(&mut self, t: T)
        ensures
            final(self).sent() == old(self).sent().push(t),
            final(self).bound_of() == old(self).bound_of(),
    {
        proof {
            self.sent@ = self.sent@.push(t);
        }
        let (mut inner, handle) = self.shared.inner.acquire_write();
        inner.push_item(t);
        handle.release_write(inner);
    }
}

impl<T> Clone for Sender<T> {
    /// A clone first registers one more live sender under the lock, then
    /// hands out a handle to the same shared state, with a fresh, empty
    /// send history of its own.
    fn clone(&self) -> (r: Self)
        ensures
            r.sent() == Seq::<T>::empty(),
            r.bound_of() == self.bound_of(),
    {
        let (mut inner, handle) = self.shared.inner.acquire_write();
        inner.add_sender();
        handle.release_write(inner);
        Sender { shared: self.shared.clone(), sent: Ghost(Seq::empty()) }
    }
}

impl<T> Sender<T> {
    /// Serialized count decrement run when this handle goes away.  This is
    /// the sole closing signal: once the last sender is gone, the count is
    /// zero and stays zero, and the receiver observes closure.
    fn retire(&self) {
        let (mut inner, handle) = self.shared.inner.acquire_write();
        inner.remove_sender();
        handle.release_write(inner);
    }
}

impl<T> Drop for Sender<T> {
    /// Verus demands that `drop` open no invariants, while taking the lock
    /// does open one; this body is therefore exempted from checking and only
    /// forwards to the verified [`Sender::retire`].
    #[verifier::external_body]
    fn drop(&mut self)
        opens_invariants none
        no_unwind
    {
        self.retire();
    }
}

impl<T> SyncSender<T> {
    /// The capacity bound of this handle's channel.
    pub closed spec fn bound_of(&self) -> Option<usize> {
        self.shared.bound_spec()
    }

    /// Everything sent through this handle, oldest first.
    pub closed spec fn sent(&self) -> Seq<T> {
        self.sent@
    }

    /// Enqueues one item, waiting while the queue sits at its bound; the
    /// item joins this handle's send history and, per [`Inner::push_item`],
    /// the back of the shared queue.  The bound is cooperative: a sender
    /// that has exhausted its (astronomical) waiting budget pushes anyway
    /// rather than lose the item, so the queue can pass the bound only in
    /// that never-reached case.
    #[verifier::loop_isolation(false)]
    pub fn send(&mut self, t: T)
        ensures
            final(self).sent() == old(self).sent().push(t),
            final(self).bound_of() == old(self).bound_of(),
    {
        let ghost tv = t;
        proof {
            self.sent@ = self.sent@.push(tv);
        }
        let mut budget: u64 = SPIN_BUDGET;
        loop
            invariant
                self.sent() == old(self).sent().push(tv),
                self.bound_of() == old(self).bound_of(),
            decreases budget,
        {
            let (mut inner, handle) = self.shared.inner.acquire_write();
            if budget == 0 || inner.has_room() {
                inner.push_item(t);
                handle.release_write(inner);
                return;
            }
            handle.release_write(inner);
            budget = budget - 1;
        }
    }
}

impl<T> Clone for SyncSender<T> {
    /// A clone first registers one more live sender under the lock, then
    /// hands out a handle to the same shared state, with a fresh, empty
    /// send history of its own.
    fn clone(&self) -> (r: Self)
        ensures
            r.sent() == Seq::<T>::empty(),
            r.bound_of() == self.bound_of(),
    {
        let (mut inner, handle) = self.shared.inner.acquire_write();
        inner.add_sender();
        handle.release_write(inner);
        SyncSender { shared: self.shared.clone(), sent: Ghost(Seq::empty()) }
    }
}

impl<T> SyncSender<T> {
    /// Serialized count decrement run when this handle goes away.
    fn retire(&self) {
        let (mut inner, handle) = self.shared.inner.acquire_write();
        inner.remove_sender();
        handle.release_write(inner);
    }
}

impl<T> Drop for SyncSender<T> {
    /// Verus demands that `drop` open no invariants, while taking the lock
    /// does open one; this body is therefore exempted from checking and only
    /// forwards to the verified [`SyncSender::retire`].
    #[verifier::external_body]
    fn drop(&mut self)
        opens_invariants none
        no_unwind
    {
        self.retire();
    }
}

impl<T> Receiver<T> {
    /// The receiver's private buffer, drained before the lock is touched.
    pub closed spec fn buffered(&self) -> Seq<T> {
        self.buffer@
    }

    /// Everything this receiver has yielded, oldest first: the ghost
    /// counterpart of the model's delivered history.
    pub closed spec fn received(&self) -> Seq<T> {
        self.got@
    }

    /// The capacity bound of this handle's channel.
    pub closed spec fn bound_of(&self) -> Option<usize> {
        self.shared.bound_spec()
    }

    /// Yields the next item in arrival order, or `None` once the channel is
    /// closed (no live sender) and fully drained.  A non-empty local buffer
    /// is served without touching the lock; otherwise the receiver polls the
    /// shared queue under the lock, waiting in a re-checked loop while the
    /// queue is empty and senders remain.  The wait is bounded only by
    /// [`SPIN_BUDGET`] re-checks; were that budget ever exhausted -- no
    /// real execution reaches it -- the call would stop waiting and answer
    /// `None` as if the channel had closed.
    pub fn recv(&mut self) -> (r: Option<T>)
        ensures
            old(self).buffered().len() > 0 ==> r == Some(old(self).buffered()[0])
                && final(self).buffered() == old(self).buffered().drop_first(),
            r is None ==> final(self).buffered().len() == 0,
            r matches Some(t) ==> final(self).received() == old(self).received().push(t),
            r is None ==> final(self).received() == old(self).received(),
            final(self).bound_of() == old(self).bound_of(),
    {
        if let Some(t) = self.buffer.pop_front() {
            proof {
                self.got@ = self.got@.push(t);
            }
            return Some(t);
        }
        let mut budget: u64 = SPIN_BUDGET;
        loop
            invariant
                old(self).buffered().len() == 0,
                self.buffer@.len() == 0,
                self.received() == old(self).received(),
                self.bound_of() == old(self).bound_of(),
            decreases budget,
        {
            let (mut inner, handle) = self.shared.inner.acquire_write();
            let step = recv_step(&mut inner, &mut self.buffer);
            handle.release_write(inner);
            match step {
                RecvPoll::Item(t) => {
                    proof {
                        self.got@ = self.got@.push(t);
                    }
                    return Some(t);
                },
                RecvPoll::Closed => {
                    return None;
                },
                RecvPoll::Pending => {
                    if budget == 0 {
                        return None;
                    }
                    budget = budget - 1;
                },
            }
        }
    }
}

/// Builds an unbounded channel: one never-waiting [`Sender`] and the sole
/// [`Receiver`], sharing fresh state with one live sender and an empty queue.
pub fn channel<T>() -> (r: (Sender<T>, Receiver<T>))
    ensures
        r.0.sent() == Seq::<T>::empty(),
        r.0.bound_of() is None,
        r.1.buffered() == Seq::<T>::empty(),
        r.1.received() == Seq::<T>::empty(),
        r.1.bound_of() is None,
{
    let shared: Arc<Shared<T>> = Arc::new(Shared::new());
    let tx = Sender { shared: shared.clone(), sent: Ghost(Seq::empty()) };
    let rx = Receiver { shared, buffer: VecDeque::new(), got: Ghost(Seq::empty()) };
    (tx, rx)
}

/// Builds a bounded channel with capacity `bound`: one backpressured
/// [`SyncSender`] and the sole [`Receiver`].  A bound of zero leaves no room
/// for any item, so every send waits its whole budget out; that misuse is
/// the caller's responsibility.
pub fn sync_channel<T>(bound: usize) -> (r: (SyncSender<T>, Receiver<T>))
    ensures
        r.0.sent() == Seq::<T>::empty(),
        r.0.bound_of() == Some(bound),
        r.1.buffered() == Seq::<T>::empty(),
        r.1.received() == Seq::<T>::empty(),
        r.1.bound_of() == Some(bound),
{
    let shared: Arc<Shared<T>> = Arc::new(Shared::new_bounded(bound));
    let tx = SyncSender { shared: shared.clone(), sent: Ghost(Seq::empty()) };
    let rx = Receiver { shared, buffer: VecDeque::new(), got: Ghost(Seq::empty()) };
    (tx, rx)
}

// ---------------------------------------------------------------------------
// The serialized model.  Every mutation of channel state happens under the
// one lock, so each channel execution is a sequence of the steps below; the
// step functions mirror, transition for transition, the contracts of the
// executable [`Inner`] methods and of [`recv_step`], extended with the two
// histories (`sent`, `delivered`) that no single handle can observe at run
// time.  The laws proved about the model therefore speak about every
// interleaving of sends, clones, drops and receives.
// ---------------------------------------------------------------------------

/// One channel's entire state, histories included, between two lock steps.
pub ghost struct ChannelModel<T> {
    /// Every item ever enqueued, in lock order across all senders.
    pub sent: Seq<T>,
    /// Items already yielded to the consumer, oldest first.
    pub delivered: Seq<T>,
    /// The receiver's private buffer; older than anything still queued.
    pub buffered: Seq<T>,
    /// The shared queue, holding the newest items.
    pub queued: Seq<T>,
    /// Count of live sender handles.
    pub senders: nat,
    /// Capacity bound, if the channel has one.
    pub bound: Option<nat>,
}

impl<T> ChannelModel<T> {
    /// The channel invariant: nothing is lost, duplicated or reordered --
    /// what was sent is exactly what was delivered, followed by the buffered
    /// items, followed by the queued ones -- and a bounded queue stays
    /// within its bound.
    pub open spec fn inv(self) -> bool {
        &&& self.sent == self.delivered + self.buffered + self.queued
        &&& (self.bound matches Some(b) ==> self.queued.len() <= b)
    }

    /// The state right after [`channel`] or [`sync_channel`] returns.
    pub open spec fn init(bound: Option<nat>) -> ChannelModel<T> {
        ChannelModel {
            sent: Seq::empty(),
            delivered: Seq::empty(),
            buffered: Seq::empty(),
            queued: Seq::empty(),
            senders: 1,
            bound,
        }
    }

    /// A send goes ahead once a sender is live and the bound leaves room.
    pub open spec fn send_enabled(self) -> bool {
        &&& self.senders > 0
        &&& (self.bound matches Some(b) ==> self.queued.len() < b)
    }

    /// Effect of one send: the item joins the queue and the history.
    pub open spec fn send_step(self, t: T) -> ChannelModel<T> {
        ChannelModel { sent: self.sent.push(t), queued: self.queued.push(t), ..self }
    }

    /// Cloning requires a live sender to clone.
    pub open spec fn clone_enabled(self) -> bool {
        self.senders > 0
    }

    /// Effect of one sender clone.
    pub open spec fn clone_step(self) -> ChannelModel<T> {
        ChannelModel { senders: self.senders + 1, ..self }
    }

    /// Dropping requires a live sender to drop.
    pub open spec fn drop_enabled(self) -> bool {
        self.senders > 0
    }

    /// Effect of one sender drop.
    pub open spec fn drop_step(self) -> ChannelModel<T> {
        ChannelModel { senders: (self.senders - 1) as nat, ..self }
    }

    /// A receive finishes as soon as an item is at hand or closure is
    /// observable; with an empty channel and a live sender it waits.
    pub open spec fn recv_enabled(self) -> bool {
        self.buffered.len() > 0 || self.queued.len() > 0 || self.senders == 0
    }

    /// Effect and result of one receive: the front of the local buffer;
    /// else the front of the queue, whose remainder drains into the buffer
    /// in one move; else the closure sentinel, with nothing changed.
    pub open spec fn recv_step(self) -> (ChannelModel<T>, Option<T>) {
        if self.buffered.len() > 0 {
            (
                ChannelModel {
                    delivered: self.delivered.push(self.buffered[0]),
                    buffered: self.buffered.drop_first(),
                    ..self
                },
                Some(self.buffered[0]),
            )
        } else if self.queued.len() > 0 {
            (
                ChannelModel {
                    delivered: self.delivered.push(self.queued[0]),
                    buffered: self.queued.drop_first(),
                    queued: Seq::empty(),
                    ..self
                },
                Some(self.queued[0]),
            )
        } else {
            (self, None)
        }
    }
}

/// One serialized channel step, as a value: what happened under one lock
/// acquisition.
pub ghost enum ChannelStep<T> {
    /// A sender enqueued this item.
    Send(T),
    /// A sender handle was cloned.
    CloneSender,
    /// A sender handle went away.
    DropSender,
    /// The receiver took its next step to completion.
    Recv,
}

impl<T> ChannelModel<T> {
    /// When the step may happen in this state.
    pub open spec fn step_enabled(self, s: ChannelStep<T>) -> bool {
        match s {
            ChannelStep::Send(_) => self.send_enabled(),
            ChannelStep::CloneSender => self.clone_enabled(),
            ChannelStep::DropSender => self.drop_enabled(),
            ChannelStep::Recv => self.recv_enabled(),
        }
    }

    /// The state after the step.
    pub open spec fn apply(self, s: ChannelStep<T>) -> ChannelModel<T> {
        match s {
            ChannelStep::Send(t) => self.send_step(t),
            ChannelStep::CloneSender => self.clone_step(),
            ChannelStep::DropSender => self.drop_step(),
            ChannelStep::Recv => self.recv_step().0,
        }
    }
}

/// The state after running `steps` from `m`, in order.
pub open spec fn run_steps<T>(m: ChannelModel<T>, steps: Seq<ChannelStep<T>>) -> ChannelModel<T>
    decreases steps.len(),
{
    if steps.len() == 0 {
        m
    } else {
        run_steps(m.apply(steps[0]), steps.drop_first())
    }
}

/// True when each step of `steps` is enabled in the state it runs from.
pub open spec fn steps_enabled<T>(m: ChannelModel<T>, steps: Seq<ChannelStep<T>>) -> bool
    decreases steps.len(),
{
    steps.len() == 0 || (m.step_enabled(steps[0]) && steps_enabled(
        m.apply(steps[0]),
        steps.drop_first(),
    ))
}

/// LAW: a fresh channel satisfies the invariant.
pub proof fn lemma_init_inv<T>(bound: Option<nat>)
    ensures
        ChannelModel::<T>::init(bound).inv(),
{
    assert(ChannelModel::<T>::init(bound).sent =~= Seq::<T>::empty() + Seq::empty()
        + Seq::empty());
}

/// LAW: an enabled send preserves the invariant; the new item stands last
/// in the history and last in the queue, behind everything sent before it.
pub proof fn lemma_send_preserves_inv<T>(m: ChannelModel<T>, t: T)
    requires
        m.inv(),
        m.send_enabled(),
    ensures
        m.send_step(t).inv(),
        m.send_step(t).sent == m.sent.push(t),
        m.send_step(t).delivered == m.delivered,
{
    assert(m.send_step(t).sent =~= m.send_step(t).delivered + m.send_step(t).buffered
        + m.send_step(t).queued);
}

/// LAW: cloning and dropping senders touch no item, so they preserve the
/// invariant; and dropping never takes the count below zero.
pub proof fn lemma_handle_steps_preserve_inv<T>(m: ChannelModel<T>)
    requires
        m.inv(),
    ensures
        m.clone_enabled() ==> m.clone_step().inv(),
        m.drop_enabled() ==> m.drop_step().inv() && m.drop_step().senders == m.senders - 1,
{
}

/// LAW (FIFO preservation): under the invariant the consumer holds exactly
/// the oldest items -- `delivered` is the prefix of `sent` of its length --
/// and the next receive to yield an item yields `sent[delivered.len()]`,
/// never anything later or earlier.
pub proof fn lemma_fifo<T>(m: ChannelModel<T>)
    requires
        m.inv(),
    ensures
        m.delivered == m.sent.subrange(0, m.delivered.len() as int),
        m.delivered.len() < m.sent.len() ==> m.recv_step().1 == Some(
            m.sent[m.delivered.len() as int],
        ),
        m.delivered.len() == m.sent.len() ==> m.recv_step().1 is None,
{
    assert(m.delivered =~= m.sent.subrange(0, m.delivered.len() as int));
}

/// LAW: a receive preserves the invariant, and when it yields an item the
/// delivered history grows by exactly that item.
pub proof fn lemma_recv_preserves_inv<T>(m: ChannelModel<T>)
    requires
        m.inv(),
    ensures
        m.recv_step().0.inv(),
        m.recv_step().0.sent == m.sent,
        m.recv_step().1 matches Some(t) ==> m.recv_step().0.delivered == m.delivered.push(t),
        m.recv_step().1 is None ==> m.recv_step().0 == m,
{
    let (m1, r) = m.recv_step();
    if m.buffered.len() > 0 {
        assert(m1.sent =~= m1.delivered + m1.buffered + m1.queued);
    } else if m.queued.len() > 0 {
        assert(m1.sent =~= m1.delivered + m1.buffered + m1.queued);
    }
}

/// LAW (closure detection): with no live sender the count can never rise
/// again -- no send, clone or drop is enabled -- and once the buffer and
/// queue are also empty, every receive returns `None` at once and leaves
/// the state unchanged: the closed, drained channel is absorbing.
pub proof fn lemma_closed_terminal<T>(m: ChannelModel<T>)
    requires
        m.senders == 0,
    ensures
        !m.send_enabled(),
        !m.clone_enabled(),
        !m.drop_enabled(),
        m.recv_enabled(),
        m.recv_step().0.senders == 0,
        m.buffered.len() == 0 && m.queued.len() == 0 ==> m.recv_step() == (m, None::<T>),
{
}

/// LAW (no loss, no duplication under fan-in): however many senders
/// interleave, the multiset of items sent equals the multiset delivered
/// plus what is still buffered or queued -- every item sent is received
/// exactly once, once the channel is drained.
pub proof fn lemma_conservation<T>(m: ChannelModel<T>)
    requires
        m.inv(),
    ensures
        m.sent.to_multiset() == m.delivered.to_multiset().add(m.buffered.to_multiset()).add(
            m.queued.to_multiset(),
        ),
        m.buffered.len() == 0 && m.queued.len() == 0 ==> m.sent.to_multiset()
            == m.delivered.to_multiset(),
{
    vstd::seq_lib::lemma_multiset_commutative(m.delivered + m.buffered, m.queued);
    vstd::seq_lib::lemma_multiset_commutative(m.delivered, m.buffered);
    if m.buffered.len() == 0 && m.queued.len() == 0 {
        assert(m.sent =~= m.delivered);
    }
}

/// LAW (backpressure): a bounded queue never passes its bound; a send is
/// enabled only while the queue sits strictly below the bound, and then
/// keeps it within the bound.
pub proof fn lemma_bound_respected<T>(m: ChannelModel<T>, t: T)
    requires
        m.inv(),
        m.bound is Some,
    ensures
        m.queued.len() <= m.bound.unwrap(),
        m.queued.len() >= m.bound.unwrap() ==> !m.send_enabled(),
        m.send_enabled() ==> m.send_step(t).queued.len() <= m.bound.unwrap(),
{
}

/// LAW: every enabled step preserves the invariant.
pub proof fn lemma_step_preserves_inv<T>(m: ChannelModel<T>, s: ChannelStep<T>)
    requires
        m.inv(),
        m.step_enabled(s),
    ensures
        m.apply(s).inv(),
{
    match s {
        ChannelStep::Send(t) => lemma_send_preserves_inv(m, t),
        ChannelStep::CloneSender => lemma_handle_steps_preserve_inv(m),
        ChannelStep::DropSender => lemma_handle_steps_preserve_inv(m),
        ChannelStep::Recv => lemma_recv_preserves_inv(m),
    }
}

/// LAW (every interleaving): from any state satisfying the invariant -- a
/// fresh channel in particular -- any enabled run of sends, clones, drops
/// and receives keeps the invariant, so at every moment of every
/// interleaving the consumer holds exactly the oldest items sent: delivery
/// is first-in first-out, with no loss and no duplication.
pub proof fn lemma_run_keeps_inv<T>(m: ChannelModel<T>, steps: Seq<ChannelStep<T>>)
    requires
        m.inv(),
        steps_enabled(m, steps),
    ensures
        run_steps(m, steps).inv(),
        run_steps(m, steps).delivered == run_steps(m, steps).sent.subrange(
            0,
            run_steps(m, steps).delivered.len() as int,
        ),
    decreases steps.len(),
{
    if steps.len() == 0 {
        lemma_fifo(m);
    } else {
        lemma_step_preserves_inv(m, steps[0]);
        lemma_run_keeps_inv(m.apply(steps[0]), steps.drop_first());
    }
}

/// LAW (batched drain): when the local buffer is empty and the queue holds
/// several items, one receive yields the queue's front and parks the whole
/// remainder in the buffer; the following receives are served from the
/// buffer alone, in order, with no further queue traffic.
pub proof fn lemma_batched_drain<T>(m: ChannelModel<T>)
    requires
        m.inv(),
        m.buffered.len() == 0,
        m.queued.len() > 0,
    ensures
        ({
            let (m1, r1) = m.recv_step();
            &&& r1 == Some(m.queued[0])
            &&& m1.queued.len() == 0
            &&& m1.buffered == m.queued.drop_first()
            &&& m.queued.len() > 1 ==> m1.recv_step().1 == Some(m.queued[1])
                && m1.recv_step().0.queued.len() == 0
        }),
{
}

} // verus!
