use vstd::prelude::*;

use crate::fence::{ArmedFence, QueueId, ReadyFence, UnarmedFence};

verus! {

/// A queue's epochs: how many submissions it has had, and the latest of them
/// that a ready fence proved complete.
pub struct QueueEpochs {
    id: QueueId,
    submitted: u64,
    completed: u64,
    ready: Ghost<Set<u64>>,
}

/// Released objects stamped with the epoch of every queue at the time of the
/// sweep that made the batch.
pub struct BatchView {
    pub objects: Seq<u64>,
    pub stamped: Seq<u64>,
}

/// A batch of released objects waiting for the device to finish with them.
#[derive(Debug)]
pub struct GraveyardBatch {
    objects: Vec<u64>,
    stamped: Vec<u64>,
}

impl View for GraveyardBatch {
    type V = BatchView;

    closed spec fn view(&self) -> BatchView {
        BatchView { objects: self.objects@, stamped: self.stamped@ }
    }
}

impl GraveyardBatch {
    /// The objects of the batch, to be destroyed.
    pub fn objects(&self) -> (r: &Vec<u64>)
        ensures
            r@ == self@.objects,
    {
        &self.objects
    }

    /// The epoch of each queue when the batch was stamped.
    pub fn stamped(&self) -> (r: &Vec<u64>)
        ensures
            r@ == self@.stamped,
    {
        &self.stamped
    }
}

pub open spec fn batch_views(s: Seq<GraveyardBatch>) -> Seq<BatchView> {
    s.map_values(|b: GraveyardBatch| b@)
}

/// Every queue has completed the epoch that `b` was stamped with for it.
pub open spec fn destroyable(completed: Seq<u64>, b: BatchView) -> bool {
    &&& b.stamped.len() == completed.len()
    &&& forall|q: int| 0 <= q < completed.len() ==> #[trigger] b.stamped[q] <= completed[q]
}

/// The batches of `s` that may be destroyed, in order.
pub open spec fn sweepable(s: Seq<BatchView>, completed: Seq<u64>) -> Seq<BatchView>
    decreases s.len(),
{
    if s.len() == 0 {
        s
    } else {
        let r = sweepable(s.drop_last(), completed);
        if destroyable(completed, s.last()) {
            r.push(s.last())
        } else {
            r
        }
    }
}

/// The batches of `s` that must wait, in order.
pub open spec fn pending(s: Seq<BatchView>, completed: Seq<u64>) -> Seq<BatchView>
    decreases s.len(),
{
    if s.len() == 0 {
        s
    } else {
        let r = pending(s.drop_last(), completed);
        if destroyable(completed, s.last()) {
            r
        } else {
            r.push(s.last())
        }
    }
}

proof fn lemma_sweep_step(s: Seq<BatchView>, completed: Seq<u64>, k: int)
    requires
        0 <= k < s.len(),
    ensures
        sweepable(s.subrange(0, k + 1), completed) == if destroyable(completed, s[k]) {
            sweepable(s.subrange(0, k), completed).push(s[k])
        } else {
            sweepable(s.subrange(0, k), completed)
        },
        pending(s.subrange(0, k + 1), completed) == if destroyable(completed, s[k]) {
            pending(s.subrange(0, k), completed)
        } else {
            pending(s.subrange(0, k), completed).push(s[k])
        },
{
    let s1 = s.subrange(0, k + 1);
    assert(s1.drop_last() =~= s.subrange(0, k));
    assert(s1.last() == s[k]);
}

/// The lease on a device's graveyard: whoever holds it may sweep.
#[derive(Debug)]
pub struct DeviceTracker {
    device: u64,
}

impl DeviceTracker {
    pub closed spec fn device_spec(&self) -> u64 {
        self.device
    }
}

/// Misuse of the lease on a device's graveyard.
#[derive(Clone, Copy, Debug, PartialEq, Eq, Structural)]
pub enum TrackerError {
    /// The tracker belongs to another device.
    WrongDevice,
    /// The device's tracker has not been taken: the one presented is not its
    /// lease.
    NotLeased,
    /// The device's tracker was taken and never returned.
    NotReturned,
}

/// The reclamation state of one device: its queues' epochs, the released
/// objects not yet stamped, the stamped batches waiting for their epochs, and
/// the slot of its tracker.
pub struct Device {
    raw: u64,
    queues: Vec<QueueEpochs>,
    unstamped: Vec<u64>,
    batches: Vec<GraveyardBatch>,
    tracker: Option<DeviceTracker>,
}

impl Device {
    pub closed spec fn raw_spec(&self) -> u64 {
        self.raw
    }

    pub closed spec fn queue_count(&self) -> nat {
        self.queues@.len()
    }

    pub closed spec fn queue_id(&self, q: int) -> QueueId {
        self.queues@[q].id
    }

    /// Epoch of the latest submission to queue `q`; zero before any.
    pub closed spec fn submitted(&self, q: int) -> u64 {
        self.queues@[q].submitted
    }

    /// Latest epoch of queue `q` proven complete; zero before any.
    pub closed spec fn completed(&self, q: int) -> u64 {
        self.queues@[q].completed
    }

    /// Epochs of queue `q` whose fence was observed ready.
    pub closed spec fn ready_epochs(&self, q: int) -> Set<u64> {
        self.queues@[q].ready@
    }

    /// The completed epoch of every queue, in queue order.
    pub open spec fn completed_epochs(&self) -> Seq<u64> {
        Seq::new(self.queue_count(), |q: int| self.completed(q))
    }

    pub closed spec fn unstamped_spec(&self) -> Seq<u64> {
        self.unstamped@
    }

    pub closed spec fn batches_spec(&self) -> Seq<BatchView> {
        batch_views(self.batches@)
    }

    /// The tracker is in its slot, not leased out.
    pub closed spec fn tracker_home(&self) -> bool {
        self.tracker is Some
    }

    pub closed spec fn wf(&self) -> bool {
        &&& forall|q: int|
            0 <= q < self.queues@.len() ==> {
                &&& (#[trigger] self.queues@[q]).completed <= self.queues@[q].submitted
                &&& (self.queues@[q].completed == 0 || self.queues@[q].ready@.contains(
                    self.queues@[q].completed,
                ))
            }
        &&& forall|b: int|
            0 <= b < self.batches@.len() ==> (#[trigger] self.batches@[b])@.stamped.len()
                == self.queues@.len()
        &&& (self.tracker matches Some(t) ==> t.device == self.raw)
        &&& forall|q1: int, q2: int|
            0 <= q1 < q2 < self.queues@.len() ==> (#[trigger] self.queues@[q1]).id != (
            #[trigger] self.queues@[q2]).id
    }

    /// The submitted epoch of every queue, in queue order.
    pub open spec fn submitted_epochs(&self) -> Seq<u64> {
        Seq::new(self.queue_count(), |q: int| self.submitted(q))
    }

    /// `self` is `o` after a collection that handed out `out`: the batches
    /// whose every epoch is complete, in order, while the others stay.
    pub open spec fn collected(&self, o: &Device, out: Seq<BatchView>) -> bool {
        &&& out == sweepable(o.batches_spec(), o.completed_epochs())
        &&& self.batches_spec() == pending(o.batches_spec(), o.completed_epochs())
        &&& self.same_queues(o)
        &&& self.completed_epochs() == o.completed_epochs()
        &&& self.unstamped_spec() == o.unstamped_spec()
        &&& self.tracker_home() == o.tracker_home()
    }

    /// The device's queues and stamped batches are those of `o`.
    pub open spec fn same_queues(&self, o: &Device) -> bool {
        &&& self.raw_spec() == o.raw_spec()
        &&& self.queue_count() == o.queue_count()
        &&& forall|q: int| 0 <= q < self.queue_count() ==> #[trigger] self.queue_id(q) == o.queue_id(q)
        &&& forall|q: int| 0 <= q < self.queue_count() ==> #[trigger] self.submitted(q) == o.submitted(q)
        &&& forall|q: int| 0 <= q < self.queue_count() ==> #[trigger] self.completed(q) == o.completed(q)
        &&& forall|q: int|
            0 <= q < self.queue_count() ==> #[trigger] self.ready_epochs(q) == o.ready_epochs(q)
    }

    /// A device with handle `raw` and the given queues, none of which has had
    /// a submission yet.
    pub fn new(raw: u64, queues: Vec<QueueId>) -> (r: Device)
        requires
            forall|q1: int, q2: int|
                0 <= q1 < q2 < queues@.len() ==> #[trigger] queues@[q1] != #[trigger] queues@[q2],
        ensures
            r.wf(),
            r.raw_spec() == raw,
            r.queue_count() == queues@.len(),
            forall|q: int|
                #![trigger r.queue_id(q)]
                #![trigger r.submitted(q)]
                #![trigger r.completed(q)]
                #![trigger r.ready_epochs(q)]
                0 <= q < queues@.len() ==> {
                    &&& r.queue_id(q) == queues@[q]
                    &&& r.submitted(q) == 0
                    &&& r.completed(q) == 0
                    &&& r.ready_epochs(q) == Set::<u64>::empty()
                },
            r.unstamped_spec() == Seq::<u64>::empty(),
            r.batches_spec() == Seq::<BatchView>::empty(),
            r.tracker_home(),
    {
        let mut qs: Vec<QueueEpochs> = Vec::new();
        let mut i: usize = 0;
        while i < queues.len()
            invariant
                i <= queues.len(),
                qs@.len() == i,
                forall|q1: int, q2: int|
                    0 <= q1 < q2 < queues@.len() ==> #[trigger] queues@[q1] != #[trigger] queues@[q2],
                forall|q: int|
                    0 <= q < i ==> {
                        &&& (#[trigger] qs@[q]).id == queues@[q]
                        &&& qs@[q].submitted == 0
                        &&& qs@[q].completed == 0
                        &&& qs@[q].ready@ == Set::<u64>::empty()
                    },
            decreases queues.len() - i,
        {
            qs.push(QueueEpochs { id: queues[i], submitted: 0, completed: 0, ready: Ghost(Set::empty()) });
            i = i + 1;
        }
        let r = Device {
            raw,
            queues: qs,
            unstamped: Vec::new(),
            batches: Vec::new(),
            tracker: Some(DeviceTracker { device: raw }),
        };
        assert(batch_views(r.batches@) =~= Seq::<BatchView>::empty());
        r
    }

    pub fn raw(&self) -> (r: u64)
        ensures
            r == self.raw_spec(),
    {
        self.raw
    }

    /// Take resource tracker from the device.
    /// `DeviceTracker` is unique for `Device`.
    /// It can't be taken again until returned.
    pub fn take_tracker(&mut self) -> (r: Option<DeviceTracker>)
        requires
            old(self).wf(),
        ensures
            final(self).wf(),
            r is Some <==> old(self).tracker_home(),
            r matches Some(t) ==> t.device_spec() == old(self).raw_spec(),
            !final(self).tracker_home(),
            final(self).same_queues(old(self)),
            final(self).unstamped_spec() == old(self).unstamped_spec(),
            final(self).batches_spec() == old(self).batches_spec(),
    {
        self.tracker.take()
    }

    /// Return taken `DeviceTracker`. Refused, and handed back, where the
    /// tracker belongs to another device or the device's own is in place.
    pub fn return_tracker(&mut self, tracker: DeviceTracker) -> (r: Result<(), DeviceTracker>)
        requires
            old(self).wf(),
        ensures
            final(self).wf(),
            r is Ok <==> (!old(self).tracker_home() && tracker.device_spec() == old(self).raw_spec()),
            r is Ok ==> final(self).tracker_home(),
            r is Err ==> final(self).tracker_home() == old(self).tracker_home(),
            final(self).same_queues(old(self)),
            final(self).unstamped_spec() == old(self).unstamped_spec(),
            final(self).batches_spec() == old(self).batches_spec(),
    {
        if self.tracker.is_some() || tracker.device != self.raw {
            return Err(tracker);
        }
        self.tracker = Some(tracker);
        Ok(())
    }

    /// Dispose of the device's reclamation state. Reports a tracker that was
    /// taken and never returned.
    pub fn dispose(self) -> (r: Result<(), TrackerError>)
        requires
            self.wf(),
        ensures
            r is Ok <==> self.tracker_home(),
            r is Err ==> r == Err::<(), TrackerError>(TrackerError::NotReturned),
    {
        if self.tracker.is_some() {
            Ok(())
        } else {
            Err(TrackerError::NotReturned)
        }
    }

    /// Hand over an object whose owner released it. It is destroyed once the
    /// device is done with every submission made before the next sweep.
    pub fn retire(&mut self, object: u64)
        requires
            old(self).wf(),
        ensures
            final(self).wf(),
            final(self).unstamped_spec() == old(self).unstamped_spec().push(object),
            final(self).same_queues(old(self)),
            final(self).batches_spec() == old(self).batches_spec(),
            final(self).tracker_home() == old(self).tracker_home(),
    {
        self.unstamped.push(object);
    }
    /// Submit to queue `queue`, guarded by `fence`: the queue's epoch advances
    /// and the fence is armed with the new epoch, in one step.
    pub fn submit(&mut self, queue: usize, fence: UnarmedFence) -> (r: ArmedFence)
        requires
            old(self).wf(),
            queue < old(self).queue_count(),
            old(self).submitted(queue as int) < u64::MAX,
        ensures
            final(self).wf(),
            r@.raw == fence@,
            r@.queue == old(self).queue_id(queue as int),
            r@.epoch == old(self).submitted(queue as int) + 1,
            final(self).raw_spec() == old(self).raw_spec(),
            final(self).queue_count() == old(self).queue_count(),
            final(self).submitted(queue as int) == old(self).submitted(queue as int) + 1,
            forall|q: int|
                #![trigger final(self).queue_id(q)]
                #![trigger final(self).submitted(q)]
                #![trigger final(self).completed(q)]
                #![trigger final(self).ready_epochs(q)]
                0 <= q < old(self).queue_count() ==> {
                    &&& final(self).queue_id(q) == old(self).queue_id(q)
                    &&& final(self).completed(q) == old(self).completed(q)
                    &&& final(self).ready_epochs(q) == old(self).ready_epochs(q)
                    &&& (q != queue ==> final(self).submitted(q) == old(self).submitted(q))
                },
            final(self).unstamped_spec() == old(self).unstamped_spec(),
            final(self).batches_spec() == old(self).batches_spec(),
            final(self).tracker_home() == old(self).tracker_home(),
    {
        let id = self.queues[queue].id;
        let epoch = self.queues[queue].submitted + 1;
        let completed = self.queues[queue].completed;
        let ready = Ghost(self.queues@[queue as int].ready@);
        self.queues.set(queue, QueueEpochs { id, submitted: epoch, completed, ready });
        proof {
            assert forall|q1: int, q2: int|
                0 <= q1 < q2 < self.queues@.len() implies (#[trigger] self.queues@[q1]).id != (
                #[trigger] self.queues@[q2]).id by {
                assert(old(self).queues@[q1].id != old(self).queues@[q2].id);
            }
        }
        fence.arm(id, epoch)
    }

    /// Record that `fence` was observed ready: every submission to its queue
    /// up to its epoch has completed. The guarantee that no batch is
    /// destroyed early rests on `fence` having come from the device's answer
    /// (`wait_for_all_fences`, `wait_for_any_fence`, `get_fence_status`), not
    /// from `fences_after_wait` or `fence_after_poll` called with a status of
    /// the caller's choosing. A fence of no queue of this device, or
    /// with an epoch its queue has not reached, changes nothing.
    pub fn observe(&mut self, fence: &ReadyFence)
        requires
            old(self).wf(),
        ensures
            final(self).wf(),
            final(self).raw_spec() == old(self).raw_spec(),
            final(self).queue_count() == old(self).queue_count(),
            forall|q: int|
                #![trigger final(self).queue_id(q)]
                #![trigger final(self).submitted(q)]
                #![trigger final(self).completed(q)]
                #![trigger final(self).ready_epochs(q)]
                0 <= q < old(self).queue_count() ==> {
                    &&& final(self).queue_id(q) == old(self).queue_id(q)
                    &&& final(self).submitted(q) == old(self).submitted(q)
                    &&& if old(self).queue_id(q) == fence@.queue && fence@.epoch <= old(self).submitted(q) {
                        &&& final(self).completed(q) == if fence@.epoch > old(self).completed(q) {
                            fence@.epoch
                        } else {
                            old(self).completed(q)
                        }
                        &&& final(self).ready_epochs(q) == old(self).ready_epochs(q).insert(fence@.epoch)
                    } else {
                        &&& final(self).completed(q) == old(self).completed(q)
                        &&& final(self).ready_epochs(q) == old(self).ready_epochs(q)
                    }
                },
            final(self).unstamped_spec() == old(self).unstamped_spec(),
            final(self).batches_spec() == old(self).batches_spec(),
            final(self).tracker_home() == old(self).tracker_home(),
    {
        let queue = fence.queue();
        let epoch = fence.epoch();
        let n = self.queues.len();
        let mut i: usize = 0;
        while i < n
            invariant_except_break
                self.queues@ == old(self).queues@,
                forall|q: int| 0 <= q < i ==> (#[trigger] self.queues@[q]).id != queue || epoch > self.queues@[q].submitted,
            invariant
                n == self.queues@.len(),
                i <= n,
                self.wf(),
                self.raw == old(self).raw,
                self.unstamped == old(self).unstamped,
                self.batches == old(self).batches,
                self.tracker == old(self).tracker,
                self.queues@.len() == old(self).queues@.len(),
            ensures
                forall|q: int|
                    0 <= q < n ==> {
                        &&& (#[trigger] self.queues@[q]).id == old(self).queues@[q].id
                        &&& self.queues@[q].submitted == old(self).queues@[q].submitted
                        &&& if old(self).queues@[q].id == queue && epoch <= old(self).queues@[q].submitted {
                            &&& self.queues@[q].completed == if epoch > old(self).queues@[q].completed {
                                epoch
                            } else {
                                old(self).queues@[q].completed
                            }
                            &&& self.queues@[q].ready@ == old(self).queues@[q].ready@.insert(epoch)
                        } else {
                            &&& self.queues@[q].completed == old(self).queues@[q].completed
                            &&& self.queues@[q].ready@ == old(self).queues@[q].ready@
                        }
                    },
            decreases n - i,
        {
            let e = &self.queues[i];
            if e.id == queue && epoch <= e.submitted {
                let id = e.id;
                let submitted = e.submitted;
                let completed = if epoch > e.completed {
                    epoch
                } else {
                    e.completed
                };
                let ready = Ghost(e.ready@.insert(epoch));
                self.queues.set(i, QueueEpochs { id, submitted, completed, ready });
                proof {
                    assert forall|q1: int, q2: int|
                        0 <= q1 < q2 < self.queues@.len() implies (#[trigger] self.queues@[q1]).id != (
                        #[trigger] self.queues@[q2]).id by {
                        assert(old(self).queues@[q1].id != old(self).queues@[q2].id);
                    }
                }
                break ;
            }
            i = i + 1;
        }
    }

    /// Cleanup entities: stamp the objects released since the last sweep with
    /// the current epoch of every queue, as one batch. Only the holder of the
    /// device's tracker may sweep.
    pub fn cleanup(&mut self, tracker: &DeviceTracker) -> (r: Result<(), TrackerError>)
        requires
            old(self).wf(),
        ensures
            final(self).wf(),
            tracker.device_spec() != old(self).raw_spec() ==> r == Err::<(), TrackerError>(
                TrackerError::WrongDevice,
            ),
            tracker.device_spec() == old(self).raw_spec() && old(self).tracker_home() ==> r == Err::<
                (),
                TrackerError,
            >(TrackerError::NotLeased),
            r is Ok <==> tracker.device_spec() == old(self).raw_spec() && !old(self).tracker_home(),
            r is Err ==> final(self).unstamped_spec() == old(self).unstamped_spec()
                && final(self).batches_spec() == old(self).batches_spec(),
            r is Ok ==> final(self).unstamped_spec() == Seq::<u64>::empty(),
            r is Ok ==> final(self).batches_spec() == if old(self).unstamped_spec().len() > 0 {
                old(self).batches_spec().push(
                    BatchView {
                        objects: old(self).unstamped_spec(),
                        stamped: old(self).submitted_epochs(),
                    },
                )
            } else {
                old(self).batches_spec()
            },
            final(self).same_queues(old(self)),
            final(self).completed_epochs() == old(self).completed_epochs(),
            final(self).tracker_home() == old(self).tracker_home(),
    {
        if tracker.device != self.raw {
            return Err(TrackerError::WrongDevice);
        }
        if self.tracker.is_some() {
            return Err(TrackerError::NotLeased);
        }
        if self.unstamped.len() > 0 {
            let mut stamped: Vec<u64> = Vec::new();
            let mut q: usize = 0;
            while q < self.queues.len()
                invariant
                    q <= self.queues@.len(),
                    stamped@ == self.submitted_epochs().subrange(0, q as int),
                decreases self.queues.len() - q,
            {
                stamped.push(self.queues[q].submitted);
                proof {
                    assert(self.submitted_epochs().subrange(0, q + 1) =~= self.submitted_epochs().subrange(
                        0,
                        q as int,
                    ).push(self.queues@[q as int].submitted));
                }
                q = q + 1;
            }
            assert(stamped@ =~= self.submitted_epochs());
            let mut objects: Vec<u64> = Vec::new();
            std::mem::swap(&mut objects, &mut self.unstamped);
            self.batches.push(GraveyardBatch { objects, stamped });
            proof {
                assert(batch_views(self.batches@) =~= batch_views(old(self).batches@).push(
                    BatchView { objects: old(self).unstamped@, stamped: old(self).submitted_epochs() },
                ));
            }
        }
        Ok(())
    }

    /// Take out every batch whose stamped epochs have all completed, for its
    /// objects to be destroyed; the others stay. Each batch comes out once.
    pub fn collect(&mut self) -> (r: Vec<GraveyardBatch>)
        requires
            old(self).wf(),
        ensures
            final(self).wf(),
            final(self).collected(old(self), batch_views(r@)),
    {
        let ghost completed = self.completed_epochs();
        let ghost all = batch_views(self.batches@);
        let mut rest: Vec<GraveyardBatch> = Vec::new();
        std::mem::swap(&mut rest, &mut self.batches);
        let mut out: Vec<GraveyardBatch> = Vec::new();
        let mut k: usize = 0;
        let n = rest.len();
        while rest.len() > 0
            invariant
                k + rest@.len() == n == all.len(),
                batch_views(rest@) == all.subrange(k as int, n as int),
                batch_views(out@) == sweepable(all.subrange(0, k as int), completed),
                batch_views(self.batches@) == pending(all.subrange(0, k as int), completed),
                forall|b: int| 0 <= b < all.len() ==> (#[trigger] all[b]).stamped.len() == self.queues@.len(),
                forall|b: int|
                    0 <= b < self.batches@.len() ==> (#[trigger] self.batches@[b])@.stamped.len()
                        == self.queues@.len(),
                completed == self.completed_epochs(),
                self.queues == old(self).queues,
                self.raw == old(self).raw,
                self.unstamped == old(self).unstamped,
                self.tracker == old(self).tracker,
            decreases rest.len(),
        {
            let ghost before = rest@;
            let batch = rest.remove(0);
            proof {
                assert(batch_views(before)[0] == before[0]@);
                assert(batch_views(before)[0] == all[k as int]);
                assert(batch@ == all[k as int]);
                assert forall|i: int| 0 <= i < rest@.len() implies batch_views(rest@)[i] == all[k + 1 + i] by {
                    assert(rest@[i] == before[i + 1]);
                    assert(batch_views(before)[i + 1] == all[k + 1 + i]);
                }
                assert(all.subrange(0, k + 1).drop_last() =~= all.subrange(0, k as int));
                assert(all.subrange(0, k + 1).last() == all[k as int]);
                assert(batch_views(rest@) =~= all.subrange(k + 1, n as int));
            }
            let mut ready = true;
            let mut q: usize = 0;
            while q < self.queues.len()
                invariant
                    q <= self.queues@.len(),
                    batch@.stamped.len() == self.queues@.len(),
                    completed == self.completed_epochs(),
                    ready <==> forall|j: int| 0 <= j < q ==> #[trigger] batch@.stamped[j] <= completed[j],
                decreases self.queues.len() - q,
            {
                if batch.stamped[q] > self.queues[q].completed {
                    ready = false;
                }
                q = q + 1;
            }
            assert(ready <==> destroyable(completed, batch@));
            proof {
                lemma_sweep_step(all, completed, k as int);
            }
            if ready {
                out.push(batch);
            } else {
                self.batches.push(batch);
            }
            k = k + 1;
        }
        proof {
            assert(all.subrange(0, n as int) =~= all);
        }
        out
    }
}

proof fn lemma_sweepable_destroyable(s: Seq<BatchView>, completed: Seq<u64>)
    ensures
        forall|i: int|
            0 <= i < sweepable(s, completed).len() ==> destroyable(
                completed,
                #[trigger] sweepable(s, completed)[i],
            ),
        sweepable(s, completed).len() + pending(s, completed).len() == s.len(),
        sweepable(pending(s, completed), completed).len() == 0,
    decreases s.len(),
{
    if s.len() > 0 {
        lemma_sweepable_destroyable(s.drop_last(), completed);
        let r = pending(s.drop_last(), completed);
        if !destroyable(completed, s.last()) {
            let r2 = r.push(s.last());
            assert(r2.drop_last() =~= r);
        }
    }
}

/// A batch that a collection hands out for destruction was stamped, for
/// every queue, with zero (no submission yet) or with an epoch no later than
/// one whose fence the device had been observed to report ready.
pub proof fn lemma_destroyed_only_after_ready(
    before: &Device,
    after: &Device,
    out: Seq<BatchView>,
    i: int,
)
    requires
        before.wf(),
        after.collected(before, out),
        0 <= i < out.len(),
    ensures
        out[i].stamped.len() == before.queue_count(),
        forall|q: int|
            0 <= q < before.queue_count() ==> #[trigger] out[i].stamped[q] == 0 || exists|e: u64|
                before.ready_epochs(q).contains(e) && out[i].stamped[q] <= e,
{
    lemma_sweepable_destroyable(before.batches_spec(), before.completed_epochs());
    assert(destroyable(before.completed_epochs(), out[i]));
    assert forall|q: int| 0 <= q < before.queue_count() implies #[trigger] out[i].stamped[q] == 0
        || exists|e: u64| before.ready_epochs(q).contains(e) && out[i].stamped[q] <= e by {
        assert(before.completed_epochs()[q] == before.completed(q));
        if before.completed(q) != 0 {
            assert(before.ready_epochs(q).contains(before.completed(q)));
        }
    }
}

/// Each batch is handed out once: a collection splits the batches into
/// those handed out and those kept, and a second collection right after the
/// first hands out nothing.
pub proof fn lemma_collect_once(
    d0: &Device,
    d1: &Device,
    out1: Seq<BatchView>,
    d2: &Device,
    out2: Seq<BatchView>,
)
    requires
        d1.collected(d0, out1),
        d2.collected(d1, out2),
    ensures
        out1.len() + d1.batches_spec().len() == d0.batches_spec().len(),
        out2.len() == 0,
        d2.batches_spec() == d1.batches_spec(),
{
    lemma_sweepable_destroyable(d0.batches_spec(), d0.completed_epochs());
    lemma_pending_stable(d0.batches_spec(), d0.completed_epochs());
}

proof fn lemma_pending_stable(s: Seq<BatchView>, completed: Seq<u64>)
    ensures
        pending(pending(s, completed), completed) == pending(s, completed),
    decreases s.len(),
{
    if s.len() > 0 {
        lemma_pending_stable(s.drop_last(), completed);
        let r = pending(s.drop_last(), completed);
        if !destroyable(completed, s.last()) {
            let r2 = r.push(s.last());
            assert(r2.drop_last() =~= r);
        }
    }
}

} // verus!
