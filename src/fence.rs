use vstd::prelude::*;
use vstd::multiset::{lemma_multiset_empty_len, Multiset};
use vstd::seq_lib::to_multiset_build;

use crate::device::{FenceStatus, RawDevice, WaitStatus};
use crate::errors::{DeviceLost, DeviceLostOrOomError, OomError};

verus! {

/// Identifies a queue: its family, and its index within the family.
#[derive(Clone, Copy, Debug, PartialEq, Eq, Structural)]
pub struct QueueId {
    pub family: u32,
    pub index: u32,
}

/// A submitted fence, as plain values: its handle, the queue it was
/// submitted to, and the epoch of that submission.
pub struct FenceView {
    pub raw: u64,
    pub queue: QueueId,
    pub epoch: u64,
}

/// Fence that wasn't submitted to the queue.
#[derive(Debug)]
pub struct UnarmedFence {
    raw: u64,
}

/// Fence that was submitted to the queue.
#[derive(Debug)]
pub struct ArmedFence {
    raw: u64,
    queue: QueueId,
    epoch: u64,
}

/// Fence that was successfully checked for signalling.
#[derive(Debug)]
pub struct ReadyFence {
    raw: u64,
    queue: QueueId,
    epoch: u64,
}

/// Flag to wait for...
#[derive(Clone, Copy, Debug, PartialEq, Eq, Structural)]
pub enum WaitFor {
    /// At least one fence.
    Any,
    /// All fences.
    All,
}

impl View for UnarmedFence {
    type V = u64;

    closed spec fn view(&self) -> u64 {
        self.raw
    }
}

impl View for ArmedFence {
    type V = FenceView;

    closed spec fn view(&self) -> FenceView {
        FenceView { raw: self.raw, queue: self.queue, epoch: self.epoch }
    }
}

impl View for ReadyFence {
    type V = FenceView;

    closed spec fn view(&self) -> FenceView {
        FenceView { raw: self.raw, queue: self.queue, epoch: self.epoch }
    }
}

pub open spec fn armed_views(s: Seq<ArmedFence>) -> Seq<FenceView> {
    s.map_values(|f: ArmedFence| f@)
}

pub open spec fn ready_views(s: Seq<ReadyFence>) -> Seq<FenceView> {
    s.map_values(|f: ReadyFence| f@)
}

impl UnarmedFence {
    /// Wrap the handle of a fence in the unsignalled state.
    pub fn new(raw: u64) -> (r: UnarmedFence)
        ensures
            r@ == raw,
    {
        UnarmedFence { raw }
    }

    pub fn raw(&self) -> (r: u64)
        ensures
            r == self@,
    {
        self.raw
    }

    /// Tag the fence with the queue and epoch of the submission it guards.
    pub(crate) fn arm(self, queue: QueueId, epoch: u64) -> (r: ArmedFence)
        ensures
            r@ == (FenceView { raw: self@, queue, epoch }),
    {
        ArmedFence { raw: self.raw, queue, epoch }
    }
}

impl ArmedFence {
    pub fn raw(&self) -> (r: u64)
        ensures
            r == self@.raw,
    {
        self.raw
    }

    pub fn queue(&self) -> (r: QueueId)
        ensures
            r == self@.queue,
    {
        self.queue
    }

    pub fn epoch(&self) -> (r: u64)
        ensures
            r == self@.epoch,
    {
        self.epoch
    }

    fn into_ready(self) -> (r: ReadyFence)
        ensures
            r@ == self@,
    {
        ReadyFence { raw: self.raw, queue: self.queue, epoch: self.epoch }
    }
}

impl ReadyFence {
    pub fn raw(&self) -> (r: u64)
        ensures
            r == self@.raw,
    {
        self.raw
    }

    pub fn queue(&self) -> (r: QueueId)
        ensures
            r == self@.queue,
    {
        self.queue
    }

    pub fn epoch(&self) -> (r: u64)
        ensures
            r == self@.epoch,
    {
        self.epoch
    }

    /// The fence, once reset on the device, can be submitted again.
    pub fn into_unarmed(self) -> (r: UnarmedFence)
        ensures
            r@ == self@.raw,
    {
        UnarmedFence { raw: self.raw }
    }
}

/// Turn every armed fence into a ready one, keeping handle, queue and epoch.
fn all_ready(fences: Vec<ArmedFence>) -> (r: Vec<ReadyFence>)
    ensures
        ready_views(r@) == armed_views(fences@),
{
    let mut fences = fences;
    let ghost given = armed_views(fences@);
    let mut reversed: Vec<ReadyFence> = Vec::new();
    while fences.len() > 0
        invariant
            fences@.len() + reversed@.len() == given.len(),
            forall|i: int| 0 <= i < fences@.len() ==> (#[trigger] fences@[i])@ == given[i],
            forall|i: int|
                0 <= i < reversed@.len() ==> (#[trigger] reversed@[i])@ == given[given.len() - 1
                    - i],
        decreases fences.len(),
    {
        let f = fences.pop().unwrap();
        reversed.push(f.into_ready());
    }
    let mut r: Vec<ReadyFence> = Vec::new();
    while reversed.len() > 0
        invariant
            r@.len() + reversed@.len() == given.len(),
            forall|i: int| 0 <= i < r@.len() ==> (#[trigger] r@[i])@ == given[i],
            forall|i: int|
                0 <= i < reversed@.len() ==> (#[trigger] reversed@[i])@ == given[given.len() - 1
                    - i],
        decreases reversed.len(),
    {
        let f = reversed.pop().unwrap();
        r.push(f);
    }
    assert(ready_views(r@) =~= given);
    r
}

/// What a wait on `fences` with every fence asked for returns, given what the
/// device reported: all of them ready on success, all of them back untouched
/// on timeout, the device's error otherwise.
///
/// `status` must be the device's own answer for these fences: a ready fence
/// made from any other status claims a completion the device never reported,
/// and `Device::observe` would then let resources be destroyed too early.
pub fn fences_after_wait(fences: Vec<ArmedFence>, status: WaitStatus) -> (r: Result<
    Result<Vec<ReadyFence>, Vec<ArmedFence>>,
    DeviceLostOrOomError,
>)
    ensures
        status == WaitStatus::Success <==> r matches Ok(Ok(_)),
        status == WaitStatus::Timeout <==> r matches Ok(Err(_)),
        r matches Ok(Ok(ready)) ==> ready_views(ready@) == armed_views(fences@),
        r matches Ok(Err(armed)) ==> armed_views(armed@) == armed_views(fences@),
        status == WaitStatus::OutOfHostMemory ==> r == Err::<
            Result<Vec<ReadyFence>, Vec<ArmedFence>>,
            DeviceLostOrOomError,
        >(DeviceLostOrOomError::OomError(OomError::OutOfHostMemory)),
        status == WaitStatus::OutOfDeviceMemory ==> r == Err::<
            Result<Vec<ReadyFence>, Vec<ArmedFence>>,
            DeviceLostOrOomError,
        >(DeviceLostOrOomError::OomError(OomError::OutOfDeviceMemory)),
        status == WaitStatus::DeviceLost ==> r == Err::<
            Result<Vec<ReadyFence>, Vec<ArmedFence>>,
            DeviceLostOrOomError,
        >(DeviceLostOrOomError::DeviceLost(DeviceLost)),
{
    match status {
        WaitStatus::Success => Ok(Ok(all_ready(fences))),
        WaitStatus::Timeout => Ok(Err(fences)),
        WaitStatus::OutOfHostMemory => Err(DeviceLostOrOomError::OomError(OomError::OutOfHostMemory)),
        WaitStatus::OutOfDeviceMemory => Err(
            DeviceLostOrOomError::OomError(OomError::OutOfDeviceMemory),
        ),
        WaitStatus::DeviceLost => Err(DeviceLostOrOomError::DeviceLost(DeviceLost)),
    }
}

fn raw_handles(fences: &Vec<ArmedFence>) -> (r: Vec<u64>)
    ensures
        r@.len() == fences@.len(),
        forall|i: int| 0 <= i < r@.len() ==> r@[i] == (#[trigger] fences@[i])@.raw,
{
    let mut r: Vec<u64> = Vec::new();
    let mut i: usize = 0;
    while i < fences.len()
        invariant
            i <= fences@.len(),
            r@.len() == i,
            forall|k: int| 0 <= k < i ==> r@[k] == (#[trigger] fences@[k])@.raw,
        decreases fences.len() - i,
    {
        r.push(fences[i].raw());
        i = i + 1;
    }
    r
}

/// Wait for all fences.
/// Returns collection of `ReadyFence` if all fences are signalled.
/// Returns collection of `ArmedFence` if not all fences are signalled in before timeout.
/// Returns error if failed otherwise.
pub fn wait_for_all_fences<D: RawDevice>(device: &D, fences: Vec<ArmedFence>, timeout: u64) -> (r:
    Result<Result<Vec<ReadyFence>, Vec<ArmedFence>>, DeviceLostOrOomError>)
    ensures
        r matches Ok(Ok(ready)) ==> ready_views(ready@) == armed_views(fences@),
        r matches Ok(Err(armed)) ==> armed_views(armed@) == armed_views(fences@),
{
    let raws = raw_handles(&fences);
    let status = device.wait_for_fences(&raws, true, timeout);
    fences_after_wait(fences, status)
}

/// What a poll of `fence` returns, given what the device reported.
///
/// `status` must be the device's own answer for this fence: a ready fence
/// made from any other status claims a completion the device never reported,
/// and `Device::observe` would then let resources be destroyed too early.
pub fn fence_after_poll(fence: ArmedFence, status: FenceStatus) -> (r: Result<
    Result<ReadyFence, ArmedFence>,
    DeviceLost,
>)
    ensures
        status == FenceStatus::Ready <==> r matches Ok(Ok(_)),
        status == FenceStatus::NotReady <==> r matches Ok(Err(_)),
        status == FenceStatus::DeviceLost <==> r is Err,
        r matches Ok(Ok(ready)) ==> ready@ == fence@,
        r matches Ok(Err(armed)) ==> armed@ == fence@,
{
    match status {
        FenceStatus::Ready => Ok(Ok(fence.into_ready())),
        FenceStatus::NotReady => Ok(Err(fence)),
        FenceStatus::DeviceLost => Err(DeviceLost),
    }
}

/// Check fence status.
/// Returns `ReadyFence` if fence is signalled.
/// Returns back `ArmedFence` if fence is not signalled.
/// Returns error if failed.
pub fn get_fence_status<D: RawDevice>(device: &D, fence: ArmedFence) -> (r: Result<
    Result<ReadyFence, ArmedFence>,
    DeviceLost,
>)
    ensures
        r matches Ok(Ok(ready)) ==> ready@ == fence@,
        r matches Ok(Err(armed)) ==> armed@ == fence@,
{
    let status = device.get_fence_status(fence.raw());
    fence_after_poll(fence, status)
}

/// `f` is the view of one of `s`.
pub open spec fn one_of(f: FenceView, s: Seq<ArmedFence>) -> bool {
    exists|j: int| 0 <= j < s.len() && s[j]@ == f
}

/// Wait until at least one of `fences` is signalled.
/// Returns the fences found signalled and those still pending, which
/// together are the fences given, if the device reports success.
/// Returns back all fences, untouched, if none is signalled before timeout.
/// Returns error if failed otherwise.
pub fn wait_for_any_fence<D: RawDevice>(device: &D, fences: Vec<ArmedFence>, timeout: u64) -> (r:
    Result<Result<(Vec<ReadyFence>, Vec<ArmedFence>), Vec<ArmedFence>>, DeviceLostOrOomError>)
    ensures
        r matches Ok(Ok((ready, pending))) ==> {
            &&& ready@.len() + pending@.len() == fences@.len()
            &&& ready_views(ready@).to_multiset().add(armed_views(pending@).to_multiset())
                == armed_views(fences@).to_multiset()
            &&& forall|i: int| 0 <= i < ready@.len() ==> one_of((#[trigger] ready@[i])@, fences@)
            &&& forall|i: int| 0 <= i < pending@.len() ==> one_of((#[trigger] pending@[i])@, fences@)
        },
        r matches Ok(Err(armed)) ==> armed_views(armed@) == armed_views(fences@),
{
    let raws = raw_handles(&fences);
    let status = device.wait_for_fences(&raws, false, timeout);
    match status {
        WaitStatus::Success => {},
        WaitStatus::Timeout => {
            return Ok(Err(fences));
        },
        WaitStatus::OutOfHostMemory => {
            return Err(DeviceLostOrOomError::OomError(OomError::OutOfHostMemory));
        },
        WaitStatus::OutOfDeviceMemory => {
            return Err(DeviceLostOrOomError::OomError(OomError::OutOfDeviceMemory));
        },
        WaitStatus::DeviceLost => {
            return Err(DeviceLostOrOomError::DeviceLost(DeviceLost));
        },
    }
    let ghost given = fences@;
    let mut rest = fences;
    let mut ready: Vec<ReadyFence> = Vec::new();
    let mut pending: Vec<ArmedFence> = Vec::new();
    proof {
        assert(ready_views(ready@) =~= Seq::<FenceView>::empty());
        assert(armed_views(pending@) =~= Seq::<FenceView>::empty());
        ready_views(ready@).to_multiset_ensures();
        armed_views(pending@).to_multiset_ensures();
        lemma_multiset_empty_len(ready_views(ready@).to_multiset());
        lemma_multiset_empty_len(armed_views(pending@).to_multiset());
        assert(ready_views(ready@).to_multiset() =~= Multiset::<FenceView>::empty());
        assert(armed_views(pending@).to_multiset() =~= Multiset::<FenceView>::empty());
    }
    while rest.len() > 0
        invariant
            rest@.len() + ready@.len() + pending@.len() == given.len(),
            forall|i: int| 0 <= i < rest@.len() ==> (#[trigger] rest@[i]) == given[i],
            forall|i: int| 0 <= i < ready@.len() ==> one_of((#[trigger] ready@[i])@, given),
            forall|i: int| 0 <= i < pending@.len() ==> one_of((#[trigger] pending@[i])@, given),
            armed_views(rest@).to_multiset().add(ready_views(ready@).to_multiset()).add(
                armed_views(pending@).to_multiset(),
            ) == armed_views(given).to_multiset(),
        decreases rest.len(),
    {
        let ghost before = rest@;
        let fence = rest.pop().unwrap();
        proof {
            assert(armed_views(before) =~= armed_views(rest@).push(fence@));
            to_multiset_build(armed_views(rest@), fence@);
        }
        let ghost j = rest@.len() as int;
        assert(fence == given[j]);
        assert(one_of(fence@, given));
        let status = device.get_fence_status(fence.raw());
        match fence_after_poll(fence, status) {
            Ok(Ok(f)) => {
                let ghost r0 = ready@;
                ready.push(f);
                proof {
                    assert(ready_views(ready@) =~= ready_views(r0).push(f@));
                    to_multiset_build(ready_views(r0), f@);
                }
            },
            Ok(Err(f)) => {
                let ghost p0 = pending@;
                pending.push(f);
                proof {
                    assert(armed_views(pending@) =~= armed_views(p0).push(f@));
                    to_multiset_build(armed_views(p0), f@);
                }
            },
            Err(lost) => {
                return Err(DeviceLostOrOomError::DeviceLost(lost));
            },
        }
    }
    proof {
        assert(armed_views(rest@) =~= Seq::<FenceView>::empty());
        armed_views(rest@).to_multiset_ensures();
        lemma_multiset_empty_len(armed_views(rest@).to_multiset());
        assert(armed_views(rest@).to_multiset() =~= Multiset::<FenceView>::empty());
        assert(given == fences@);
    }
    Ok(Ok((ready, pending)))
}

} // verus!
