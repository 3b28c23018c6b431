use std::cell::RefCell;

use rendy_memory::fence::{fence_after_poll, fences_after_wait};
use rendy_memory::{
    get_fence_status, wait_for_all_fences, wait_for_any_fence, ArmedFence, Device, DeviceLost,
    DeviceLostOrOomError, FenceStatus, MappingError, OomError, QueueId, RawDevice, TrackerError,
    UnarmedFence, WaitStatus,
};

/// A device whose fences are signalled when the test says so.
struct FenceDevice {
    signalled: RefCell<Vec<u64>>,
    lost: bool,
    waits: RefCell<Vec<(Vec<u64>, bool, u64)>>,
}

impl FenceDevice {
    fn new() -> Self {
        FenceDevice { signalled: RefCell::new(Vec::new()), lost: false, waits: RefCell::new(Vec::new()) }
    }

    fn signal(&self, fence: u64) {
        self.signalled.borrow_mut().push(fence);
    }
}

impl RawDevice for FenceDevice {
    fn allocate_memory(&self, _type_index: u32, _size: u64) -> Result<u64, OomError> {
        Err(OomError::OutOfDeviceMemory)
    }

    fn free_memory(&self, _memory: u64) {}

    fn map_memory(&self, _memory: u64, _offset: u64, _size: u64) -> Result<u64, MappingError> {
        Err(MappingError::MappingFailed)
    }

    fn unmap_memory(&self, _memory: u64, _offset: u64, _size: u64) {}

    fn wait_for_fences(&self, fences: &Vec<u64>, wait_all: bool, timeout: u64) -> WaitStatus {
        self.waits.borrow_mut().push((fences.clone(), wait_all, timeout));
        if self.lost {
            return WaitStatus::DeviceLost;
        }
        let s = self.signalled.borrow();
        let done = if wait_all {
            fences.iter().all(|f| s.contains(f))
        } else {
            fences.iter().any(|f| s.contains(f))
        };
        if done {
            WaitStatus::Success
        } else {
            WaitStatus::Timeout
        }
    }

    fn get_fence_status(&self, fence: u64) -> FenceStatus {
        if self.lost {
            FenceStatus::DeviceLost
        } else if self.signalled.borrow().contains(&fence) {
            FenceStatus::Ready
        } else {
            FenceStatus::NotReady
        }
    }
}

const GRAPHICS: QueueId = QueueId { family: 0, index: 0 };
const TRANSFER: QueueId = QueueId { family: 1, index: 0 };

fn two_queue_device() -> Device {
    Device::new(42, vec![GRAPHICS, TRANSFER])
}

fn armed(device: &mut Device, queue: usize, raw: u64) -> ArmedFence {
    device.submit(queue, UnarmedFence::new(raw))
}

#[test]
fn submission_arms_fence_with_next_epoch() {
    let mut device = two_queue_device();
    let f1 = armed(&mut device, 0, 10);
    let f2 = armed(&mut device, 0, 11);
    let f3 = armed(&mut device, 1, 12);
    assert_eq!((f1.raw(), f1.queue(), f1.epoch()), (10, GRAPHICS, 1));
    assert_eq!((f2.raw(), f2.queue(), f2.epoch()), (11, GRAPHICS, 2));
    assert_eq!((f3.raw(), f3.queue(), f3.epoch()), (12, TRANSFER, 1));
}

#[test]
fn wait_all_returns_ready_set_when_all_signalled() {
    let mut device = two_queue_device();
    let fences = vec![armed(&mut device, 0, 10), armed(&mut device, 1, 11)];
    let gpu = FenceDevice::new();
    gpu.signal(10);
    gpu.signal(11);
    let ready = wait_for_all_fences(&gpu, fences, 1000).unwrap().ok().unwrap();
    let seen: Vec<(u64, QueueId, u64)> = ready.iter().map(|f| (f.raw(), f.queue(), f.epoch())).collect();
    assert_eq!(seen, vec![(10, GRAPHICS, 1), (11, TRANSFER, 1)]);
    assert_eq!(gpu.waits.borrow().as_slice(), &[(vec![10, 11], true, 1000)]);
}

#[test]
fn wait_all_timeout_returns_armed_set_unchanged() {
    let mut device = two_queue_device();
    let fences = vec![armed(&mut device, 0, 10), armed(&mut device, 0, 11), armed(&mut device, 1, 12)];
    let gpu = FenceDevice::new();
    gpu.signal(10);
    gpu.signal(12);
    let back = wait_for_all_fences(&gpu, fences, 0).unwrap().err().unwrap();
    let seen: Vec<(u64, QueueId, u64)> = back.iter().map(|f| (f.raw(), f.queue(), f.epoch())).collect();
    assert_eq!(seen, vec![(10, GRAPHICS, 1), (11, GRAPHICS, 2), (12, TRANSFER, 1)]);
}

#[test]
fn wait_all_device_lost_is_an_error() {
    let mut device = two_queue_device();
    let fences = vec![armed(&mut device, 0, 10)];
    let mut gpu = FenceDevice::new();
    gpu.lost = true;
    assert_eq!(
        wait_for_all_fences(&gpu, fences, u64::MAX).err().unwrap(),
        DeviceLostOrOomError::DeviceLost(DeviceLost)
    );
}

#[test]
fn wait_outcome_for_each_status() {
    let mut device = two_queue_device();
    let ok = fences_after_wait(vec![armed(&mut device, 0, 1)], WaitStatus::Success).unwrap().ok().unwrap();
    assert_eq!(ok[0].epoch(), 1);
    let back = fences_after_wait(vec![armed(&mut device, 0, 2)], WaitStatus::Timeout).unwrap().err().unwrap();
    assert_eq!(back[0].raw(), 2);
    assert_eq!(
        fences_after_wait(vec![armed(&mut device, 0, 3)], WaitStatus::OutOfHostMemory).err().unwrap(),
        DeviceLostOrOomError::OomError(OomError::OutOfHostMemory)
    );
    assert_eq!(
        fences_after_wait(vec![armed(&mut device, 0, 4)], WaitStatus::OutOfDeviceMemory).err().unwrap(),
        DeviceLostOrOomError::OomError(OomError::OutOfDeviceMemory)
    );
    assert_eq!(
        fences_after_wait(vec![armed(&mut device, 0, 5)], WaitStatus::DeviceLost).err().unwrap(),
        DeviceLostOrOomError::DeviceLost(DeviceLost)
    );
    assert!(fences_after_wait(Vec::new(), WaitStatus::Success).unwrap().ok().unwrap().is_empty());
}

#[test]
fn poll_outcome_for_each_status() {
    let mut device = two_queue_device();
    let ready = fence_after_poll(armed(&mut device, 1, 7), FenceStatus::Ready).unwrap().ok().unwrap();
    assert_eq!((ready.raw(), ready.queue(), ready.epoch()), (7, TRANSFER, 1));
    let back = fence_after_poll(armed(&mut device, 1, 8), FenceStatus::NotReady).unwrap().err().unwrap();
    assert_eq!((back.raw(), back.epoch()), (8, 2));
    assert!(fence_after_poll(armed(&mut device, 1, 9), FenceStatus::DeviceLost).is_err());
}

#[test]
fn get_status_polls_the_device() {
    let mut device = two_queue_device();
    let gpu = FenceDevice::new();
    let f = armed(&mut device, 0, 5);
    let f = get_fence_status(&gpu, f).unwrap().err().unwrap();
    gpu.signal(5);
    let r = get_fence_status(&gpu, f).unwrap().ok().unwrap();
    assert_eq!(r.raw(), 5);
}

#[test]
fn wait_any_splits_ready_and_pending() {
    let mut device = two_queue_device();
    let fences = vec![armed(&mut device, 0, 10), armed(&mut device, 0, 11), armed(&mut device, 1, 12)];
    let gpu = FenceDevice::new();
    gpu.signal(11);
    let (ready, pending) = wait_for_any_fence(&gpu, fences, 5).unwrap().ok().unwrap();
    assert_eq!(ready.iter().map(|f| f.raw()).collect::<Vec<_>>(), vec![11]);
    let mut rest: Vec<u64> = pending.iter().map(|f| f.raw()).collect();
    rest.sort();
    assert_eq!(rest, vec![10, 12]);
    let none = FenceDevice::new();
    let back = wait_for_any_fence(&none, pending, 5).unwrap().err().unwrap();
    assert_eq!(back.len(), 2);
}

#[test]
fn tracker_lease_is_exclusive() {
    let mut device = two_queue_device();
    let tracker = device.take_tracker().unwrap();
    assert!(device.take_tracker().is_none());
    assert!(device.return_tracker(tracker).is_ok());
    let tracker = device.take_tracker().unwrap();
    let mut other = Device::new(7, vec![GRAPHICS]);
    let foreign = other.take_tracker().unwrap();
    let foreign = device.return_tracker(foreign).unwrap_err();
    assert!(other.return_tracker(foreign).is_ok());
    device.return_tracker(tracker).unwrap();
}

#[test]
fn cleanup_requires_the_lease() {
    let mut device = two_queue_device();
    let mut other = Device::new(7, vec![GRAPHICS]);
    let foreign = other.take_tracker().unwrap();
    device.retire(100);
    assert_eq!(device.cleanup(&foreign), Err(TrackerError::WrongDevice));
    let tracker = device.take_tracker().unwrap();
    device.return_tracker(tracker).unwrap();
    let mut third = Device::new(42, vec![GRAPHICS]);
    let same_handle = third.take_tracker().unwrap();
    // The device's own tracker is home: the presented one is no lease of it.
    assert_eq!(device.cleanup(&same_handle), Err(TrackerError::NotLeased));
    assert!(device.collect().is_empty());
}

#[test]
fn batch_destroyed_only_after_its_epochs_are_ready() {
    let mut device = two_queue_device();
    let g1 = armed(&mut device, 0, 10);
    let t1 = armed(&mut device, 1, 20);
    device.retire(100);
    device.retire(101);
    let tracker = device.take_tracker().unwrap();
    assert_eq!(device.cleanup(&tracker), Ok(()));
    device.return_tracker(tracker).unwrap();
    let g2 = armed(&mut device, 0, 11);

    assert!(device.collect().is_empty());

    let gpu = FenceDevice::new();
    gpu.signal(10);
    let g1 = get_fence_status(&gpu, g1).unwrap().ok().unwrap();
    device.observe(&g1);
    // The transfer queue has not completed epoch 1 yet.
    assert!(device.collect().is_empty());

    gpu.signal(20);
    let t1 = get_fence_status(&gpu, t1).unwrap().ok().unwrap();
    device.observe(&t1);
    let batches = device.collect();
    assert_eq!(batches.len(), 1);
    assert_eq!(batches[0].objects(), &vec![100, 101]);
    assert_eq!(batches[0].stamped(), &vec![1, 1]);
    // Exactly once.
    assert!(device.collect().is_empty());
    drop(g2);
}

#[test]
fn later_epoch_completes_earlier_batches() {
    let mut device = Device::new(1, vec![GRAPHICS]);
    let _f1 = armed(&mut device, 0, 1);
    device.retire(7);
    let tracker = device.take_tracker().unwrap();
    device.cleanup(&tracker).unwrap();
    let f2 = armed(&mut device, 0, 2);
    device.retire(8);
    device.cleanup(&tracker).unwrap();
    device.return_tracker(tracker).unwrap();
    let gpu = FenceDevice::new();
    gpu.signal(2);
    let f2 = get_fence_status(&gpu, f2).unwrap().ok().unwrap();
    device.observe(&f2);
    let batches = device.collect();
    assert_eq!(batches.len(), 2);
    assert_eq!(batches[0].objects(), &vec![7]);
    assert_eq!(batches[1].objects(), &vec![8]);
}

#[test]
fn batch_without_submissions_is_destroyed_at_once() {
    let mut device = two_queue_device();
    device.retire(5);
    let tracker = device.take_tracker().unwrap();
    device.cleanup(&tracker).unwrap();
    // Nothing released since: no new batch.
    device.cleanup(&tracker).unwrap();
    device.return_tracker(tracker).unwrap();
    let batches = device.collect();
    assert_eq!(batches.len(), 1);
    assert_eq!(batches[0].stamped(), &vec![0, 0]);
}

#[test]
fn foreign_ready_fence_changes_nothing() {
    let mut device = two_queue_device();
    let mut other = Device::new(9, vec![QueueId { family: 5, index: 0 }]);
    let _mine = armed(&mut device, 0, 1);
    device.retire(3);
    let tracker = device.take_tracker().unwrap();
    device.cleanup(&tracker).unwrap();
    device.return_tracker(tracker).unwrap();
    let theirs = armed(&mut other, 0, 2);
    let gpu = FenceDevice::new();
    gpu.signal(2);
    let theirs = get_fence_status(&gpu, theirs).unwrap().ok().unwrap();
    device.observe(&theirs);
    assert!(device.collect().is_empty());
    let unarmed = theirs.into_unarmed();
    assert_eq!(unarmed.raw(), 2);
}

#[test]
fn dispose_reports_a_tracker_not_returned() {
    let device = two_queue_device();
    assert_eq!(device.dispose(), Ok(()));
    let mut device = two_queue_device();
    let _tracker = device.take_tracker().unwrap();
    assert_eq!(device.dispose(), Err(TrackerError::NotReturned));
}
