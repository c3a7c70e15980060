use ocl::context::Context;
use ocl::error::OclError;
use ocl::pipeline::{run_add_pipeline, verify_result};
use ocl::queue::Queue;
use ocl::runtime::{EventList, EventStatus, Notification, Runtime};

fn open() -> (Runtime, Queue) {
    let mut rt = Runtime::new();
    let ctx = Context::new(vec![11, 22, 33], 5).unwrap();
    let queue = Queue::new(&ctx, Some(0), &mut rt);
    (rt, queue)
}

#[test]
fn write_then_read_round_trips() {
    for values in [vec![], vec![9], vec![0, 1, 2, 3, u32::MAX]] {
        let (mut rt, queue) = open();
        let b = rt.create_buffer(values.len());
        rt.write_async(queue.obj_raw(), &b, values.clone()).unwrap();
        assert_eq!(rt.read_sync(queue.obj_raw(), &b).unwrap(), values);
    }
}

#[test]
fn host_mirror_is_filled_only_after_completion() {
    let (mut rt, queue) = open();
    let b = rt.create_buffer(3);
    rt.write_async(queue.obj_raw(), &b, vec![4, 5, 6]).unwrap();
    let e = rt.read_async(queue.obj_raw(), &b).unwrap();
    assert_eq!(rt.event_status(&e), Some(EventStatus::Pending));
    assert_eq!(*rt.host_values(&b), vec![0, 0, 0]);
    queue.finish(&mut rt);
    assert_eq!(rt.event_status(&e), Some(EventStatus::Complete));
    assert_eq!(*rt.host_values(&b), vec![4, 5, 6]);
}

#[test]
fn write_of_wrong_length_fails() {
    let (mut rt, queue) = open();
    let b = rt.create_buffer(3);
    assert_eq!(rt.write_async(queue.obj_raw(), &b, vec![1, 2]), Err(OclError::EnqueueFailed));
}

#[test]
fn pipeline_adds_addend_per_iteration() {
    for n in 1..=8usize {
        let (mut rt, queue) = open();
        let seed = rt.create_buffer(5);
        let result = rt.create_buffer(5);
        let seed_values = vec![0, 7, 250, 499, 500];
        rt.write_async(queue.obj_raw(), &seed, seed_values.clone()).unwrap();
        run_add_pipeline(&mut rt, &queue, &seed, &result, 11, n).unwrap();
        let expected: Vec<u32> = seed_values.iter().map(|s| s + (n as u32) * 11).collect();
        assert_eq!(*rt.host_values(&result), expected);
        assert_eq!(rt.read_sync(queue.obj_raw(), &result).unwrap(), expected);
        assert_eq!(rt.notifications().len(), n);
        for (k, note) in rt.notifications().iter().enumerate() {
            assert_eq!(note.context, k as u64);
            assert_eq!(note.status, EventStatus::Complete);
        }
    }
}

#[test]
fn pipeline_wraps_on_overflow() {
    let (mut rt, queue) = open();
    let seed = rt.create_buffer(2);
    let result = rt.create_buffer(2);
    rt.write_async(queue.obj_raw(), &seed, vec![u32::MAX, u32::MAX - 1]).unwrap();
    run_add_pipeline(&mut rt, &queue, &seed, &result, 1, 2).unwrap();
    assert_eq!(*rt.host_values(&result), vec![1, 0]);
}

#[test]
fn pipeline_refuses_unequal_buffers() {
    let (mut rt, queue) = open();
    let seed = rt.create_buffer(2);
    let result = rt.create_buffer(3);
    assert_eq!(run_add_pipeline(&mut rt, &queue, &seed, &result, 1, 2), Err(OclError::EnqueueFailed));
    assert_eq!(rt.notifications().len(), 0);
}

#[test]
fn callback_fires_once_when_registered_before_completion() {
    let (mut rt, queue) = open();
    let b = rt.create_buffer(2);
    rt.write_async(queue.obj_raw(), &b, vec![3, 4]).unwrap();
    let e = rt.read_async(queue.obj_raw(), &b).unwrap();
    rt.register_callback(&e, 42).unwrap();
    assert_eq!(rt.notifications().len(), 0);
    queue.finish(&mut rt);
    queue.finish(&mut rt);
    assert_eq!(
        *rt.notifications(),
        vec![Notification { event: e.index(), status: EventStatus::Complete, context: 42 }]
    );
    assert_eq!(*rt.host_values(&b), vec![3, 4]);
}

#[test]
fn callback_fires_once_when_registered_after_completion() {
    let (mut rt, queue) = open();
    let b = rt.create_buffer(1);
    let e = rt.read_async(queue.obj_raw(), &b).unwrap();
    queue.finish(&mut rt);
    assert_eq!(rt.notifications().len(), 0);
    rt.register_callback(&e, 9).unwrap();
    assert_eq!(rt.notifications().len(), 1);
    queue.finish(&mut rt);
    assert_eq!(rt.notifications().len(), 1);
    assert_eq!(rt.register_callback(&e, 10), Err(OclError::CallbackRegistrationFailed));
    assert_eq!(rt.notifications().len(), 1);
}

#[test]
fn callback_on_unknown_event_fails() {
    let (mut rt, queue) = open();
    let b = rt.create_buffer(1);
    let e = rt.read_async(queue.obj_raw(), &b).unwrap();
    let mut other = Runtime::new();
    assert_eq!(other.register_callback(&e, 1), Err(OclError::CallbackRegistrationFailed));
}

#[test]
fn device_index_wraps_around() {
    let mut rt = Runtime::new();
    let ctx = Context::new(vec![11, 22, 33], 5).unwrap();
    for k in 0..5usize {
        let a = Queue::new(&ctx, Some(3 + k), &mut rt);
        let b = Queue::new(&ctx, Some(k), &mut rt);
        assert_eq!(a.device_id(), b.device_id());
        assert_eq!(a.context_obj(), 5);
    }
    assert_eq!(Queue::new(&ctx, Some(4), &mut rt).device_id(), 22);
    assert_eq!(Queue::new(&ctx, None, &mut rt).device_id(), 11);
    assert_eq!(ctx.resolve_device_idxs(&vec![]), vec![11]);
    assert_eq!(ctx.resolve_device_idxs(&vec![2, 3, 7]), vec![33, 11, 22]);
}

#[test]
fn context_without_devices_fails() {
    assert!(matches!(Context::new(vec![], 1), Err(OclError::DeviceNotFound)));
}

#[test]
fn clone_release_is_single_shot() {
    let (mut rt, mut queue) = open();
    let mut copy = queue.clone();
    assert_eq!(copy.obj_raw(), queue.obj_raw());
    assert!(rt.is_queue_live(queue.obj_raw()));
    assert_eq!(queue.release(&mut rt), Ok(()));
    assert!(!rt.is_queue_live(copy.obj_raw()));
    assert_eq!(copy.release(&mut rt), Err(OclError::ReleaseFailed));
    assert_eq!(queue.release(&mut rt), Err(OclError::ReleaseFailed));
    assert!(!rt.is_queue_live(queue.obj_raw()));
    let b = rt.create_buffer(1);
    assert_eq!(rt.read_async(copy.obj_raw(), &b), Err(OclError::EnqueueFailed));
}

#[test]
fn event_list_keeps_order() {
    let (mut rt, queue) = open();
    let b = rt.create_buffer(1);
    let mut list = EventList::new();
    let e1 = rt.read_async(queue.obj_raw(), &b).unwrap();
    let e2 = rt.read_async(queue.obj_raw(), &b).unwrap();
    list.push(e1);
    list.push(e2);
    assert_eq!(list.len(), 2);
    assert_eq!(list.get(0), Some(e1));
    assert_eq!(list.get(1), Some(e2));
    assert_eq!(list.get(2), None);
    assert_eq!(e2.index(), e1.index() + 1);
}


#[test]
fn verify_result_accepts_exact_sums() {
    let seed = vec![0, 1, 499];
    assert_eq!(verify_result(&seed, &vec![33, 34, 532], 11, 2), Ok(()));
    assert_eq!(verify_result(&vec![u32::MAX], &vec![0], 1, 0), Ok(()));
}

#[test]
fn verify_result_reports_mismatch() {
    let seed = vec![0, 1, 499];
    assert_eq!(verify_result(&seed, &vec![33, 35, 532], 11, 2), Err(OclError::VerificationMismatch));
    assert_eq!(verify_result(&seed, &vec![33, 34], 11, 2), Err(OclError::VerificationMismatch));
}

#[test]
fn event_status_of_unknown_event_is_none() {
    let (mut rt, queue) = open();
    let b = rt.create_buffer(1);
    let e = rt.read_async(queue.obj_raw(), &b).unwrap();
    assert_eq!(Runtime::new().event_status(&e), None);
}
