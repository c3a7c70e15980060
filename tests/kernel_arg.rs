use ocl::context::Context;
use ocl::error::OclError;
use ocl::kernel::{Kernel, KernelBuilder};
use ocl::queue::Queue;
use ocl::runtime::{Buffer, Runtime};

fn setup(len: usize) -> (Runtime, Queue, Buffer) {
    let mut rt = Runtime::new();
    let ctx = Context::new(vec![7], 1).unwrap();
    let queue = Queue::new(&ctx, None, &mut rt);
    let buffer = rt.create_buffer(len);
    (rt, queue, buffer)
}

fn set_arg(kernel: &mut Kernel, rt: &mut Runtime) {
    let buffer = rt.create_buffer(1024);
    kernel.set_arg_buf_named("src", Some(buffer)).unwrap();
    kernel.set_arg_buf_named("dst", Some(buffer)).unwrap();
}

#[test]
fn kernel_arg_ptr_out_of_scope() {
    let (mut rt, queue, _buffer) = setup(1024);
    let mut kernel = KernelBuilder::new()
        .arg_buf_named("src", None)
        .unwrap()
        .arg_scl(10)
        .unwrap()
        .arg_buf_named("dst", None)
        .unwrap()
        .build();
    set_arg(&mut kernel, &mut rt);
    for _ in 0..5 {
        kernel.enqueue(&mut rt, &queue).unwrap();
    }
    queue.finish(&mut rt);
}

#[test]
fn kernel_arg_owned_mem() {
    let ds_len = 1024;
    let (mut rt, queue, buffer) = setup(ds_len);
    let kernel_builder = {
        let buf_clone = buffer.clone();
        let kb = KernelBuilder::new();
        let kb = kb.arg_buf_named("src", Some(buf_clone)).unwrap();
        let kb = kb.arg_scl(10).unwrap();
        kb.arg_buf(buf_clone).unwrap()
    };
    let kernel = kernel_builder.build();
    for _ in 0..5 {
        kernel.enqueue(&mut rt, &queue).unwrap();
    }
    let mut output_vec = vec![1000u32; ds_len * 2];
    let read = rt.read_sync(queue.obj_raw(), &buffer).unwrap();
    output_vec[..ds_len].copy_from_slice(&read);
    for (idx, e) in output_vec.iter().enumerate() {
        if idx < ds_len {
            assert_eq!(*e, 50);
        } else {
            assert_eq!(*e, 1000);
        }
    }
}

#[test]
fn owned_argument_survives_its_scope() {
    let mut rt = Runtime::new();
    let ctx = Context::new(vec![7], 1).unwrap();
    let queue = Queue::new(&ctx, None, &mut rt);
    let kernel = {
        let narrow = rt.create_buffer(4);
        rt.write_async(queue.obj_raw(), &narrow, vec![1, 2, 3, 4]).unwrap();
        KernelBuilder::new()
            .arg_buf(narrow)
            .unwrap()
            .arg_scl(3)
            .unwrap()
            .arg_buf(narrow)
            .unwrap()
            .build()
    };
    let bound = kernel.dst_buffer().unwrap();
    for cycle in 1..4u32 {
        kernel.enqueue(&mut rt, &queue).unwrap();
        queue.finish(&mut rt);
        let v = rt.read_sync(queue.obj_raw(), &bound).unwrap();
        assert_eq!(v, vec![1 + 3 * cycle, 2 + 3 * cycle, 3 + 3 * cycle, 4 + 3 * cycle]);
    }
}

#[test]
fn unknown_argument_names_are_refused() {
    let r = KernelBuilder::new().arg_buf_named("buf", None);
    assert!(matches!(r, Err(OclError::UnknownArgumentName)));
    let kb = KernelBuilder::new().arg_buf_named("src", None).unwrap();
    assert!(matches!(kb.arg_buf(Buffer::clone(&setup(1).2)), Err(OclError::UnknownArgumentName)));
    let mut kernel = KernelBuilder::new().build();
    assert_eq!(kernel.set_arg_buf_named("addend", None), Err(OclError::UnknownArgumentName));
    assert_eq!(kernel.set_arg_scl_named("src", 1), Err(OclError::UnknownArgumentName));
    assert_eq!(kernel.set_arg_scl_named("addend", 1), Ok(()));
}

#[test]
fn enqueue_with_unbound_slot_fails() {
    let (mut rt, queue, buffer) = setup(8);
    let kernel = KernelBuilder::new()
        .arg_buf_named("src", Some(buffer))
        .unwrap()
        .arg_scl(1)
        .unwrap()
        .arg_buf_named("dst", None)
        .unwrap()
        .build();
    assert_eq!(kernel.enqueue(&mut rt, &queue), Err(OclError::EnqueueFailed));
}

#[test]
fn enqueue_with_unequal_lengths_fails() {
    let (mut rt, queue, buffer) = setup(8);
    let other = rt.create_buffer(9);
    let kernel = KernelBuilder::new()
        .arg_buf(buffer)
        .unwrap()
        .arg_scl(1)
        .unwrap()
        .arg_buf(other)
        .unwrap()
        .build();
    assert_eq!(kernel.enqueue(&mut rt, &queue), Err(OclError::EnqueueFailed));
}
