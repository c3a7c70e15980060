//! A command queue bound to one context and one device.
use vstd::prelude::*;
use crate::context::{device_at, Context};
use crate::error::OclError;
use crate::runtime::{apply, queue_live, Model, Runtime, Submitted};

verus! {

/// A command queue. Copies of a queue are handles to the same native queue:
/// copying does not take another reference, and exactly one `release` over
/// all copies succeeds.
#[derive(Debug, Clone, Copy, PartialEq, Eq, Structural)]
pub struct Queue {
    obj_raw: usize,
    context_obj: u64,
    device_id: u64,
}

/// The model after one release of native queue `q`.
pub open spec fn released(m: Model, q: usize) -> Model {
    Model { queues: m.queues.update(q as int, (m.queues[q as int] - 1) as u32), ..m }
}

impl Queue {
    pub closed spec fn id(self) -> usize {
        self.obj_raw
    }

    pub closed spec fn context(self) -> u64 {
        self.context_obj
    }

    pub closed spec fn device(self) -> u64 {
        self.device_id
    }

    /// Opens a queue on the device that `device_idx` selects in `context`
    /// (the first device when `None`); indices past the last device wrap
    /// around.
    pub fn new(context: &Context, device_idx: Option<usize>, rt: &mut Runtime) -> (r: Queue)
        requires
            context.wf(),
            old(rt).wf(),
        ensures
            final(rt).wf(),
            r.device() == device_at(
                context.devices(),
                match device_idx {
                    Some(i) => i as int,
                    None => 0,
                },
            ),
            r.context() == context.handle(),
            r.id() == old(rt).model().queues.len(),
            final(rt).model() == (Model { queues: old(rt).model().queues.push(1), ..old(rt).model() }),
            final(rt).pending() == old(rt).pending(),
    {
        let mut device_idxs: Vec<usize> = Vec::new();
        match device_idx {
            Some(idx) => device_idxs.push(idx),
            None => {},
        }
        let device_ids = context.resolve_device_idxs(&device_idxs);
        let device_id = device_ids[0];
        proof {
            if device_idx is None {
                vstd::arithmetic::div_mod::lemma_small_mod(0, context.devices().len());
            }
        }
        let obj_raw = rt.create_queue();
        Queue { obj_raw, context_obj: context.obj_raw(), device_id }
    }

    /// Blocks until every command enqueued so far has completed.
    pub fn finish(&self, rt: &mut Runtime)
        requires
            old(rt).wf(),
        ensures
            final(rt).wf(),
            final(rt).model() == apply(old(rt).model(), old(rt).pending()),
            final(rt).pending() == Seq::<Submitted>::empty(),
    {
        rt.finish();
    }

    /// The native queue's index in its runtime.
    pub fn obj_raw(&self) -> (r: usize)
        ensures
            r == self.id(),
    {
        self.obj_raw
    }

    /// The native context handle this queue was opened in.
    pub fn context_obj(&self) -> (r: u64)
        ensures
            r == self.context(),
    {
        self.context_obj
    }

    /// The device this queue runs on (not the index passed to `new`).
    pub fn device_id(&self) -> (r: u64)
        ensures
            r == self.device(),
    {
        self.device_id
    }

    /// Drops the native queue's reference. The first release over all copies
    /// succeeds; every later one fails with `ReleaseFailed` and changes
    /// nothing.
    pub fn release(&mut self, rt: &mut Runtime) -> (r: Result<(), OclError>)
        requires
            old(rt).wf(),
        ensures
            *final(self) == *old(self),
            final(rt).wf(),
            final(rt).pending() == old(rt).pending(),
            queue_live(old(rt).model(), old(self).id()) ==> r is Ok && final(rt).model() == released(
                old(rt).model(),
                old(self).id(),
            ),
            !queue_live(old(rt).model(), old(self).id()) ==> r == Err::<(), OclError>(OclError::ReleaseFailed)
                && final(rt).model() == old(rt).model(),
    {
        rt.release_queue(self.obj_raw)
    }
}

/// Copies of a queue share one native reference: of two releases made through
/// any copies of a newly opened queue, the first succeeds and brings the
/// native queue down to no reference, and the second is refused and leaves it
/// there.
pub proof fn lemma_clone_release(m: Model, a: Queue, b: Queue)
    requires
        a == b,
        a.id() < m.queues.len(),
        m.queues[a.id() as int] == 1,
    ensures
        queue_live(m, a.id()),
        !queue_live(released(m, a.id()), b.id()),
        released(m, a.id()).queues[b.id() as int] == 0,
        released(m, a.id()).queues.len() == m.queues.len(),
{
}

} // verus!
