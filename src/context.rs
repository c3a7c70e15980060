use vstd::prelude::*;
use crate::error::OclError;

verus! {

/// The device that a zero-based index selects among `devices`: indices past the
/// end wrap around modulo the number of devices.
pub open spec fn device_at(devices: Seq<u64>, idx: int) -> u64 {
    devices[idx % (devices.len() as int)]
}

/// A compute context: the devices it was created over and its native handle.
pub struct Context {
    device_ids: Vec<u64>,
    obj_raw: u64,
}

impl Context {
    /// The devices of this context, in order.
    pub closed spec fn devices(&self) -> Seq<u64> {
        self.device_ids@
    }

    /// The native context handle.
    pub closed spec fn handle(&self) -> u64 {
        self.obj_raw
    }

    /// A context always holds at least one device.
    pub open spec fn wf(&self) -> bool {
        self.devices().len() > 0
    }

    /// Creates a context over `device_ids`; fails when there is no device.
    pub fn new(device_ids: Vec<u64>, obj_raw: u64) -> (r: Result<Context, OclError>)
        ensures
            match r {
                Ok(c) => device_ids@.len() > 0 && c.wf() && c.devices() == device_ids@
                    && c.handle() == obj_raw,
                Err(e) => device_ids@.len() == 0 && e == OclError::DeviceNotFound,
            },
    {
        if device_ids.len() == 0 {
            Err(OclError::DeviceNotFound)
        } else {
            Ok(Context { device_ids, obj_raw })
        }
    }

    /// The devices of this context.
    pub fn device_ids(&self) -> (r: &Vec<u64>)
        ensures
            r@ == self.devices(),
    {
        &self.device_ids
    }

    /// The native context handle.
    pub fn obj_raw(&self) -> (r: u64)
        ensures
            r == self.handle(),
    {
        self.obj_raw
    }

    /// Resolves one zero-based device index, wrapping out-of-range indices.
    pub fn resolve_device_idx(&self, idx: usize) -> (r: u64)
        requires
            self.wf(),
        ensures
            r == device_at(self.devices(), idx as int),
    {
        self.device_ids[idx % self.device_ids.len()]
    }

    /// Resolves each index of `idxs` in order; an empty list selects the
    /// first device.
    pub fn resolve_device_idxs(&self, idxs: &Vec<usize>) -> (r: Vec<u64>)
        requires
            self.wf(),
        ensures
            idxs@.len() == 0 ==> r@ == seq![self.devices()[0]],
            idxs@.len() > 0 ==> r@.len() == idxs@.len() && forall|i: int|
                0 <= i < idxs@.len() ==> r@[i] == device_at(self.devices(), idxs@[i] as int),
    {
        let mut r: Vec<u64> = Vec::new();
        if idxs.len() == 0 {
            r.push(self.device_ids[0]);
            return r;
        }
        let mut i: usize = 0;
        while i < idxs.len()
            invariant
                self.wf(),
                i <= idxs@.len(),
                r@.len() == i,
                forall|j: int| 0 <= j < i ==> r@[j] == device_at(self.devices(), idxs@[j] as int),
            decreases idxs@.len() - i,
        {
            let d = self.resolve_device_idx(idxs[i]);
            r.push(d);
            i = i + 1;
        }
        r
    }
}

/// Selecting device `count + k` selects the same device as index `k`, for any
/// context with at least one device.
pub proof fn lemma_device_index_wraps(ctx: &Context, k: int)
    requires
        ctx.wf(),
        k >= 0,
    ensures
        device_at(ctx.devices(), ctx.devices().len() + k) == device_at(ctx.devices(), k),
{
    let n = ctx.devices().len() as int;
    vstd::arithmetic::div_mod::lemma_mod_add_multiples_vanish(k, n);
}

} // verus!
