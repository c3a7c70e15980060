//! The `add_scalar` kernel, `dst[i] = src[i] + addend`, and its argument
//! binding. Its parameters, in order: buffer `src`, scalar `addend`, buffer
//! `dst`.
use vstd::prelude::*;
use vstd::string::StrSliceExecFns;
use crate::error::OclError;
use crate::queue::Queue;
use crate::runtime::{buffer_valid, queue_live, with_event, Buffer, Command, Event, Runtime, Submitted};

verus! {

/// Whether `a` and `b` hold the same characters.
fn same_name(a: &str, b: &str) -> (r: bool)
    ensures
        r == (a@ == b@),
{
    let n = a.unicode_len();
    if n != b.unicode_len() {
        return false;
    }
    let mut i: usize = 0;
    while i < n
        invariant
            n == a@.len(),
            n == b@.len(),
            i <= n,
            forall|j: int| 0 <= j < i ==> a@[j] == b@[j],
        decreases n - i,
    {
        if a.get_char(i) != b.get_char(i) {
            return false;
        }
        i = i + 1;
    }
    assert(a@ =~= b@);
    true
}

/// A kernel being put together: the arguments bound so far, in parameter
/// order.
pub struct KernelBuilder {
    count: usize,
    src: Option<Buffer>,
    addend: Option<u32>,
    dst: Option<Buffer>,
}

/// A built kernel with its argument slots. A buffer slot may be left empty
/// until the kernel is enqueued.
pub struct Kernel {
    src: Option<Buffer>,
    addend: Option<u32>,
    dst: Option<Buffer>,
}

/// A builder's bound-argument count and its three slots.
pub open spec fn args_of(b: KernelBuilder) -> (nat, Option<Buffer>, Option<u32>, Option<Buffer>) {
    (b.bound(), b.src_arg(), b.addend_arg(), b.dst_arg())
}

impl KernelBuilder {
    /// How many arguments are bound.
    pub closed spec fn bound(&self) -> nat {
        self.count as nat
    }

    pub closed spec fn src_arg(&self) -> Option<Buffer> {
        self.src
    }

    pub closed spec fn addend_arg(&self) -> Option<u32> {
        self.addend
    }

    pub closed spec fn dst_arg(&self) -> Option<Buffer> {
        self.dst
    }

    /// A builder with no argument bound.
    pub fn new() -> (r: KernelBuilder)
        ensures
            r.bound() == 0,
            r.src_arg() is None,
            r.addend_arg() is None,
            r.dst_arg() is None,
    {
        KernelBuilder { count: 0, src: None, addend: None, dst: None }
    }

    /// Binds the next parameter, which must be the buffer parameter called
    /// `name`, to `buffer` (or leaves it empty for now).
    pub fn arg_buf_named(self, name: &str, buffer: Option<Buffer>) -> (r: Result<KernelBuilder, OclError>)
        ensures
            (self.bound() == 0 && name@ == "src"@) ==> r is Ok && args_of(r->Ok_0) == (1nat, buffer, self.addend_arg(), self.dst_arg()),
            (self.bound() == 2 && name@ == "dst"@) ==> r is Ok && args_of(r->Ok_0) == (3nat, self.src_arg(), self.addend_arg(), buffer),
            !((self.bound() == 0 && name@ == "src"@) || (self.bound() == 2 && name@ == "dst"@))
                ==> r == Err::<KernelBuilder, OclError>(OclError::UnknownArgumentName),
    {
        if self.count == 0 && same_name(name, "src") {
            Ok(KernelBuilder { count: 1, src: buffer, ..self })
        } else if self.count == 2 && same_name(name, "dst") {
            Ok(KernelBuilder { count: 3, dst: buffer, ..self })
        } else {
            Err(OclError::UnknownArgumentName)
        }
    }

    /// Binds the next parameter, which must be a buffer parameter, to `buffer`.
    pub fn arg_buf(self, buffer: Buffer) -> (r: Result<KernelBuilder, OclError>)
        ensures
            self.bound() == 0 ==> r is Ok && args_of(r->Ok_0) == (1nat, Some(buffer), self.addend_arg(), self.dst_arg()),
            self.bound() == 2 ==> r is Ok && args_of(r->Ok_0) == (3nat, self.src_arg(), self.addend_arg(), Some(buffer)),
            self.bound() != 0 && self.bound() != 2 ==> r == Err::<KernelBuilder, OclError>(
                OclError::UnknownArgumentName,
            ),
    {
        if self.count == 0 {
            Ok(KernelBuilder { count: 1, src: Some(buffer), ..self })
        } else if self.count == 2 {
            Ok(KernelBuilder { count: 3, dst: Some(buffer), ..self })
        } else {
            Err(OclError::UnknownArgumentName)
        }
    }

    /// Binds the next parameter, which must be the scalar parameter, to `value`.
    pub fn arg_scl(self, value: u32) -> (r: Result<KernelBuilder, OclError>)
        ensures
            self.bound() == 1 ==> r is Ok && args_of(r->Ok_0) == (2nat, self.src_arg(), Some(value), self.dst_arg()),
            self.bound() != 1 ==> r == Err::<KernelBuilder, OclError>(OclError::UnknownArgumentName),
    {
        if self.count == 1 {
            Ok(KernelBuilder { count: 2, addend: Some(value), ..self })
        } else {
            Err(OclError::UnknownArgumentName)
        }
    }

    /// The kernel with the arguments bound so far; unbound slots stay empty.
    pub fn build(self) -> (r: Kernel)
        ensures
            r.src_arg() == self.src_arg(),
            r.addend_arg() == self.addend_arg(),
            r.dst_arg() == self.dst_arg(),
    {
        Kernel { src: self.src, addend: self.addend, dst: self.dst }
    }
}

impl Kernel {
    pub closed spec fn src_arg(&self) -> Option<Buffer> {
        self.src
    }

    pub closed spec fn addend_arg(&self) -> Option<u32> {
        self.addend
    }

    pub closed spec fn dst_arg(&self) -> Option<Buffer> {
        self.dst
    }

    /// The buffer bound to `dst`, if any.
    pub fn dst_buffer(&self) -> (r: Option<Buffer>)
        ensures
            r == self.dst_arg(),
    {
        self.dst
    }

    /// Rebinds the buffer parameter called `name`, leaving the other slots as
    /// they are.
    pub fn set_arg_buf_named(&mut self, name: &str, buffer: Option<Buffer>) -> (r: Result<(), OclError>)
        ensures
            name@ == "src"@ ==> r is Ok && final(self).src_arg() == buffer
                && final(self).dst_arg() == old(self).dst_arg(),
            name@ == "dst"@ ==> r is Ok && final(self).dst_arg() == buffer
                && final(self).src_arg() == old(self).src_arg(),
            name@ != "src"@ && name@ != "dst"@ ==> r == Err::<(), OclError>(OclError::UnknownArgumentName)
                && final(self).src_arg() == old(self).src_arg()
                && final(self).dst_arg() == old(self).dst_arg(),
            final(self).addend_arg() == old(self).addend_arg(),
    {
        proof {
            reveal_strlit("src");
            reveal_strlit("dst");
            assert("src"@[0] != "dst"@[0]);
            assert("src"@ != "dst"@);
        }
        if same_name(name, "src") {
            self.src = buffer;
            Ok(())
        } else if same_name(name, "dst") {
            self.dst = buffer;
            Ok(())
        } else {
            Err(OclError::UnknownArgumentName)
        }
    }

    /// Rebinds the scalar parameter called `name`, leaving the other slots as
    /// they are.
    pub fn set_arg_scl_named(&mut self, name: &str, value: u32) -> (r: Result<(), OclError>)
        ensures
            name@ == "addend"@ ==> r is Ok && final(self).addend_arg() == Some(value),
            name@ != "addend"@ ==> r == Err::<(), OclError>(OclError::UnknownArgumentName)
                && final(self).addend_arg() == old(self).addend_arg(),
            final(self).src_arg() == old(self).src_arg(),
            final(self).dst_arg() == old(self).dst_arg(),
    {
        if same_name(name, "addend") {
            self.addend = Some(value);
            Ok(())
        } else {
            Err(OclError::UnknownArgumentName)
        }
    }

    /// Whether every slot is bound, to buffers of `rt` of equal length, and
    /// `queue` is live.
    pub open spec fn ready(&self, rt: &Runtime, queue: &Queue) -> bool {
        &&& queue_live(rt.model(), queue.id())
        &&& self.src_arg() is Some && self.addend_arg() is Some && self.dst_arg() is Some
        &&& buffer_valid(rt.model(), self.src_arg().unwrap())
        &&& buffer_valid(rt.model(), self.dst_arg().unwrap())
        &&& self.src_arg().unwrap().length() == self.dst_arg().unwrap().length()
    }

    /// Submits the kernel on `queue`. Fails with `EnqueueFailed` when a slot
    /// is unbound or the arguments or queue are not usable.
    pub fn enqueue(&self, rt: &mut Runtime, queue: &Queue) -> (r: Result<Event, OclError>)
        requires
            old(rt).wf(),
        ensures
            final(rt).wf(),
            match r {
                Ok(e) => self.ready(old(rt), queue)
                    && e.id() == old(rt).model().status.len()
                    && final(rt).model() == with_event(old(rt).model())
                    && final(rt).pending() == old(rt).pending().push(Submitted {
                        command: Command::Add {
                            src: self.src_arg().unwrap().id(),
                            dst: self.dst_arg().unwrap().id(),
                            addend: self.addend_arg().unwrap(),
                        },
                        event: e.id(),
                    }),
                Err(err) => !self.ready(old(rt), queue) && err == OclError::EnqueueFailed
                    && final(rt).model() == old(rt).model()
                    && final(rt).pending() == old(rt).pending(),
            },
    {
        match (self.src, self.addend, self.dst) {
            (Some(src), Some(addend), Some(dst)) => rt.enqueue_add(queue.obj_raw(), &src, &dst, addend),
            _ => Err(OclError::EnqueueFailed),
        }
    }
}

} // verus!
