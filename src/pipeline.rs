//! An iterative pipeline: the same kernel run again and again, each run
//! reading the previous run's result, with a completion callback per run.
use vstd::prelude::*;
use crate::error::OclError;
use crate::kernel::KernelBuilder;
use crate::queue::Queue;
use crate::runtime::{
    add_all, apply, buffer_valid, lemma_apply_shape, exec_one, queue_live, Buffer, Model, Runtime, Submitted,
};

verus! {

/// `s[i] + n * addend` for each element, wrapping modulo 2^32.
pub open spec fn add_n(s: Seq<u32>, addend: u32, n: nat) -> Seq<u32> {
    Seq::new(s.len(), |i: int| ((s[i] + n * addend) % 0x1_0000_0000) as u32)
}

/// The parts of a model that commands read and write.
pub open spec fn same_data(a: Model, b: Model) -> bool {
    a.mem == b.mem && a.host == b.host && a.staged == b.staged
}

pub proof fn lemma_add_n_zero(s: Seq<u32>, addend: u32)
    ensures
        add_n(s, addend, 0) == s,
{
    assert forall|i: int| 0 <= i < s.len() implies #[trigger] add_n(s, addend, 0)[i] == s[i] by {
        vstd::arithmetic::div_mod::lemma_small_mod(s[i] as nat, 0x1_0000_0000);
    }
    assert(add_n(s, addend, 0) =~= s);
}

pub proof fn lemma_add_n_step(s: Seq<u32>, addend: u32, n: nat)
    ensures
        add_all(add_n(s, addend, n), addend) == add_n(s, addend, n + 1),
{
    let m: int = 0x1_0000_0000;
    assert forall|i: int| 0 <= i < s.len() implies #[trigger] add_all(add_n(s, addend, n), addend)[i]
        == add_n(s, addend, n + 1)[i] by {
        let x: int = s[i] + n * addend;
        vstd::arithmetic::div_mod::lemma_add_mod_noop(x, addend as int, m);
        vstd::arithmetic::div_mod::lemma_small_mod(addend as nat, m as nat);
        assert((n + 1) * (addend as int) == n * (addend as int) + addend) by (nonlinear_arith);
    }
    assert(add_all(add_n(s, addend, n), addend) =~= add_n(s, addend, n + 1));
}

pub proof fn lemma_apply_push(m: Model, p: Seq<Submitted>, x: Submitted)
    ensures
        apply(m, p.push(x)) == exec_one(apply(m, p), x),
{
    assert(p.push(x).drop_last() =~= p);
}

/// What pending commands compute depends on the data alone.
pub proof fn lemma_apply_data(a: Model, b: Model, p: Seq<Submitted>)
    requires
        same_data(a, b),
    ensures
        same_data(apply(a, p), apply(b, p)),
    decreases p.len(),
{
    if p.len() > 0 {
        lemma_apply_data(a, b, p.drop_last());
    }
}

/// Runs `iterations` invocations of `dst[i] = src[i] + addend` on `queue`:
/// the first reads `seed`, each later one reads `result`, and all write
/// `result`. After each invocation a read of `result` is enqueued, with a
/// callback carrying the iteration number. Then waits for everything.
///
/// Fails with `EnqueueFailed`, changing nothing, when the queue is not live,
/// a buffer is not of `rt`, or the buffers' lengths differ. Otherwise, with
/// `base` the contents of `seed` once the earlier commands have run, `result`
/// ends up holding `base[i] + iterations * addend` (wrapping), on the device
/// and in its host mirror.
pub fn run_add_pipeline(
    rt: &mut Runtime,
    queue: &Queue,
    seed: &Buffer,
    result: &Buffer,
    addend: u32,
    iterations: usize,
) -> (r: Result<(), OclError>)
    requires
        old(rt).wf(),
    ensures
        final(rt).wf(),
        ({
            let ok = queue_live(old(rt).model(), queue.id()) && buffer_valid(old(rt).model(), *seed)
                && buffer_valid(old(rt).model(), *result) && seed.length() == result.length();
            let base = apply(old(rt).model(), old(rt).pending()).mem[seed.id() as int];
            &&& ok ==> r is Ok
            &&& !ok ==> r == Err::<(), OclError>(OclError::EnqueueFailed) && final(rt).model() == old(rt).model()
                && final(rt).pending() == old(rt).pending()
            &&& r is Ok ==> final(rt).pending() == Seq::<Submitted>::empty()
            &&& (r is Ok && iterations > 0) ==> final(rt).model().mem[result.id() as int] == add_n(base, addend, iterations as nat)
                && final(rt).model().host[result.id() as int] == add_n(base, addend, iterations as nat)
        }),
{
    if !(rt.is_queue_live(queue.obj_raw()) && rt.is_buffer_valid(seed) && rt.is_buffer_valid(result)
        && seed.len() == result.len()) {
        return Err(OclError::EnqueueFailed);
    }
    let ghost m0 = rt.model();
    let ghost p_start = rt.pending();
    let ghost base = apply(m0, p_start).mem[seed.id() as int];
    let builder = KernelBuilder::new();
    let builder = match builder.arg_buf_named("src", Some(*seed)) {
        Ok(b) => b,
        Err(e) => {
            proof {
                reveal_strlit("src");
            }
            return Err(e);
        },
    };
    let builder = match builder.arg_scl(addend) {
        Ok(b) => b,
        Err(e) => {
            return Err(e);
        },
    };
    let builder = match builder.arg_buf(*result) {
        Ok(b) => b,
        Err(e) => {
            return Err(e);
        },
    };
    let mut kernel = builder.build();
    proof {
        lemma_add_n_zero(base, addend);
    }
    let mut itr: usize = 0;
    while itr < iterations
        invariant
            rt.wf(),
            rt.model().mem == m0.mem,
            rt.model().queues == m0.queues,
            queue_live(m0, queue.id()),
            buffer_valid(m0, *seed),
            buffer_valid(m0, *result),
            seed.length() == result.length(),
            itr <= iterations,
            kernel.src_arg() == Some(if itr == 0 { *seed } else { *result }),
            kernel.addend_arg() == Some(addend),
            kernel.dst_arg() == Some(*result),
            apply(rt.model(), rt.pending()).mem[(if itr == 0 { *seed } else { *result }).id() as int]
                == add_n(base, addend, itr as nat),
            itr > 0 ==> apply(rt.model(), rt.pending()).host[result.id() as int]
                == apply(rt.model(), rt.pending()).mem[result.id() as int],
        decreases iterations - itr,
    {
        let ghost m1 = rt.model();
        let ghost pa = rt.pending();
        proof {
            lemma_apply_shape(m1, pa);
        }
        let _kernel_event = match kernel.enqueue(rt, queue) {
            Ok(e) => e,
            Err(e) => {
                return Err(e);
            },
        };
        proof {
            let m2 = rt.model();
            let x = rt.pending().last();
            lemma_apply_data(m1, m2, pa);
            lemma_apply_push(m2, pa, x);
            assert(rt.pending() == pa.push(x));
            lemma_add_n_step(base, addend, itr as nat);
            assert(apply(m2, rt.pending()).mem[result.id() as int] == add_n(base, addend, (itr + 1) as nat));
        }
        let ghost m3 = rt.model();
        let ghost pb = rt.pending();
        let read_event = match rt.read_async(queue.obj_raw(), result) {
            Ok(e) => e,
            Err(e) => {
                return Err(e);
            },
        };
        proof {
            let m4 = rt.model();
            let x = rt.pending().last();
            lemma_apply_data(m3, m4, pb);
            lemma_apply_push(m4, pb, x);
            assert(rt.pending() == pb.push(x));
        }
        let ghost m5 = rt.model();
        let _ = rt.register_callback(&read_event, itr as u64);
        proof {
            lemma_apply_data(m5, rt.model(), rt.pending());
        }
        // From the second run on, the kernel reads the previous result.
        let _ = kernel.set_arg_buf_named("src", Some(*result));
        proof {
            reveal_strlit("src");
        }
        itr = itr + 1;
    }
    queue.finish(rt);
    Ok(())
}

/// Checks the result of run `itr` (counting from zero) of the pipeline:
/// `result[i] == seed[i] + (itr + 1) * addend`, wrapping, at every index.
/// Fails with `VerificationMismatch` otherwise.
pub fn verify_result(seed: &Vec<u32>, result: &Vec<u32>, addend: u32, itr: usize) -> (r: Result<(), OclError>)
    ensures
        r is Ok <==> result@ == add_n(seed@, addend, (itr + 1) as nat),
        r is Err ==> r == Err::<(), OclError>(OclError::VerificationMismatch),
{
    if seed.len() != result.len() {
        return Err(OclError::VerificationMismatch);
    }
    let n: u128 = itr as u128 + 1;
    assert(n * (addend as u128) <= 0x1_0000_0000_0000_0000 * 0x1_0000_0000) by (nonlinear_arith)
        requires
            n <= 0x1_0000_0000_0000_0000,
            addend < 0x1_0000_0000,
    ;
    let step: u128 = (n * (addend as u128)) % 0x1_0000_0000;
    let mut i: usize = 0;
    while i < seed.len()
        invariant
            seed@.len() == result@.len(),
            i <= seed@.len(),
            n == itr + 1,
            step == (n * addend) % 0x1_0000_0000,
            forall|j: int| 0 <= j < i ==> result@[j] == add_n(seed@, addend, (itr + 1) as nat)[j],
        decreases seed@.len() - i,
    {
        let expected: u32 = ((seed[i] as u128 + step) % 0x1_0000_0000) as u32;
        proof {
            vstd::arithmetic::div_mod::lemma_add_mod_noop_right(
                seed@[i as int] as int,
                n * addend,
                0x1_0000_0000,
            );
        }
        if result[i] != expected {
            assert(result@[i as int] != add_n(seed@, addend, (itr + 1) as nat)[i as int]);
            return Err(OclError::VerificationMismatch);
        }
        i = i + 1;
    }
    assert(result@ =~= add_n(seed@, addend, (itr + 1) as nat));
    Ok(())
}

} // verus!
