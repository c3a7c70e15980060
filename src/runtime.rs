use vstd::prelude::*;
use crate::error::OclError;

verus! {

/// `a + b` in 32-bit unsigned arithmetic, wrapping on overflow.
pub open spec fn wrap_add(a: u32, b: u32) -> u32 {
    ((a as int + b as int) % 0x1_0000_0000) as u32
}

/// Each element of `src` with `addend` added, wrapping on overflow.
pub open spec fn add_all(src: Seq<u32>, addend: u32) -> Seq<u32> {
    Seq::new(src.len(), |i: int| wrap_add(src[i], addend))
}

/// Completion state of an asynchronous command.
#[derive(Debug, Clone, Copy, PartialEq, Eq, Structural)]
pub enum EventStatus {
    Pending,
    Running,
    Complete,
    Error,
}

impl EventStatus {
    pub open spec fn is_terminal(self) -> bool {
        self == EventStatus::Complete || self == EventStatus::Error
    }
}

/// The message a completion callback delivers: which event ended, how, and
/// the key of the user context registered with it.
#[derive(Debug, Clone, Copy, PartialEq, Eq, Structural)]
pub struct Notification {
    pub event: usize,
    pub status: EventStatus,
    pub context: u64,
}

/// A command accepted by the device, not yet executed.
#[derive(Debug, Clone, Copy, PartialEq, Eq, Structural)]
pub enum Command {
    /// Copy staged host values into a buffer.
    Write { buffer: usize, staged: usize },
    /// Copy a buffer into its host mirror.
    Read { buffer: usize },
    /// `dst[i] = src[i] + addend` for every index of `dst`.
    Add { src: usize, dst: usize, addend: u32 },
}

/// A command together with the event that reports its completion.
#[derive(Debug, Clone, Copy, PartialEq, Eq, Structural)]
pub struct Submitted {
    pub command: Command,
    pub event: usize,
}

/// Handle to a device buffer of fixed length.
#[derive(Debug, Clone, Copy, PartialEq, Eq, Structural)]
pub struct Buffer {
    idx: usize,
    len: usize,
}

impl Buffer {
    pub closed spec fn id(self) -> usize {
        self.idx
    }

    pub closed spec fn length(self) -> usize {
        self.len
    }

    /// The number of elements, fixed at creation.
    pub fn len(&self) -> (r: usize)
        ensures
            r == self.length(),
    {
        self.len
    }
}

/// Handle to the completion of one enqueued command.
#[derive(Debug, Clone, Copy, PartialEq, Eq, Structural)]
pub struct Event {
    idx: usize,
}

impl Event {
    pub closed spec fn id(self) -> usize {
        self.idx
    }

    /// The event's index in its runtime.
    pub fn index(&self) -> (r: usize)
        ensures
            r == self.id(),
    {
        self.idx
    }
}

/// An ordered set of events: one wave of enqueued work.
pub struct EventList {
    events: Vec<Event>,
}

impl EventList {
    pub closed spec fn view(&self) -> Seq<Event> {
        self.events@
    }

    /// An empty list.
    pub fn new() -> (r: EventList)
        ensures
            r@ == Seq::<Event>::empty(),
    {
        EventList { events: Vec::new() }
    }

    /// Appends `e`.
    pub fn push(&mut self, e: Event)
        ensures
            final(self)@ == old(self)@.push(e),
    {
        self.events.push(e);
    }

    /// The number of events.
    pub fn len(&self) -> (r: usize)
        ensures
            r == self@.len(),
    {
        self.events.len()
    }

    /// The event at `i`, if there is one.
    pub fn get(&self, i: usize) -> (r: Option<Event>)
        ensures
            i < self@.len() ==> r == Some(self@[i as int]),
            i >= self@.len() ==> r is None,
    {
        if i < self.events.len() {
            Some(self.events[i])
        } else {
            None
        }
    }
}

/// The state of the device runtime, apart from the commands still pending.
pub struct Model {
    /// Device memory of each buffer.
    pub mem: Seq<Seq<u32>>,
    /// Host mirror of each buffer.
    pub host: Seq<Seq<u32>>,
    /// Host values handed to write commands.
    pub staged: Seq<Seq<u32>>,
    pub status: Seq<EventStatus>,
    /// The user context key registered on each event, if any.
    pub callback: Seq<Option<u64>>,
    /// Callback notifications delivered so far, in order.
    pub fired: Seq<Notification>,
    /// Reference count of each native queue.
    pub queues: Seq<u32>,
}

pub open spec fn model_wf(m: Model) -> bool {
    &&& m.host.len() == m.mem.len()
    &&& forall|b: int| 0 <= b < m.mem.len() ==> #[trigger] m.host[b].len() == m.mem[b].len()
    &&& m.callback.len() == m.status.len()
}

/// A command refers to existing buffers, with lengths that fit.
pub open spec fn cmd_fits(m: Model, c: Command) -> bool {
    match c {
        Command::Write { buffer, staged } => buffer < m.mem.len() && staged < m.staged.len()
            && m.staged[staged as int].len() == m.mem[buffer as int].len(),
        Command::Read { buffer } => buffer < m.mem.len(),
        Command::Add { src, dst, addend } => src < m.mem.len() && dst < m.mem.len()
            && m.mem[src as int].len() == m.mem[dst as int].len(),
    }
}

/// A pending command fits and reports to an existing event.
pub open spec fn valid_cmd(m: Model, s: Submitted) -> bool {
    s.event < m.status.len() && cmd_fits(m, s.command)
}

/// Whether `b` is a buffer of this model.
pub open spec fn buffer_valid(m: Model, b: Buffer) -> bool {
    b.id() < m.mem.len() && m.mem[b.id() as int].len() == b.length()
}

/// Whether native queue `q` exists and has not been released.
pub open spec fn queue_live(m: Model, q: usize) -> bool {
    q < m.queues.len() && m.queues[q as int] > 0
}

/// `m` with one more event, pending and without callback.
pub open spec fn with_event(m: Model) -> Model {
    Model {
        status: m.status.push(EventStatus::Pending),
        callback: m.callback.push(None),
        ..m
    }
}

/// Length-`n` sequence of zeros.
pub open spec fn zeros(n: nat) -> Seq<u32> {
    Seq::new(n, |i: int| 0u32)
}

/// Marks event `e` complete and delivers its callback notification, if one
/// is registered.
pub open spec fn complete(m: Model, e: int) -> Model {
    Model {
        status: m.status.update(e, EventStatus::Complete),
        fired: match m.callback[e] {
            Some(c) => m.fired.push(
                Notification { event: e as usize, status: EventStatus::Complete, context: c },
            ),
            None => m.fired,
        },
        ..m
    }
}

/// Executes one command, then completes its event.
pub open spec fn exec_one(m: Model, s: Submitted) -> Model {
    let done = match s.command {
        Command::Write { buffer, staged } => Model {
            mem: m.mem.update(buffer as int, m.staged[staged as int]),
            ..m
        },
        Command::Read { buffer } => Model {
            host: m.host.update(buffer as int, m.mem[buffer as int]),
            ..m
        },
        Command::Add { src, dst, addend } => Model {
            mem: m.mem.update(dst as int, add_all(m.mem[src as int], addend)),
            ..m
        },
    };
    complete(done, s.event as int)
}

/// Executes `cmds` in submission order.
pub open spec fn apply(m: Model, cmds: Seq<Submitted>) -> Model
    decreases cmds.len(),
{
    if cmds.len() == 0 {
        m
    } else {
        exec_one(apply(m, cmds.drop_last()), cmds.last())
    }
}

/// How many notifications in `f` report event `e`.
pub open spec fn fired_count(f: Seq<Notification>, e: int) -> nat
    decreases f.len(),
{
    if f.len() == 0 {
        0
    } else {
        fired_count(f.drop_last(), e) + if f.last().event == e {
            1nat
        } else {
            0nat
        }
    }
}

/// An event has delivered its callback once if it has one and has ended,
/// and not at all otherwise.
pub open spec fn expected_fires(m: Model, e: int) -> nat {
    if m.callback[e] is Some && m.status[e].is_terminal() {
        1
    } else {
        0
    }
}

/// Bookkeeping of events: notifications name existing events, each event has
/// delivered its callback as `expected_fires` says, pending commands report to
/// distinct pending events, and every event that has not ended is pending.
pub open spec fn events_wf(m: Model, p: Seq<Submitted>) -> bool {
    &&& forall|k: int| 0 <= k < m.fired.len() ==> (#[trigger] m.fired[k]).event < m.status.len()
    &&& forall|e: int| 0 <= e < m.status.len() ==> #[trigger] fired_count(m.fired, e) == expected_fires(m, e)
    &&& forall|j: int| 0 <= j < p.len() ==> m.status[(#[trigger] p[j]).event as int] == EventStatus::Pending
    &&& forall|j: int, k: int| 0 <= j < k < p.len() ==> (#[trigger] p[j]).event != (#[trigger] p[k]).event
    &&& forall|e: int| 0 <= e < m.status.len() && !(#[trigger] m.status[e]).is_terminal()
        ==> exists|j: int| 0 <= j < p.len() && p[j].event == e
}

pub proof fn lemma_fired_count_push(f: Seq<Notification>, n: Notification, e: int)
    ensures
        fired_count(f.push(n), e) == fired_count(f, e) + if n.event == e {
            1nat
        } else {
            0nat
        },
{
    assert(f.push(n).drop_last() =~= f);
}

pub proof fn lemma_fired_count_absent(f: Seq<Notification>, e: int)
    requires
        forall|k: int| 0 <= k < f.len() ==> (#[trigger] f[k]).event < e,
    ensures
        fired_count(f, e) == 0,
    decreases f.len(),
{
    if f.len() > 0 {
        assert(f.last() == f[f.len() - 1]);
        lemma_fired_count_absent(f.drop_last(), e);
    }
}

/// Executing the first pending command keeps the event bookkeeping.
pub proof fn lemma_exec_one_events(m: Model, p: Seq<Submitted>)
    requires
        model_wf(m),
        p.len() > 0,
        forall|j: int| 0 <= j < p.len() ==> valid_cmd(m, #[trigger] p[j]),
        events_wf(m, p),
    ensures
        events_wf(exec_one(m, p[0]), p.drop_first()),
{
    let s = p[0];
    assert(valid_cmd(m, p[0]));
    let r = exec_one(m, s);
    let q = p.drop_first();
    let ev = s.event as int;
    assert(m.status[ev] == EventStatus::Pending);
    assert forall|k: int| 0 <= k < r.fired.len() implies (#[trigger] r.fired[k]).event < r.status.len() by {
        if k < m.fired.len() {
            assert(r.fired[k] == m.fired[k]);
        }
    }
    assert forall|e: int| 0 <= e < r.status.len() implies #[trigger] fired_count(r.fired, e)
        == expected_fires(r, e) by {
        assert(fired_count(m.fired, e) == expected_fires(m, e));
        match m.callback[ev] {
            Some(c) => {
                lemma_fired_count_push(m.fired, Notification { event: s.event, status: EventStatus::Complete, context: c }, e);
            },
            None => {},
        }
    }
    assert forall|j: int| 0 <= j < q.len() implies r.status[(#[trigger] q[j]).event as int]
        == EventStatus::Pending by {
        assert(q[j] == p[j + 1]);
        assert(valid_cmd(m, p[j + 1]));
        assert(p[0].event != p[j + 1].event);
    }
    assert forall|j: int, k: int| 0 <= j < k < q.len() implies (#[trigger] q[j]).event
        != (#[trigger] q[k]).event by {
        assert(q[j] == p[j + 1] && q[k] == p[k + 1]);
    }
    assert forall|e: int| 0 <= e < r.status.len() && !(#[trigger] r.status[e]).is_terminal()
        implies exists|j: int| 0 <= j < q.len() && q[j].event == e by {
        assert(!m.status[e].is_terminal());
        let j = choose|j: int| 0 <= j < p.len() && p[j].event == e;
        assert(j != 0);
        assert(q[j - 1] == p[j]);
    }
}

/// Executing pending commands keeps every buffer's length and the runtime's
/// well-formedness.
pub proof fn lemma_apply_shape(m: Model, p: Seq<Submitted>)
    requires
        model_wf(m),
        forall|j: int| 0 <= j < p.len() ==> valid_cmd(m, #[trigger] p[j]),
    ensures
        model_wf(apply(m, p)),
        same_shape(m, apply(m, p)),
    decreases p.len(),
{
    if p.len() > 0 {
        let q = p.drop_last();
        assert forall|j: int| 0 <= j < q.len() implies valid_cmd(m, #[trigger] q[j]) by {
            assert(q[j] == p[j]);
        }
        lemma_apply_shape(m, q);
        let a = apply(m, q);
        assert(valid_cmd(m, p[p.len() - 1]));
        lemma_valid_kept(m, a, p.last());
        lemma_exec_one_shape(a, p.last());
    }
}

/// Once a write of `values` into buffer `b` has been submitted after the
/// commands `p`, and a read of `b` after it, executing everything leaves
/// exactly `values` in the host mirror of `b`, whatever `p` holds.
pub proof fn lemma_write_read_round_trip(m: Model, p: Seq<Submitted>, b: usize, values: Seq<u32>)
    requires
        model_wf(m),
        forall|j: int| 0 <= j < p.len() ==> valid_cmd(m, #[trigger] p[j]),
        b < m.mem.len(),
        values.len() == m.mem[b as int].len(),
        m.staged.len() < usize::MAX,
    ensures
        ({
            let m1 = with_event(Model { staged: m.staged.push(values), ..m });
            let pw = p.push(Submitted {
                command: Command::Write { buffer: b, staged: m.staged.len() as usize },
                event: m.status.len() as usize,
            });
            let m2 = with_event(m1);
            let pr = pw.push(Submitted {
                command: Command::Read { buffer: b },
                event: m1.status.len() as usize,
            });
            apply(m2, pr).host[b as int] == values
        }),
{
    let m1 = with_event(Model { staged: m.staged.push(values), ..m });
    let w = Submitted {
        command: Command::Write { buffer: b, staged: m.staged.len() as usize },
        event: m.status.len() as usize,
    };
    let pw = p.push(w);
    let m2 = with_event(m1);
    let rd = Submitted { command: Command::Read { buffer: b }, event: m1.status.len() as usize };
    let pr = pw.push(rd);
    assert forall|j: int| 0 <= j < p.len() implies valid_cmd(m2, #[trigger] p[j]) by {
        lemma_valid_kept(m, m2, p[j]);
    }
    lemma_apply_shape(m2, p);
    let a = apply(m2, p);
    assert(pw.drop_last() =~= p);
    assert(pr.drop_last() =~= pw);
    assert(a.staged[m.staged.len() as int] == values);
    assert(pw.last() == w);
    assert(pr.last() == rd);
    assert(apply(m2, pw).mem[b as int] == values);
}

/// When no command is pending, every event with a registered callback has
/// delivered it exactly once, whether it was registered before or after the
/// event ended.
pub proof fn lemma_callback_exactly_once(m: Model, p: Seq<Submitted>, e: int)
    requires
        events_wf(m, p),
        p.len() == 0,
        0 <= e < m.status.len(),
        m.callback.len() == m.status.len(),
        m.callback[e] is Some,
    ensures
        fired_count(m.fired, e) == 1,
{
    if !m.status[e].is_terminal() {
        let j = choose|j: int| 0 <= j < p.len() && p[j].event == e;
    }
    assert(fired_count(m.fired, e) == expected_fires(m, e));
}

/// A read's callback notification is delivered in the same step that fills
/// the host mirror: whenever it fires, the mirror already holds the whole
/// buffer.
pub proof fn lemma_read_notifies_with_data(m: Model, s: Submitted, b: usize)
    requires
        model_wf(m),
        valid_cmd(m, s),
        s.command == (Command::Read { buffer: b }),
        m.callback[s.event as int] is Some,
    ensures
        exec_one(m, s).fired.len() == m.fired.len() + 1,
        exec_one(m, s).fired.last().event == s.event,
        exec_one(m, s).host[b as int] == m.mem[b as int],
{
}

/// Buffer lengths never change.
pub open spec fn same_shape(a: Model, b: Model) -> bool {
    &&& a.mem.len() == b.mem.len()
    &&& forall|i: int| 0 <= i < a.mem.len() ==> #[trigger] a.mem[i].len() == b.mem[i].len()
    &&& a.staged == b.staged
    &&& a.status.len() == b.status.len()
    &&& a.callback == b.callback
    &&& a.queues == b.queues
}

pub proof fn lemma_exec_one_shape(m: Model, s: Submitted)
    requires
        model_wf(m),
        valid_cmd(m, s),
    ensures
        model_wf(exec_one(m, s)),
        same_shape(m, exec_one(m, s)),
{
    let r = exec_one(m, s);
    assert forall|b: int| 0 <= b < r.mem.len() implies #[trigger] r.host[b].len() == r.mem[b].len()
        && r.mem[b].len() == m.mem[b].len() by {
        assert(m.host[b].len() == m.mem[b].len());
    }
}

/// `n` keeps every buffer of `m` at its length, every staged value and every
/// event, and may add more.
pub open spec fn extends(m: Model, n: Model) -> bool {
    &&& m.mem.len() <= n.mem.len()
    &&& forall|i: int| 0 <= i < m.mem.len() ==> #[trigger] n.mem[i].len() == m.mem[i].len()
    &&& m.staged.len() <= n.staged.len()
    &&& forall|i: int| 0 <= i < m.staged.len() ==> #[trigger] n.staged[i] == m.staged[i]
    &&& m.status.len() <= n.status.len()
}

pub proof fn lemma_valid_kept(m: Model, n: Model, s: Submitted)
    requires
        extends(m, n),
        valid_cmd(m, s),
    ensures
        valid_cmd(n, s),
{
    match s.command {
        Command::Write { buffer, staged } => {
            assert(m.mem[buffer as int].len() == n.mem[buffer as int].len());
        },
        Command::Read { buffer } => {},
        Command::Add { src, dst, addend } => {
            assert(m.mem[src as int].len() == n.mem[src as int].len());
            assert(m.mem[dst as int].len() == n.mem[dst as int].len());
        },
    }
}

fn add_wrapped(a: u32, b: u32) -> (r: u32)
    ensures
        r == wrap_add(a, b),
{
    ((a as u64 + b as u64) % 0x1_0000_0000u64) as u32
}

fn copy_values(v: &Vec<u32>) -> (r: Vec<u32>)
    ensures
        r@ == v@,
{
    let mut r: Vec<u32> = Vec::new();
    let mut i: usize = 0;
    while i < v.len()
        invariant
            i <= v@.len(),
            r@ == v@.take(i as int),
        decreases v@.len() - i,
    {
        r.push(v[i]);
        i = i + 1;
        assert(r@ =~= v@.take(i as int));
    }
    assert(v@.take(v@.len() as int) =~= v@);
    r
}

fn add_each(v: &Vec<u32>, addend: u32) -> (r: Vec<u32>)
    ensures
        r@ == add_all(v@, addend),
{
    let mut r: Vec<u32> = Vec::new();
    let mut i: usize = 0;
    while i < v.len()
        invariant
            i <= v@.len(),
            r@ =~= add_all(v@, addend).take(i as int),
        decreases v@.len() - i,
    {
        let x = add_wrapped(v[i], addend);
        r.push(x);
        i = i + 1;
    }
    r
}

/// An in-process compute device and its driver: device memory, host mirrors,
/// events with their callbacks, one in-order command stream, and the
/// reference counts of native queues.
pub struct Runtime {
    mem: Vec<Vec<u32>>,
    host: Vec<Vec<u32>>,
    staged: Vec<Vec<u32>>,
    status: Vec<EventStatus>,
    callback: Vec<Option<u64>>,
    fired: Vec<Notification>,
    queues: Vec<u32>,
    pending: Vec<Submitted>,
}

impl Runtime {
    pub closed spec fn model(&self) -> Model {
        Model {
            mem: self.mem@.map_values(|v: Vec<u32>| v@),
            host: self.host@.map_values(|v: Vec<u32>| v@),
            staged: self.staged@.map_values(|v: Vec<u32>| v@),
            status: self.status@,
            callback: self.callback@,
            fired: self.fired@,
            queues: self.queues@,
        }
    }

    /// Commands accepted and not yet executed, in submission order.
    pub closed spec fn pending(&self) -> Seq<Submitted> {
        self.pending@
    }

    pub open spec fn wf(&self) -> bool {
        &&& model_wf(self.model())
        &&& forall|j: int| 0 <= j < self.pending().len()
            ==> valid_cmd(self.model(), #[trigger] self.pending()[j])
        &&& events_wf(self.model(), self.pending())
    }

    /// A runtime with no buffer, event, command or queue.
    pub fn new() -> (r: Runtime)
        ensures
            r.wf(),
            r.pending() == Seq::<Submitted>::empty(),
            r.model().mem.len() == 0,
            r.model().status.len() == 0,
            r.model().fired.len() == 0,
            r.model().queues.len() == 0,
    {
        let r = Runtime {
            mem: Vec::new(),
            host: Vec::new(),
            staged: Vec::new(),
            status: Vec::new(),
            callback: Vec::new(),
            fired: Vec::new(),
            queues: Vec::new(),
            pending: Vec::new(),
        };
        assert(r.model().mem =~= Seq::<Seq<u32>>::empty());
        assert(r.model().host =~= Seq::<Seq<u32>>::empty());
        r
    }

    /// Executes one command and completes its event.
    fn run_one(&mut self, s: Submitted)
        requires
            model_wf(old(self).model()),
            valid_cmd(old(self).model(), s),
        ensures
            final(self).model() == exec_one(old(self).model(), s),
            final(self).pending() == old(self).pending(),
    {
        let ghost m = self.model();
        match s.command {
            Command::Write { buffer, staged } => {
                let v = copy_values(&self.staged[staged]);
                self.mem.set(buffer, v);
            },
            Command::Read { buffer } => {
                let v = copy_values(&self.mem[buffer]);
                self.host.set(buffer, v);
            },
            Command::Add { src, dst, addend } => {
                let v = add_each(&self.mem[src], addend);
                self.mem.set(dst, v);
            },
        }
        self.status.set(s.event, EventStatus::Complete);
        match self.callback[s.event] {
            Some(c) => {
                self.fired.push(
                    Notification { event: s.event, status: EventStatus::Complete, context: c },
                );
            },
            None => {},
        }
        let ghost e = exec_one(m, s);
        assert(self.model().mem =~= e.mem);
        assert(self.model().host =~= e.host);
        assert(self.model().staged =~= e.staged);
        assert(self.model().fired =~= e.fired);
        assert(self.model().status =~= e.status);
    }

    /// Blocks until every pending command has executed and its event is
    /// terminal; each completion delivers the callback registered on its event.
    #[verifier::rlimit(40)]
    pub fn finish(&mut self)
        requires
            old(self).wf(),
        ensures
            final(self).wf(),
            final(self).model() == apply(old(self).model(), old(self).pending()),
            final(self).pending() == Seq::<Submitted>::empty(),
    {
        let n = self.pending.len();
        let mut i: usize = 0;
        assert(self.pending@.skip(0) =~= self.pending@);
        while i < n
            invariant
                n == self.pending@.len(),
                self.pending@ == old(self).pending@,
                i <= n,
                model_wf(self.model()),
                self.model() == apply(old(self).model(), self.pending@.take(i as int)),
                forall|j: int| i <= j < n ==> valid_cmd(self.model(), #[trigger] self.pending()[j]),
                events_wf(self.model(), self.pending@.skip(i as int)),
            decreases n - i,
        {
            let s = self.pending[i];
            let ghost before = self.model();
            assert(valid_cmd(before, self.pending()[i as int]));
            self.run_one(s);
            proof {
                let rest = self.pending@.skip(i as int);
                assert(rest[0] == s);
                assert forall|j: int| 0 <= j < rest.len() implies valid_cmd(before, #[trigger] rest[j]) by {
                    assert(rest[j] == self.pending()[i + j]);
                }
                lemma_exec_one_events(before, rest);
                assert(rest.drop_first() =~= self.pending@.skip(i + 1));
                lemma_exec_one_shape(before, s);
                assert(self.pending@.take(i + 1).drop_last() =~= self.pending@.take(i as int));
                assert forall|j: int| i + 1 <= j < n implies valid_cmd(
                    self.model(),
                    #[trigger] self.pending()[j],
                ) by {
                    lemma_valid_kept(before, self.model(), self.pending@[j]);
                }
            }
            i = i + 1;
        }
        proof {
            assert(self.pending@.take(n as int) =~= old(self).pending@);
            assert(self.pending@.skip(n as int) =~= Seq::<Submitted>::empty());
        }
        self.pending = Vec::new();
    }

    /// Every pending command stays valid when the model only grows.
    proof fn lemma_pending_kept(&self, n: Model)
        requires
            self.wf(),
            extends(self.model(), n),
        ensures
            forall|j: int| 0 <= j < self.pending().len()
                ==> valid_cmd(n, #[trigger] self.pending()[j]),
    {
        assert forall|j: int| 0 <= j < self.pending().len() implies valid_cmd(
            n,
            #[trigger] self.pending()[j],
        ) by {
            lemma_valid_kept(self.model(), n, self.pending()[j]);
        }
    }

    /// Creates a native queue with reference count one; returns its index.
    pub fn create_queue(&mut self) -> (r: usize)
        requires
            old(self).wf(),
        ensures
            final(self).wf(),
            r == old(self).model().queues.len(),
            final(self).model() == (Model { queues: old(self).model().queues.push(1), ..old(self).model() }),
            final(self).pending() == old(self).pending(),
    {
        let r = self.queues.len();
        self.queues.push(1);
        proof {
            let n = self.model();
            assert(n.mem =~= old(self).model().mem);
            assert(n.host =~= old(self).model().host);
            assert(n.staged =~= old(self).model().staged);
            old(self).lemma_pending_kept(n);
        }
        r
    }

    /// Whether native queue `q` exists and has not been fully released.
    pub fn is_queue_live(&self, q: usize) -> (r: bool)
        ensures
            r == queue_live(self.model(), q),
    {
        q < self.queues.len() && self.queues[q] > 0
    }

    /// Decrements the reference count of native queue `q`. Releasing a queue
    /// whose count is already zero, or that does not exist, fails and changes
    /// nothing.
    pub fn release_queue(&mut self, q: usize) -> (r: Result<(), OclError>)
        requires
            old(self).wf(),
        ensures
            final(self).wf(),
            final(self).pending() == old(self).pending(),
            queue_live(old(self).model(), q) ==> r is Ok && final(self).model() == (Model {
                queues: old(self).model().queues.update(q as int, (old(self).model().queues[q as int] - 1) as u32),
                ..old(self).model()
            }),
            !queue_live(old(self).model(), q) ==> r == Err::<(), OclError>(OclError::ReleaseFailed)
                && final(self).model() == old(self).model(),
    {
        if q < self.queues.len() && self.queues[q] > 0 {
            let c = self.queues[q];
            self.queues.set(q, c - 1);
            proof {
                let n = self.model();
                assert(n.mem =~= old(self).model().mem);
                assert(n.host =~= old(self).model().host);
                assert(n.staged =~= old(self).model().staged);
                old(self).lemma_pending_kept(n);
            }
            Ok(())
        } else {
            Err(OclError::ReleaseFailed)
        }
    }

    /// Creates a zero-filled buffer of `len` elements, with a zero-filled
    /// host mirror.
    pub fn create_buffer(&mut self, len: usize) -> (r: Buffer)
        requires
            old(self).wf(),
        ensures
            final(self).wf(),
            r.id() == old(self).model().mem.len(),
            r.length() == len,
            buffer_valid(final(self).model(), r),
            final(self).model() == (Model {
                mem: old(self).model().mem.push(zeros(len as nat)),
                host: old(self).model().host.push(zeros(len as nat)),
                ..old(self).model()
            }),
            final(self).pending() == old(self).pending(),
    {
        let mut v: Vec<u32> = Vec::new();
        let mut i: usize = 0;
        while i < len
            invariant
                i <= len,
                v@ =~= zeros(i as nat),
            decreases len - i,
        {
            v.push(0);
            i = i + 1;
        }
        let w = copy_values(&v);
        let idx = self.mem.len();
        self.mem.push(v);
        self.host.push(w);
        proof {
            let n = self.model();
            let m = old(self).model();
            assert(n.mem =~= m.mem.push(zeros(len as nat)));
            assert(n.host =~= m.host.push(zeros(len as nat)));
            assert(n.staged =~= m.staged);
            old(self).lemma_pending_kept(n);
            assert forall|b: int| 0 <= b < n.mem.len() implies #[trigger] n.host[b].len() == n.mem[b].len() by {
                if b < m.mem.len() {
                    assert(m.host[b].len() == m.mem[b].len());
                }
            }
        }
        Buffer { idx, len }
    }

    /// Accepts command `c` with a fresh pending event.
    fn submit(&mut self, c: Command) -> (r: Event)
        requires
            old(self).wf(),
            cmd_fits(old(self).model(), c),
        ensures
            final(self).wf(),
            r.id() == old(self).model().status.len(),
            final(self).model() == with_event(old(self).model()),
            final(self).pending() == old(self).pending().push(Submitted { command: c, event: r.id() }),
    {
        let e = self.status.len();
        self.status.push(EventStatus::Pending);
        self.callback.push(None);
        self.pending.push(Submitted { command: c, event: e });
        proof {
            let n = self.model();
            let m = old(self).model();
            assert(n.mem =~= m.mem);
            assert(n.host =~= m.host);
            assert(n.staged =~= m.staged);
            old(self).lemma_pending_kept(n);
            assert forall|j: int| 0 <= j < self.pending().len() implies valid_cmd(
                n,
                #[trigger] self.pending()[j],
            ) by {
                if j < old(self).pending().len() {
                    assert(self.pending()[j] == old(self).pending()[j]);
                }
            }
            let p = self.pending();
            let op = old(self).pending();
            assert forall|j: int| 0 <= j < op.len() implies (#[trigger] op[j]).event < e by {
                assert(valid_cmd(m, op[j]));
            }
            assert forall|j: int| 0 <= j < p.len() implies n.status[(#[trigger] p[j]).event as int]
                == EventStatus::Pending by {
                if j < op.len() {
                    assert(p[j] == op[j]);
                }
            }
            assert forall|j: int, k: int| 0 <= j < k < p.len() implies (#[trigger] p[j]).event
                != (#[trigger] p[k]).event by {
                assert(p[j] == op[j]);
                if k < op.len() {
                    assert(p[k] == op[k]);
                }
            }
            assert forall|x: int| 0 <= x < n.status.len() && !(#[trigger] n.status[x]).is_terminal()
                implies exists|j: int| 0 <= j < p.len() && p[j].event == x by {
                if x == e {
                    assert(p[p.len() - 1].event == x);
                } else {
                    assert(!m.status[x].is_terminal());
                    let j = choose|j: int| 0 <= j < op.len() && op[j].event == x;
                    assert(p[j] == op[j]);
                }
            }
            assert forall|k: int| 0 <= k < n.fired.len() implies (#[trigger] n.fired[k]).event < n.status.len() by {
                assert(m.fired[k].event < m.status.len());
            }
            assert forall|x: int| 0 <= x < n.status.len() implies #[trigger] fired_count(n.fired, x)
                == expected_fires(n, x) by {
                if x == e {
                    assert forall|k: int| 0 <= k < n.fired.len() implies (#[trigger] n.fired[k]).event < x by {
                        assert(m.fired[k].event < m.status.len());
                    }
                    lemma_fired_count_absent(n.fired, x);
                } else {
                    assert(fired_count(m.fired, x) == expected_fires(m, x));
                }
            }
            assert(events_wf(n, p));
        }
        Event { idx: e }
    }

    /// Whether `b` is a buffer of this runtime.
    pub fn is_buffer_valid(&self, b: &Buffer) -> (r: bool)
        ensures
            r == buffer_valid(self.model(), *b),
    {
        b.idx < self.mem.len() && self.mem[b.idx].len() == b.len
    }

    /// Starts copying `values` into `buffer` through `queue`. Fails when the
    /// queue is not live, the buffer is not of this runtime, or the number of
    /// values differs from the buffer's length.
    pub fn write_async(&mut self, queue: usize, buffer: &Buffer, values: Vec<u32>) -> (r: Result<Event, OclError>)
        requires
            old(self).wf(),
        ensures
            final(self).wf(),
            match r {
                Ok(e) => queue_live(old(self).model(), queue) && buffer_valid(old(self).model(), *buffer)
                    && values@.len() == buffer.length()
                    && e.id() == old(self).model().status.len()
                    && final(self).model() == with_event(Model {
                        staged: old(self).model().staged.push(values@),
                        ..old(self).model()
                    })
                    && final(self).pending() == old(self).pending().push(Submitted {
                        command: Command::Write { buffer: buffer.id(), staged: old(self).model().staged.len() as usize },
                        event: e.id(),
                    }),
                Err(err) => !(queue_live(old(self).model(), queue) && buffer_valid(old(self).model(), *buffer)
                    && values@.len() == buffer.length())
                    && err == OclError::EnqueueFailed
                    && final(self).model() == old(self).model()
                    && final(self).pending() == old(self).pending(),
            },
    {
        if !(self.is_queue_live(queue) && self.is_buffer_valid(buffer) && values.len() == buffer.len) {
            return Err(OclError::EnqueueFailed);
        }
        let k = self.staged.len();
        self.staged.push(values);
        proof {
            let n = self.model();
            let m = old(self).model();
            assert(n.mem =~= m.mem);
            assert(n.host =~= m.host);
            assert(n.staged =~= m.staged.push(values@));
            old(self).lemma_pending_kept(n);
            assert(model_wf(n));
            assert(self.pending() == old(self).pending());
            assert(self.wf());
        }
        let e = self.submit(Command::Write { buffer: buffer.idx, staged: k });
        Ok(e)
    }

    /// Starts copying `buffer` into its host mirror through `queue`. Fails
    /// when the queue is not live or the buffer is not of this runtime.
    pub fn read_async(&mut self, queue: usize, buffer: &Buffer) -> (r: Result<Event, OclError>)
        requires
            old(self).wf(),
        ensures
            final(self).wf(),
            match r {
                Ok(e) => queue_live(old(self).model(), queue) && buffer_valid(old(self).model(), *buffer)
                    && e.id() == old(self).model().status.len()
                    && final(self).model() == with_event(old(self).model())
                    && final(self).pending() == old(self).pending().push(Submitted {
                        command: Command::Read { buffer: buffer.id() },
                        event: e.id(),
                    }),
                Err(err) => !(queue_live(old(self).model(), queue) && buffer_valid(old(self).model(), *buffer))
                    && err == OclError::EnqueueFailed
                    && final(self).model() == old(self).model()
                    && final(self).pending() == old(self).pending(),
            },
    {
        if !(self.is_queue_live(queue) && self.is_buffer_valid(buffer)) {
            return Err(OclError::EnqueueFailed);
        }
        let e = self.submit(Command::Read { buffer: buffer.idx });
        Ok(e)
    }

    /// Starts `dst[i] = src[i] + addend` over every index of `dst` through
    /// `queue`. Fails when the queue is not live, a buffer is not of this
    /// runtime, or the two lengths differ.
    pub fn enqueue_add(&mut self, queue: usize, src: &Buffer, dst: &Buffer, addend: u32) -> (r: Result<Event, OclError>)
        requires
            old(self).wf(),
        ensures
            final(self).wf(),
            match r {
                Ok(e) => queue_live(old(self).model(), queue) && buffer_valid(old(self).model(), *src)
                    && buffer_valid(old(self).model(), *dst) && src.length() == dst.length()
                    && e.id() == old(self).model().status.len()
                    && final(self).model() == with_event(old(self).model())
                    && final(self).pending() == old(self).pending().push(Submitted {
                        command: Command::Add { src: src.id(), dst: dst.id(), addend },
                        event: e.id(),
                    }),
                Err(err) => !(queue_live(old(self).model(), queue) && buffer_valid(old(self).model(), *src)
                    && buffer_valid(old(self).model(), *dst) && src.length() == dst.length())
                    && err == OclError::EnqueueFailed
                    && final(self).model() == old(self).model()
                    && final(self).pending() == old(self).pending(),
            },
    {
        if !(self.is_queue_live(queue) && self.is_buffer_valid(src) && self.is_buffer_valid(dst)
            && src.len == dst.len) {
            return Err(OclError::EnqueueFailed);
        }
        let e = self.submit(Command::Add { src: src.idx, dst: dst.idx, addend });
        Ok(e)
    }

    /// The host mirror of `buffer`, as last read back.
    pub fn host_values(&self, buffer: &Buffer) -> (r: &Vec<u32>)
        requires
            self.wf(),
            buffer_valid(self.model(), *buffer),
        ensures
            r@ == self.model().host[buffer.id() as int],
    {
        &self.host[buffer.idx]
    }

    /// The state of `event`, if it is an event of this runtime.
    pub fn event_status(&self, event: &Event) -> (r: Option<EventStatus>)
        ensures
            event.id() < self.model().status.len() ==> r == Some(self.model().status[event.id() as int]),
            event.id() >= self.model().status.len() ==> r is None,
    {
        if event.idx < self.status.len() {
            Some(self.status[event.idx])
        } else {
            None
        }
    }

    /// Callback notifications delivered so far, in the order they fired.
    pub fn notifications(&self) -> (r: &Vec<Notification>)
        ensures
            r@ == self.model().fired,
    {
        &self.fired
    }

    /// Registers the user context key `context` to be delivered once when
    /// `event` ends. An event that has already ended delivers it at once.
    /// Fails for an unknown event or one that already has a callback.
    pub fn register_callback(&mut self, event: &Event, context: u64) -> (r: Result<(), OclError>)
        requires
            old(self).wf(),
        ensures
            final(self).wf(),
            final(self).pending() == old(self).pending(),
            ({
                let m = old(self).model();
                let e = event.id() as int;
                if e < m.status.len() && m.callback[e] is None {
                    r is Ok && final(self).model() == (Model {
                        callback: m.callback.update(e, Some(context)),
                        fired: if m.status[e].is_terminal() {
                            m.fired.push(Notification { event: event.id(), status: m.status[e], context })
                        } else {
                            m.fired
                        },
                        ..m
                    })
                } else {
                    r == Err::<(), OclError>(OclError::CallbackRegistrationFailed)
                        && final(self).model() == m
                }
            }),
    {
        let e = event.idx;
        if e >= self.status.len() {
            return Err(OclError::CallbackRegistrationFailed);
        }
        if self.callback[e].is_some() {
            return Err(OclError::CallbackRegistrationFailed);
        }
        let ghost m = self.model();
        self.callback.set(e, Some(context));
        let st = self.status[e];
        if st == EventStatus::Complete || st == EventStatus::Error {
            self.fired.push(Notification { event: e, status: st, context });
        }
        proof {
            let n = self.model();
            assert(n.mem =~= m.mem);
            assert(n.host =~= m.host);
            assert(n.staged =~= m.staged);
            assert(n.callback =~= m.callback.update(e as int, Some(context)));
            assert forall|j: int| 0 <= j < self.pending().len() implies valid_cmd(
                n,
                #[trigger] self.pending()[j],
            ) by {
                assert(valid_cmd(m, self.pending()[j]));
            }
            assert forall|k: int| 0 <= k < n.fired.len() implies (#[trigger] n.fired[k]).event < n.status.len() by {
                if k < m.fired.len() {
                    assert(m.fired[k].event < m.status.len());
                }
            }
            assert forall|x: int| 0 <= x < n.status.len() implies #[trigger] fired_count(n.fired, x)
                == expected_fires(n, x) by {
                assert(fired_count(m.fired, x) == expected_fires(m, x));
                if st.is_terminal() {
                    lemma_fired_count_push(m.fired, Notification { event: e, status: st, context }, x);
                }
            }
            assert(events_wf(n, self.pending()));
        }
        Ok(())
    }

    /// Reads `buffer` back through `queue` and waits for every pending
    /// command, this read included; returns the host mirror so filled.
    pub fn read_sync(&mut self, queue: usize, buffer: &Buffer) -> (r: Result<Vec<u32>, OclError>)
        requires
            old(self).wf(),
        ensures
            final(self).wf(),
            match r {
                Ok(v) => queue_live(old(self).model(), queue) && buffer_valid(old(self).model(), *buffer)
                    && final(self).pending() == Seq::<Submitted>::empty()
                    && final(self).model() == apply(
                        with_event(old(self).model()),
                        old(self).pending().push(Submitted {
                            command: Command::Read { buffer: buffer.id() },
                            event: old(self).model().status.len() as usize,
                        }),
                    )
                    && v@ == final(self).model().host[buffer.id() as int],
                Err(err) => !(queue_live(old(self).model(), queue) && buffer_valid(old(self).model(), *buffer))
                    && err == OclError::EnqueueFailed
                    && final(self).model() == old(self).model()
                    && final(self).pending() == old(self).pending(),
            },
    {
        let ghost m0 = self.model();
        match self.read_async(queue, buffer) {
            Ok(_) => {},
            Err(e) => {
                return Err(e);
            },
        }
        let ghost m1 = self.model();
        let ghost pw = self.pending();
        self.finish();
        proof {
            lemma_apply_shape(m1, pw);
            assert(buffer.id() < self.model().mem.len());
        }
        let v = copy_values(&self.host[buffer.idx]);
        Ok(v)
    }
}

} // verus!
