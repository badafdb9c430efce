use vstd::prelude::*;

use crate::cpu::{batch_may_end, floating, instruction_may_end, steppable, CpuExit, CpuPoint, CpuStep, CpuView};
use crate::policy::BATCH_CHUNK;
use crate::run_loop::{batch_counted, batch_ended, behind_trap, trap_taken, turn_ran, turned, turns, SliceView};
use crate::runner::RunnerView;
use crate::slice::{Flow, SliceOrder};
use crate::trap_turn::idle_loop_trap;
use crate::traps::{TRAP_EVENT_AVAIL, TRAP_MODAL_DIALOG, TRAP_PT_IN_RECT, TRAP_TICK_COUNT};

verus! {

/// No run of instructions, at most `max` of them, from the registers `c` and memory `mem`
/// on meets one of the floating-point unit.
pub open spec fn plain_run(c: CpuView, mem: Seq<u8>, max: u32, watch: Seq<u32>) -> bool {
    forall|path: Seq<CpuPoint>|
        {
            &&& #[trigger] CpuPoint::runs(path, max, watch)
            &&& path.len() >= 1
            &&& path[0] == (CpuPoint { c, mem, n: 0, faults: 0 })
        } ==> !floating(path.last().c, path.last().mem)
}

/// The next turn of a slice at `s` meets no instruction of the floating-point unit.
pub open spec fn plain_turn(s: SliceView, o: SliceOrder) -> bool {
    let a = s.m.turn_opened(o, s.called).0;
    forall|b: RunnerView| #[trigger]
        a.idle_taken(b, o, false) ==> {
            let e = b.precharged(o).0;
            plain_run(e.cpu, e.bus.mem, e.batch_size(o, s.count, b.charging(o)) as u32, e.watched())
        }
}

proof fn lemma_same_instruction(
    c: CpuView,
    mem: Seq<u8>,
    e1: CpuStep,
    a1: CpuView,
    m1: Seq<u8>,
    e2: CpuStep,
    a2: CpuView,
    m2: Seq<u8>,
)
    requires
        instruction_may_end(c, mem, e1, a1, m1),
        instruction_may_end(c, mem, e2, a2, m2),
        !floating(c, mem),
    ensures
        e1 == e2,
        a1 == a2,
        m1 == m2,
{
    if steppable(c, mem) {
        assert(set![(e1, a1, m1)].contains((e2, a2, m2)));
    }
}

proof fn lemma_same_points(p: Seq<CpuPoint>, q: Seq<CpuPoint>, max: u32, watch: Seq<u32>, i: int)
    requires
        CpuPoint::runs(p, max, watch),
        CpuPoint::runs(q, max, watch),
        p.len() >= 1,
        q.len() >= 1,
        p[0] == q[0],
        p[0].n == 0,
        p[0].faults == 0,
        plain_run(p[0].c, p[0].mem, max, watch),
        0 <= i < p.len(),
        i < q.len(),
    ensures
        p[i] == q[i],
        !floating(p[i].c, p[i].mem),
    decreases i,
{
    let part = p.take(i + 1);
    assert(CpuPoint::runs(part, max, watch)) by {
        assert forall|k: int| 0 <= k < part.len() - 1 implies (#[trigger] part[k]).runs_on(part[k + 1], max, watch) by {
            assert(p[k].runs_on(p[k + 1], max, watch));
        }
    }
    assert(part[0] == p[0] && part.last() == p[i]);
    if i > 0 {
        lemma_same_points(p, q, max, watch, i - 1);
        assert(p[i - 1].runs_on(p[i - 1 + 1], max, watch));
        assert(q[i - 1].runs_on(q[i - 1 + 1], max, watch));
        let s = p[i - 1];
        lemma_same_instruction(s.c, s.mem, CpuStep::Done, p[i].c, p[i].mem, CpuStep::Done, q[i].c, q[i].mem);
    }
}

/// A run that ends at a moment cannot go on from there.
proof fn lemma_ended_run(s: CpuPoint, q: CpuPoint, next: CpuPoint, max: u32, watch: Seq<u32>, exit: CpuExit)
    requires
        s.runs_out(q, max, watch, exit),
        !floating(s.c, s.mem),
    ensures
        !s.runs_on(next, max, watch),
{
    if s.runs_on(next, max, watch) {
        let end = choose|end: CpuStep|
            instruction_may_end(s.c, s.mem, end, q.c, q.mem) && #[trigger] s.ends_run(q, watch, end, exit);
        lemma_same_instruction(s.c, s.mem, end, q.c, q.mem, CpuStep::Done, next.c, next.mem);
    }
}

proof fn lemma_same_end(s: CpuPoint, q: CpuPoint, r: CpuPoint, max: u32, watch: Seq<u32>, e1: CpuExit, e2: CpuExit)
    requires
        s.runs_out(q, max, watch, e1),
        s.runs_out(r, max, watch, e2),
        !floating(s.c, s.mem),
    ensures
        q.c == r.c,
        q.mem == r.mem,
        q.n == r.n,
        e1 == e2,
{
    if s.n < max {
        let a = choose|end: CpuStep|
            instruction_may_end(s.c, s.mem, end, q.c, q.mem) && #[trigger] s.ends_run(q, watch, end, e1);
        let b = choose|end: CpuStep|
            instruction_may_end(s.c, s.mem, end, r.c, r.mem) && #[trigger] s.ends_run(r, watch, end, e2);
        lemma_same_instruction(s.c, s.mem, a, q.c, q.mem, b, r.c, r.mem);
    }
}

proof fn lemma_same_batch(
    c: CpuView,
    mem: Seq<u8>,
    max: u32,
    watch: Seq<u32>,
    n1: u32,
    e1: CpuExit,
    a1: CpuView,
    m1: Seq<u8>,
    n2: u32,
    e2: CpuExit,
    a2: CpuView,
    m2: Seq<u8>,
)
    requires
        batch_may_end(c, mem, max, watch, n1, e1, a1, m1),
        batch_may_end(c, mem, max, watch, n2, e2, a2, m2),
        plain_run(c, mem, max, watch),
    ensures
        n1 == n2,
        e1 == e2,
        a1 == a2,
        m1 == m2,
{
    if c.stopped == 0 {
        let first = CpuPoint { c, mem, n: 0, faults: 0 };
        let q1 = CpuPoint { c: a1, mem: m1, n: n1 as int, faults: 0 };
        let q2 = CpuPoint { c: a2, mem: m2, n: n2 as int, faults: 0 };
        let p = choose|path: Seq<CpuPoint>|
            {
                &&& #[trigger] CpuPoint::runs(path, max, watch)
                &&& path.len() >= 1
                &&& path[0] == first
                &&& path.last().runs_out(q1, max, watch, e1)
            };
        let q = choose|path: Seq<CpuPoint>|
            {
                &&& #[trigger] CpuPoint::runs(path, max, watch)
                &&& path.len() >= 1
                &&& path[0] == first
                &&& path.last().runs_out(q2, max, watch, e2)
            };
        if p.len() < q.len() {
            lemma_same_points(p, q, max, watch, p.len() - 1);
            let i = p.len() - 1;
            assert(q[i].runs_on(q[i + 1], max, watch));
            lemma_ended_run(p.last(), q1, q[i + 1], max, watch, e1);
        } else if q.len() < p.len() {
            let i = q.len() - 1;
            lemma_same_points(p, q, max, watch, i);
            assert(p[i].runs_on(p[i + 1], max, watch));
            lemma_ended_run(q.last(), q2, p[i + 1], max, watch, e2);
        } else {
            lemma_same_points(p, q, max, watch, p.len() - 1);
            lemma_same_end(p.last(), q1, q2, max, watch, e1, e2);
        }
    }
}

proof fn lemma_same_idle(s: RunnerView, o: SliceOrder, t1: RunnerView, r1: bool, t2: RunnerView, r2: bool)
    requires
        s.idle_taken(t1, o, r1),
        s.idle_taken(t2, o, r2),
    ensures
        t1 == t2,
        r1 == r2,
{
}

proof fn lemma_same_pass(s: RunnerView, pc: u32, cap: Option<u32>, t1: RunnerView, r1: bool, t2: RunnerView, r2: bool)
    requires
        s.passes_null_event(t1, pc, cap, r1),
        s.passes_null_event(t2, pc, cap, r2),
    ensures
        t1 == t2,
        r1 == r2,
{
}

proof fn lemma_same_stay(
    s: RunnerView,
    idle: bool,
    pc: u32,
    cap: Option<u32>,
    otherwise: Flow,
    t1: RunnerView,
    f1: Flow,
    t2: RunnerView,
    f2: Flow,
)
    requires
        s.may_stay_idle(t1, idle, pc, cap, otherwise, f1),
        s.may_stay_idle(t2, idle, pc, cap, otherwise, f2),
    ensures
        t1 == t2,
        f1 == f2,
{
    if idle {
        let r1 = f1 is Leave && s.passes_null_event(t1, pc, cap, true);
        let r2 = f2 is Leave && s.passes_null_event(t2, pc, cap, true);
        lemma_same_pass(s, pc, cap, t1, r1, t2, r2);
    }
}

proof fn lemma_same_traps(
    s: RunnerView,
    o: SliceOrder,
    opcode: u16,
    room: int,
    t1: RunnerView,
    k1: nat,
    c1: bool,
    f1: Flow,
    t2: RunnerView,
    k2: nat,
    c2: bool,
    f2: Flow,
)
    requires
        s.traps(t1, o, opcode, room, k1, c1, f1),
        s.traps(t2, o, opcode, room, k2, c2, f2),
    ensures
        t1 == t2,
        k1 == k2,
        c1 == c2,
        f1 == f2,
{
    reveal(RunnerView::traps);
    let a = if s.idle_cycle_probe is Some && !idle_loop_trap(opcode) {
        s.unwatched()
    } else {
        s
    };
    if opcode == TRAP_TICK_COUNT || opcode == TRAP_MODAL_DIALOG && a.dialog_at_rest(o) || opcode == TRAP_PT_IN_RECT {
    } else if opcode == TRAP_EVENT_AVAIL {
        let u = a.event_asked();
        lemma_same_stay(
            u,
            u.null_event(opcode) && a.skips_waits(o),
            a.cpu.ppc,
            o.tick_cap,
            Flow::Again,
            t1,
            f1,
            t2,
            f2,
        );
    } else {
        let (u, hit, f, null) = a.trap_dispatched(o, opcode);
        lemma_same_stay(u, f is Run && null && u.skips_waits(o), a.cpu.ppc, o.tick_cap, f, t1, f1, t2, f2);
    }
}

proof fn lemma_same_trap(c: SliceView, o: SliceOrder, opcode: u16, t1: SliceView, f1: Flow, t2: SliceView, f2: Flow)
    requires
        trap_taken(c, t1, o, opcode, f1),
        trap_taken(c, t2, o, opcode, f2),
    ensures
        t1 == t2,
        f1 == f2,
{
    reveal(trap_taken);
    let (u1, k1, c1, g1) = choose|u: RunnerView, k: nat, capped: bool, f: Flow|
        {
            &&& #[trigger] c.m.traps(u, o, opcode, c.room(o), k, capped, f)
            &&& k <= 4 || k <= c.room(o)
            &&& (t1, f1) == behind_trap(c, u, k, capped, f)
        };
    let (u2, k2, c2, g2) = choose|u: RunnerView, k: nat, capped: bool, f: Flow|
        {
            &&& #[trigger] c.m.traps(u, o, opcode, c.room(o), k, capped, f)
            &&& k <= 4 || k <= c.room(o)
            &&& (t2, f2) == behind_trap(c, u, k, capped, f)
        };
    lemma_same_traps(c.m, o, opcode, c.room(o), u1, k1, c1, g1, u2, k2, c2, g2);
}

proof fn lemma_same_batch_end(
    s: SliceView,
    o: SliceOrder,
    n: u32,
    exit: CpuExit,
    ahead: bool,
    t1: SliceView,
    f1: Flow,
    t2: SliceView,
    f2: Flow,
)
    requires
        batch_ended(s, t1, o, n, exit, ahead, f1),
        batch_ended(s, t2, o, n, exit, ahead, f2),
    ensures
        t1 == t2,
        f1 == f2,
{
    reveal(batch_ended);
    if let CpuExit::Aline(opcode) = exit {
        lemma_same_trap(batch_counted(s, o, n, exit, ahead), o, opcode, t1, f1, t2, f2);
    }
}

proof fn lemma_same_run(s: SliceView, o: SliceOrder, pc: u32, t1: SliceView, f1: Flow, t2: SliceView, f2: Flow)
    requires
        turn_ran(s, t1, o, pc, f1),
        turn_ran(s, t2, o, pc, f2),
        ({
            let e = s.m.precharged(o).0;
            plain_run(e.cpu, e.bus.mem, e.batch_size(o, s.count, s.m.charging(o)) as u32, e.watched())
        }),
    ensures
        t1 == t2,
        f1 == f2,
{
    reveal(turn_ran);
    let (b, ahead, over) = s.m.precharged(o);
    if !s.m.bad_pc(pc) && !over {
        let max = b.batch_size(o, s.count, s.m.charging(o));
        let (u1, n1, e1) = choose|u: RunnerView, n: u32, exit: CpuExit|
            {
                &&& 1 <= max <= BATCH_CHUNK
                &&& #[trigger] b.ran(u, max, n, exit)
                &&& batch_ended(SliceView { m: u, ..s }, t1, o, n, exit, ahead, f1)
            };
        let (u2, n2, e2) = choose|u: RunnerView, n: u32, exit: CpuExit|
            {
                &&& 1 <= max <= BATCH_CHUNK
                &&& #[trigger] b.ran(u, max, n, exit)
                &&& batch_ended(SliceView { m: u, ..s }, t2, o, n, exit, ahead, f2)
            };
        lemma_same_batch(
            b.cpu,
            b.bus.mem,
            max as u32,
            b.watched(),
            n1,
            e1,
            u1.cpu,
            u1.bus.mem,
            n2,
            e2,
            u2.cpu,
            u2.bus.mem,
        );
        assert(u1 == u2);
        lemma_same_batch_end(SliceView { m: u1, ..s }, o, n1, e1, ahead, t1, f1, t2, f2);
    }
}

proof fn lemma_same_turn(s: SliceView, o: SliceOrder, t1: SliceView, f1: Flow, t2: SliceView, f2: Flow)
    requires
        turned(s, t1, o, f1),
        turned(s, t2, o, f2),
        plain_turn(s, o),
    ensures
        t1 == t2,
        f1 == f2,
{
    reveal(turned);
    let (a, first, called, pc) = s.m.turn_opened(o, s.called);
    if first is Run {
        let (b1, r1) = choose|b: RunnerView, stays: bool|
            {
                let u = SliceView { m: b, called, ..s };
                &&& #[trigger] a.idle_taken(b, o, stays)
                &&& if stays {
                    t1 == u && f1 is Leave
                } else {
                    turn_ran(u, t1, o, pc, f1)
                }
            };
        let (b2, r2) = choose|b: RunnerView, stays: bool|
            {
                let u = SliceView { m: b, called, ..s };
                &&& #[trigger] a.idle_taken(b, o, stays)
                &&& if stays {
                    t2 == u && f2 is Leave
                } else {
                    turn_ran(u, t2, o, pc, f2)
                }
            };
        lemma_same_idle(a, o, b1, r1, b2, r2);
        if !r1 {
            lemma_same_run(SliceView { m: b1, called, ..s }, o, pc, t1, f1, t2, f2);
        }
    }
}

proof fn lemma_same_turns(p: Seq<SliceView>, q: Seq<SliceView>, s: SliceView, o: SliceOrder, i: int)
    requires
        turns(p, s, o),
        turns(q, s, o),
        forall|j: int| 0 <= j < p.len() ==> plain_turn(#[trigger] p[j], o),
        0 <= i < p.len(),
        i < q.len(),
    ensures
        p[i] == q[i],
    decreases i,
{
    if i > 0 {
        lemma_same_turns(p, q, s, o, i - 1);
        assert(p[i - 1].goes_on(o));
        assert(q[i - 1].goes_on(o));
        lemma_same_turn(p[i - 1], o, p[i], Flow::Again, q[i], Flow::Again);
    }
}

/// The slice that ends behind the turns of `p` takes no further turn.
proof fn lemma_no_turn_follows(p: Seq<SliceView>, o: SliceOrder, t: RunnerView, r: (usize, bool), next: SliceView)
    requires
        p.len() >= 1,
        RunnerView::slice_ends(p, o, t, r),
        p.last().goes_on(o),
        plain_turn(p.last(), o),
    ensures
        !turned(p.last(), next, o, Flow::Again),
{
    let (u, flow) = choose|u: SliceView, flow: Flow|
        {
            &&& #[trigger] turned(p.last(), u, o, flow)
            &&& r.0 == u.count
            &&& match flow {
                Flow::Leave => t == RunnerView::left(u, o) && r.1,
                Flow::Halt => t == u.m && !r.1,
                Flow::Yield => t == u.m.framed(o, u.called) && r.1,
                _ => false,
            }
        };
    if turned(p.last(), next, o, Flow::Again) {
        lemma_same_turn(p.last(), o, u, flow, next, Flow::Again);
    }
}

proof fn lemma_same_slice_end(p: Seq<SliceView>, o: SliceOrder, t1: RunnerView, r1: (usize, bool), t2: RunnerView, r2: (usize, bool))
    requires
        p.len() >= 1,
        RunnerView::slice_ends(p, o, t1, r1),
        RunnerView::slice_ends(p, o, t2, r2),
        plain_turn(p.last(), o),
    ensures
        t1 == t2,
        r1 == r2,
{
    if p.last().goes_on(o) {
        let (u1, f1) = choose|u: SliceView, flow: Flow|
            {
                &&& #[trigger] turned(p.last(), u, o, flow)
                &&& r1.0 == u.count
                &&& match flow {
                    Flow::Leave => t1 == RunnerView::left(u, o) && r1.1,
                    Flow::Halt => t1 == u.m && !r1.1,
                    Flow::Yield => t1 == u.m.framed(o, u.called) && r1.1,
                    _ => false,
                }
            };
        let (u2, f2) = choose|u: SliceView, flow: Flow|
            {
                &&& #[trigger] turned(p.last(), u, o, flow)
                &&& r2.0 == u.count
                &&& match flow {
                    Flow::Leave => t2 == RunnerView::left(u, o) && r2.1,
                    Flow::Halt => t2 == u.m && !r2.1,
                    Flow::Yield => t2 == u.m.framed(o, u.called) && r2.1,
                    _ => false,
                }
            };
        lemma_same_turn(p.last(), o, u1, f1, u2, f2);
    }
}

/// Two slices with the same order from the same state give the same result and leave the
/// same state, unless the floating-point unit is used, whose results the host's
/// arithmetic decides: one slice goes through the turns of `path`, the other through any.
pub proof fn lemma_equal_slices(
    s: RunnerView,
    o: SliceOrder,
    path: Seq<SliceView>,
    t1: RunnerView,
    r1: (usize, bool),
    t2: RunnerView,
    r2: (usize, bool),
)
    requires
        turns(path, s.slice(), o),
        RunnerView::slice_ends(path, o, t1, r1),
        forall|j: int| 0 <= j < path.len() ==> plain_turn(#[trigger] path[j], o),
        s.slice_may_end(o, t2, r2),
    ensures
        t1 == t2,
        r1 == r2,
{
    let q = choose|q: Seq<SliceView>| #[trigger] turns(q, s.slice(), o) && RunnerView::slice_ends(q, o, t2, r2);
    if path.len() < q.len() {
        let i = path.len() - 1;
        lemma_same_turns(path, q, s.slice(), o, i);
        assert(q[i].goes_on(o));
        lemma_no_turn_follows(path, o, t1, r1, q[i + 1]);
    } else if q.len() < path.len() {
        let i = q.len() - 1;
        lemma_same_turns(path, q, s.slice(), o, i);
        assert(path[i].goes_on(o));
        lemma_no_turn_follows(q, o, t2, r2, path[i + 1]);
    } else {
        lemma_same_turns(path, q, s.slice(), o, path.len() - 1);
        assert(RunnerView::slice_ends(path, o, t2, r2));
        lemma_same_slice_end(path, o, t1, r1, t2, r2);
    }
}

/// From the same state, `run_steps_with_audio` with a tick and `run_gui_slice_with_audio`
/// give the same result and leave the same state, unless the floating-point unit is used.
pub proof fn lemma_audio_run_equals_gui_slice(
    s: RunnerView,
    max_steps: usize,
    tick: u32,
    audio_samples: usize,
    path: Seq<SliceView>,
    t1: RunnerView,
    r1: (usize, bool),
    t2: RunnerView,
    r2: (usize, bool),
)
    requires
        ({
            let o = s.audio_order(max_steps, Some(tick), audio_samples);
            &&& turns(path, s.slice(), o)
            &&& RunnerView::slice_ends(path, o, t1, r1)
            &&& forall|j: int| 0 <= j < path.len() ==> plain_turn(#[trigger] path[j], o)
        }),
        s.slice_may_end(s.gui_order(max_steps, tick, audio_samples), t2, r2),
    ensures
        t1 == t2,
        r1 == r2,
{
    lemma_equal_slices(s, s.audio_order(max_steps, Some(tick), audio_samples), path, t1, r1, t2, r2);
}

/// From the same state, `run_steps_with_audio` without a tick and without sound and
/// `run_steps` give the same result and leave the same state, unless the floating-point
/// unit is used.
pub proof fn lemma_silent_run_equals_plain_run(
    s: RunnerView,
    max_steps: usize,
    path: Seq<SliceView>,
    t1: RunnerView,
    r1: (usize, bool),
    t2: RunnerView,
    r2: (usize, bool),
)
    requires
        ({
            let o = s.audio_order(max_steps, None, 0);
            &&& turns(path, s.slice(), o)
            &&& RunnerView::slice_ends(path, o, t1, r1)
            &&& forall|j: int| 0 <= j < path.len() ==> plain_turn(#[trigger] path[j], o)
        }),
        s.slice_may_end(s.steps_order(max_steps, None), t2, r2),
    ensures
        t1 == t2,
        r1 == r2,
{
    lemma_equal_slices(s, s.audio_order(max_steps, None, 0), path, t1, r1, t2, r2);
}

} // verus!
