use vstd::prelude::*;

use crate::diagnostics::TraceEntry;
use crate::run_loop::{turn_ran, turned, SliceState, SliceView, MOST_STEPS};
use crate::runner::{FixtureRunner, RunnerView};
use crate::slice::{Flow, SliceOrder};

verus! {

/// A slice of execution that the host follows turn by turn, to look at each
/// instruction before it runs.
#[derive(Clone, Copy)]
pub struct WatchedSlice {
    pub order: SliceOrder,
    pub state: SliceState,
    /// How the slice goes on: with a turn, with the instruction of a turn, or not.
    pub flow: Flow,
    /// Where the program counter stood when the turn began.
    pub pc: u32,
}

impl WatchedSlice {
    /// There is a turn to begin.
    pub fn goes_on(&self) -> (r: bool)
        ensures
            r == (self.flow is Again),
    {
        self.flow == Flow::Again
    }

    /// An instruction is to run.
    pub fn is_ready(&self) -> (r: bool)
        ensures
            r == (self.flow is Run),
    {
        self.flow == Flow::Run
    }
}

/// `t` may follow when a slice at `s` has begun a turn. With the flow `Run` the turn is
/// to run instructions, the program counter having stood at `pc`.
pub open spec fn turn_begun(s: SliceView, t: SliceView, o: SliceOrder, flow: Flow, pc: u32) -> bool {
    let (a, first, called, at) = s.m.turn_opened(o, s.called);
    if !(first is Run) {
        t == (SliceView { m: a, called, ..s }) && flow == first
    } else {
        exists|b: RunnerView, stays: bool|
            {
                &&& #[trigger] a.idle_taken(b, o, stays)
                &&& t == (SliceView { m: b, called, ..s })
                &&& if stays {
                    flow is Leave
                } else {
                    flow is Run && pc == at
                }
            }
    }
}

/// A turn that is begun and, if it comes that far, runs its instructions is a turn: a
/// slice that is watched takes the turns that it takes unwatched.
pub proof fn lemma_watched_turn(s: SliceView, u: SliceView, t: SliceView, o: SliceOrder, begun: Flow, pc: u32, flow: Flow)
    requires
        turn_begun(s, u, o, begun, pc),
        if begun is Run {
            turn_ran(u, t, o, pc, flow)
        } else {
            t == u && flow == begun
        },
    ensures
        turned(s, t, o, flow),
{
    reveal(turned);
    let (a, first, called, at) = s.m.turn_opened(o, s.called);
    if first is Run {
        let (b, stays) = choose|b: RunnerView, stays: bool|
            {
                &&& #[trigger] a.idle_taken(b, o, stays)
                &&& u == (SliceView { m: b, called, ..s })
                &&& if stays {
                    begun is Leave
                } else {
                    begun is Run && pc == at
                }
            };
        assert(a.idle_taken(b, o, stays));
    }
}

impl FixtureRunner {
    /// Begins a slice that the host follows.
    pub fn begin_watched_slice(
        &mut self,
        max_steps: usize,
        tick_cap: Option<u32>,
        audio_samples: usize,
        yield_for_ui: bool,
        sound_work_only: bool,
        finish_frame: bool,
    ) -> (r: WatchedSlice)
        requires
            old(self).wf(),
        ensures
            r.order == (SliceOrder {
                single: true,
                ..old(self)@.order(max_steps, tick_cap, audio_samples, yield_for_ui, sound_work_only, finish_frame)
            }),
            final(self).at(r.state) == old(self)@.slice(),
            r.flow is Again,
            final(self).wf(),
    {
        let mut order: SliceOrder = self.order_slice(
            max_steps,
            tick_cap,
            audio_samples,
            yield_for_ui,
            sound_work_only,
            finish_frame,
        );
        order.single = true;
        let state: SliceState = self.begin_slice();
        WatchedSlice { order, state, flow: Flow::Again, pc: 0 }
    }

    /// Begins the next turn of a slice, or ends the turns. Returns the instruction that
    /// the turn found at the program counter.
    pub fn begin_watched_turn(&mut self, w: &mut WatchedSlice) -> (r: Option<TraceEntry>)
        requires
            old(self).wf(),
            old(w).flow is Again,
            old(w).order.single,
        ensures
            final(w).order == old(w).order,
            if old(self).at(old(w).state).goes_on(old(w).order) {
                &&& turn_begun(
                    old(self).at(old(w).state),
                    final(self).at(final(w).state),
                    old(w).order,
                    final(w).flow,
                    final(w).pc,
                )
                &&& r == old(self)@.turn_entry(old(w).order, old(w).state.called)
            } else {
                &&& final(self)@ == old(self)@
                &&& final(w).state == old(w).state
                &&& final(w).flow is Leave
                &&& r is None
            },
            final(w).flow is Run ==> final(w).state.count < final(w).order.max_steps,
            final(self).wf(),
    {
        if w.state.count >= w.order.max_steps || self.halted || w.state.capped {
            w.flow = Flow::Leave;
            return None;
        }
        let ghost s = self.at(w.state);
        let (first, called, pc, entry): (Flow, bool, u32, Option<TraceEntry>) = self.open_turn(
            &w.order,
            w.state.called,
        );
        w.state.called = called;
        w.pc = pc;
        if first != Flow::Run {
            w.flow = first;
            return entry;
        }
        let ghost a = self@;
        let stays: bool = self.take_idle(&w.order);
        assert(a.idle_taken(self@, w.order, stays));
        w.flow = if stays { Flow::Leave } else { Flow::Run };
        entry
    }

    /// Runs the instruction of a turn that was begun, and returns whether one was
    /// counted.
    pub fn run_watched_turn(&mut self, w: &mut WatchedSlice) -> (r: bool)
        requires
            old(self).wf(),
            old(w).flow is Run,
            old(w).state.count < old(w).order.max_steps <= MOST_STEPS,
        ensures
            final(w).order == old(w).order,
            turn_ran(
                old(self).at(old(w).state),
                final(self).at(final(w).state),
                old(w).order,
                old(w).pc,
                final(w).flow,
            ),
            r == (final(w).state.count > old(w).state.count),
            final(self).wf(),
    {
        let before: usize = w.state.count;
        let (state, flow): (SliceState, Flow) = self.run_turn(&w.order, w.state, w.pc);
        w.state = state;
        w.flow = flow;
        state.count > before
    }

    /// Ends a slice whose turns are over. Returns the instructions executed and whether
    /// the machine still runs.
    pub fn end_watched_slice(&mut self, w: &WatchedSlice) -> (r: (usize, bool))
        requires
            old(self).wf(),
            !(w.flow is Again) && !(w.flow is Run),
        ensures
            r.0 == w.state.count,
            match w.flow {
                Flow::Halt => final(self)@ == old(self)@ && !r.1,
                Flow::Yield => final(self)@ == old(self)@.framed(w.order, w.state.called) && r.1,
                _ => final(self)@ == RunnerView::left(old(self).at(w.state), w.order) && r.1 == !old(self)@.halted,
            },
            final(self).wf(),
    {
        match w.flow {
            Flow::Halt => (w.state.count, false),
            Flow::Yield => {
                self.end_frame(&w.order, w.state.called);
                (w.state.count, true)
            },
            _ => {
                let runs: bool = !self.halted;
                self.leave_slice(&w.order, w.state);
                (w.state.count, runs)
            },
        }
    }
}

} // verus!
