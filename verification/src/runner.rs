//! The control of a whole-program run: the same frames as the step
//! debugger (statement chains, loop checks, pending calls), with the run's
//! own step accounting. A run counts one step per statement and one more
//! each time a loop's body ends; once the budget is spent, every chain and
//! loop that is reached stops, each with its own notice. The caller
//! evaluates values and reports them back; this module decides what runs
//! next.
use vstd::prelude::*;

use crate::debugger::{exec_effect, exec_frames, frames_after_exec, moved_on, unwound, ExecEffect, Frame, MAX_EXEC_STEPS};
use crate::node::NodeKind;
use crate::graph::{exec_output, first_target, Graph};
use crate::types::NodeId;

verus! {

/// A step count after one more step (it stays put at the top of `u32`).
pub open spec fn counted(steps: u32) -> u32 {
    if steps == u32::MAX {
        steps
    } else {
        (steps + 1) as u32
    }
}

/// The frames and step count once the finished chains at the top are left:
/// a finished chain is popped, and a loop check below it counts one step
/// before its condition is tested again; a call left on top ended without
/// returning, so its result is 0. Gives the frames, the count, and the
/// calls whose result is 0, in order.
pub open spec fn settled(frames: Seq<Frame>, steps: u32) -> (Seq<Frame>, u32, Seq<NodeId>)
    decreases frames.len(),
{
    if frames.len() == 0 {
        (frames, steps, Seq::empty())
    } else {
        match frames.last() {
            Frame::Chain { current: None } => {
                let f = frames.drop_last();
                if f.len() > 0 && f.last() is WhileCheck {
                    settled(f, counted(steps))
                } else {
                    settled(f, steps)
                }
            },
            Frame::Call { call_node } => {
                let r = settled(frames.drop_last(), steps);
                (r.0, r.1, seq![call_node] + r.2)
            },
            _ => (frames, steps, Seq::empty()),
        }
    }
}

/// What the caller does next.
#[derive(Clone, Copy, PartialEq, Eq, Structural, Debug)]
pub enum RunRequest {
    /// The run is over.
    Finished,
    /// The budget is spent: print the step-limit notice.
    StepLimit,
    /// Run this statement: evaluate what it needs, then `finish_exec`.
    Exec(NodeId),
    /// Evaluate this loop's condition and hand it to `finish_loop_condition`.
    LoopCondition(NodeId),
}

/// The calls whose result is now 0, and the next request.
#[derive(Debug)]
pub struct RunStep {
    pub zero_results: Vec<NodeId>,
    pub request: RunRequest,
}

/// The request for settled frames and count.
pub open spec fn next_request(fr: Seq<Frame>, st: u32) -> RunRequest {
    if fr.len() == 0 {
        RunRequest::Finished
    } else {
        match fr.last() {
            Frame::Chain { current: Some(id) } => if st >= MAX_EXEC_STEPS {
                RunRequest::StepLimit
            } else {
                RunRequest::Exec(id)
            },
            Frame::WhileCheck { loop_node } => if st >= MAX_EXEC_STEPS {
                RunRequest::StepLimit
            } else {
                RunRequest::LoopCondition(loop_node)
            },
            _ => RunRequest::Finished,
        }
    }
}

/// The frames after the request for settled frames and count: a chain
/// stopped by the budget ends, and so does a loop.
pub open spec fn frames_after_request(fr: Seq<Frame>, st: u32) -> Seq<Frame> {
    if fr.len() == 0 || st < MAX_EXEC_STEPS {
        fr
    } else {
        match fr.last() {
            Frame::Chain { current: Some(_) } => fr.update(fr.len() - 1, Frame::Chain { current: None }),
            Frame::WhileCheck { .. } => fr.drop_last(),
            _ => fr,
        }
    }
}

/// The step count after the request: a statement that runs counts one.
pub open spec fn steps_after_request(fr: Seq<Frame>, st: u32) -> u32 {
    if fr.len() > 0 && st < MAX_EXEC_STEPS && fr.last() is Chain && fr.last()->current is Some {
        (st + 1) as u32
    } else {
        st
    }
}

/// The frames after a loop's condition: false leaves the loop; true runs
/// its body on a new chain, or, with no body, keeps the frames.
pub open spec fn loop_frames(g: Graph, frames: Seq<Frame>, loop_node: NodeId, cond: bool) -> Seq<Frame> {
    if !cond {
        if frames.len() > 0 {
            frames.drop_last()
        } else {
            frames
        }
    } else {
        match first_target(g.connections@, exec_output(loop_node, 0)) {
            Some(b) => frames.push(Frame::Chain { current: Some(b) }),
            None => frames,
        }
    }
}

/// The step count after a loop's condition: a true condition with no body
/// counts a step.
pub open spec fn loop_steps(g: Graph, steps: u32, loop_node: NodeId, cond: bool) -> u32 {
    if cond && first_target(g.connections@, exec_output(loop_node, 0)) is None {
        counted(steps)
    } else {
        steps
    }
}

/// Whether every loop check and every pending call sits right above a
/// chain, as a run builds its frames.
pub open spec fn frames_nested(frames: Seq<Frame>) -> bool {
    forall|i: int| 0 <= i < frames.len() && !(#[trigger] frames[i] is Chain) ==> i > 0 && frames[i - 1] is Chain
}

/// The weight of one frame: a chain with a statement still to run weighs
/// two, every other frame one.
pub open spec fn frame_weight(f: Frame) -> nat {
    match f {
        Frame::Chain { current: Some(_) } => 2,
        _ => 1,
    }
}

/// The weight of all frames.
pub open spec fn frames_weight(fs: Seq<Frame>) -> nat
    decreases fs.len(),
{
    if fs.len() == 0 {
        0
    } else {
        frames_weight(fs.drop_last()) + frame_weight(fs.last())
    }
}

/// What is left of a run: five for each step still in the budget, the
/// weight of the frames, and three more while a loop check on top can
/// still be tested.
pub open spec fn run_measure(frames: Seq<Frame>, steps: u32) -> nat {
    (if steps >= MAX_EXEC_STEPS {
        0nat
    } else {
        5 * ((MAX_EXEC_STEPS - steps) as nat)
    }) + frames_weight(frames) + (if frames.len() > 0 && frames.last() is WhileCheck && steps
        < MAX_EXEC_STEPS {
        3nat
    } else {
        0nat
    })
}

/// A program run in progress.
#[derive(Debug)]
pub struct ProgramRun {
    pub frames: Vec<Frame>,
    pub steps: u32,
}

impl ProgramRun {
    /// A run that starts at statement `first`.
    pub fn new(first: NodeId) -> (r: ProgramRun)
        ensures
            r.frames@ == seq![Frame::Chain { current: Some(first) }],
            r.steps == 0,
            frames_nested(r.frames@),
    {
        ProgramRun { frames: vec![Frame::Chain { current: Some(first) }], steps: 0 }
    }

    /// Leaves the finished chains at the top (see `settled`) and says what
    /// comes next (see `next_request`).
    pub fn next_step(&mut self) -> (r: RunStep)
        ensures
            ({
                let (fr, st, zs) = settled(old(self).frames@, old(self).steps);
                &&& r.zero_results@ == zs
                &&& r.request == next_request(fr, st)
                &&& final(self).frames@ == frames_after_request(fr, st)
                &&& final(self).steps == steps_after_request(fr, st)
            }),
    {
        let mut zero_results: Vec<NodeId> = Vec::new();
        let ghost goal = settled(self.frames@, self.steps);
        proof {
            assert(zero_results@ + goal.2 =~= goal.2);
        }
        loop
            invariant_except_break
                settled(self.frames@, self.steps).0 == goal.0,
                settled(self.frames@, self.steps).1 == goal.1,
                zero_results@ + settled(self.frames@, self.steps).2 == goal.2,
            ensures
                self.frames@ == goal.0,
                self.steps == goal.1,
                zero_results@ == goal.2,
            decreases self.frames@.len(),
        {
            let n = self.frames.len();
            if n == 0 {
                proof {
                    assert(zero_results@ + Seq::<NodeId>::empty() =~= zero_results@);
                }
                break;
            }
            match self.frames[n - 1] {
                Frame::Chain { current: None } => {
                    self.frames.pop();
                    let m = self.frames.len();
                    if m > 0 {
                        if let Frame::WhileCheck { .. } = self.frames[m - 1] {
                            if self.steps < u32::MAX {
                                self.steps = self.steps + 1;
                            }
                        }
                    }
                },
                Frame::Call { call_node } => {
                    let ghost f0 = self.frames@;
                    let ghost z0 = zero_results@;
                    zero_results.push(call_node);
                    self.frames.pop();
                    proof {
                        assert(f0.drop_last() =~= self.frames@);
                        assert(z0 + settled(f0, self.steps).2 =~= zero_results@ + settled(
                            self.frames@,
                            self.steps,
                        ).2);
                    }
                },
                _ => {
                    proof {
                        assert(zero_results@ + Seq::<NodeId>::empty() =~= zero_results@);
                    }
                    break;
                },
            }
        }
        let n = self.frames.len();
        if n == 0 {
            return RunStep { zero_results, request: RunRequest::Finished };
        }
        let request = match self.frames[n - 1] {
            Frame::Chain { current: Some(id) } => {
                if self.steps >= MAX_EXEC_STEPS {
                    self.frames.set(n - 1, Frame::Chain { current: None });
                    RunRequest::StepLimit
                } else {
                    self.steps = self.steps + 1;
                    RunRequest::Exec(id)
                }
            },
            Frame::WhileCheck { loop_node } => {
                if self.steps >= MAX_EXEC_STEPS {
                    self.frames.pop();
                    RunRequest::StepLimit
                } else {
                    RunRequest::LoopCondition(loop_node)
                }
            },
            _ => RunRequest::Finished,
        };
        RunStep { zero_results, request }
    }

    /// Ends running statement `id` (see `frames_after_exec`) and says what
    /// the caller does with its values. `body` is the first node of the
    /// called function's body if the statement calls a known function.
    pub fn finish_exec(&mut self, graph: &Graph, id: NodeId, body: Option<Option<NodeId>>) -> (e: ExecEffect)
        requires
            graph.wf(),
        ensures
            final(self).frames@ == frames_after_exec(*graph, old(self).frames@, id, body),
            e == exec_effect(*graph, old(self).frames@, id, body),
            final(self).steps == old(self).steps,
    {
        exec_frames(&mut self.frames, graph, id, body)
    }

    /// Ends a loop condition: false leaves the loop; true runs its body,
    /// or, with no body, counts a step and checks again.
    pub fn finish_loop_condition(&mut self, graph: &Graph, loop_node: NodeId, cond: bool)
        ensures
            final(self).frames@ == loop_frames(*graph, old(self).frames@, loop_node, cond),
            final(self).steps == loop_steps(*graph, old(self).steps, loop_node, cond),
    {
        if !cond {
            self.frames.pop();
        } else {
            match graph.find_exec_target(loop_node, 0) {
                Some(b) => self.frames.push(Frame::Chain { current: Some(b) }),
                None => {
                    if self.steps < u32::MAX {
                        self.steps = self.steps + 1;
                    }
                },
            }
        }
    }
}

/// A run keeps to its budget: leaving finished chains never lowers the
/// step count, and a statement runs only while fewer than the budget's
/// steps are counted, counting one more.
pub proof fn law_run_budget(frames: Seq<Frame>, steps: u32)
    ensures
        settled(frames, steps).1 >= steps,
        ({
            let (fr, st, zs) = settled(frames, steps);
            next_request(fr, st) is Exec ==> st < MAX_EXEC_STEPS && steps_after_request(fr, st) == st + 1
        }),
    decreases frames.len(),
{
    if frames.len() > 0 {
        law_run_budget(frames.drop_last(), steps);
        law_run_budget(frames.drop_last(), counted(steps));
    }
}

/// The weight of frames with one more pushed, or the top replaced.
proof fn lemma_weight_edit(fs: Seq<Frame>, f: Frame)
    ensures
        frames_weight(fs.push(f)) == frames_weight(fs) + frame_weight(f),
        fs.len() > 0 ==> frames_weight(fs.update(fs.len() - 1, f)) == frames_weight(fs.drop_last())
            + frame_weight(f),
{
    assert(fs.push(f).drop_last() =~= fs);
    if fs.len() > 0 {
        assert(fs.update(fs.len() - 1, f).drop_last() =~= fs.drop_last());
    }
}

/// A prefix weighs at least one less per frame left out.
proof fn lemma_weight_prefix(fs: Seq<Frame>, k: int)
    requires
        0 <= k <= fs.len(),
    ensures
        frames_weight(fs.take(k)) + (fs.len() - k) <= frames_weight(fs),
    decreases fs.len(),
{
    if k < fs.len() {
        assert(fs.drop_last().take(k) =~= fs.take(k));
        lemma_weight_prefix(fs.drop_last(), k);
    } else {
        assert(fs.take(k) =~= fs);
    }
}

/// A prefix of nested frames is nested.
proof fn lemma_nested_prefix(fs: Seq<Frame>, k: int)
    requires
        frames_nested(fs),
        0 <= k <= fs.len(),
    ensures
        frames_nested(fs.take(k)),
{
    assert forall|i: int| 0 <= i < fs.take(k).len() && !(#[trigger] fs.take(k)[i] is Chain) implies i > 0
        && fs.take(k)[i - 1] is Chain by {
        assert(fs.take(k)[i] == fs[i]);
        if i > 0 {
            assert(fs.take(k)[i - 1] == fs[i - 1]);
        }
    }
}

/// Leaving the finished chains keeps a prefix of the frames, never lowers
/// the step count nor raises the measure, and leaves a chain with a
/// statement or a loop check on top.
proof fn lemma_settled_shape(frames: Seq<Frame>, steps: u32)
    requires
        frames_nested(frames),
    ensures
        ({
            let (fr, st, zs) = settled(frames, steps);
            &&& fr.len() <= frames.len()
            &&& fr == frames.take(fr.len() as int)
            &&& frames_nested(fr)
            &&& run_measure(fr, st) <= run_measure(frames, steps)
            &&& fr.len() > 0 ==> (fr.last() is WhileCheck || fr.last() == (Frame::Chain { current: Some(fr.last()->current->0) }))
        }),
    decreases frames.len(),
{
    if frames.len() == 0 {
        assert(frames.take(0) =~= frames);
    } else {
        let f = frames.drop_last();
        lemma_nested_prefix(frames, frames.len() - 1);
        assert(frames.take(frames.len() - 1) =~= f);
        lemma_weight_edit(f, frames.last());
        assert(frames =~= f.push(frames.last()));
        match frames.last() {
            Frame::Chain { current: None } => {
                if f.len() > 0 && f.last() is WhileCheck {
                    lemma_settled_shape(f, counted(steps));
                } else {
                    lemma_settled_shape(f, steps);
                }
                let r = settled(frames, steps);
                assert(f.take(r.0.len() as int) =~= frames.take(r.0.len() as int));
            },
            Frame::Call { call_node } => {
                assert(!(frames[frames.len() - 1] is Chain));
                assert(f.last() is Chain);
                lemma_settled_shape(f, steps);
                let r = settled(frames, steps);
                assert(f.take(r.0.len() as int) =~= frames.take(r.0.len() as int));
            },
            Frame::Chain { current: Some(x) } => {
                assert(frames.take(frames.len() as int) =~= frames);
            },
            Frame::WhileCheck { .. } => {
                assert(frames.take(frames.len() as int) =~= frames);
            },
        }
    }
}

/// Returning keeps a prefix of the frames that ends on a chain.
proof fn lemma_unwound_shape(fs: Seq<Frame>)
    requires
        frames_nested(fs),
    ensures
        unwound(fs).0.len() <= fs.len(),
        unwound(fs).0 == fs.take(unwound(fs).0.len() as int),
        unwound(fs).0.len() > 0 ==> unwound(fs).0.last() is Chain,
    decreases fs.len(),
{
    if fs.len() == 0 {
        assert(fs.take(0) =~= fs);
    } else {
        let f = fs.drop_last();
        lemma_nested_prefix(fs, fs.len() - 1);
        assert(fs.take(fs.len() - 1) =~= f);
        match fs.last() {
            Frame::Call { .. } => {
                assert(!(fs[fs.len() - 1] is Chain));
            },
            _ => {
                lemma_unwound_shape(f);
                let k = unwound(fs).0.len() as int;
                assert(f.take(k) =~= fs.take(k));
            },
        }
    }
}

/// A run always ends. Each round (`next_step`, then the `finish_exec` or
/// `finish_loop_condition` that its request asks for, or nothing after the
/// step-limit notice) lowers `run_measure`, a natural number, and keeps the
/// frames nested as a new run starts them; only `Finished`, with no frames
/// left, ends the rounds.
pub proof fn law_run_ends(
    g: Graph,
    frames: Seq<Frame>,
    steps: u32,
    body: Option<Option<NodeId>>,
    cond: bool,
)
    requires
        frames_nested(frames),
    ensures
        ({
            let (fr, st, zs) = settled(frames, steps);
            let f1 = frames_after_request(fr, st);
            let s1 = steps_after_request(fr, st);
            match next_request(fr, st) {
                RunRequest::Finished => fr.len() == 0,
                RunRequest::StepLimit => frames_nested(f1) && run_measure(f1, s1) < run_measure(frames, steps),
                RunRequest::Exec(id) => frames_nested(frames_after_exec(g, f1, id, body)) && run_measure(
                    frames_after_exec(g, f1, id, body),
                    s1,
                ) < run_measure(frames, steps),
                RunRequest::LoopCondition(l) => frames_nested(loop_frames(g, f1, l, cond)) && run_measure(
                    loop_frames(g, f1, l, cond),
                    loop_steps(g, s1, l, cond),
                ) < run_measure(frames, steps),
            }
        }),
{
    lemma_settled_shape(frames, steps);
    let (fr, st, zs) = settled(frames, steps);
    if fr.len() > 0 {
        let n = fr.len() - 1;
        let top = fr.last();
        let init = fr.drop_last();
        lemma_nested_prefix(fr, n);
        assert(fr.take(n) =~= init);
        lemma_weight_edit(init, top);
        assert(fr =~= init.push(top));
        match top {
            Frame::Chain { current: Some(id) } => {
                if st >= MAX_EXEC_STEPS {
                    lemma_weight_edit(fr, Frame::Chain { current: None });
                    let f1 = fr.update(n, Frame::Chain { current: None });
                    assert forall|i: int| 0 <= i < f1.len() && !(#[trigger] f1[i] is Chain) implies i > 0
                        && f1[i - 1] is Chain by {
                        assert(f1[i] == fr[i]);
                        assert(f1[i - 1] == fr[i - 1]);
                    }
                } else {
                    let s1 = (st + 1) as u32;
                    let f = frames_after_exec(g, fr, id, body);
                    assert forall|x: Option<NodeId>| #![auto] frames_nested(moved_on(fr, x)) && frames_weight(
                        moved_on(fr, x),
                    ) <= frames_weight(fr) && moved_on(fr, x).len() == fr.len() && moved_on(fr, x).last() is Chain by {
                        let m = moved_on(fr, x);
                        lemma_weight_edit(fr, Frame::Chain { current: x });
                        assert forall|i: int| 0 <= i < m.len() && !(#[trigger] m[i] is Chain) implies i > 0
                            && m[i - 1] is Chain by {
                            assert(m[i] == fr[i]);
                            assert(m[i - 1] == fr[i - 1]);
                        }
                    }
                    if g.kinds().contains_key(id) {
                        match g.kinds()[id] {
                            NodeKind::WhileLoop => {
                                let m = moved_on(fr, first_target(g.connections@, exec_output(id, 1)));
                                lemma_weight_edit(m, Frame::WhileCheck { loop_node: id });
                                assert(m.push(Frame::WhileCheck { loop_node: id })[m.len() as int - 1] == m[m.len() - 1]);
                                assert forall|i: int| 0 <= i < f.len() && !(#[trigger] f[i] is Chain) implies i > 0
                                    && f[i - 1] is Chain by {
                                    if i < m.len() {
                                        assert(f[i] == m[i]);
                                        assert(f[i - 1] == m[i - 1]);
                                    } else {
                                        assert(f[i - 1] == m[m.len() - 1]);
                                    }
                                }
                            },
                            NodeKind::FunctionCall { .. } => {
                                let m = moved_on(fr, first_target(g.connections@, exec_output(id, 0)));
                                if let Some(b) = body {
                                    let m2 = m.push(Frame::Call { call_node: id });
                                    lemma_weight_edit(m, Frame::Call { call_node: id });
                                    lemma_weight_edit(m2, Frame::Chain { current: b });
                                    assert forall|i: int| 0 <= i < f.len() && !(#[trigger] f[i] is Chain) implies i
                                        > 0 && f[i - 1] is Chain by {
                                        if i < m.len() {
                                            assert(f[i] == m[i]);
                                            assert(f[i - 1] == m[i - 1]);
                                        } else if i == m.len() {
                                            assert(f[i - 1] == m[m.len() - 1]);
                                        }
                                    }
                                }
                            },
                            NodeKind::Return => {
                                lemma_unwound_shape(fr);
                                let k = unwound(fr).0.len() as int;
                                lemma_weight_prefix(fr, k);
                                lemma_nested_prefix(fr, k);
                            },
                            _ => {},
                        }
                    }
                }
            },
            Frame::WhileCheck { loop_node } => {
                assert(!(fr[n] is Chain));
                if st < MAX_EXEC_STEPS {
                    if !cond {
                    } else {
                        match first_target(g.connections@, exec_output(loop_node, 0)) {
                            Some(b) => {
                                lemma_weight_edit(fr, Frame::Chain { current: Some(b) });
                                let f = fr.push(Frame::Chain { current: Some(b) });
                                assert forall|i: int| 0 <= i < f.len() && !(#[trigger] f[i] is Chain) implies i > 0
                                    && f[i - 1] is Chain by {
                                    assert(f[i] == fr[i]);
                                    assert(f[i - 1] == fr[i - 1]);
                                }
                            },
                            None => {},
                        }
                    }
                }
            },
            _ => {},
        }
    }
}

} // verus!
