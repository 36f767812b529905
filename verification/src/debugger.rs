//! The step debugger's control: a stack of frames (statement chains, loop
//! checks, pending calls), the step budget and the end of a session. The
//! values that statements compute are evaluated by the caller between
//! steps; this module decides what runs next.
use vstd::prelude::*;

use crate::graph::{exec_output, first_start, first_target, print_ids, Graph, GraphNode};
use crate::node::NodeKind;
use crate::text::{decimal, owned, push_str, usize_to_decimal};
use crate::types::NodeId;

verus! {

/// Most steps a session runs before it is stopped.
pub const MAX_EXEC_STEPS: u32 = 20000;

/// One frame of the debugger's stack.
#[derive(Clone, Copy, PartialEq, Eq, Structural, Debug)]
pub enum Frame {
    /// A statement chain; `current` is the next node to run.
    Chain { current: Option<NodeId> },
    /// A loop whose condition is checked next.
    WhileCheck { loop_node: NodeId },
    /// A call waiting for its function's result.
    Call { call_node: NodeId },
}

/// A debugging session.
#[derive(Debug)]
pub struct DebugVm {
    pub frames: Vec<Frame>,
    pub console: Vec<String>,
    pub steps: u32,
    pub finished: bool,
    pub current_node: Option<NodeId>,
    /// With no Start node, the Print nodes to run one per step.
    pub legacy_queue: Vec<NodeId>,
    pub legacy_index: usize,
}

/// What the next step is.
#[derive(Clone, Copy, PartialEq, Eq, Structural, Debug)]
pub enum StepKind {
    /// The session has ended.
    Finished,
    /// Evaluate and print this Print node (no Start node).
    LegacyPrint(NodeId),
    /// Evaluate this loop's condition and hand it to `finish_while_check`.
    WhileCheck(NodeId),
    /// Run this node: evaluate what it needs, then `finish_exec`.
    Exec(NodeId),
    /// Nothing runs this step (a pending call is on top).
    Idle,
}

/// The start of a step: the pending calls whose function ended without
/// returning (their result is 0), and what the step is.
#[derive(Debug)]
pub struct StepStart {
    pub zero_results: Vec<NodeId>,
    pub kind: StepKind,
}

/// What running a node leaves for the caller to do with computed values.
#[derive(Clone, Copy, PartialEq, Eq, Structural, Debug)]
pub enum ExecEffect {
    Nothing,
    /// The call node whose result is the value just returned.
    ReturnTo(NodeId),
    /// A call of an unknown function: its result is 0.
    ZeroResult(NodeId),
}

/// The frames after dropping finished chains at the top: each finished
/// chain is popped, and a call below it is popped with it (its result
/// becomes 0). Returns the frames and the calls given 0, in order.
pub open spec fn drop_finished(frames: Seq<Frame>) -> (Seq<Frame>, Seq<NodeId>)
    decreases frames.len(),
{
    if frames.len() > 0 && frames.last() == (Frame::Chain { current: None }) {
        let f = frames.drop_last();
        if f.len() > 0 && f.last() is Call {
            let r = drop_finished(f.drop_last());
            (r.0, seq![f.last()->call_node] + r.1)
        } else {
            drop_finished(f)
        }
    } else {
        (frames, Seq::empty())
    }
}

/// The frames after a return: popped up to and including the nearest call
/// (all of them if there is none), and that call.
pub open spec fn unwound(frames: Seq<Frame>) -> (Seq<Frame>, Option<NodeId>)
    decreases frames.len(),
{
    if frames.len() == 0 {
        (frames, None)
    } else {
        match frames.last() {
            Frame::Call { call_node } => (frames.drop_last(), Some(call_node)),
            _ => unwound(frames.drop_last()),
        }
    }
}

/// The frames with the top chain moved on to `next` (unchanged if the top
/// is not a chain).
pub open spec fn moved_on(frames: Seq<Frame>, next: Option<NodeId>) -> Seq<Frame> {
    if frames.len() > 0 && frames.last() is Chain {
        frames.update(frames.len() - 1, Frame::Chain { current: next })
    } else {
        frames
    }
}

/// The first statement of a session, after the first Start node.
pub open spec fn session_start(g: Graph) -> Option<NodeId> {
    match first_start(g.nodes@) {
        Some(s) => first_target(g.connections@, exec_output(s, 0)),
        None => None,
    }
}

/// The message that opens a session.
pub open spec fn started_message() -> Seq<char> {
    "--- Debug session started ---"@
}

/// The message of a session without a first statement, over `n` Print
/// nodes.
pub open spec fn legacy_message(n: nat) -> Seq<char> {
    if n == 0 {
        "No Start node and no Print nodes on canvas."@
    } else {
        "No Start node found — stepping through "@ + decimal(n) + " Print node(s)."@
    }
}

/// The message that ends a session.
pub open spec fn finished_message() -> Seq<char> {
    "--- Program finished ---"@
}

/// The message of a session stopped by the step budget.
pub open spec fn limit_message() -> Seq<char> {
    "... execution stopped: step limit reached (possible infinite loop) ..."@
}

impl DebugVm {
    /// Every session keeps its step count within the budget.
    pub open spec fn wf(&self) -> bool {
        self.steps <= MAX_EXEC_STEPS
    }

    /// A new session: it starts at the chain after the first Start node;
    /// with none, it steps through the Print nodes in id order, or ends at
    /// once if there are none.
    pub fn new(graph: &Graph) -> (vm: DebugVm)
        requires
            graph.wf(),
        ensures
            vm.wf(),
            vm.steps == 0,
            vm.current_node is None,
            vm.legacy_index == 0,
            match session_start(*graph) {
                Some(first) => vm.frames@ == seq![Frame::Chain { current: Some(first) }]
                    && vm.legacy_queue@ == Seq::<NodeId>::empty() && !vm.finished
                    && strs_of(vm.console@) == seq![started_message()],
                None => vm.frames@ == Seq::<Frame>::empty() && vm.legacy_queue@ == print_ids(
                    graph.nodes@,
                ) && vm.finished == (print_ids(graph.nodes@).len() == 0) && strs_of(vm.console@)
                    == seq![started_message(), legacy_message(print_ids(graph.nodes@).len())],
            },
    {
        let mut console: Vec<String> = Vec::new();
        console.push(owned("--- Debug session started ---"));
        proof {
            reveal_strlit("--- Debug session started ---");
            reveal_strlit("No Start node and no Print nodes on canvas.");
            reveal_strlit("No Start node found — stepping through ");
            reveal_strlit(" Print node(s).");
        }
        let mut finished = false;
        let mut legacy_queue: Vec<NodeId> = Vec::new();
        let first = match graph.find_start_node() {
            Some(s) => graph.find_exec_target(s, 0),
            None => None,
        };
        let frames = match first {
            Some(f) => vec![Frame::Chain { current: Some(f) }],
            None => {
                legacy_queue = graph.print_node_ids();
                if legacy_queue.len() == 0 {
                    console.push(owned("No Start node and no Print nodes on canvas."));
                    finished = true;
                } else {
                    let mut m = owned("No Start node found — stepping through ");
                    let n = usize_to_decimal(legacy_queue.len());
                    push_str(&mut m, n.as_str());
                    push_str(&mut m, " Print node(s).");
                    console.push(m);
                }
                Vec::new()
            },
        };
        proof {
            assert(strs_of(console@) =~= seq![started_message()] || strs_of(console@) =~= seq![
                started_message(),
                legacy_message(print_ids(graph.nodes@).len()),
            ]);
        }
        DebugVm {
            frames,
            console,
            steps: 0,
            finished,
            current_node: None,
            legacy_queue,
            legacy_index: 0,
        }
    }

    /// Moves the top chain on to `next`.
    pub fn set_current(&mut self, next: Option<NodeId>)
        ensures
            final(self).frames@ == moved_on(old(self).frames@, next),
            final(self).console == old(self).console,
            final(self).steps == old(self).steps,
            final(self).finished == old(self).finished,
            final(self).current_node == old(self).current_node,
            final(self).legacy_queue == old(self).legacy_queue,
            final(self).legacy_index == old(self).legacy_index,
    {
        move_on(&mut self.frames, next);
    }

    /// Returns from a function: pops frames up to and including the nearest
    /// call and gives that call (none if there is no call).
    pub fn unwind_return(&mut self) -> (call: Option<NodeId>)
        ensures
            (final(self).frames@, call) == unwound(old(self).frames@),
            final(self).console == old(self).console,
            final(self).steps == old(self).steps,
            final(self).finished == old(self).finished,
            final(self).current_node == old(self).current_node,
            final(self).legacy_queue == old(self).legacy_queue,
            final(self).legacy_index == old(self).legacy_index,
    {
        unwind(&mut self.frames)
    }
}

/// Moves the top chain of `frames` on to `next`.
pub fn move_on(frames: &mut Vec<Frame>, next: Option<NodeId>)
    ensures
        final(frames)@ == moved_on(old(frames)@, next),
{
    let n = frames.len();
    if n > 0 {
        if let Frame::Chain { .. } = frames[n - 1] {
            frames.set(n - 1, Frame::Chain { current: next });
        }
    }
}

/// Pops `frames` up to and including the nearest call and gives that call
/// (none if there is no call).
pub fn unwind(frames: &mut Vec<Frame>) -> (call: Option<NodeId>)
    ensures
        (final(frames)@, call) == unwound(old(frames)@),
{
    loop
        invariant
            unwound(frames@) == unwound(old(frames)@),
        decreases frames@.len(),
    {
        let ghost f0 = frames@;
        match frames.pop() {
            Some(Frame::Call { call_node }) => {
                proof {
                    assert(f0.drop_last() =~= frames@);
                }
                return Some(call_node);
            },
            Some(_) => {
                proof {
                    assert(f0.drop_last() =~= frames@);
                }
            },
            None => {
                return None;
            },
        }
    }
}

/// Runs node `id` on `frames` (see `frames_after_exec`) and says what the
/// caller does with its values. `body` is the first node of the called
/// function's body if the node calls a known function.
pub fn exec_frames(frames: &mut Vec<Frame>, graph: &Graph, id: NodeId, body: Option<Option<NodeId>>) -> (e:
    ExecEffect)
    requires
        graph.wf(),
    ensures
        final(frames)@ == frames_after_exec(*graph, old(frames)@, id, body),
        e == exec_effect(*graph, old(frames)@, id, body),
{
    let mut effect = ExecEffect::Nothing;
    match graph.get(id) {
        None => move_on(frames, None),
        Some(kind) => match kind {
            NodeKind::SetVariable(_) | NodeKind::Print | NodeKind::Plugin(_) => {
                let next = graph.find_exec_target(id, 0);
                move_on(frames, next);
            },
            NodeKind::WhileLoop => {
                let resume = graph.find_exec_target(id, 1);
                move_on(frames, resume);
                frames.push(Frame::WhileCheck { loop_node: id });
            },
            NodeKind::FunctionCall { .. } => {
                let resume = graph.find_exec_target(id, 0);
                move_on(frames, resume);
                match body {
                    Some(b) => {
                        frames.push(Frame::Call { call_node: id });
                        frames.push(Frame::Chain { current: b });
                    },
                    None => {
                        effect = ExecEffect::ZeroResult(id);
                    },
                }
            },
            NodeKind::Return => {
                match unwind(frames) {
                    Some(c) => {
                        effect = ExecEffect::ReturnTo(c);
                    },
                    None => {},
                }
            },
            _ => move_on(frames, None),
        },
    }
    effect
}

/// The message of a call of an unknown function.
pub open spec fn undefined_message(name: Seq<char>) -> Seq<char> {
    "Call to undefined function '"@ + name + "'"@
}

/// The frames after running a node of kind `k` (`body` is the first node
/// of the called function's body, if the function is known).
pub open spec fn frames_after_exec(
    g: Graph,
    frames: Seq<Frame>,
    id: NodeId,
    body: Option<Option<NodeId>>,
) -> Seq<Frame> {
    if !g.kinds().contains_key(id) {
        moved_on(frames, None)
    } else {
        match g.kinds()[id] {
            NodeKind::SetVariable(_) | NodeKind::Print | NodeKind::Plugin(_) => moved_on(
                frames,
                first_target(g.connections@, exec_output(id, 0)),
            ),
            NodeKind::WhileLoop => moved_on(
                frames,
                first_target(g.connections@, exec_output(id, 1)),
            ).push(Frame::WhileCheck { loop_node: id }),
            NodeKind::FunctionCall { .. } => {
                let f = moved_on(frames, first_target(g.connections@, exec_output(id, 0)));
                match body {
                    Some(b) => f.push(Frame::Call { call_node: id }).push(
                        Frame::Chain { current: b },
                    ),
                    None => f,
                }
            },
            NodeKind::Return => unwound(frames).0,
            _ => moved_on(frames, None),
        }
    }
}

/// What is left for the caller after running a node.
pub open spec fn exec_effect(
    g: Graph,
    frames: Seq<Frame>,
    id: NodeId,
    body: Option<Option<NodeId>>,
) -> ExecEffect {
    if !g.kinds().contains_key(id) {
        ExecEffect::Nothing
    } else {
        match g.kinds()[id] {
            NodeKind::FunctionCall { .. } => if body is None {
                ExecEffect::ZeroResult(id)
            } else {
                ExecEffect::Nothing
            },
            NodeKind::Return => match unwound(frames).1 {
                Some(c) => ExecEffect::ReturnTo(c),
                None => ExecEffect::Nothing,
            },
            _ => ExecEffect::Nothing,
        }
    }
}

/// What beginning a step does to a session `a`, leaving `b` and giving
/// `r`: see `StepKind`.
pub open spec fn begins(a: DebugVm, b: DebugVm, r: StepStart) -> bool {
    &&& b.legacy_queue == a.legacy_queue
    &&& a.finished ==> r.kind == StepKind::Finished && r.zero_results@.len() == 0 && b == a
    &&& !a.finished && a.legacy_queue@.len() > 0 ==> r.zero_results@.len() == 0 && b.frames == a.frames
        && b.steps == a.steps && if a.legacy_index >= a.legacy_queue@.len() {
        &&& r.kind == StepKind::Finished
        &&& b.finished
        &&& b.current_node is None
        &&& strs_of(b.console@) == strs_of(a.console@).push(finished_message())
        &&& b.legacy_index == a.legacy_index
    } else {
        let id = a.legacy_queue@[a.legacy_index as int];
        &&& r.kind == StepKind::LegacyPrint(id)
        &&& !b.finished
        &&& b.current_node == Some(id)
        &&& b.console == a.console
        &&& b.legacy_index == a.legacy_index + 1
    }
    &&& !a.finished && a.legacy_queue@.len() == 0 ==> ({
        let (fr, zs) = drop_finished(a.frames@);
        &&& r.zero_results@ == zs
        &&& b.frames@ == fr
        &&& b.legacy_index == a.legacy_index
        &&& if fr.len() == 0 {
            &&& r.kind == StepKind::Finished
            &&& b.finished
            &&& b.current_node is None
            &&& strs_of(b.console@) == strs_of(a.console@).push(finished_message())
            &&& b.steps == a.steps
        } else if a.steps >= MAX_EXEC_STEPS {
            &&& r.kind == StepKind::Finished
            &&& b.finished
            &&& b.current_node is None
            &&& strs_of(b.console@) == strs_of(a.console@).push(limit_message())
            &&& b.steps == a.steps
        } else {
            &&& b.steps == a.steps + 1
            &&& !b.finished
            &&& b.console == a.console
            &&& b.current_node == a.current_node
            &&& r.kind == match fr.last() {
                Frame::WhileCheck { loop_node } => StepKind::WhileCheck(loop_node),
                Frame::Chain { current: Some(n) } => StepKind::Exec(n),
                _ => StepKind::Idle,
            }
        }
    })
}

impl DebugVm {
    /// Begins a step: see `StepKind` for what the caller does next.
    pub fn begin_step(&mut self) -> (r: StepStart)
        requires
            old(self).wf(),
        ensures
            final(self).wf(),
            begins(*old(self), *final(self), r),
    {
        let mut zero_results: Vec<NodeId> = Vec::new();
        if self.finished {
            return StepStart { zero_results, kind: StepKind::Finished };
        }
        if self.legacy_queue.len() > 0 {
            if self.legacy_index >= self.legacy_queue.len() {
                self.finished = true;
                self.current_node = None;
                let ghost c0 = self.console@;
                self.console.push(owned("--- Program finished ---"));
                proof {
                    assert(strs_of(self.console@) =~= strs_of(c0).push(finished_message()));
                }
                return StepStart { zero_results, kind: StepKind::Finished };
            }
            let id = self.legacy_queue[self.legacy_index];
            self.legacy_index = self.legacy_index + 1;
            self.current_node = Some(id);
            return StepStart { zero_results, kind: StepKind::LegacyPrint(id) };
        }
        let ghost goal = drop_finished(self.frames@);
        proof {
            assert(zero_results@ + goal.1 =~= goal.1);
        }
        loop
            invariant_except_break
                drop_finished(self.frames@).0 == goal.0,
                zero_results@ + drop_finished(self.frames@).1 == goal.1,
                self.wf(),
                !self.finished,
                self.console == old(self).console,
                self.steps == old(self).steps,
                self.current_node == old(self).current_node,
                self.legacy_queue == old(self).legacy_queue,
                self.legacy_index == old(self).legacy_index,
            ensures
                self.frames@ == goal.0,
                zero_results@ == goal.1,
                self.wf(),
                !self.finished,
                self.console == old(self).console,
                self.steps == old(self).steps,
                self.current_node == old(self).current_node,
                self.legacy_queue == old(self).legacy_queue,
                self.legacy_index == old(self).legacy_index,
            decreases self.frames@.len(),
        {
            let n = self.frames.len();
            if n == 0 {
                proof {
                    assert(zero_results@ + Seq::<NodeId>::empty() =~= zero_results@);
                }
                break;
            }
            match self.frames[n - 1] {
                Frame::Chain { current: None } => {
                    let ghost f0 = self.frames@;
                    self.frames.pop();
                    let m = self.frames.len();
                    if m > 0 {
                        if let Frame::Call { call_node } = self.frames[m - 1] {
                            let ghost z0 = zero_results@;
                            zero_results.push(call_node);
                            self.frames.pop();
                            proof {
                                assert(z0 + drop_finished(f0).1 =~= zero_results@ + drop_finished(
                                    self.frames@,
                                ).1);
                            }
                        }
                    }
                },
                _ => {
                    proof {
                        assert(zero_results@ + Seq::<NodeId>::empty() =~= zero_results@);
                    }
                    break;
                },
            }
        }
        if self.frames.len() == 0 {
            self.finished = true;
            self.current_node = None;
            let ghost c0 = self.console@;
            self.console.push(owned("--- Program finished ---"));
            proof {
                assert(strs_of(self.console@) =~= strs_of(c0).push(finished_message()));
            }
            return StepStart { zero_results, kind: StepKind::Finished };
        }
        if self.steps >= MAX_EXEC_STEPS {
            let ghost c0 = self.console@;
            self.console.push(
                owned("... execution stopped: step limit reached (possible infinite loop) ..."),
            );
            proof {
                assert(strs_of(self.console@) =~= strs_of(c0).push(limit_message()));
            }
            self.finished = true;
            self.current_node = None;
            return StepStart { zero_results, kind: StepKind::Finished };
        }
        self.steps = self.steps + 1;
        let kind = match self.frames[self.frames.len() - 1] {
            Frame::WhileCheck { loop_node } => StepKind::WhileCheck(loop_node),
            Frame::Chain { current: Some(n) } => StepKind::Exec(n),
            _ => StepKind::Idle,
        };
        StepStart { zero_results, kind }
    }

    /// Ends a loop check: with the condition true the loop's body runs
    /// (the loop check stays below it), otherwise the loop check is dropped.
    pub fn finish_while_check(&mut self, graph: &Graph, loop_node: NodeId, cond: bool)
        ensures
            final(self).frames@ == if cond {
                old(self).frames@.push(
                    Frame::Chain { current: first_target(graph.connections@, exec_output(loop_node, 0)) },
                )
            } else if old(self).frames@.len() > 0 {
                old(self).frames@.drop_last()
            } else {
                old(self).frames@
            },
            final(self).current_node == Some(loop_node),
            final(self).console == old(self).console,
            final(self).steps == old(self).steps,
            final(self).finished == old(self).finished,
            final(self).legacy_queue == old(self).legacy_queue,
            final(self).legacy_index == old(self).legacy_index,
    {
        if cond {
            let body = graph.find_exec_target(loop_node, 0);
            self.frames.push(Frame::Chain { current: body });
        } else {
            self.frames.pop();
        }
        self.current_node = Some(loop_node);
    }

    /// Ends running node `id`: moves control on (see `frames_after_exec`)
    /// and says what the caller does with its values. `body` is the first
    /// node of the called function's body if the node calls a known
    /// function.
    pub fn finish_exec(&mut self, graph: &Graph, id: NodeId, body: Option<Option<NodeId>>) -> (e:
        ExecEffect)
        requires
            graph.wf(),
        ensures
            final(self).frames@ == frames_after_exec(*graph, old(self).frames@, id, body),
            e == exec_effect(*graph, old(self).frames@, id, body),
            final(self).current_node == Some(id),
            final(self).steps == old(self).steps,
            final(self).finished == old(self).finished,
            final(self).legacy_queue == old(self).legacy_queue,
            final(self).legacy_index == old(self).legacy_index,
            ({
                let unknown_call = graph.kinds().contains_key(id) && graph.kinds()[id] is FunctionCall
                    && body is None;
                &&& unknown_call ==> strs_of(final(self).console@) == strs_of(old(self).console@).push(
                    undefined_message(graph.kinds()[id]->FunctionCall_name@),
                )
                &&& !unknown_call ==> final(self).console == old(self).console
            }),
    {
        let effect = exec_frames(&mut self.frames, graph, id, body);
        if body.is_none() {
            if let Some(NodeKind::FunctionCall { name }) = graph.get(id) {
                let mut m = owned("Call to undefined function '");
                push_str(&mut m, name.as_str());
                push_str(&mut m, "'");
                let ghost c0 = self.console@;
                self.console.push(m);
                proof {
                    assert(strs_of(self.console@) =~= strs_of(c0).push(undefined_message(name@)));
                }
            }
        }
        self.current_node = Some(id);
        effect
    }
}

/// The texts of console lines.
pub open spec fn strs_of(v: Seq<String>) -> Seq<Seq<char>> {
    v.map_values(|s: String| s@)
}

/// One step of a session keeps to the budget: the step count never goes
/// down, rises by at most one and stays within the budget, a finished
/// session stays finished, and a Print run without a Start node becomes
/// the current node. Ending the step (`finish_exec`, `finish_while_check`)
/// changes neither the count nor whether the session is finished, and
/// makes the node it ran the current one.
pub proof fn law_step_budget(a: DebugVm, b: DebugVm, r: StepStart)
    requires
        a.wf(),
        begins(a, b, r),
    ensures
        b.wf(),
        a.steps <= b.steps <= a.steps + 1,
        a.finished ==> b.finished,
        r.kind matches StepKind::LegacyPrint(id) ==> b.current_node == Some(id),
{
}

/// Whether two sessions differ at most in their console lines.
pub open spec fn same_but_console(a: DebugVm, b: DebugVm) -> bool {
    &&& a.frames == b.frames
    &&& a.steps == b.steps
    &&& a.finished == b.finished
    &&& a.current_node == b.current_node
    &&& a.legacy_queue == b.legacy_queue
    &&& a.legacy_index == b.legacy_index
}

/// Where a session without a Start node stands before step `k`.
proof fn lemma_legacy_state(pre: Seq<DebugVm>, post: Seq<DebugVm>, rs: Seq<StepStart>, k: int)
    requires
        pre.len() == post.len(),
        pre.len() == rs.len(),
        0 <= k < pre.len(),
        pre[0].legacy_queue@.len() > 0,
        pre[0].legacy_index == 0,
        !pre[0].finished,
        forall|i: int| 0 <= i < pre.len() ==> begins(#[trigger] pre[i], post[i], rs[i]),
        forall|i: int| 0 <= i && i + 1 < pre.len() ==> same_but_console(#[trigger] post[i], pre[i + 1]),
    ensures
        pre[k].legacy_queue == pre[0].legacy_queue,
        k <= pre[0].legacy_queue@.len() ==> pre[k].legacy_index == k && !pre[k].finished,
        k > pre[0].legacy_queue@.len() ==> pre[k].finished,
    decreases k,
{
    if k > 0 {
        lemma_legacy_state(pre, post, rs, k - 1);
        assert(begins(pre[k - 1], post[k - 1], rs[k - 1]));
        assert(same_but_console(post[k - 1], pre[k]));
    }
}

/// With no Start node, successive steps run the Print nodes of the queue
/// in order, one per step (each becoming the current node), then finish
/// the session with the closing message and stay finished. Between steps
/// the caller only adds console lines.
pub proof fn law_legacy_steps(pre: Seq<DebugVm>, post: Seq<DebugVm>, rs: Seq<StepStart>)
    requires
        pre.len() == post.len(),
        pre.len() == rs.len(),
        pre.len() > 0,
        pre[0].legacy_queue@.len() > 0,
        pre[0].legacy_index == 0,
        !pre[0].finished,
        forall|i: int| 0 <= i < pre.len() ==> begins(#[trigger] pre[i], post[i], rs[i]),
        forall|i: int| 0 <= i && i + 1 < pre.len() ==> same_but_console(#[trigger] post[i], pre[i + 1]),
    ensures
        ({
            let q = pre[0].legacy_queue@;
            &&& forall|k: int|
                0 <= k < pre.len() && k < q.len() ==> (#[trigger] rs[k]).kind == StepKind::LegacyPrint(q[k])
                    && post[k].current_node == Some(q[k])
            &&& forall|k: int| q.len() <= k < pre.len() ==> (#[trigger] rs[k]).kind == StepKind::Finished && post[k].finished
            &&& q.len() < pre.len() ==> strs_of(post[q.len() as int].console@).last() == finished_message()
        }),
{
    let q = pre[0].legacy_queue@;
    assert forall|k: int| 0 <= k < pre.len() && k < q.len() implies (#[trigger] rs[k]).kind == StepKind::LegacyPrint(q[k])
        && post[k].current_node == Some(q[k]) by {
        lemma_legacy_state(pre, post, rs, k);
        assert(begins(pre[k], post[k], rs[k]));
    }
    assert forall|k: int| q.len() <= k < pre.len() implies (#[trigger] rs[k]).kind == StepKind::Finished && post[k].finished by {
        lemma_legacy_state(pre, post, rs, k);
        assert(begins(pre[k], post[k], rs[k]));
    }
    if q.len() < pre.len() {
        let k = q.len() as int;
        lemma_legacy_state(pre, post, rs, k);
        assert(begins(pre[k], post[k], rs[k]));
    }
}

/// The Print nodes of a graph whose ids increase come in increasing id
/// order.
pub proof fn law_print_ids_ascending(nodes: Seq<GraphNode>)
    requires
        crate::graph::ids_increasing(nodes),
    ensures
        forall|a: int, b: int| 0 <= a < b < print_ids(nodes).len() ==> print_ids(nodes)[a] < print_ids(nodes)[b],
        forall|a: int| 0 <= a < print_ids(nodes).len() ==> exists|i: int| 0 <= i < nodes.len() && nodes[i].id == #[trigger] print_ids(nodes)[a],
    decreases nodes.len(),
{
    if nodes.len() > 0 {
        let init = nodes.drop_last();
        assert(crate::graph::ids_increasing(init)) by {
            assert forall|i: int, j: int| 0 <= i < j < init.len() implies init[i].id < init[j].id by {
                assert(init[i] == nodes[i] && init[j] == nodes[j]);
            }
        }
        law_print_ids_ascending(init);
        let r = print_ids(init);
        let p = print_ids(nodes);
        assert forall|a: int| 0 <= a < p.len() implies exists|i: int| 0 <= i < nodes.len() && nodes[i].id == #[trigger] p[a] by {
            if a < r.len() {
                assert(p[a] == r[a]);
                let i = choose|i: int| 0 <= i < init.len() && init[i].id == r[a];
                assert(nodes[i] == init[i]);
            } else {
                assert(nodes[nodes.len() - 1].id == p[a]);
            }
        }
        assert forall|a: int, b: int| 0 <= a < b < p.len() implies p[a] < p[b] by {
            if b < r.len() {
                assert(p[a] == r[a] && p[b] == r[b]);
            } else {
                assert(p[a] == r[a]);
                let i = choose|i: int| 0 <= i < init.len() && init[i].id == r[a];
                assert(nodes[i] == init[i]);
                assert(nodes[i].id < nodes[nodes.len() - 1].id);
            }
        }
    }
}

} // verus!
