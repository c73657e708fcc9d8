//! The transfer engine: a step machine over filesystem actions.
//!
//! The engine never touches a filesystem itself. It announces, one at
//! a time, the action it needs performed — a kind query, a rename, a
//! file copy, a directory creation, or a directory listing — and the
//! caller reports each action's result back through `step`. The
//! engine's state is a stack of pending tasks plus a phase recording
//! which answer it is waiting for, so a directory tree is walked
//! depth-first without recursion. Every transition is given by
//! `spec_step` and `spec_dispatch`, which the executable code is
//! proved to follow exactly.

use vstd::prelude::*;

use crate::paths::spec_join;
use crate::paths::join;
use crate::paths::copy_bytes;
use crate::request::ErrorKind;
use crate::request::FailureV;
use crate::request::Operation;
use crate::request::OutcomeV;
use crate::request::TargetExistsPolicy;
use crate::request::TransferFailure;
use crate::request::TransferOutcome;

verus! {

/// What a path names on the filesystem: a regular file, a directory,
/// something else (symlink, device, ...), or nothing at all.
#[derive(Clone, Copy, PartialEq, Eq, Structural, Debug)]
pub enum NodeKind {
    File,
    Dir,
    Other,
    Missing,
}

/// One entry of a directory listing: its name and its kind.
pub struct DirChild {
    pub name: Vec<u8>,
    pub kind: NodeKind,
}

/// Mathematical image of a directory entry.
pub struct DirChildV {
    pub name: Seq<u8>,
    pub kind: NodeKind,
}

impl DeepView for DirChild {
    type V = DirChildV;

    open spec fn deep_view(&self) -> DirChildV {
        DirChildV { name: self.name@, kind: self.kind }
    }
}

/// The action the engine asks its caller to perform next.
pub enum Action {
    /// Report the kind of the path (without following a final symlink).
    QueryKind(Vec<u8>),
    /// Rename the first path to the second.
    DoRename(Vec<u8>, Vec<u8>),
    /// Copy the regular file at the first path to the second.
    DoCopyFile(Vec<u8>, Vec<u8>),
    /// Create the directory and any missing ancestors.
    DoCreateDirAll(Vec<u8>),
    /// List the direct children of the directory.
    DoReadDir(Vec<u8>),
    /// The run is over; nothing more to perform.
    Finish(TransferOutcome),
}

/// Mathematical image of an action.
pub enum ActionV {
    QueryKind(Seq<u8>),
    DoRename(Seq<u8>, Seq<u8>),
    DoCopyFile(Seq<u8>, Seq<u8>),
    DoCreateDirAll(Seq<u8>),
    DoReadDir(Seq<u8>),
    Finish(OutcomeV),
}

impl View for Action {
    type V = ActionV;

    open spec fn view(&self) -> ActionV {
        match self {
            Action::QueryKind(p) => ActionV::QueryKind(p@),
            Action::DoRename(s, d) => ActionV::DoRename(s@, d@),
            Action::DoCopyFile(s, d) => ActionV::DoCopyFile(s@, d@),
            Action::DoCreateDirAll(p) => ActionV::DoCreateDirAll(p@),
            Action::DoReadDir(p) => ActionV::DoReadDir(p@),
            Action::Finish(o) => ActionV::Finish(o@),
        }
    }
}

/// The caller's answer to the action it was asked to perform.
pub enum Event {
    /// Answer to `QueryKind`.
    KindIs(NodeKind),
    /// Answer to `DoRename`, `DoCopyFile` or `DoCreateDirAll`:
    /// `None` on success, or the cause of the failure.
    OpDone(Option<String>),
    /// Answer to `DoReadDir`: the entries, or the cause of the failure.
    Listing(Result<Vec<DirChild>, String>),
}

/// Mathematical image of an event.
pub enum EventV {
    KindIs(NodeKind),
    OpDone(Option<Seq<char>>),
    Listing(Result<Seq<DirChildV>, Seq<char>>),
}

impl View for Event {
    type V = EventV;

    open spec fn view(&self) -> EventV {
        match self {
            Event::KindIs(k) => EventV::KindIs(*k),
            Event::OpDone(r) => EventV::OpDone(match r {
                None => None,
                Some(c) => Some(c@),
            }),
            Event::Listing(r) => EventV::Listing(match r {
                Ok(l) => Ok(l.deep_view()),
                Err(c) => Err(c@),
            }),
        }
    }
}

/// A pending unit of work: a whole item transfer, a directory tree
/// replication, or a directory child whose kind is already known.
pub enum Task {
    Item(Vec<u8>, Vec<u8>),
    Tree(Vec<u8>, Vec<u8>),
    Child(Vec<u8>, Vec<u8>, NodeKind),
}

/// Mathematical image of a task.
pub enum TaskV {
    Item(Seq<u8>, Seq<u8>),
    Tree(Seq<u8>, Seq<u8>),
    Child(Seq<u8>, Seq<u8>, NodeKind),
}

impl DeepView for Task {
    type V = TaskV;

    open spec fn deep_view(&self) -> TaskV {
        match self {
            Task::Item(s, d) => TaskV::Item(s@, d@),
            Task::Tree(s, d) => TaskV::Tree(s@, d@),
            Task::Child(s, d, k) => TaskV::Child(s@, d@, *k),
        }
    }
}

/// Which answer the engine is waiting for, and for which item.
pub enum Phase {
    /// No action is outstanding yet.
    Idle,
    /// Asked for the destination's kind to evaluate the abort policy.
    AwaitPolicyExists(Vec<u8>, Vec<u8>),
    /// Asked for a rename of the item.
    AwaitRenameDone(Vec<u8>, Vec<u8>),
    /// Asked for the source's kind to pick the copy strategy.
    AwaitSrcKind(Vec<u8>, Vec<u8>),
    /// Asked for a file copy of the item.
    AwaitCopyDone(Vec<u8>, Vec<u8>),
    /// Asked for the destination's kind before replicating a directory.
    AwaitDstKindForDir(Vec<u8>, Vec<u8>),
    /// Asked for the destination directory to be created.
    AwaitMkdirDone(Vec<u8>, Vec<u8>),
    /// Asked for the source directory's listing.
    AwaitListing(Vec<u8>, Vec<u8>),
    /// The run is over.
    Done,
}

/// Mathematical image of a phase.
pub enum PhaseV {
    Idle,
    AwaitPolicyExists(Seq<u8>, Seq<u8>),
    AwaitRenameDone(Seq<u8>, Seq<u8>),
    AwaitSrcKind(Seq<u8>, Seq<u8>),
    AwaitCopyDone(Seq<u8>, Seq<u8>),
    AwaitDstKindForDir(Seq<u8>, Seq<u8>),
    AwaitMkdirDone(Seq<u8>, Seq<u8>),
    AwaitListing(Seq<u8>, Seq<u8>),
    Done,
}

impl View for Phase {
    type V = PhaseV;

    open spec fn view(&self) -> PhaseV {
        match self {
            Phase::Idle => PhaseV::Idle,
            Phase::AwaitPolicyExists(s, d) => PhaseV::AwaitPolicyExists(s@, d@),
            Phase::AwaitRenameDone(s, d) => PhaseV::AwaitRenameDone(s@, d@),
            Phase::AwaitSrcKind(s, d) => PhaseV::AwaitSrcKind(s@, d@),
            Phase::AwaitCopyDone(s, d) => PhaseV::AwaitCopyDone(s@, d@),
            Phase::AwaitDstKindForDir(s, d) => PhaseV::AwaitDstKindForDir(s@, d@),
            Phase::AwaitMkdirDone(s, d) => PhaseV::AwaitMkdirDone(s@, d@),
            Phase::AwaitListing(s, d) => PhaseV::AwaitListing(s@, d@),
            Phase::Done => PhaseV::Done,
        }
    }
}

/// The engine: the run's settings, its pending tasks (top of the
/// stack is worked first), and the phase it is in.
pub struct Engine {
    pub operation: Operation,
    pub policy: TargetExistsPolicy,
    pub stack: Vec<Task>,
    pub phase: Phase,
}

/// Mathematical image of the engine.
pub struct EngineV {
    pub operation: Operation,
    pub policy: TargetExistsPolicy,
    pub stack: Seq<TaskV>,
    pub phase: PhaseV,
}

impl View for Engine {
    type V = EngineV;

    open spec fn view(&self) -> EngineV {
        EngineV {
            operation: self.operation,
            policy: self.policy,
            stack: self.stack.deep_view(),
            phase: self.phase@,
        }
    }
}

/// A failure outcome with an empty cause.
pub open spec fn failure(kind: ErrorKind, path: Seq<u8>) -> OutcomeV {
    OutcomeV::Failure(FailureV { kind, path, cause: Seq::empty() })
}

/// A failure outcome carrying the reported cause.
pub open spec fn failure_with(kind: ErrorKind, path: Seq<u8>, cause: Seq<char>) -> OutcomeV {
    OutcomeV::Failure(FailureV { kind, path, cause })
}

/// The first action of an item once the policy allows it: a move asks
/// for the rename at once; a copy first asks what the source is.
pub open spec fn spec_op_dispatch(op: Operation, src: Seq<u8>, dst: Seq<u8>) -> (PhaseV, ActionV) {
    match op {
        Operation::Move => (PhaseV::AwaitRenameDone(src, dst), ActionV::DoRename(src, dst)),
        Operation::Copy => (PhaseV::AwaitSrcKind(src, dst), ActionV::QueryKind(src)),
    }
}

/// Beginning one item transfer: the merge policy is unimplemented and
/// fails at once; the abort policy first asks whether the destination
/// exists; the override policy proceeds without looking.
pub open spec fn spec_item(
    op: Operation,
    policy: TargetExistsPolicy,
    src: Seq<u8>,
    dst: Seq<u8>,
) -> (PhaseV, ActionV) {
    match policy {
        TargetExistsPolicy::Merge => (
            PhaseV::Done,
            ActionV::Finish(failure(ErrorKind::NotImplemented, dst)),
        ),
        TargetExistsPolicy::Abort => (
            PhaseV::AwaitPolicyExists(src, dst),
            ActionV::QueryKind(dst),
        ),
        TargetExistsPolicy::Override => spec_op_dispatch(op, src, dst),
    }
}

/// Taking up the next pending task; an empty stack means the whole
/// run succeeded. A directory child of any kind but file or directory
/// fails the run.
pub open spec fn spec_dispatch(
    op: Operation,
    policy: TargetExistsPolicy,
    stack: Seq<TaskV>,
) -> (Seq<TaskV>, PhaseV, ActionV)
    decreases stack.len(),
{
    if stack.len() == 0 {
        (stack, PhaseV::Done, ActionV::Finish(OutcomeV::Success))
    } else {
        let rest = stack.drop_last();
        match stack.last() {
            TaskV::Item(src, dst) => {
                let (ph, a) = spec_item(op, policy, src, dst);
                (rest, ph, a)
            },
            TaskV::Tree(src, dst) => (
                rest,
                PhaseV::AwaitMkdirDone(src, dst),
                ActionV::DoCreateDirAll(dst),
            ),
            TaskV::Child(src, dst, kind) => match kind {
                NodeKind::File => {
                    let (ph, a) = spec_item(op, policy, src, dst);
                    (rest, ph, a)
                },
                NodeKind::Dir => (
                    rest,
                    PhaseV::AwaitMkdirDone(src, dst),
                    ActionV::DoCreateDirAll(dst),
                ),
                _ => (rest, PhaseV::Done, ActionV::Finish(failure(ErrorKind::InternalError, src))),
            },
        }
    }
}

/// The tasks a directory listing contributes, in reverse, so that the
/// stack works the entries front to back.
pub open spec fn child_tasks(src: Seq<u8>, dst: Seq<u8>, l: Seq<DirChildV>) -> Seq<TaskV>
    decreases l.len(),
{
    if l.len() == 0 {
        Seq::empty()
    } else {
        child_tasks(src, dst, l.drop_first()).push(
            TaskV::Child(spec_join(src, l.first().name), spec_join(dst, l.first().name), l.first().kind),
        )
    }
}

/// The initial task stack for the resolved pairs, in reverse, so that
/// the stack works the pairs front to back.
pub open spec fn item_tasks(pairs: Seq<(Vec<u8>, Vec<u8>)>) -> Seq<TaskV>
    decreases pairs.len(),
{
    if pairs.len() == 0 {
        Seq::empty()
    } else {
        item_tasks(pairs.drop_first()).push(TaskV::Item(pairs.first().0@, pairs.first().1@))
    }
}

/// Starting a run: take up the first task, whatever phase preceded.
pub open spec fn spec_start(e: EngineV) -> (EngineV, ActionV) {
    let (st, ph, a) = spec_dispatch(e.operation, e.policy, e.stack);
    (EngineV { stack: st, phase: ph, ..e }, a)
}

/// The whole transition table: what the engine does with each answer
/// in each phase. An answer no phase expects stops the run with an
/// internal error.
pub open spec fn spec_step(e: EngineV, ev: EventV) -> (EngineV, ActionV) {
    match (e.phase, ev) {
        (PhaseV::AwaitPolicyExists(src, dst), EventV::KindIs(k)) => match k {
            NodeKind::Missing => {
                let (ph, a) = spec_op_dispatch(e.operation, src, dst);
                (EngineV { phase: ph, ..e }, a)
            },
            _ => (
                EngineV { phase: PhaseV::Done, ..e },
                ActionV::Finish(failure(ErrorKind::TargetExists, dst)),
            ),
        },
        (PhaseV::AwaitSrcKind(src, dst), EventV::KindIs(k)) => match k {
            NodeKind::File => (
                EngineV { phase: PhaseV::AwaitCopyDone(src, dst), ..e },
                ActionV::DoCopyFile(src, dst),
            ),
            NodeKind::Dir => (
                EngineV { phase: PhaseV::AwaitDstKindForDir(src, dst), ..e },
                ActionV::QueryKind(dst),
            ),
            _ => (
                EngineV { phase: PhaseV::Done, ..e },
                ActionV::Finish(failure(ErrorKind::InternalError, src)),
            ),
        },
        (PhaseV::AwaitDstKindForDir(src, dst), EventV::KindIs(k)) => match k {
            NodeKind::Missing => (
                EngineV { phase: PhaseV::AwaitMkdirDone(src, dst), ..e },
                ActionV::DoCreateDirAll(dst),
            ),
            _ => (
                EngineV { phase: PhaseV::Done, ..e },
                ActionV::Finish(failure(ErrorKind::TargetExists, dst)),
            ),
        },
        (PhaseV::AwaitRenameDone(src, dst), EventV::OpDone(r)) => match r {
            None => {
                let (st, ph, a) = spec_dispatch(e.operation, e.policy, e.stack);
                (EngineV { stack: st, phase: ph, ..e }, a)
            },
            Some(c) => (
                EngineV { phase: PhaseV::Done, ..e },
                ActionV::Finish(failure_with(ErrorKind::InternalError, src, c)),
            ),
        },
        (PhaseV::AwaitCopyDone(src, dst), EventV::OpDone(r)) => match r {
            None => {
                let (st, ph, a) = spec_dispatch(e.operation, e.policy, e.stack);
                (EngineV { stack: st, phase: ph, ..e }, a)
            },
            Some(c) => (
                EngineV { phase: PhaseV::Done, ..e },
                ActionV::Finish(failure_with(ErrorKind::InternalError, src, c)),
            ),
        },
        (PhaseV::AwaitMkdirDone(src, dst), EventV::OpDone(r)) => match r {
            None => (
                EngineV { phase: PhaseV::AwaitListing(src, dst), ..e },
                ActionV::DoReadDir(src),
            ),
            Some(c) => (
                EngineV { phase: PhaseV::Done, ..e },
                ActionV::Finish(failure_with(ErrorKind::InternalError, dst, c)),
            ),
        },
        (PhaseV::AwaitListing(src, dst), EventV::Listing(r)) => match r {
            Ok(l) => {
                let grown = e.stack + child_tasks(src, dst, l);
                let (st, ph, a) = spec_dispatch(e.operation, e.policy, grown);
                (EngineV { stack: st, phase: ph, ..e }, a)
            },
            Err(c) => (
                EngineV { phase: PhaseV::Done, ..e },
                ActionV::Finish(failure_with(ErrorKind::InternalError, src, c)),
            ),
        },
        _ => (
            EngineV { phase: PhaseV::Done, ..e },
            ActionV::Finish(failure(ErrorKind::InternalError, Seq::empty())),
        ),
    }
}

/// Begins one item transfer: evaluates the target-exists policy, then
/// routes a move to the rename primitive and a copy to source
/// classification, per `spec_item`.
pub fn copy_or_move_item(
    op: Operation,
    policy: TargetExistsPolicy,
    src: Vec<u8>,
    dst: Vec<u8>,
) -> (r: (Phase, Action))
    ensures
        (r.0@, r.1@) == spec_item(op, policy, src@, dst@),
{
    match policy {
        TargetExistsPolicy::Merge => (
            Phase::Done,
            Action::Finish(TransferOutcome::Failure(TransferFailure {
                kind: ErrorKind::NotImplemented,
                path: dst,
                cause: String::new(),
            })),
        ),
        TargetExistsPolicy::Abort => {
            let probe = copy_bytes(&dst);
            (Phase::AwaitPolicyExists(src, dst), Action::QueryKind(probe))
        },
        TargetExistsPolicy::Override => op_dispatch(op, src, dst),
    }
}

/// Routes an item past its policy check, per `spec_op_dispatch`.
fn op_dispatch(op: Operation, src: Vec<u8>, dst: Vec<u8>) -> (r: (Phase, Action))
    ensures
        (r.0@, r.1@) == spec_op_dispatch(op, src@, dst@),
{
    match op {
        Operation::Move => {
            let s = copy_bytes(&src);
            let d = copy_bytes(&dst);
            (Phase::AwaitRenameDone(src, dst), Action::DoRename(s, d))
        },
        Operation::Copy => {
            let s = copy_bytes(&src);
            (Phase::AwaitSrcKind(src, dst), Action::QueryKind(s))
        },
    }
}

/// Takes up the next pending task, per `spec_dispatch`.
fn dispatch_next(
    op: Operation,
    policy: TargetExistsPolicy,
    stack: Vec<Task>,
) -> (r: (Vec<Task>, Phase, Action))
    ensures
        (r.0.deep_view(), r.1@, r.2@) == spec_dispatch(op, policy, stack.deep_view()),
{
    let mut stack = stack;
    let ghost dv = stack.deep_view();
    match stack.pop() {
        None => {
            proof {
                assert(dv =~= stack.deep_view());
            }
            (stack, Phase::Done, Action::Finish(TransferOutcome::Success))
        },
        Some(t) => {
            proof {
                assert(stack.deep_view() =~= dv.drop_last());
                assert(t.deep_view() == dv.last());
            }
            match t {
                Task::Item(src, dst) => {
                    let (ph, a) = copy_or_move_item(op, policy, src, dst);
                    (stack, ph, a)
                },
                Task::Tree(src, dst) => {
                    let d = copy_bytes(&dst);
                    (stack, Phase::AwaitMkdirDone(src, dst), Action::DoCreateDirAll(d))
                },
                Task::Child(src, dst, kind) => match kind {
                    NodeKind::File => {
                        let (ph, a) = copy_or_move_item(op, policy, src, dst);
                        (stack, ph, a)
                    },
                    NodeKind::Dir => {
                        let d = copy_bytes(&dst);
                        (stack, Phase::AwaitMkdirDone(src, dst), Action::DoCreateDirAll(d))
                    },
                    _ => (
                        stack,
                        Phase::Done,
                        Action::Finish(TransferOutcome::Failure(TransferFailure {
                            kind: ErrorKind::InternalError,
                            path: src,
                            cause: String::new(),
                        })),
                    ),
                },
            }
        },
    }
}

impl Engine {
    /// An engine for the resolved `(source, destination)` pairs; the
    /// pairs are worked front to back.
    pub fn new(
        operation: Operation,
        policy: TargetExistsPolicy,
        pairs: &Vec<(Vec<u8>, Vec<u8>)>,
    ) -> (r: Engine)
        ensures
            r@.operation == operation,
            r@.policy == policy,
            r@.stack == item_tasks(pairs@),
            r@.phase == PhaseV::Idle,
    {
        let mut stack: Vec<Task> = Vec::new();
        let mut j = pairs.len();
        proof {
            assert(pairs@.skip(j as int) =~= Seq::<(Vec<u8>, Vec<u8>)>::empty());
            assert(stack.deep_view() =~= Seq::<TaskV>::empty());
        }
        while j > 0
            invariant
                j <= pairs.len(),
                stack.deep_view() == item_tasks(pairs@.skip(j as int)),
            decreases j,
        {
            let ghost pre = stack.deep_view();
            let s = copy_bytes(&pairs[j - 1].0);
            let d = copy_bytes(&pairs[j - 1].1);
            stack.push(Task::Item(s, d));
            j = j - 1;
            proof {
                assert(stack.deep_view() =~= pre.push(TaskV::Item(
                    pairs@[j as int].0@,
                    pairs@[j as int].1@,
                )));
                assert(pairs@.skip(j as int).drop_first() =~= pairs@.skip(j + 1));
                assert(pairs@.skip(j as int).first() == pairs@[j as int]);
            }
        }
        proof {
            assert(pairs@.skip(0) =~= pairs@);
        }
        Engine { operation, policy, stack, phase: Phase::Idle }
    }

    /// Takes up the first pending task, per `spec_start`.
    pub fn start(self) -> (r: (Engine, Action))
        ensures
            (r.0@, r.1@) == spec_start(self@),
    {
        let Engine { operation, policy, stack, phase: _ } = self;
        let (stack, phase, a) = dispatch_next(operation, policy, stack);
        (Engine { operation, policy, stack, phase }, a)
    }

    /// Consumes the answer to the outstanding action and yields the
    /// next one, per `spec_step`.
    pub fn step(self, ev: Event) -> (r: (Engine, Action))
        ensures
            (r.0@, r.1@) == spec_step(self@, ev@),
    {
        let Engine { operation, policy, stack, phase } = self;
        match (phase, ev) {
            (Phase::AwaitPolicyExists(src, dst), Event::KindIs(k)) => match k {
                NodeKind::Missing => {
                    let (phase, a) = op_dispatch(operation, src, dst);
                    (Engine { operation, policy, stack, phase }, a)
                },
                _ => finish_with(operation, policy, stack, ErrorKind::TargetExists, dst, String::new()),
            },
            (Phase::AwaitSrcKind(src, dst), Event::KindIs(k)) => match k {
                NodeKind::File => {
                    let s = copy_bytes(&src);
                    let d = copy_bytes(&dst);
                    (
                        Engine { operation, policy, stack, phase: Phase::AwaitCopyDone(src, dst) },
                        Action::DoCopyFile(s, d),
                    )
                },
                NodeKind::Dir => {
                    let d = copy_bytes(&dst);
                    (
                        Engine {
                            operation,
                            policy,
                            stack,
                            phase: Phase::AwaitDstKindForDir(src, dst),
                        },
                        Action::QueryKind(d),
                    )
                },
                _ => finish_with(operation, policy, stack, ErrorKind::InternalError, src, String::new()),
            },
            (Phase::AwaitDstKindForDir(src, dst), Event::KindIs(k)) => match k {
                NodeKind::Missing => {
                    let d = copy_bytes(&dst);
                    (
                        Engine { operation, policy, stack, phase: Phase::AwaitMkdirDone(src, dst) },
                        Action::DoCreateDirAll(d),
                    )
                },
                _ => finish_with(operation, policy, stack, ErrorKind::TargetExists, dst, String::new()),
            },
            (Phase::AwaitRenameDone(src, dst), Event::OpDone(res)) => match res {
                None => {
                    let (stack, phase, a) = dispatch_next(operation, policy, stack);
                    (Engine { operation, policy, stack, phase }, a)
                },
                Some(c) => finish_with(operation, policy, stack, ErrorKind::InternalError, src, c),
            },
            (Phase::AwaitCopyDone(src, dst), Event::OpDone(res)) => match res {
                None => {
                    let (stack, phase, a) = dispatch_next(operation, policy, stack);
                    (Engine { operation, policy, stack, phase }, a)
                },
                Some(c) => finish_with(operation, policy, stack, ErrorKind::InternalError, src, c),
            },
            (Phase::AwaitMkdirDone(src, dst), Event::OpDone(res)) => match res {
                None => {
                    let s = copy_bytes(&src);
                    (
                        Engine { operation, policy, stack, phase: Phase::AwaitListing(src, dst) },
                        Action::DoReadDir(s),
                    )
                },
                Some(c) => finish_with(operation, policy, stack, ErrorKind::InternalError, dst, c),
            },
            (Phase::AwaitListing(src, dst), Event::Listing(res)) => match res {
                Ok(l) => {
                    let mut stack = stack;
                    let ghost base = stack.deep_view();
                    let mut j = l.len();
                    proof {
                        assert(l.deep_view().skip(j as int) =~= Seq::<DirChildV>::empty());
                        assert(stack.deep_view() =~= base + child_tasks(src@, dst@, l.deep_view().skip(j as int)));
                    }
                    while j > 0
                        invariant
                            j <= l.len(),
                            l.deep_view().len() == l@.len(),
                            stack.deep_view() == base + child_tasks(
                                src@,
                                dst@,
                                l.deep_view().skip(j as int),
                            ),
                        decreases j,
                    {
                        let ghost pre = stack.deep_view();
                        let c = &l[j - 1];
                        let csrc = join(&src, &c.name);
                        let cdst = join(&dst, &c.name);
                        stack.push(Task::Child(csrc, cdst, c.kind));
                        j = j - 1;
                        proof {
                            let ldv = l.deep_view();
                            assert(ldv[j as int] == l@[j as int].deep_view());
                            assert(stack.deep_view() =~= pre.push(TaskV::Child(
                                spec_join(src@, ldv[j as int].name),
                                spec_join(dst@, ldv[j as int].name),
                                ldv[j as int].kind,
                            )));
                            assert(ldv.skip(j as int).drop_first() =~= ldv.skip(j + 1));
                            assert(ldv.skip(j as int).first() == ldv[j as int]);
                            assert(stack.deep_view() =~= base + child_tasks(src@, dst@, ldv.skip(j as int)));
                        }
                    }
                    proof {
                        assert(l.deep_view().skip(0) =~= l.deep_view());
                    }
                    let (stack, phase, a) = dispatch_next(operation, policy, stack);
                    (Engine { operation, policy, stack, phase }, a)
                },
                Err(c) => finish_with(operation, policy, stack, ErrorKind::InternalError, src, c),
            },
            (_, _) => finish_with(
                operation,
                policy,
                stack,
                ErrorKind::InternalError,
                Vec::new(),
                String::new(),
            ),
        }
    }
}

/// A finished engine beside the failure it reports.
fn finish_with(
    operation: Operation,
    policy: TargetExistsPolicy,
    stack: Vec<Task>,
    kind: ErrorKind,
    path: Vec<u8>,
    cause: String,
) -> (r: (Engine, Action))
    ensures
        r.0@ == (EngineV {
            operation,
            policy,
            stack: stack.deep_view(),
            phase: PhaseV::Done,
        }),
        r.1@ == ActionV::Finish(failure_with(kind, path@, cause@)),
{
    (
        Engine { operation, policy, stack, phase: Phase::Done },
        Action::Finish(TransferOutcome::Failure(TransferFailure { kind, path, cause })),
    )
}

} // verus!
