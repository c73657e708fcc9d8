//! Running whole transfers against the in-memory model.
//!
//! `apply` performs one engine action on a model filesystem and wraps
//! the result as the event the engine expects; `run` resolves a
//! request and drives the engine to completion, within a fuel bound.
//! `run`'s contract carries the central guarantees: a merge request
//! fails as unimplemented and touches nothing; a direct pair whose
//! destination exists under the abort policy fails as a target
//! conflict and touches nothing; and a direct-pair move or file copy
//! onto a free destination succeeds with the exact final filesystem.

use vstd::prelude::*;

use crate::engine::Action;
use crate::engine::ActionV;
use crate::engine::Engine;
use crate::engine::Event;
use crate::engine::EventV;
use crate::engine::NodeKind;
use crate::engine::PhaseV;
use crate::engine::DirChildV;
use crate::engine::child_tasks;
use crate::engine::failure;
use crate::engine::item_tasks;
use crate::memfs::FsNodeV;
use crate::memfs::MemFs;
use crate::memfs::lookup;
use crate::memfs::spec_kind;
use crate::memfs::spec_renamed;
use crate::memfs::spec_children;
use crate::memfs::mkdir_blocked;
use crate::paths::is_ancestor;
use crate::paths::is_direct_child;
use crate::paths::prefix_sep;
use crate::request::ErrorKind;
use crate::request::OutcomeV;
use crate::request::FailureV;
use crate::request::TransferOutcome;
use crate::request::TransferRequest;
use crate::request::request_shape_ok;
use crate::request::resolve_pairs;

verus! {

/// The positions of the initial task stack, bottom to top, hold the
/// resolved pairs back to front.
pub proof fn lemma_item_tasks(pairs: Seq<(Vec<u8>, Vec<u8>)>)
    ensures
        item_tasks(pairs).len() == pairs.len(),
        forall|i: int| 0 <= i < pairs.len() ==> #[trigger] item_tasks(pairs)[i]
            == crate::engine::TaskV::Item(
            pairs[pairs.len() - 1 - i].0@,
            pairs[pairs.len() - 1 - i].1@,
        ),
    decreases pairs.len(),
{
    if pairs.len() > 0 {
        lemma_item_tasks(pairs.drop_first());
    }
}

/// Performs one engine action on the model and reports its result.
pub fn apply(fs: &mut MemFs, a: &Action) -> (ev: Event)
    requires
        old(fs).wf(),
        !(a@ matches ActionV::Finish(_)),
    ensures
        final(fs).wf(),
        (a@ matches ActionV::QueryKind(p) ==> final(fs)@ == old(fs)@
            && ev@ == EventV::KindIs(spec_kind(old(fs)@, p))),
        (a@ matches ActionV::DoRename(s, d) ==> (match ev@ {
            EventV::OpDone(r) => ((r is Some) <==> (lookup(old(fs)@, s) is None
                || (s != d && (prefix_sep(s, d) || prefix_sep(d, s)))))
                && (r is Some ==> final(fs)@ == old(fs)@)
                && ((r is None && s == d) ==> final(fs)@ == old(fs)@)
                && ((r is None && s != d) ==> (forall|k: Seq<u8>| #[trigger] lookup(final(fs)@, k)
                    == spec_renamed(old(fs)@, s, d, k))),
            _ => false,
        })),
        (a@ matches ActionV::DoCopyFile(s, d) ==> (match ev@ {
            EventV::OpDone(r) => ((r is Some) <==> (!(lookup(old(fs)@, s) matches Some(
                FsNodeV::File(_),
            )) || lookup(old(fs)@, d) == Some(FsNodeV::Dir)
                || lookup(old(fs)@, d) == Some(FsNodeV::Other)))
                && (r is Some ==> final(fs)@ == old(fs)@)
                && (r is None ==> (forall|k: Seq<u8>| #[trigger] lookup(final(fs)@, k) == (if k == d {
                    lookup(old(fs)@, s)
                } else {
                    lookup(old(fs)@, k)
                }))),
            _ => false,
        })),
        (a@ matches ActionV::DoCreateDirAll(p) ==> (match ev@ {
            EventV::OpDone(r) => ((r is Some) <==> mkdir_blocked(old(fs)@, p))
                && (r is Some ==> final(fs)@ == old(fs)@)
                && (r is None ==> (forall|k: Seq<u8>| #[trigger] lookup(final(fs)@, k) == (if (k == p
                    || crate::paths::is_ancestor(p, k)) {
                    Some(FsNodeV::Dir)
                } else {
                    lookup(old(fs)@, k)
                }))),
            _ => false,
        })),
        (a@ matches ActionV::DoReadDir(p) ==> final(fs)@ == old(fs)@ && (match ev@ {
            EventV::Listing(r) => ((r is Err) <==> lookup(old(fs)@, p) != Some(FsNodeV::Dir))
                && (r matches Ok(l) ==> l == spec_children(old(fs)@, p)),
            _ => false,
        })),
{
    match a {
        Action::QueryKind(p) => Event::KindIs(fs.kind_of(p)),
        Action::DoRename(s, d) => Event::OpDone(fs.rename(s, d)),
        Action::DoCopyFile(s, d) => Event::OpDone(fs.copy_file(s, d)),
        Action::DoCreateDirAll(p) => Event::OpDone(fs.create_dir_all(p)),
        Action::DoReadDir(p) => Event::Listing(fs.read_dir(p)),
        Action::Finish(_) => Event::KindIs(NodeKind::Missing),
    }
}

/// Resolves the request and drives the engine against the model until
/// it finishes or `fuel` actions have been performed.
pub fn run(fs: &mut MemFs, req: &TransferRequest, fuel: usize) -> (r: Option<TransferOutcome>)
    requires
        old(fs).wf(),
    ensures
        final(fs).wf(),
        (!request_shape_ok(req.mode, req.paths.deep_view()) ==> final(fs)@ == old(fs)@ && (match r {
            Some(o) => o@ matches OutcomeV::Failure(f) && f.kind == ErrorKind::UsageError,
            None => false,
        })),
        ((request_shape_ok(req.mode, req.paths.deep_view()) && req.policy is Merge)
            ==> final(fs)@ == old(fs)@ && (match r {
            Some(o) => o@ matches OutcomeV::Failure(f) && f.kind == ErrorKind::NotImplemented,
            None => false,
        })),
        ((request_shape_ok(req.mode, req.paths.deep_view()) && req.mode is DirectPair
            && req.policy is Abort && lookup(old(fs)@, req.paths.deep_view()[1]) is Some
            && fuel >= 1) ==> final(fs)@ == old(fs)@ && (match r {
            Some(o) => o@ == OutcomeV::Failure(FailureV {
                kind: ErrorKind::TargetExists,
                path: req.paths.deep_view()[1],
                cause: Seq::empty(),
            }),
            None => false,
        })),
        ((request_shape_ok(req.mode, req.paths.deep_view()) && req.mode is DirectPair
            && (req.policy is Abort || req.policy is Override) && req.operation is Move
            && lookup(old(fs)@, req.paths.deep_view()[1]) is None
            && lookup(old(fs)@, req.paths.deep_view()[0]) is Some
            && !prefix_sep(req.paths.deep_view()[0], req.paths.deep_view()[1])
            && !prefix_sep(req.paths.deep_view()[1], req.paths.deep_view()[0])
            && fuel >= 3) ==> (match r {
            Some(o) => o@ == OutcomeV::Success,
            None => false,
        }) && (forall|k: Seq<u8>| #[trigger] lookup(final(fs)@, k) == spec_renamed(
            old(fs)@,
            req.paths.deep_view()[0],
            req.paths.deep_view()[1],
            k,
        ))),
        ((request_shape_ok(req.mode, req.paths.deep_view()) && req.mode is DirectPair
            && (req.policy is Abort || req.policy is Override) && req.operation is Copy
            && lookup(old(fs)@, req.paths.deep_view()[1]) is None
            && (lookup(old(fs)@, req.paths.deep_view()[0]) matches Some(FsNodeV::File(_)))
            && fuel >= 3) ==> (match r {
            Some(o) => o@ == OutcomeV::Success,
            None => false,
        }) && (forall|k: Seq<u8>| #[trigger] lookup(final(fs)@, k) == (if k
            == req.paths.deep_view()[1] {
            lookup(old(fs)@, req.paths.deep_view()[0])
        } else {
            lookup(old(fs)@, k)
        }))),
        ((request_shape_ok(req.mode, req.paths.deep_view()) && req.mode is DirectPair
            && (req.policy is Abort || req.policy is Override) && req.operation is Copy
            && lookup(old(fs)@, req.paths.deep_view()[1]) is None
            && lookup(old(fs)@, req.paths.deep_view()[0]) == Some(FsNodeV::Dir)
            && (forall|k: Seq<u8>| is_direct_child(req.paths.deep_view()[0], k)
                ==> #[trigger] lookup(old(fs)@, k) is None)
            && !mkdir_blocked(old(fs)@, req.paths.deep_view()[1])
            && !prefix_sep(req.paths.deep_view()[0], req.paths.deep_view()[1])
            && !prefix_sep(req.paths.deep_view()[1], req.paths.deep_view()[0])
            && fuel >= 5) ==> (match r {
            Some(o) => o@ == OutcomeV::Success,
            None => false,
        }) && (forall|k: Seq<u8>| #[trigger] lookup(final(fs)@, k) == (if (k
            == req.paths.deep_view()[1] || is_ancestor(req.paths.deep_view()[1], k)) {
            Some(FsNodeV::Dir)
        } else {
            lookup(old(fs)@, k)
        }))),
{
    let ghost fs0 = fs@;
    let ghost dv = req.paths.deep_view();
    let pairs = match resolve_pairs(req) {
        Err(f) => {
            return Some(TransferOutcome::Failure(f));
        },
        Ok(pairs) => pairs,
    };
    proof {
        lemma_item_tasks(pairs@);
    }
    let eng = Engine::new(req.operation, req.policy, &pairs);
    let (eng, act) = eng.start();
    let mut eng = eng;
    let mut act = act;
    let mut remaining = fuel;
    let ghost single = req.mode is DirectPair;
    let ghost src0 = dv[0];
    let ghost dst0 = dv[1];
    let ghost p_exists = single && req.policy is Abort && lookup(fs0, dst0) is Some && fuel >= 1;
    let ghost p_move = single && (req.policy is Abort || req.policy is Override)
        && req.operation is Move && lookup(fs0, dst0) is None && lookup(fs0, src0) is Some
        && !prefix_sep(src0, dst0) && !prefix_sep(dst0, src0) && fuel >= 3;
    let ghost p_copy = single && (req.policy is Abort || req.policy is Override)
        && req.operation is Copy && lookup(fs0, dst0) is None
        && (lookup(fs0, src0) matches Some(FsNodeV::File(_))) && fuel >= 3;
    let ghost p_tree = single && (req.policy is Abort || req.policy is Override)
        && req.operation is Copy && lookup(fs0, dst0) is None
        && lookup(fs0, src0) == Some(FsNodeV::Dir)
        && (forall|k: Seq<u8>| is_direct_child(src0, k) ==> #[trigger] lookup(fs0, k) is None)
        && !mkdir_blocked(fs0, dst0) && !prefix_sep(src0, dst0) && !prefix_sep(dst0, src0)
        && fuel >= 5;
    proof {
        if single {
            assert(pairs@.len() == 1);
            assert(pairs@[0].0@ == src0);
            assert(pairs@[0].1@ == dst0);
            assert(eng@.stack.len() == 0);
        }
        if req.policy is Merge {
            assert(act@ == ActionV::Finish(failure(ErrorKind::NotImplemented, pairs@[0].1@)));
        }
    }
    let ghost p_merge = request_shape_ok(req.mode, dv) && req.policy is Merge;
    proof {
        if p_merge {
            assert(act@ matches ActionV::Finish(OutcomeV::Failure(f))
                && f.kind == ErrorKind::NotImplemented);
        }
    }
    while !matches!(act, Action::Finish(_))
        invariant
            fs.wf(),
            fs0 == old(fs)@,
            dv == req.paths.deep_view(),
            request_shape_ok(req.mode, dv),
            single == (req.mode is DirectPair),
            (single ==> dv.len() == 2 && src0 == dv[0] && dst0 == dv[1]),
            p_merge == (request_shape_ok(req.mode, dv) && req.policy is Merge),
            p_exists == (single && req.policy is Abort && lookup(fs0, dst0) is Some && fuel >= 1),
            p_move == (single && (req.policy is Abort || req.policy is Override)
                && req.operation is Move && lookup(fs0, dst0) is None && lookup(fs0, src0) is Some
                && !prefix_sep(src0, dst0) && !prefix_sep(dst0, src0) && fuel >= 3),
            p_copy == (single && (req.policy is Abort || req.policy is Override)
                && req.operation is Copy && lookup(fs0, dst0) is None
                && (lookup(fs0, src0) matches Some(FsNodeV::File(_))) && fuel >= 3),
            p_tree == (single && (req.policy is Abort || req.policy is Override)
                && req.operation is Copy && lookup(fs0, dst0) is None
                && lookup(fs0, src0) == Some(FsNodeV::Dir)
                && (forall|k: Seq<u8>| is_direct_child(src0, k) ==> #[trigger] lookup(
                fs0,
                k,
            ) is None) && !mkdir_blocked(fs0, dst0) && !prefix_sep(src0, dst0)
                && !prefix_sep(dst0, src0) && fuel >= 5),
            (p_merge ==> fs@ == fs0 && (act@ matches ActionV::Finish(OutcomeV::Failure(f))
                && f.kind == ErrorKind::NotImplemented)),
            eng@.operation == req.operation,
            eng@.policy == req.policy,
            (p_exists ==> fs@ == fs0 && eng@.stack.len() == 0 && ((act@ == ActionV::QueryKind(dst0)
                && eng@.phase == PhaseV::AwaitPolicyExists(src0, dst0) && remaining >= 1) || act@
                == ActionV::Finish(failure(ErrorKind::TargetExists, dst0)))),
            (p_move ==> eng@.stack.len() == 0 && ((fs@ == fs0 && ((act@ == ActionV::QueryKind(dst0)
                && eng@.phase == PhaseV::AwaitPolicyExists(src0, dst0) && remaining >= 2) || (act@
                == ActionV::DoRename(src0, dst0) && eng@.phase == PhaseV::AwaitRenameDone(
                src0,
                dst0,
            ) && remaining >= 1))) || (act@ == ActionV::Finish(OutcomeV::Success)
                && (forall|k: Seq<u8>| #[trigger] lookup(fs@, k) == spec_renamed(
                fs0,
                src0,
                dst0,
                k,
            ))))),
            (p_copy ==> eng@.stack.len() == 0 && ((fs@ == fs0 && ((act@ == ActionV::QueryKind(dst0)
                && eng@.phase == PhaseV::AwaitPolicyExists(src0, dst0) && remaining >= 3) || (act@
                == ActionV::QueryKind(src0) && eng@.phase == PhaseV::AwaitSrcKind(src0, dst0)
                && remaining >= 2) || (act@ == ActionV::DoCopyFile(src0, dst0) && eng@.phase
                == PhaseV::AwaitCopyDone(src0, dst0) && remaining >= 1))) || (act@
                == ActionV::Finish(OutcomeV::Success) && (forall|k: Seq<u8>| #[trigger] lookup(
                fs@,
                k,
            ) == (if k == dst0 {
                lookup(fs0, src0)
            } else {
                lookup(fs0, k)
            }))))),
            (p_tree ==> eng@.stack.len() == 0 && ((fs@ == fs0 && ((act@ == ActionV::QueryKind(dst0)
                && eng@.phase == PhaseV::AwaitPolicyExists(src0, dst0) && remaining >= 5) || (act@
                == ActionV::QueryKind(src0) && eng@.phase == PhaseV::AwaitSrcKind(src0, dst0)
                && remaining >= 4) || (act@ == ActionV::QueryKind(dst0) && eng@.phase
                == PhaseV::AwaitDstKindForDir(src0, dst0) && remaining >= 3) || (act@
                == ActionV::DoCreateDirAll(dst0) && eng@.phase == PhaseV::AwaitMkdirDone(
                src0,
                dst0,
            ) && remaining >= 2))) || ((forall|k: Seq<u8>| #[trigger] lookup(fs@, k) == (if (k
                == dst0 || is_ancestor(dst0, k)) {
                Some(FsNodeV::Dir)
            } else {
                lookup(fs0, k)
            })) && ((act@ == ActionV::DoReadDir(src0) && eng@.phase == PhaseV::AwaitListing(
                src0,
                dst0,
            ) && remaining >= 1) || act@ == ActionV::Finish(OutcomeV::Success))))),
        decreases remaining,
    {
        if remaining == 0 {
            return None;
        }
        remaining = remaining - 1;
        let ghost fs_pre = fs@;
        let ghost act_pre = act@;
        let ghost eng_pre = eng@;
        let ev = apply(fs, &act);
        proof {
            if p_tree && act_pre == ActionV::DoReadDir(src0) {
                assert(!is_ancestor(dst0, src0));
                assert(lookup(fs_pre, src0) == Some(FsNodeV::Dir));
                assert forall|k: Seq<u8>| is_direct_child(src0, k)
                    implies #[trigger] lookup(fs_pre, k) is None by {
                    if k == dst0 {
                        assert(prefix_sep(src0, dst0));
                    } else if is_ancestor(dst0, k) {
                        assert(dst0.take(src0.len() as int) =~= k.take(src0.len() as int));
                        assert(dst0[src0.len() as int] == k[src0.len() as int]);
                        assert(prefix_sep(src0, dst0));
                    }
                }
                crate::memfs::lemma_no_children(fs_pre, src0);
                assert(ev@ == EventV::Listing(Ok(Seq::<DirChildV>::empty())));
                assert(child_tasks(src0, dst0, Seq::<DirChildV>::empty())
                    =~= Seq::<crate::engine::TaskV>::empty());
                assert(eng_pre.stack + child_tasks(src0, dst0, Seq::<DirChildV>::empty())
                    =~= eng_pre.stack);
            }
        }
        let stepped = eng.step(ev);
        eng = stepped.0;
        act = stepped.1;
    }
    match act {
        Action::Finish(o) => Some(o),
        _ => None,
    }
}

} // verus!
