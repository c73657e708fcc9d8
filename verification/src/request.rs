//! Transfer requests, outcomes, and destination resolution.
//!
//! A request carries the caller-supplied path list together with the
//! transfer mode, the copy-or-move operation, and the target-exists
//! policy. Destination resolution turns the path list into explicit
//! `(source, destination)` pairs: a direct pair uses the two paths as
//! given, while move-into joins the trailing target directory with
//! each source's base name.

use vstd::prelude::*;

use crate::paths::spec_base_name;
use crate::paths::spec_join;
use crate::paths::base_name;
use crate::paths::join;
use crate::paths::copy_bytes;

verus! {

/// Whether items are moved (renamed away) or copied (source kept).
#[derive(Clone, Copy, PartialEq, Eq, Structural, Debug)]
pub enum Operation {
    Move,
    Copy,
}

/// How the path list is read: an explicit source/destination pair, or
/// sources placed inside a trailing target directory.
#[derive(Clone, Copy, PartialEq, Eq, Structural, Debug)]
pub enum Mode {
    DirectPair,
    MoveInto,
}

/// What to do when a computed destination already exists.
#[derive(Clone, Copy, PartialEq, Eq, Structural, Debug)]
pub enum TargetExistsPolicy {
    Abort,
    Override,
    Merge,
}

/// The classification of a failed transfer.
#[derive(Clone, Copy, PartialEq, Eq, Structural, Debug)]
pub enum ErrorKind {
    UsageError,
    TargetExists,
    NotImplemented,
    InternalError,
}

/// A failure: its kind, the path it concerns, and the underlying
/// cause when one was reported.
#[derive(Debug)]
pub struct TransferFailure {
    pub kind: ErrorKind,
    pub path: Vec<u8>,
    pub cause: String,
}

/// Mathematical image of a failure.
pub struct FailureV {
    pub kind: ErrorKind,
    pub path: Seq<u8>,
    pub cause: Seq<char>,
}

impl View for TransferFailure {
    type V = FailureV;

    open spec fn view(&self) -> FailureV {
        FailureV { kind: self.kind, path: self.path@, cause: self.cause@ }
    }
}

/// The result of a whole transfer run.
pub enum TransferOutcome {
    Success,
    Failure(TransferFailure),
}

/// Mathematical image of an outcome.
pub enum OutcomeV {
    Success,
    Failure(FailureV),
}

impl View for TransferOutcome {
    type V = OutcomeV;

    open spec fn view(&self) -> OutcomeV {
        match self {
            TransferOutcome::Success => OutcomeV::Success,
            TransferOutcome::Failure(f) => OutcomeV::Failure(f@),
        }
    }
}

/// A parsed transfer request: the raw path list plus the three
/// settings that govern the run.
pub struct TransferRequest {
    pub paths: Vec<Vec<u8>>,
    pub mode: Mode,
    pub operation: Operation,
    pub policy: TargetExistsPolicy,
}

/// Whether the path list has the shape its mode demands and, for
/// move-into, every source yields a base name.
pub open spec fn request_shape_ok(mode: Mode, paths: Seq<Seq<u8>>) -> bool {
    match mode {
        Mode::DirectPair => paths.len() == 2,
        Mode::MoveInto => paths.len() >= 2 && (forall|i: int|
            0 <= i < paths.len() - 1 ==> spec_base_name(#[trigger] paths[i]) is Some),
    }
}

/// The destination each source resolves to under `mode`.
pub open spec fn spec_destination(mode: Mode, paths: Seq<Seq<u8>>, i: int) -> Seq<u8>
    recommends
        request_shape_ok(mode, paths),
        0 <= i < paths.len() - if mode is DirectPair { 1int } else { 1int },
{
    match mode {
        Mode::DirectPair => paths[1],
        Mode::MoveInto => spec_join(paths[paths.len() - 1], spec_base_name(paths[i]).unwrap()),
    }
}

/// The deep view of a path list reads element-wise as the views of
/// its paths.
pub proof fn lemma_paths_deep_view(v: &Vec<Vec<u8>>)
    ensures
        v.deep_view().len() == v@.len(),
        forall|i: int| 0 <= i < v@.len() ==> #[trigger] v.deep_view()[i] == v@[i]@,
{
    assert forall|i: int| 0 <= i < v@.len() implies #[trigger] v.deep_view()[i] == v@[i]@ by {
        assert(v.deep_view()[i] =~= v@[i]@);
    }
}

/// Resolves a request's path list into `(source, destination)` pairs.
///
/// A direct pair must hold exactly two paths; move-into must hold at
/// least two, and each source must have a usable base name. The first
/// source without one is reported; nothing past it is resolved.
pub fn resolve_pairs(req: &TransferRequest) -> (r: Result<Vec<(Vec<u8>, Vec<u8>)>, TransferFailure>)
    ensures
        match r {
            Ok(pairs) => request_shape_ok(req.mode, req.paths.deep_view())
                && pairs.len() == req.paths.len() - 1
                && (forall|i: int| 0 <= i < pairs.len() ==> (#[trigger] pairs[i].0)@
                    == req.paths.deep_view()[i])
                && (forall|i: int| 0 <= i < pairs.len() ==> (#[trigger] pairs[i].1)@
                    == spec_destination(req.mode, req.paths.deep_view(), i)),
            Err(f) => !request_shape_ok(req.mode, req.paths.deep_view())
                && f.kind == ErrorKind::UsageError
                && (req.mode is MoveInto && req.paths.len() >= 2 ==> (exists|i: int|
                    0 <= i < req.paths.len() - 1
                    && spec_base_name(#[trigger] req.paths.deep_view()[i]) is None
                    && f.path@ == req.paths.deep_view()[i]
                    && (forall|j: int| 0 <= j < i
                        ==> spec_base_name(#[trigger] req.paths.deep_view()[j]) is Some))),
        },
{
    proof {
        lemma_paths_deep_view(&req.paths);
    }
    match req.mode {
        Mode::DirectPair => {
            if req.paths.len() != 2 {
                return Err(TransferFailure {
                    kind: ErrorKind::UsageError,
                    path: Vec::new(),
                    cause: String::new(),
                });
            }
            let mut pairs: Vec<(Vec<u8>, Vec<u8>)> = Vec::new();
            pairs.push((copy_bytes(&req.paths[0]), copy_bytes(&req.paths[1])));
            Ok(pairs)
        },
        Mode::MoveInto => {
            if req.paths.len() < 2 {
                return Err(TransferFailure {
                    kind: ErrorKind::UsageError,
                    path: Vec::new(),
                    cause: String::new(),
                });
            }
            let target_index = req.paths.len() - 1;
            let mut pairs: Vec<(Vec<u8>, Vec<u8>)> = Vec::new();
            let mut i: usize = 0;
            while i < target_index
                invariant
                    req.mode is MoveInto,
                    target_index == req.paths.len() - 1,
                    req.paths.len() >= 2,
                    i <= target_index,
                    pairs.len() == i,
                    forall|j: int| 0 <= j < i
                        ==> spec_base_name(#[trigger] req.paths.deep_view()[j]) is Some,
                    forall|j: int| 0 <= j < i ==> (#[trigger] pairs[j].0)@
                        == req.paths.deep_view()[j],
                    forall|j: int| 0 <= j < i ==> (#[trigger] pairs[j].1)@
                        == spec_join(req.paths.deep_view()[target_index as int],
                            spec_base_name(req.paths.deep_view()[j]).unwrap()),
                decreases target_index - i,
            {
                match base_name(&req.paths[i]) {
                    None => {
                        proof {
                            assert(req.paths.deep_view()[i as int] == req.paths@[i as int]@);
                            assert(spec_base_name(req.paths.deep_view()[i as int]) is None);
                            assert(!request_shape_ok(req.mode, req.paths.deep_view())) by {
                                let dv = req.paths.deep_view();
                                if request_shape_ok(req.mode, dv) {
                                    assert(req.mode is MoveInto);
                                    assert((i as int) < dv.len() - 1);
                                    assert(forall|k: int| 0 <= k < dv.len() - 1
                                        ==> spec_base_name(#[trigger] dv[k]) is Some);
                                    assert(spec_base_name(dv[i as int]) is Some);
                                }
                            };
                        }
                        return Err(TransferFailure {
                            kind: ErrorKind::UsageError,
                            path: copy_bytes(&req.paths[i]),
                            cause: String::new(),
                        });
                    },
                    Some(b) => {
                        proof {
                            assert(req.paths.deep_view()[i as int] == req.paths@[i as int]@);
                            assert(spec_base_name(req.paths.deep_view()[i as int]) is Some);
                        }
                        let dst = join(&req.paths[target_index], &b);
                        pairs.push((copy_bytes(&req.paths[i]), dst));
                    },
                }
                i = i + 1;
            }
            Ok(pairs)
        },
    }
}

} // verus!
