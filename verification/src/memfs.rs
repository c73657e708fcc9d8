//! An in-memory filesystem model.
//!
//! The model is a flat association list from whole paths to nodes: a
//! directory, a regular file with its bytes, or an opaque other kind.
//! It answers the same queries and performs the same mutations the
//! engine asks of a real filesystem — kind queries, renames that carry
//! a whole subtree, file copies, recursive directory creation, and
//! directory listings — each with an exact contract over `lookup`.
//! The model is deliberately permissive where a real filesystem has
//! more failure cases (it does not demand that a file's parent
//! directory exist, and it refuses any rename between overlapping
//! paths); each operation's contract states just what it does.

use vstd::prelude::*;

use crate::paths::covered;
use crate::paths::prefix_sep;
use crate::paths::is_under;
use crate::paths::bytes_eq;
use crate::paths::check_covered;
use crate::paths::check_prefix_sep;
use crate::paths::concat_from;
use crate::paths::copy_bytes;
use crate::paths::is_direct_child;
use crate::paths::is_ancestor;
use crate::paths::lemma_cover_disjoint;
use crate::engine::DirChild;
use crate::engine::DirChildV;
use crate::engine::NodeKind;

verus! {

/// What a path holds in the model.
pub enum FsNode {
    Dir,
    File(Vec<u8>),
    Other,
}

/// Mathematical image of a node.
pub enum FsNodeV {
    Dir,
    File(Seq<u8>),
    Other,
}

impl DeepView for FsNode {
    type V = FsNodeV;

    open spec fn deep_view(&self) -> FsNodeV {
        match self {
            FsNode::Dir => FsNodeV::Dir,
            FsNode::File(c) => FsNodeV::File(c@),
            FsNode::Other => FsNodeV::Other,
        }
    }
}

/// A model filesystem's image: paths beside their nodes, in insertion
/// order, with no path twice.
pub type FsView = Seq<(Seq<u8>, FsNodeV)>;

/// The image of a raw entry list.
pub open spec fn entries_view(s: Seq<(Vec<u8>, FsNode)>) -> FsView
    decreases s.len(),
{
    if s.len() == 0 {
        Seq::empty()
    } else {
        entries_view(s.drop_last()).push((s.last().0@, s.last().1.deep_view()))
    }
}

/// The image reads entry-wise as the views of the entries.
pub proof fn lemma_entries_view(s: Seq<(Vec<u8>, FsNode)>)
    ensures
        entries_view(s).len() == s.len(),
        forall|i: int| 0 <= i < s.len() ==> #[trigger] entries_view(s)[i]
            == (s[i].0@, s[i].1.deep_view()),
    decreases s.len(),
{
    if s.len() > 0 {
        lemma_entries_view(s.drop_last());
    }
}

/// The node at `k`, by first match.
pub open spec fn lookup(s: FsView, k: Seq<u8>) -> Option<FsNodeV>
    decreases s.len(),
{
    if s.len() == 0 {
        None
    } else if s[0].0 == k {
        Some(s[0].1)
    } else {
        lookup(s.skip(1), k)
    }
}

/// The kind of the node at `k`.
pub open spec fn spec_kind(s: FsView, k: Seq<u8>) -> NodeKind {
    match lookup(s, k) {
        None => NodeKind::Missing,
        Some(FsNodeV::Dir) => NodeKind::Dir,
        Some(FsNodeV::File(_)) => NodeKind::File,
        Some(FsNodeV::Other) => NodeKind::Other,
    }
}

/// No path occurs twice.
pub open spec fn fs_wf(s: FsView) -> bool {
    forall|i: int, j: int| 0 <= i < j < s.len() ==> (#[trigger] s[i]).0 != (#[trigger] s[j]).0
}

/// Looking a key up in a list that does not hold it yields nothing.
pub proof fn lemma_lookup_none(s: FsView, k: Seq<u8>)
    requires
        forall|i: int| 0 <= i < s.len() ==> (#[trigger] s[i]).0 != k,
    ensures
        lookup(s, k) is None,
    decreases s.len(),
{
    if s.len() > 0 {
        lemma_lookup_none(s.skip(1), k);
    }
}

/// Appending an entry changes lookups only for its key, and only when
/// the key was absent.
pub proof fn lemma_lookup_push(s: FsView, e: (Seq<u8>, FsNodeV), k: Seq<u8>)
    ensures
        lookup(s.push(e), k) == (if lookup(s, k) is Some {
            lookup(s, k)
        } else if e.0 == k {
            Some(e.1)
        } else {
            None
        }),
    decreases s.len(),
{
    if s.len() == 0 {
        assert(s.push(e)[0] == e);
        assert(s.push(e).skip(1) =~= Seq::<(Seq<u8>, FsNodeV)>::empty());
        assert(lookup(s.push(e).skip(1), k) is None);
    } else {
        assert(s.push(e)[0] == s[0]);
        assert(s.push(e).skip(1) =~= s.skip(1).push(e));
        lemma_lookup_push(s.skip(1), e, k);
        if s[0].0 == k {
            assert(lookup(s.push(e), k) == Some(s[0].1));
            assert(lookup(s, k) == Some(s[0].1));
        } else {
            assert(lookup(s.push(e), k) == lookup(s.skip(1).push(e), k));
            assert(lookup(s, k) == lookup(s.skip(1), k));
        }
    }
}

/// The entries past the first `i` hold every key the whole list
/// holds, when none of the first `i` entries has it.
pub proof fn lemma_lookup_skip(s: FsView, k: Seq<u8>, i: int)
    requires
        0 <= i <= s.len(),
        forall|j: int| 0 <= j < i ==> (#[trigger] s[j]).0 != k,
    ensures
        lookup(s, k) == lookup(s.skip(i), k),
    decreases i,
{
    if i == 0 {
        assert(s.skip(0) =~= s);
    } else {
        assert(s[0].0 != k);
        lemma_lookup_skip(s.skip(1), k, i - 1);
        assert(s.skip(1).skip(i - 1) =~= s.skip(i));
    }
}

/// An entry's key is always found.
pub proof fn lemma_lookup_hit(s: FsView, i: int)
    requires
        0 <= i < s.len(),
    ensures
        lookup(s, s[i].0) is Some,
    decreases i,
{
    if s[0].0 != s[i].0 {
        lemma_lookup_hit(s.skip(1), i - 1);
    }
}

/// The model filesystem.
pub struct MemFs {
    pub entries: Vec<(Vec<u8>, FsNode)>,
}

impl View for MemFs {
    type V = FsView;

    open spec fn view(&self) -> FsView {
        entries_view(self.entries@)
    }
}

impl MemFs {
    /// Whether the representation is sound: no path twice.
    pub open spec fn wf(&self) -> bool {
        fs_wf(self@)
    }

    /// An empty filesystem.
    pub fn new() -> (r: MemFs)
        ensures
            r.wf(),
            r@ == Seq::<(Seq<u8>, FsNodeV)>::empty(),
    {
        MemFs { entries: Vec::new() }
    }

    /// The kind of the node at `p`.
    pub fn kind_of(&self, p: &Vec<u8>) -> (k: NodeKind)
        ensures
            k == spec_kind(self@, p@),
    {
        proof {
            lemma_entries_view(self.entries@);
        }
        let mut i: usize = 0;
        while i < self.entries.len()
            invariant
                i <= self.entries.len(),
                self@.len() == self.entries.len(),
                forall|j: int| 0 <= j < self.entries@.len() ==> #[trigger] self@[j]
                    == (self.entries@[j].0@, self.entries@[j].1.deep_view()),
                forall|j: int| 0 <= j < i ==> (#[trigger] self@[j]).0 != p@,
            decreases self.entries.len() - i,
        {
            if bytes_eq(&self.entries[i].0, p) {
                proof {
                    lemma_lookup_skip(self@, p@, i as int);
                    assert(lookup(self@, p@) == Some(self@[i as int].1));
                }
                return match &self.entries[i].1 {
                    FsNode::Dir => NodeKind::Dir,
                    FsNode::File(_) => NodeKind::File,
                    FsNode::Other => NodeKind::Other,
                };
            }
            i = i + 1;
        }
        proof {
            lemma_lookup_none(self@, p@);
        }
        NodeKind::Missing
    }

    /// The bytes of the regular file at `p`, when one is there.
    pub fn file_content(&self, p: &Vec<u8>) -> (r: Option<Vec<u8>>)
        ensures
            match r {
                Some(c) => lookup(self@, p@) == Some(FsNodeV::File(c@)),
                None => !(lookup(self@, p@) matches Some(FsNodeV::File(_))),
            },
    {
        proof {
            lemma_entries_view(self.entries@);
        }
        let mut i: usize = 0;
        while i < self.entries.len()
            invariant
                i <= self.entries.len(),
                self@.len() == self.entries.len(),
                forall|j: int| 0 <= j < self.entries@.len() ==> #[trigger] self@[j]
                    == (self.entries@[j].0@, self.entries@[j].1.deep_view()),
                forall|j: int| 0 <= j < i ==> (#[trigger] self@[j]).0 != p@,
            decreases self.entries.len() - i,
        {
            if bytes_eq(&self.entries[i].0, p) {
                proof {
                    lemma_lookup_skip(self@, p@, i as int);
                    assert(lookup(self@, p@) == Some(self@[i as int].1));
                }
                return match &self.entries[i].1 {
                    FsNode::File(c) => Some(copy_bytes(c)),
                    _ => None,
                };
            }
            i = i + 1;
        }
        proof {
            lemma_lookup_none(self@, p@);
        }
        None
    }

    /// Puts `n` at `p`, replacing whatever was there.
    pub fn set_node(&mut self, p: &Vec<u8>, n: FsNode)
        requires
            old(self).wf(),
        ensures
            final(self).wf(),
            forall|k: Seq<u8>| #[trigger] lookup(final(self)@, k) == (if k == p@ {
                Some(n.deep_view())
            } else {
                lookup(old(self)@, k)
            }),
    {
        let ghost pre = self@;
        proof {
            lemma_entries_view(self.entries@);
        }
        let mut out: Vec<(Vec<u8>, FsNode)> = Vec::new();
        let mut i: usize = 0;
        while i < self.entries.len()
            invariant
                fs_wf(pre),
                pre == self@,
                pre.len() == self.entries.len(),
                forall|j: int| 0 <= j < self.entries@.len() ==> #[trigger] pre[j]
                    == (self.entries@[j].0@, self.entries@[j].1.deep_view()),
                i <= self.entries.len(),
                fs_wf(entries_view(out@)),
                forall|j: int| 0 <= j < entries_view(out@).len()
                    ==> (#[trigger] entries_view(out@)[j]).0 != p@,
                forall|k: Seq<u8>| #[trigger] lookup(entries_view(out@), k) == (if k == p@ {
                    None::<FsNodeV>
                } else {
                    lookup(pre.take(i as int), k)
                }),
            decreases self.entries.len() - i,
        {
            let ghost opre = out@;
            let ghost odv = entries_view(out@);
            let ghost e = pre[i as int];
            let keep = !bytes_eq(&self.entries[i].0, p);
            if keep {
                let kcopy = copy_bytes(&self.entries[i].0);
                let ncopy = copy_node(&self.entries[i].1);
                out.push((kcopy, ncopy));
                proof {
                    assert(out@.drop_last() =~= opre);
                    assert(entries_view(out@) =~= odv.push(e));
                    assert forall|k: Seq<u8>| #[trigger] lookup(entries_view(out@), k)
                        == (if k == p@ {
                        None::<FsNodeV>
                    } else {
                        lookup(pre.take(i + 1), k)
                    }) by {
                        lemma_lookup_push(odv, e, k);
                        assert(pre.take(i + 1) =~= pre.take(i as int).push(e));
                        lemma_lookup_push(pre.take(i as int), e, k);
                    }
                    lemma_entries_view(out@);
                    assert forall|a: int, b: int| 0 <= a < b < entries_view(out@).len()
                        implies (#[trigger] entries_view(out@)[a]).0
                            != (#[trigger] entries_view(out@)[b]).0 by {
                        if b == entries_view(out@).len() - 1 {
                            if odv[a].0 == e.0 {
                                lemma_lookup_hit(odv, a);
                                assert(lookup(odv, e.0) is Some);
                                assert forall|j: int| 0 <= j < i
                                    implies (#[trigger] pre.take(i as int)[j]).0 != e.0 by {
                                    assert(pre[j].0 != pre[i as int].0);
                                }
                                lemma_lookup_none(pre.take(i as int), e.0);
                            }
                            assert(entries_view(out@)[a] == odv[a]);
                        }
                    }
                }
            } else {
                proof {
                    assert(e.0 == p@);
                    assert forall|k: Seq<u8>| #[trigger] lookup(entries_view(out@), k)
                        == (if k == p@ {
                        None::<FsNodeV>
                    } else {
                        lookup(pre.take(i + 1), k)
                    }) by {
                        assert(pre.take(i + 1) =~= pre.take(i as int).push(e));
                        lemma_lookup_push(pre.take(i as int), e, k);
                    }
                }
            }
            i = i + 1;
        }
        let ghost opre = out@;
        let ghost odv = entries_view(out@);
        let kcopy = copy_bytes(p);
        out.push((kcopy, n));
        proof {
            assert(pre.take(pre.len() as int) =~= pre);
            assert(out@.drop_last() =~= opre);
            assert(entries_view(out@) =~= odv.push((p@, n.deep_view())));
            assert forall|k: Seq<u8>| #[trigger] lookup(entries_view(out@), k) == (if k == p@ {
                Some(n.deep_view())
            } else {
                lookup(pre, k)
            }) by {
                lemma_lookup_push(odv, (p@, n.deep_view()), k);
            }
            lemma_entries_view(out@);
            assert forall|a: int, b: int| 0 <= a < b < entries_view(out@).len()
                implies (#[trigger] entries_view(out@)[a]).0
                    != (#[trigger] entries_view(out@)[b]).0 by {
                if b == entries_view(out@).len() - 1 {
                    lemma_lookup_hit(odv, a);
                    assert(entries_view(out@)[a] == odv[a]);
                }
            }
        }
        self.entries = out;
    }
}

/// What a lookup yields after `src` and everything under it moves to
/// `dst`, wiping what was at `dst` before.
pub open spec fn spec_renamed(s: FsView, src: Seq<u8>, dst: Seq<u8>, k: Seq<u8>) -> Option<
    FsNodeV,
> {
    if covered(dst, k) {
        lookup(s, src + k.skip(dst.len() as int))
    } else if covered(src, k) {
        None
    } else {
        lookup(s, k)
    }
}

impl MemFs {
    /// Drops `p` and everything under it.
    fn remove_covered(&mut self, p: &Vec<u8>)
        requires
            old(self).wf(),
        ensures
            final(self).wf(),
            forall|k: Seq<u8>| #[trigger] lookup(final(self)@, k) == (if covered(p@, k) {
                None::<FsNodeV>
            } else {
                lookup(old(self)@, k)
            }),
            forall|j: int| 0 <= j < final(self)@.len()
                ==> !covered(p@, (#[trigger] final(self)@[j]).0),
    {
        let ghost pre = self@;
        proof {
            lemma_entries_view(self.entries@);
        }
        let mut out: Vec<(Vec<u8>, FsNode)> = Vec::new();
        let mut i: usize = 0;
        while i < self.entries.len()
            invariant
                fs_wf(pre),
                pre == self@,
                pre.len() == self.entries.len(),
                forall|j: int| 0 <= j < self.entries@.len() ==> #[trigger] pre[j]
                    == (self.entries@[j].0@, self.entries@[j].1.deep_view()),
                i <= self.entries.len(),
                fs_wf(entries_view(out@)),
                forall|j: int| 0 <= j < entries_view(out@).len()
                    ==> !covered(p@, (#[trigger] entries_view(out@)[j]).0),
                forall|k: Seq<u8>| #[trigger] lookup(entries_view(out@), k) == (if covered(p@, k) {
                    None::<FsNodeV>
                } else {
                    lookup(pre.take(i as int), k)
                }),
            decreases self.entries.len() - i,
        {
            let ghost opre = out@;
            let ghost odv = entries_view(out@);
            let ghost e = pre[i as int];
            let keep = !check_covered(p, &self.entries[i].0);
            if keep {
                let kcopy = copy_bytes(&self.entries[i].0);
                let ncopy = copy_node(&self.entries[i].1);
                out.push((kcopy, ncopy));
                proof {
                    assert(out@.drop_last() =~= opre);
                    assert(entries_view(out@) =~= odv.push(e));
                    assert forall|k: Seq<u8>| #[trigger] lookup(entries_view(out@), k)
                        == (if covered(p@, k) {
                        None::<FsNodeV>
                    } else {
                        lookup(pre.take(i + 1), k)
                    }) by {
                        lemma_lookup_push(odv, e, k);
                        assert(pre.take(i + 1) =~= pre.take(i as int).push(e));
                        lemma_lookup_push(pre.take(i as int), e, k);
                    }
                    lemma_entries_view(out@);
                    assert forall|a: int, b: int| 0 <= a < b < entries_view(out@).len()
                        implies (#[trigger] entries_view(out@)[a]).0
                            != (#[trigger] entries_view(out@)[b]).0 by {
                        if b == entries_view(out@).len() - 1 {
                            if odv[a].0 == e.0 {
                                lemma_lookup_hit(odv, a);
                                assert forall|j: int| 0 <= j < i
                                    implies (#[trigger] pre.take(i as int)[j]).0 != e.0 by {
                                    assert(pre[j].0 != pre[i as int].0);
                                }
                                lemma_lookup_none(pre.take(i as int), e.0);
                            }
                            assert(entries_view(out@)[a] == odv[a]);
                        }
                    }
                }
            } else {
                proof {
                    assert(covered(p@, e.0));
                    assert forall|k: Seq<u8>| #[trigger] lookup(entries_view(out@), k)
                        == (if covered(p@, k) {
                        None::<FsNodeV>
                    } else {
                        lookup(pre.take(i + 1), k)
                    }) by {
                        assert(pre.take(i + 1) =~= pre.take(i as int).push(e));
                        lemma_lookup_push(pre.take(i as int), e, k);
                    }
                }
            }
            i = i + 1;
        }
        proof {
            assert(pre.take(pre.len() as int) =~= pre);
        }
        self.entries = out;
    }

    /// Moves `src`, with everything under it, to `dst`; whatever was
    /// at or under `dst` is replaced. Refuses a missing source and
    /// any pair of paths where one continues the other with a
    /// separator; renaming a path to itself changes nothing.
    pub fn rename(&mut self, src: &Vec<u8>, dst: &Vec<u8>) -> (r: Option<String>)
        requires
            old(self).wf(),
        ensures
            final(self).wf(),
            (r is Some) <==> (lookup(old(self)@, src@) is None
                || (src@ != dst@ && (prefix_sep(src@, dst@) || prefix_sep(dst@, src@)))),
            r is Some ==> final(self)@ == old(self)@,
            (r is None && src@ == dst@) ==> final(self)@ == old(self)@,
            (r is None && src@ != dst@) ==> forall|k: Seq<u8>| #[trigger] lookup(final(self)@, k)
                == spec_renamed(old(self)@, src@, dst@, k),
    {
        let ghost pre = self@;
        proof {
            lemma_entries_view(self.entries@);
        }
        let src_kind = self.kind_of(src);
        if matches!(src_kind, NodeKind::Missing) {
            return Some(String::new());
        }
        if bytes_eq(src, dst) {
            return None;
        }
        if check_prefix_sep(src, dst) || check_prefix_sep(dst, src) {
            return Some(String::new());
        }
        self.remove_covered(dst);
        let ghost mid = self@;
        let mut out: Vec<(Vec<u8>, FsNode)> = Vec::new();
        let mut i: usize = 0;
        proof {
            lemma_entries_view(self.entries@);
        }
        while i < self.entries.len()
            invariant
                src@ != dst@,
                !prefix_sep(src@, dst@),
                !prefix_sep(dst@, src@),
                fs_wf(mid),
                mid == self@,
                mid.len() == self.entries.len(),
                forall|j: int| 0 <= j < self.entries@.len() ==> #[trigger] mid[j]
                    == (self.entries@[j].0@, self.entries@[j].1.deep_view()),
                forall|j: int| 0 <= j < mid.len() ==> !covered(dst@, (#[trigger] mid[j]).0),
                i <= self.entries.len(),
                fs_wf(entries_view(out@)),
                forall|k: Seq<u8>| #[trigger] lookup(entries_view(out@), k)
                    == spec_renamed(mid.take(i as int), src@, dst@, k),
            decreases self.entries.len() - i,
        {
            let ghost opre = out@;
            let ghost odv = entries_view(out@);
            let ghost e = mid[i as int];
            proof {
                assert forall|j: int| 0 <= j < i
                    implies (#[trigger] mid.take(i as int)[j]).0 != e.0 by {
                    assert(mid[j].0 != mid[i as int].0);
                }
                lemma_lookup_none(mid.take(i as int), e.0);
            }
            let moved = check_covered(src, &self.entries[i].0);
            if moved {
                let nk = concat_from(dst, &self.entries[i].0, src.len());
                let nn = copy_node(&self.entries[i].1);
                out.push((nk, nn));
                let ghost t = dst@ + e.0.skip(src@.len() as int);
                proof {
                    assert(out@.drop_last() =~= opre);
                    assert(entries_view(out@) =~= odv.push((t, e.1)));
                    assert(e.0.take(src@.len() as int) == src@);
                    assert(e.0 =~= e.0.take(src@.len() as int) + e.0.skip(src@.len() as int));
                    assert(t.skip(dst@.len() as int) =~= e.0.skip(src@.len() as int));
                    if e.0 == src@ {
                        assert(t =~= dst@);
                    } else {
                        assert(is_under(src@, e.0));
                        assert(t.take(dst@.len() as int) =~= dst@);
                        assert(t[dst@.len() as int] == e.0[src@.len() as int]);
                        assert(is_under(dst@, t));
                    }
                    assert(covered(dst@, t));
                    assert(lookup(odv, t) == lookup(mid.take(i as int), e.0));
                    assert(lookup(odv, t) is None);
                    assert forall|q: Seq<u8>| #[trigger] lookup(entries_view(out@), q)
                        == spec_renamed(mid.take(i + 1), src@, dst@, q) by {
                        lemma_lookup_push(odv, (t, e.1), q);
                        assert(mid.take(i + 1) =~= mid.take(i as int).push(e));
                        if covered(dst@, q) {
                            let invq = src@ + q.skip(dst@.len() as int);
                            lemma_lookup_push(mid.take(i as int), e, invq);
                            assert(q =~= q.take(dst@.len() as int) + q.skip(dst@.len() as int));
                            assert(q.take(dst@.len() as int) == dst@);
                            if q == t {
                                assert(t.skip(dst@.len() as int) == q.skip(dst@.len() as int));
                                assert(invq =~= e.0);
                            }
                            if invq == e.0 {
                                assert(invq.skip(src@.len() as int) =~= q.skip(dst@.len() as int));
                                assert(t =~= q);
                            }
                        } else if covered(src@, q) {
                            if t == q {
                                assert(covered(dst@, q));
                            }
                        } else {
                            lemma_lookup_push(mid.take(i as int), e, q);
                            if t == q {
                                assert(covered(dst@, q));
                            }
                        }
                    }
                    lemma_entries_view(out@);
                    assert forall|a: int, b: int| 0 <= a < b < entries_view(out@).len()
                        implies (#[trigger] entries_view(out@)[a]).0
                            != (#[trigger] entries_view(out@)[b]).0 by {
                        if b == entries_view(out@).len() - 1 {
                            if odv[a].0 == t {
                                lemma_lookup_hit(odv, a);
                            }
                            assert(entries_view(out@)[a] == odv[a]);
                        }
                    }
                }
            } else {
                let kc = copy_bytes(&self.entries[i].0);
                let nn = copy_node(&self.entries[i].1);
                out.push((kc, nn));
                proof {
                    assert(out@.drop_last() =~= opre);
                    assert(entries_view(out@) =~= odv.push(e));
                    assert(!covered(src@, e.0));
                    assert(!covered(dst@, e.0));
                    assert(lookup(odv, e.0) == spec_renamed(mid.take(i as int), src@, dst@, e.0));
                    assert(lookup(odv, e.0) is None);
                    assert forall|q: Seq<u8>| #[trigger] lookup(entries_view(out@), q)
                        == spec_renamed(mid.take(i + 1), src@, dst@, q) by {
                        lemma_lookup_push(odv, e, q);
                        assert(mid.take(i + 1) =~= mid.take(i as int).push(e));
                        if covered(dst@, q) {
                            let invq = src@ + q.skip(dst@.len() as int);
                            lemma_lookup_push(mid.take(i as int), e, invq);
                            assert(q =~= q.take(dst@.len() as int) + q.skip(dst@.len() as int));
                            assert(q.take(dst@.len() as int) == dst@);
                            if invq == e.0 {
                                if q == dst@ {
                                    assert(invq =~= src@);
                                } else {
                                    assert(is_under(dst@, q));
                                    assert(invq.take(src@.len() as int) =~= src@);
                                    assert(invq[src@.len() as int] == q[dst@.len() as int]);
                                    assert(is_under(src@, invq));
                                }
                                assert(covered(src@, invq));
                            }
                            if e.0 == q {
                                assert(covered(dst@, e.0));
                            }
                        } else if covered(src@, q) {
                            if e.0 == q {
                                assert(covered(src@, e.0));
                            }
                        } else {
                            lemma_lookup_push(mid.take(i as int), e, q);
                        }
                    }
                    lemma_entries_view(out@);
                    assert forall|a: int, b: int| 0 <= a < b < entries_view(out@).len()
                        implies (#[trigger] entries_view(out@)[a]).0
                            != (#[trigger] entries_view(out@)[b]).0 by {
                        if b == entries_view(out@).len() - 1 {
                            if odv[a].0 == e.0 {
                                lemma_lookup_hit(odv, a);
                            }
                            assert(entries_view(out@)[a] == odv[a]);
                        }
                    }
                }
            }
            i = i + 1;
        }
        proof {
            assert(mid.take(mid.len() as int) =~= mid);
        }
        self.entries = out;
        proof {
            assert forall|k: Seq<u8>| #[trigger] lookup(self@, k)
                == spec_renamed(pre, src@, dst@, k) by {
                if covered(dst@, k) {
                    let invk = src@ + k.skip(dst@.len() as int);
                    assert(k =~= k.take(dst@.len() as int) + k.skip(dst@.len() as int));
                    assert(k.take(dst@.len() as int) == dst@);
                    if k == dst@ {
                        assert(invk =~= src@);
                    } else {
                        assert(is_under(dst@, k));
                        assert(invk.take(src@.len() as int) =~= src@);
                        assert(invk[src@.len() as int] == k[dst@.len() as int]);
                        assert(is_under(src@, invk));
                    }
                    assert(covered(src@, invk));
                    if covered(dst@, invk) {
                        lemma_cover_disjoint(src@, dst@, invk);
                    }
                    assert(lookup(mid, invk) == lookup(pre, invk));
                }
            }
        }
        None
    }
}

/// Whether creating the directory `p` is blocked: `p` itself or one
/// of its ancestors is present as something besides a directory.
pub open spec fn mkdir_blocked(s: FsView, p: Seq<u8>) -> bool {
    exists|q: Seq<u8>| (q == p || is_ancestor(p, q)) && !(#[trigger] lookup(s, q) is None)
        && lookup(s, q) != Some(FsNodeV::Dir)
}

/// The kind a node reads as.
pub open spec fn node_kind(n: FsNodeV) -> NodeKind {
    match n {
        FsNodeV::Dir => NodeKind::Dir,
        FsNodeV::File(_) => NodeKind::File,
        FsNodeV::Other => NodeKind::Other,
    }
}

/// The direct children of `p` among the entries, in entry order.
pub open spec fn spec_children(s: FsView, p: Seq<u8>) -> Seq<DirChildV>
    decreases s.len(),
{
    if s.len() == 0 {
        Seq::empty()
    } else {
        spec_children(s.drop_last(), p) + (if is_direct_child(p, s.last().0) {
            seq![
                DirChildV {
                    name: s.last().0.skip(p.len() as int + 1),
                    kind: node_kind(s.last().1),
                },
            ]
        } else {
            Seq::empty()
        })
    }
}

/// A directory none of whose possible children is present lists as
/// empty.
pub proof fn lemma_no_children(s: FsView, p: Seq<u8>)
    requires
        forall|k: Seq<u8>| is_direct_child(p, k) ==> #[trigger] lookup(s, k) is None,
    ensures
        spec_children(s, p) == Seq::<DirChildV>::empty(),
    decreases s.len(),
{
    if s.len() > 0 {
        assert forall|k: Seq<u8>| is_direct_child(p, k)
            implies #[trigger] lookup(s.drop_last(), k) is None by {
            assert forall|j: int| 0 <= j < s.drop_last().len()
                implies (#[trigger] s.drop_last()[j]).0 != k by {
                if s[j].0 == k {
                    lemma_lookup_hit(s, j);
                }
            }
            lemma_lookup_none(s.drop_last(), k);
        }
        lemma_no_children(s.drop_last(), p);
        if is_direct_child(p, s.last().0) {
            lemma_lookup_hit(s, s.len() - 1);
        }
        assert(spec_children(s, p) =~= Seq::<DirChildV>::empty());
    }
}

impl MemFs {
    /// Copies the regular file at `src` to `dst`, replacing a regular
    /// file already there. Refuses a source that is no regular file
    /// and a destination present as anything but a regular file.
    pub fn copy_file(&mut self, src: &Vec<u8>, dst: &Vec<u8>) -> (r: Option<String>)
        requires
            old(self).wf(),
        ensures
            final(self).wf(),
            (r is Some) <==> (!(lookup(old(self)@, src@) matches Some(FsNodeV::File(_)))
                || lookup(old(self)@, dst@) == Some(FsNodeV::Dir)
                || lookup(old(self)@, dst@) == Some(FsNodeV::Other)),
            r is Some ==> final(self)@ == old(self)@,
            r is None ==> forall|k: Seq<u8>| #[trigger] lookup(final(self)@, k) == (if k == dst@ {
                lookup(old(self)@, src@)
            } else {
                lookup(old(self)@, k)
            }),
    {
        match self.file_content(src) {
            None => Some(String::new()),
            Some(c) => {
                let dkind = self.kind_of(dst);
                if matches!(dkind, NodeKind::Dir) || matches!(dkind, NodeKind::Other) {
                    Some(String::new())
                } else {
                    self.set_node(dst, FsNode::File(c));
                    None
                }
            },
        }
    }

    /// Creates the directory `p` and its missing ancestors. Refuses
    /// when `p` or an ancestor is present as something besides a
    /// directory, and then changes nothing.
    pub fn create_dir_all(&mut self, p: &Vec<u8>) -> (r: Option<String>)
        requires
            old(self).wf(),
        ensures
            final(self).wf(),
            (r is Some) <==> mkdir_blocked(old(self)@, p@),
            r is Some ==> final(self)@ == old(self)@,
            r is None ==> forall|k: Seq<u8>| #[trigger] lookup(final(self)@, k) == (if (k == p@
                || is_ancestor(p@, k)) {
                Some(FsNodeV::Dir)
            } else {
                lookup(old(self)@, k)
            }),
    {
        let ghost pre = self@;
        let mut i: usize = 0;
        while i < p.len()
            invariant
                pre == old(self)@,
                pre == self@,
                old(self).wf(),
                i <= p.len(),
                forall|q: Seq<u8>| (is_ancestor(p@, q) && q.len() < i)
                    ==> (#[trigger] lookup(pre, q) is None || lookup(pre, q) == Some(FsNodeV::Dir)),
            decreases p.len() - i,
        {
            if i > 0 && p[i] == crate::paths::SEP {
                let q = vstd::slice::slice_to_vec(vstd::slice::slice_subrange(p.as_slice(), 0, i));
                proof {
                    assert(q@ =~= p@.take(i as int));
                }
                let k = self.kind_of(&q);
                if matches!(k, NodeKind::File) || matches!(k, NodeKind::Other) {
                    proof {
                        assert(is_ancestor(p@, q@));
                        assert(mkdir_blocked(pre, p@));
                    }
                    return Some(String::new());
                }
            }
            i = i + 1;
        }
        let pk = self.kind_of(p);
        if matches!(pk, NodeKind::File) || matches!(pk, NodeKind::Other) {
            proof {
                assert(mkdir_blocked(pre, p@));
            }
            return Some(String::new());
        }
        proof {
            assert forall|q: Seq<u8>| (q == p@ || is_ancestor(p@, q))
                implies (#[trigger] lookup(pre, q) is None
                    || lookup(pre, q) == Some(FsNodeV::Dir)) by {
                if is_ancestor(p@, q) {
                    assert(q.len() < p@.len());
                }
            }
        }
        let mut i: usize = 0;
        while i < p.len()
            invariant
                pre == old(self)@,
                old(self).wf(),
                self.wf(),
                i <= p.len(),
                forall|q: Seq<u8>| (q == p@ || is_ancestor(p@, q))
                    ==> (#[trigger] lookup(pre, q) is None || lookup(pre, q) == Some(FsNodeV::Dir)),
                forall|k: Seq<u8>| #[trigger] lookup(self@, k) == (if (is_ancestor(p@, k)
                    && k.len() < i) {
                    Some(FsNodeV::Dir)
                } else {
                    lookup(pre, k)
                }),
            decreases p.len() - i,
        {
            if i > 0 && p[i] == crate::paths::SEP {
                let q = vstd::slice::slice_to_vec(vstd::slice::slice_subrange(p.as_slice(), 0, i));
                proof {
                    assert(q@ =~= p@.take(i as int));
                    assert(is_ancestor(p@, q@));
                }
                let k = self.kind_of(&q);
                if matches!(k, NodeKind::Missing) {
                    self.set_node(&q, FsNode::Dir);
                }
            }
            i = i + 1;
        }
        proof {
            assert forall|k: Seq<u8>| is_ancestor(p@, k) implies k.len() < p@.len() by {}
        }
        let k = self.kind_of(p);
        if matches!(k, NodeKind::Missing) {
            self.set_node(p, FsNode::Dir);
        }
        None
    }

    /// The direct children of the directory at `p`, in entry order.
    /// Refuses a path not present as a directory.
    pub fn read_dir(&self, p: &Vec<u8>) -> (r: Result<Vec<DirChild>, String>)
        ensures
            (r matches Err(_)) <==> lookup(self@, p@) != Some(FsNodeV::Dir),
            r matches Ok(v) ==> v.deep_view() == spec_children(self@, p@),
    {
        let k = self.kind_of(p);
        if !matches!(k, NodeKind::Dir) {
            return Err(String::new());
        }
        proof {
            lemma_entries_view(self.entries@);
        }
        let mut out: Vec<DirChild> = Vec::new();
        let mut i: usize = 0;
        proof {
            assert(out.deep_view() =~= Seq::<DirChildV>::empty());
            assert(self@.take(0) =~= Seq::<(Seq<u8>, FsNodeV)>::empty());
        }
        while i < self.entries.len()
            invariant
                self@.len() == self.entries.len(),
                forall|j: int| 0 <= j < self.entries@.len() ==> #[trigger] self@[j]
                    == (self.entries@[j].0@, self.entries@[j].1.deep_view()),
                i <= self.entries.len(),
                out.deep_view() == spec_children(self@.take(i as int), p@),
            decreases self.entries.len() - i,
        {
            let ghost odv = out.deep_view();
            let ghost e = self@[i as int];
            if check_direct_child(p, &self.entries[i].0) {
                let klen = self.entries[i].0.len();
                proof {
                    assert(self.entries@[i as int].0@.len() > p@.len() + 1);
                    assert(p.len() < klen);
                }
                let name = vstd::slice::slice_to_vec(vstd::slice::slice_subrange(
                    self.entries[i].0.as_slice(),
                    p.len() + 1,
                    klen,
                ));
                let kind = match &self.entries[i].1 {
                    FsNode::Dir => NodeKind::Dir,
                    FsNode::File(_) => NodeKind::File,
                    FsNode::Other => NodeKind::Other,
                };
                out.push(DirChild { name, kind });
                proof {
                    assert(out.deep_view() =~= odv.push(DirChildV {
                        name: e.0.skip(p@.len() as int + 1),
                        kind: node_kind(e.1),
                    }));
                    assert(self@.take(i + 1).drop_last() =~= self@.take(i as int));
                    assert(self@.take(i + 1).last() == e);
                    assert(odv.push(DirChildV { name: e.0.skip(p@.len() as int + 1), kind: node_kind(e.1) })
                        =~= odv + seq![
                        DirChildV { name: e.0.skip(p@.len() as int + 1), kind: node_kind(e.1) },
                    ]);
                }
            } else {
                proof {
                    assert(self@.take(i + 1).drop_last() =~= self@.take(i as int));
                    assert(self@.take(i + 1).last() == e);
                    assert(out.deep_view() =~= odv + Seq::<DirChildV>::empty());
                }
            }
            i = i + 1;
        }
        proof {
            assert(self@.take(self@.len() as int) =~= self@);
        }
        Ok(out)
    }
}

/// Whether `k` is a direct child of `p`, per `is_direct_child`.
fn check_direct_child(p: &Vec<u8>, k: &Vec<u8>) -> (r: bool)
    ensures
        r == is_direct_child(p@, k@),
{
    if !crate::paths::check_under(p, k) {
        return false;
    }
    proof {
        assert(k@.len() > p@.len() + 1);
        assert(p.len() < k.len());
    }
    let mut m = p.len() + 1;
    while m < k.len()
        invariant
            is_under(p@, k@),
            p@.len() + 1 <= m <= k@.len(),
            forall|j: int| p@.len() + 1 <= j < m ==> k@[j] != crate::paths::SEP,
        decreases k.len() - m,
    {
        if k[m] == crate::paths::SEP {
            return false;
        }
        m = m + 1;
    }
    true
}

/// Copies a node.
fn copy_node(n: &FsNode) -> (r: FsNode)
    ensures
        r.deep_view() == n.deep_view(),
{
    match n {
        FsNode::Dir => FsNode::Dir,
        FsNode::File(c) => FsNode::File(copy_bytes(c)),
        FsNode::Other => FsNode::Other,
    }
}

} // verus!
