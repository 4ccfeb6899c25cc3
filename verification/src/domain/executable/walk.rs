//! The walk through the libraries of an executable, depth first.
//!
//! The libraries that an executable needs are looked up one after the
//! other. Each library that is found is loaded as an executable of its own,
//! and its libraries are walked before the next library of the one that
//! needed it. The walk keeps the order; the caller looks each library up and
//! loads it.

use crate::base::text::views;
use crate::domain::executable::{Executable, ExecutableView};
use vstd::prelude::*;
use vstd::slice::*;

verus! {

/// An executable on the way, and how many of its libraries were looked up.
pub struct FrameView {
    pub exe: ExecutableView,
    pub next: nat,
}

/// What a walk holds: the executables whose libraries are not all looked up,
/// the outermost first, and the paths that were found, in order.
pub struct WalkView {
    pub stack: Seq<FrameView>,
    pub found: Seq<Seq<u8>>,
}

/// The libraries that are looked up for an executable: those that it needs,
/// or none where it has no interpreter.
pub open spec fn spec_needed(exe: ExecutableView) -> Seq<Seq<u8>> {
    if exe.interpreter is None {
        Seq::empty()
    } else {
        exe.libraries
    }
}

/// Whether all libraries of a frame were looked up.
pub open spec fn spec_done(frame: FrameView) -> bool {
    frame.next >= spec_needed(frame.exe).len()
}

/// A stack without the frames at its top that are done.
pub open spec fn spec_settle(stack: Seq<FrameView>) -> Seq<FrameView>
    decreases stack.len(),
{
    if stack.len() > 0 && spec_done(stack.last()) {
        spec_settle(stack.drop_last())
    } else {
        stack
    }
}

impl WalkView {
    /// The walk at its start: the executable alone, nothing found.
    pub open spec fn start(root: ExecutableView) -> WalkView {
        WalkView { stack: seq![FrameView { exe: root, next: 0 }], found: Seq::empty() }
    }

    /// The library that is to be looked up next, with the executable that
    /// needs it: the next library of the innermost executable that is not
    /// done. Where every executable is done, the walk is over.
    pub open spec fn pending(self) -> Option<(ExecutableView, Seq<u8>)> {
        let stack = spec_settle(self.stack);
        if stack.len() == 0 {
            None
        } else {
            Some((stack.last().exe, spec_needed(stack.last().exe)[stack.last().next as int]))
        }
    }

    /// The walk after the pending library was found at `path` and loaded as
    /// `child`: the path is noted, and the walk goes on with the libraries of
    /// the child. A walk that is over stays as it is.
    pub open spec fn resolved(self, path: Seq<u8>, child: ExecutableView) -> WalkView {
        let stack = spec_settle(self.stack);
        if stack.len() == 0 {
            self
        } else {
            WalkView {
                stack: stack.drop_last().push(
                    FrameView { exe: stack.last().exe, next: stack.last().next + 1 },
                ).push(FrameView { exe: child, next: 0 }),
                found: self.found.push(path),
            }
        }
    }
}

struct Frame {
    exe: Executable,
    next: usize,
}

/// A walk through the libraries of an executable.
pub struct Walk {
    stack: Vec<Frame>,
    found: Vec<Vec<u8>>,
}

spec fn frame_views(stack: Seq<Frame>) -> Seq<FrameView> {
    Seq::new(stack.len(), |i: int| FrameView { exe: stack[i].exe@, next: stack[i].next as nat })
}

impl View for Walk {
    type V = WalkView;

    closed spec fn view(&self) -> WalkView {
        WalkView { stack: frame_views(self.stack@), found: views(self.found@) }
    }
}

/// Frames that are done at the top of a stack do not count.
proof fn lemma_settle_take(stack: Seq<FrameView>, n: int)
    requires
        0 <= n <= stack.len(),
        forall|k: int| n <= k < stack.len() ==> spec_done(#[trigger] stack[k]),
    ensures
        spec_settle(stack) == spec_settle(stack.take(n)),
    decreases stack.len() - n,
{
    if n < stack.len() {
        lemma_settle_take(stack.drop_last(), n);
        assert(stack.drop_last().take(n) =~= stack.take(n));
    } else {
        assert(stack.take(n) =~= stack);
    }
}

impl Executable {
    /// Starts the walk through the libraries of the executable.
    pub fn dynamic_libraries(&self) -> (r: Walk)
        ensures
            r@ == WalkView::start(self@),
    {
        let mut stack: Vec<Frame> = Vec::new();
        stack.push(Frame { exe: self.clone(), next: 0 });
        let r = Walk { stack, found: Vec::new() };
        assert(r@.stack =~= WalkView::start(self@).stack);
        assert(r@.found =~= WalkView::start(self@).found);
        r
    }
}

fn done(frame: &Frame) -> (r: bool)
    ensures
        r == spec_done(FrameView { exe: frame.exe@, next: frame.next as nat }),
{
    frame.exe.interpreter().is_none() || frame.next >= frame.exe.libraries().len()
}

impl Walk {
    fn top(&self) -> (r: usize)
        ensures
            r <= self.stack@.len(),
            spec_settle(self@.stack) == self@.stack.take(r as int),
            r > 0 ==> !spec_done(self@.stack[r - 1]),
    {
        let mut n: usize = self.stack.len();
        while n > 0 && done(&self.stack[n - 1])
            invariant
                n <= self.stack@.len(),
                forall|k: int| n <= k < self.stack@.len() ==> spec_done(#[trigger] self@.stack[k]),
            decreases n,
        {
            n -= 1;
        }
        proof {
            lemma_settle_take(self@.stack, n as int);
            let rest = self@.stack.take(n as int);
            if n > 0 {
                assert(rest.last() == self@.stack[n - 1]);
            }
        }
        n
    }

    /// The library that is to be looked up next, with the executable that
    /// needs it; nothing where the walk is over.
    pub fn pending(&self) -> (r: Option<(&Executable, &[u8])>)
        ensures
            match r {
                Some((exe, soname)) => self@.pending() == Some((exe@, soname@)),
                None => self@.pending() is None,
            },
    {
        let n = self.top();
        if n == 0 {
            None
        } else {
            let frame = &self.stack[n - 1];
            proof {
                assert(self@.stack.take(n as int).last() == self@.stack[n - 1]);
            }
            Some((&frame.exe, frame.exe.libraries()[frame.next].as_slice()))
        }
    }

    /// Notes that the pending library was found at `path` and loaded as
    /// `child`.
    pub fn resolved(&mut self, path: Vec<u8>, child: Executable)
        ensures
            final(self)@ == old(self)@.resolved(path@, child@),
    {
        let n = self.top();
        if n == 0 {
            return ;
        }
        let ghost before = self@;
        self.stack.truncate(n);
        let top = self.stack.pop().unwrap();
        proof {
            assert(FrameView { exe: top.exe@, next: top.next as nat } == before.stack[n - 1]);
            assert(top.next < spec_needed(top.exe@).len());
            assert(top.exe@.libraries.len() == top.exe.libraries@.len());
            assert(top.exe.libraries@.len() == top.exe.libraries.len());
        }
        let next = top.next + 1;
        self.stack.push(Frame { exe: top.exe, next });
        self.stack.push(Frame { exe: child, next: 0 });
        self.found.push(path);
        proof {
            let settled = spec_settle(before.stack);
            assert(settled.last() == before.stack[n - 1]);
            assert(self@.stack =~= before.resolved(path@, child@).stack);
            assert(self@.found =~= before.resolved(path@, child@).found);
        }
    }

    /// The paths that were found so far, in the order of the walk.
    pub fn paths(&self) -> (r: &Vec<Vec<u8>>)
        ensures
            views(r@) == self@.found,
    {
        &self.found
    }

    /// The paths that were found, in the order of the walk.
    pub fn into_paths(self) -> (r: Vec<Vec<u8>>)
        ensures
            views(r@) == self@.found,
    {
        self.found
    }
}

/// A library with the libraries that it needs, each with its own: what a
/// walk comes upon, put together.
pub struct LibTree {
    /// The path at which the library was found.
    pub path: Seq<u8>,
    /// The library, loaded.
    pub exe: ExecutableView,
    /// The libraries that are looked up for it, in order.
    pub children: Seq<LibTree>,
}

/// The paths of the libraries below a library, depth first and each before
/// its own, from the library of the given number on.
pub open spec fn spec_preorder_from(tree: LibTree, next: nat) -> Seq<Seq<u8>>
    decreases tree, tree.children.len() - next,
{
    if next >= tree.children.len() {
        Seq::empty()
    } else {
        seq![tree.children[next as int].path] + spec_preorder_from(tree.children[next as int], 0)
            + spec_preorder_from(tree, next + 1)
    }
}

/// The paths of the libraries below a library, depth first and each before
/// its own.
pub open spec fn spec_preorder(tree: LibTree) -> Seq<Seq<u8>> {
    spec_preorder_from(tree, 0)
}

/// What a walk will still find, where `trees` says for each executable on
/// the way what lies below it.
pub open spec fn spec_ahead(stack: Seq<FrameView>, trees: Seq<LibTree>) -> Seq<Seq<u8>>
    decreases stack.len(),
{
    if stack.len() == 0 || trees.len() == 0 {
        Seq::empty()
    } else {
        spec_preorder_from(trees.last(), stack.last().next) + spec_ahead(
            stack.drop_last(),
            trees.drop_last(),
        )
    }
}

/// Whether `trees` says for each executable on the way what lies below it:
/// each tree is that of its executable, and it has a library for each one
/// that is looked up.
pub open spec fn spec_charted(stack: Seq<FrameView>, trees: Seq<LibTree>) -> bool {
    &&& trees.len() == stack.len()
    &&& forall|i: int|
        0 <= i < stack.len() ==> (#[trigger] trees[i]).exe == stack[i].exe
            && trees[i].children.len() == spec_needed(stack[i].exe).len()
}

/// The tree of the child that a walk goes on with.
pub open spec fn spec_next_child(stack: Seq<FrameView>, trees: Seq<LibTree>) -> LibTree {
    let settled = spec_settle(stack);
    trees[settled.len() - 1].children[settled.last().next as int]
}

/// The trees of a walk after its next step.
pub open spec fn spec_next_trees(stack: Seq<FrameView>, trees: Seq<LibTree>) -> Seq<LibTree> {
    trees.take(spec_settle(stack).len() as int).push(spec_next_child(stack, trees))
}

/// Frames that are done have nothing ahead.
proof fn lemma_ahead_settled(stack: Seq<FrameView>, trees: Seq<LibTree>)
    requires
        spec_charted(stack, trees),
    ensures
        spec_settle(stack).len() <= stack.len(),
        spec_settle(stack) == stack.take(spec_settle(stack).len() as int),
        spec_settle(stack).len() > 0 ==> !spec_done(spec_settle(stack).last()),
        spec_ahead(stack, trees) == spec_ahead(
            spec_settle(stack),
            trees.take(spec_settle(stack).len() as int),
        ),
    decreases stack.len(),
{
    if stack.len() > 0 && spec_done(stack.last()) {
        let below = stack.drop_last();
        let below_trees = trees.drop_last();
        assert(trees.last() == trees[stack.len() - 1]);
        assert forall|i: int| 0 <= i < below.len() implies (#[trigger] below_trees[i]).exe
            == below[i].exe && below_trees[i].children.len() == spec_needed(below[i].exe).len() by {
            assert(below_trees[i] == trees[i]);
        }
        lemma_ahead_settled(below, below_trees);
        let n = spec_settle(below).len() as int;
        assert(below.take(n) =~= stack.take(n));
        assert(below_trees.take(n) =~= trees.take(n));
        assert(spec_preorder_from(trees.last(), stack.last().next) =~= Seq::<Seq<u8>>::empty());
        assert(spec_ahead(stack, trees) =~= spec_ahead(below, below_trees));
    } else {
        assert(stack.take(stack.len() as int) =~= stack);
        assert(trees.take(stack.len() as int) =~= trees);
    }
}

/// A walk finds the libraries depth first, each before its own. At its
/// start, what lies ahead of a walk is all that lies below the executable.
pub proof fn lemma_walk_starts(root: LibTree)
    requires
        root.children.len() == spec_needed(root.exe).len(),
    ensures
        spec_charted(WalkView::start(root.exe).stack, seq![root]),
        WalkView::start(root.exe).found + spec_ahead(WalkView::start(root.exe).stack, seq![root])
            == spec_preorder(root),
{
    let stack = WalkView::start(root.exe).stack;
    let trees = seq![root];
    assert(stack.drop_last() =~= Seq::<FrameView>::empty());
    assert(spec_ahead(stack.drop_last(), trees.drop_last()) =~= Seq::<Seq<u8>>::empty());
    assert(WalkView::start(root.exe).found + spec_ahead(stack, trees) =~= spec_preorder(root));
}

/// A walk finds the libraries depth first, each before its own. With each
/// step, the library that is found is the first of those that lay ahead,
/// and what lies ahead then is what lay ahead behind it.
pub proof fn lemma_walk_step(walk: WalkView, trees: Seq<LibTree>)
    requires
        spec_charted(walk.stack, trees),
        walk.pending() is Some,
        spec_next_child(walk.stack, trees).children.len() == spec_needed(
            spec_next_child(walk.stack, trees).exe,
        ).len(),
    ensures
        walk.pending()->Some_0.0 == trees[spec_settle(walk.stack).len() - 1].exe,
        spec_charted(
            walk.resolved(
                spec_next_child(walk.stack, trees).path,
                spec_next_child(walk.stack, trees).exe,
            ).stack,
            spec_next_trees(walk.stack, trees),
        ),
        walk.resolved(
            spec_next_child(walk.stack, trees).path,
            spec_next_child(walk.stack, trees).exe,
        ).found + spec_ahead(
            walk.resolved(
                spec_next_child(walk.stack, trees).path,
                spec_next_child(walk.stack, trees).exe,
            ).stack,
            spec_next_trees(walk.stack, trees),
        ) == walk.found + spec_ahead(walk.stack, trees),
{
    let settled = spec_settle(walk.stack);
    let n = settled.len() as int;
    lemma_ahead_settled(walk.stack, trees);
    let kept = trees.take(n);
    let top = settled.last();
    let tree = trees[n - 1];
    assert(settled[n - 1] == walk.stack[n - 1]);
    let child = spec_next_child(walk.stack, trees);
    let after = walk.resolved(child.path, child.exe);
    let after_trees = spec_next_trees(walk.stack, trees);
    let moved = FrameView { exe: top.exe, next: top.next + 1 };
    let below = settled.drop_last();
    assert(after.stack == below.push(moved).push(FrameView { exe: child.exe, next: 0 }));
    assert forall|i: int| 0 <= i < after.stack.len() implies (#[trigger] after_trees[i]).exe
        == after.stack[i].exe && after_trees[i].children.len() == spec_needed(
        after.stack[i].exe,
    ).len() by {
        if i < n {
            assert(after_trees[i] == trees[i]);
            if i < n - 1 {
                assert(after.stack[i] == walk.stack[i]);
            }
        }
    }
    // what lies ahead after the step
    assert(after.stack.drop_last() =~= below.push(moved));
    assert(after_trees.drop_last() =~= kept);
    assert(after_trees.last() == child);
    assert(below.push(moved).drop_last() =~= below);
    assert(kept.last() == tree);
    assert(spec_ahead(after.stack, after_trees) == spec_preorder_from(child, 0) + spec_ahead(
        below.push(moved),
        kept,
    ));
    assert(spec_ahead(below.push(moved), kept) == spec_preorder_from(tree, top.next + 1)
        + spec_ahead(below, kept.drop_last()));
    // what lay ahead before it
    assert(spec_ahead(settled, kept) == spec_preorder_from(tree, top.next) + spec_ahead(
        below,
        kept.drop_last(),
    ));
    assert(top.next < tree.children.len());
    assert(spec_preorder_from(tree, top.next) == seq![child.path] + spec_preorder_from(child, 0)
        + spec_preorder_from(tree, top.next + 1));
    assert(after.found + spec_ahead(after.stack, after_trees) =~= walk.found + spec_ahead(
        walk.stack,
        trees,
    ));
}

/// A walk finds the libraries depth first, each before its own. Where
/// nothing is pending, nothing lies ahead: what was found is all that lay
/// below the executable.
pub proof fn lemma_walk_ends(walk: WalkView, trees: Seq<LibTree>)
    requires
        spec_charted(walk.stack, trees),
        walk.pending() is None,
    ensures
        spec_ahead(walk.stack, trees) == Seq::<Seq<u8>>::empty(),
{
    lemma_ahead_settled(walk.stack, trees);
    assert(trees.take(0) =~= Seq::<LibTree>::empty());
}

} // verus!
