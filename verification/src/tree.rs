//! The destination as a tree: which paths hold a directory, and which a file with the
//! content of which entry.
//!
//! This is a model of what carrying out a plan does. It takes every step to succeed: a
//! directory is created with the directories above it, and a file is written over whatever
//! was at its path. It says what a plan leaves behind, and that carrying a plan out twice
//! leaves the same as once.

use vstd::prelude::*;
use crate::extract::{PlanView, StepView};

verus! {

/// What a path holds.
#[verifier::ext_equal]
pub enum Node {
    /// A directory.
    Directory,
    /// A file with the content of the entry at position `entry` of the archive.
    File { entry: int },
}

/// A tree: what each path holds that holds anything.
pub type Tree = Map<Seq<char>, Node>;

/// Whether `dir` is `path` itself or a directory above it: a beginning of `path`, not
/// empty, that ends where `path` ends or goes on with a slash.
pub open spec fn is_above(dir: Seq<char>, path: Seq<char>) -> bool {
    &&& 0 < dir.len() <= path.len()
    &&& path.take(dir.len() as int) == dir
    &&& (dir.len() == path.len() || path[dir.len() as int] == '/')
}

/// The tree after the directory at `path` has been created with the directories above it.
pub open spec fn with_directories(tree: Tree, path: Seq<char>) -> Tree {
    Map::new(
        |p: Seq<char>| tree.dom().contains(p) || is_above(p, path),
        |p: Seq<char>|
            if is_above(p, path) {
                Node::Directory
            } else {
                tree[p]
            },
    )
}

/// Whether a step touches a path: creates it, or writes it anew.
pub open spec fn step_touches(step: StepView, p: Seq<char>) -> bool {
    match step {
        StepView::CreateDir { path, .. } => is_above(p, path),
        StepView::WriteFile { path, parent, .. } => p == path || is_above(p, parent),
    }
}

/// What a step leaves at a path that it touches.
pub open spec fn step_leaves(step: StepView, p: Seq<char>) -> Node {
    match step {
        StepView::CreateDir { .. } => Node::Directory,
        StepView::WriteFile { index, path, .. } => if p == path {
            Node::File { entry: index }
        } else {
            Node::Directory
        },
    }
}

/// The tree after one step: a directory is created with the directories above it; for a
/// file, its parent directory is created in the same way, and then the file is written.
pub open spec fn after_step(tree: Tree, step: StepView) -> Tree {
    match step {
        StepView::CreateDir { path, .. } => with_directories(tree, path),
        StepView::WriteFile { index, path, parent, .. } => with_directories(tree, parent).insert(
            path,
            Node::File { entry: index },
        ),
    }
}

/// The tree after the first `n` steps, in order.
pub open spec fn after_steps(tree: Tree, steps: Seq<StepView>, n: int) -> Tree
    decreases n,
{
    if n <= 0 {
        tree
    } else {
        after_step(after_steps(tree, steps, n - 1), steps[n - 1])
    }
}

/// The tree after a plan has been carried out: the destination directory is created, then
/// the steps follow.
pub open spec fn extracted(tree: Tree, plan: PlanView) -> Tree {
    after_steps(with_directories(tree, plan.root), plan.steps, plan.steps.len() as int)
}

/// Whether one of the first `n` steps touches a path.
pub open spec fn touched(steps: Seq<StepView>, n: int, p: Seq<char>) -> bool
    decreases n,
{
    if n <= 0 {
        false
    } else {
        step_touches(steps[n - 1], p) || touched(steps, n - 1, p)
    }
}

/// What the first `n` steps leave at a path that one of them touches: what the last of
/// them that touches it leaves.
pub open spec fn settled(steps: Seq<StepView>, n: int, p: Seq<char>) -> Node
    decreases n,
{
    if n <= 0 {
        Node::Directory
    } else if step_touches(steps[n - 1], p) {
        step_leaves(steps[n - 1], p)
    } else {
        settled(steps, n - 1, p)
    }
}

/// What steps leave behind depends on the tree they start from only at the paths that
/// none of them touches: a touched path holds what the last step that touches it leaves,
/// and every other path holds what it held, if it held anything.
pub proof fn lemma_after_steps(tree: Tree, steps: Seq<StepView>, n: int)
    requires
        0 <= n <= steps.len(),
    ensures
        forall|p: Seq<char>|
            #[trigger] after_steps(tree, steps, n).dom().contains(p) <==> tree.dom().contains(p)
                || touched(steps, n, p),
        forall|p: Seq<char>|
            touched(steps, n, p) ==> #[trigger] after_steps(tree, steps, n)[p] == settled(
                steps,
                n,
                p,
            ),
        forall|p: Seq<char>|
            !touched(steps, n, p) && tree.dom().contains(p) ==> #[trigger] after_steps(
                tree,
                steps,
                n,
            )[p] == tree[p],
    decreases n,
{
    if n > 0 {
        lemma_after_steps(tree, steps, n - 1);
        let before = after_steps(tree, steps, n - 1);
        let step = steps[n - 1];
        let now = after_steps(tree, steps, n);
        assert forall|p: Seq<char>| #[trigger] now.dom().contains(p) <==> tree.dom().contains(p)
            || touched(steps, n, p) by {
            assert(before.dom().contains(p) <==> tree.dom().contains(p) || touched(
                steps,
                n - 1,
                p,
            ));
        }
        assert forall|p: Seq<char>| touched(steps, n, p) implies #[trigger] now[p] == settled(
            steps,
            n,
            p,
        ) by {
            if !step_touches(step, p) {
                assert(before[p] == settled(steps, n - 1, p));
            }
        }
        assert forall|p: Seq<char>|
            !touched(steps, n, p) && tree.dom().contains(p) implies #[trigger] now[p]
            == tree[p] by {
            assert(before[p] == tree[p]);
        }
    }
}

/// Carrying out a plan twice leaves the same tree as carrying it out once: creating a
/// directory that is there and writing a file over itself change nothing.
pub proof fn lemma_extraction_idempotent(tree: Tree, plan: PlanView)
    ensures
        extracted(extracted(tree, plan), plan) == extracted(tree, plan),
{
    let n = plan.steps.len() as int;
    let rooted = with_directories(tree, plan.root);
    let once = extracted(tree, plan);
    let rooted_again = with_directories(once, plan.root);
    let twice = extracted(once, plan);
    lemma_after_steps(rooted, plan.steps, n);
    lemma_after_steps(rooted_again, plan.steps, n);
    assert forall|p: Seq<char>| twice.dom().contains(p) <==> once.dom().contains(p) by {
        assert(once.dom().contains(p) <==> rooted.dom().contains(p) || touched(plan.steps, n, p));
        assert(twice.dom().contains(p) <==> rooted_again.dom().contains(p) || touched(
            plan.steps,
            n,
            p,
        ));
    }
    assert forall|p: Seq<char>| twice.dom().contains(p) implies twice[p] == once[p] by {
        if touched(plan.steps, n, p) {
            assert(once[p] == settled(plan.steps, n, p));
            assert(twice[p] == settled(plan.steps, n, p));
        } else {
            assert(once[p] == rooted[p]);
            assert(twice[p] == rooted_again[p]);
        }
    }
    assert(twice =~= once);
}

/// What a step leaves at a path stays there as long as no later step touches the path.
proof fn lemma_settled_by(steps: Seq<StepView>, n: int, k: int, p: Seq<char>)
    requires
        0 <= k < n <= steps.len(),
        step_touches(steps[k], p),
        forall|j: int| k < j < n ==> !step_touches(#[trigger] steps[j], p),
    ensures
        touched(steps, n, p),
        settled(steps, n, p) == step_leaves(steps[k], p),
    decreases n,
{
    if k < n - 1 {
        assert(!step_touches(steps[n - 1], p));
        lemma_settled_by(steps, n - 1, k, p);
    }
}

/// After a plan has been carried out, the file of a step is there with the content of
/// the step's entry, and the directory of a step is there as a directory, unless a later
/// step of the plan has put something else at the path. The path of the step is taken
/// not to be empty.
pub proof fn lemma_step_is_extracted(tree: Tree, plan: PlanView, k: int)
    requires
        0 <= k < plan.steps.len(),
        plan.steps[k].target().len() > 0,
        forall|j: int|
            k < j < plan.steps.len() ==> !step_touches(
                #[trigger] plan.steps[j],
                plan.steps[k].target(),
            ),
    ensures
        extracted(tree, plan).dom().contains(plan.steps[k].target()),
        extracted(tree, plan)[plan.steps[k].target()] == match plan.steps[k] {
            StepView::CreateDir { .. } => Node::Directory,
            StepView::WriteFile { index, .. } => Node::File { entry: index },
        },
{
    let n = plan.steps.len() as int;
    let step = plan.steps[k];
    let p = step.target();
    let rooted = with_directories(tree, plan.root);
    match step {
        StepView::CreateDir { path, .. } => {
            assert(path.take(path.len() as int) =~= path);
        },
        StepView::WriteFile { .. } => {},
    }
    assert(step_touches(step, p));
    lemma_settled_by(plan.steps, n, k, p);
    lemma_after_steps(rooted, plan.steps, n);
    let after = after_steps(rooted, plan.steps, n);
    assert(after.dom().contains(p));
    assert(after[p] == settled(plan.steps, n, p));
}

} // verus!
