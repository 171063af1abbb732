use vstd::prelude::*;

use crate::path::{is_under, rel_to, PathModel};
use crate::plan::{all_under, dest_of, is_candidate, is_plan, maps_to, ListingModel, TaskModel};

verus! {

/// The model of the destination tree: each file present, mapped to the path
/// whose bytes it holds (a file that was there before any copy maps to
/// whatever stands for its own contents).
pub type TreeModel = Map<PathModel, PathModel>;

/// Running one task: a destination already present is left as it is;
/// otherwise it receives the bytes of the task's source.
pub open spec fn run_task(tree: TreeModel, t: TaskModel) -> TreeModel {
    if tree.contains_key(t.1) {
        tree
    } else {
        tree.insert(t.1, t.0)
    }
}

/// Running tasks one after another, in the order given.
pub open spec fn run_tasks(tree: TreeModel, ts: Seq<TaskModel>) -> TreeModel
    decreases ts.len(),
{
    if ts.len() == 0 {
        tree
    } else {
        run_task(run_tasks(tree, ts.drop_last()), ts.last())
    }
}

/// No two tasks share a destination.
pub open spec fn distinct_dests(ts: Seq<TaskModel>) -> bool {
    forall|i: int, j: int|
        0 <= i < ts.len() && 0 <= j < ts.len() && i != j ==> (#[trigger] ts[i]).1 != (#[trigger] ts[j]).1
}

/// What running a sequence of tasks leaves: the files that were there keep
/// their contents, each task's destination is present, and nothing else is
/// added.
proof fn lemma_run_tasks_shape(tree: TreeModel, ts: Seq<TaskModel>)
    ensures
        forall|d: PathModel| #[trigger]
            tree.contains_key(d) ==> run_tasks(tree, ts).contains_key(d) && run_tasks(tree, ts)[d]
                == tree[d],
        forall|i: int| 0 <= i < ts.len() ==> run_tasks(tree, ts).contains_key(#[trigger] ts[i].1),
        forall|d: PathModel| #[trigger]
            run_tasks(tree, ts).contains_key(d) ==> tree.contains_key(d) || exists|i: int|
                0 <= i < ts.len() && (#[trigger] ts[i]).1 == d,
    decreases ts.len(),
{
    if ts.len() > 0 {
        let init = ts.drop_last();
        lemma_run_tasks_shape(tree, init);
        assert(run_tasks(tree, ts) == run_task(run_tasks(tree, init), ts.last()));
        assert forall|i: int| 0 <= i < ts.len() implies run_tasks(tree, ts).contains_key(
            #[trigger] ts[i].1,
        ) by {
            if i < ts.len() - 1 {
                assert(init[i] == ts[i]);
            }
        }
        assert forall|d: PathModel| #[trigger]
            run_tasks(tree, ts).contains_key(d) implies tree.contains_key(d) || exists|i: int|
                0 <= i < ts.len() && (#[trigger] ts[i]).1 == d by {
            if !tree.contains_key(d) {
                if d == ts.last().1 {
                    assert(ts[ts.len() - 1].1 == d);
                } else {
                    assert(run_tasks(tree, init).contains_key(d));
                    let i = choose|i: int| 0 <= i < init.len() && (#[trigger] init[i]).1 == d;
                    assert(ts[i] == init[i]);
                }
            }
        }
    }
}

/// Where no two tasks share a destination, a destination that was absent
/// receives the bytes of its task's source.
proof fn lemma_run_tasks_value(tree: TreeModel, ts: Seq<TaskModel>, i: int)
    requires
        distinct_dests(ts),
        0 <= i < ts.len(),
        !tree.contains_key(ts[i].1),
    ensures
        run_tasks(tree, ts).contains_key(ts[i].1),
        run_tasks(tree, ts)[ts[i].1] == ts[i].0,
    decreases ts.len(),
{
    let init = ts.drop_last();
    lemma_run_tasks_shape(tree, init);
    assert(run_tasks(tree, ts) == run_task(run_tasks(tree, init), ts.last()));
    if i == ts.len() - 1 {
        if run_tasks(tree, init).contains_key(ts[i].1) {
            let i2 = choose|i2: int| 0 <= i2 < init.len() && (#[trigger] init[i2]).1 == ts[i].1;
            assert(ts[i2] == init[i2]);
        }
    } else {
        assert(init[i] == ts[i]);
        assert forall|a: int, b: int|
            0 <= a < init.len() && 0 <= b < init.len() && a != b implies (#[trigger] init[a]).1
                != (#[trigger] init[b]).1 by {
            assert(init[a] == ts[a] && init[b] == ts[b]);
        }
        lemma_run_tasks_value(tree, init, i);
        assert(ts.last() == ts[ts.len() - 1]);
    }
}

/// A file lies at its root followed by its path relative to that root.
proof fn lemma_rel_round_trip(f: PathModel, r: PathModel)
    requires
        is_under(f, r),
    ensures
        f == r + rel_to(f, r),
{
    assert(f =~= r + rel_to(f, r));
}

/// Files already present at the destination keep their contents, whatever
/// the tasks and whether or not a source maps onto them.
pub proof fn lemma_non_destructive(tree: TreeModel, ts: Seq<TaskModel>)
    ensures
        forall|d: PathModel| #[trigger]
            tree.contains_key(d) ==> run_tasks(tree, ts).contains_key(d) && run_tasks(tree, ts)[d]
                == tree[d],
{
    lemma_run_tasks_shape(tree, ts);
}

/// After a plan has run, the destination of one source file that was absent
/// is present, holding the bytes of a source file that belongs there.
proof fn lemma_complete_one(
    ls: Seq<ListingModel>,
    root: PathModel,
    tree: TreeModel,
    ts: Seq<TaskModel>,
    k: int,
    j: int,
)
    requires
        is_plan(ls, root, tree.dom(), ts),
        0 <= k < ls.len(),
        0 <= j < ls[k].1.len(),
        !tree.contains_key(dest_of(ls[k], j, root)),
    ensures
        run_tasks(tree, ts).contains_key(dest_of(ls[k], j, root)),
        maps_to(ls, root, run_tasks(tree, ts)[dest_of(ls[k], j, root)], dest_of(ls[k], j, root)),
{
    let d = dest_of(ls[k], j, root);
    let i = choose|i: int| 0 <= i < ts.len() && (#[trigger] ts[i]).1 == d;
    lemma_run_tasks_value(tree, ts, i);
    assert(is_candidate(ls, root, tree.dom(), ts[i].0, ts[i].1));
}

/// After a plan has run, every source file whose destination was absent has
/// a file there, holding the bytes of a source file that belongs there.
pub proof fn lemma_complete(
    ls: Seq<ListingModel>,
    root: PathModel,
    tree: TreeModel,
    ts: Seq<TaskModel>,
)
    requires
        is_plan(ls, root, tree.dom(), ts),
    ensures
        forall|k: int, j: int|
            0 <= k < ls.len() && 0 <= j < ls[k].1.len() && !tree.contains_key(
                #[trigger] dest_of(ls[k], j, root),
            ) ==> run_tasks(tree, ts).contains_key(dest_of(ls[k], j, root)) && maps_to(
                ls,
                root,
                run_tasks(tree, ts)[dest_of(ls[k], j, root)],
                dest_of(ls[k], j, root),
            ),
{
    assert forall|k: int, j: int|
        0 <= k < ls.len() && 0 <= j < ls[k].1.len() && !tree.contains_key(
            #[trigger] dest_of(ls[k], j, root),
        ) implies run_tasks(tree, ts).contains_key(dest_of(ls[k], j, root)) && maps_to(
        ls,
        root,
        run_tasks(tree, ts)[dest_of(ls[k], j, root)],
        dest_of(ls[k], j, root),
    ) by {
        lemma_complete_one(ls, root, tree, ts, k, j);
    }
}

/// Running a plan a second time does nothing: on the tree that the first run
/// left, every plan is empty, and so the tree stays as it is.
pub proof fn lemma_idempotent(
    ls: Seq<ListingModel>,
    root: PathModel,
    tree: TreeModel,
    ts: Seq<TaskModel>,
    again: Seq<TaskModel>,
)
    requires
        is_plan(ls, root, tree.dom(), ts),
        is_plan(ls, root, run_tasks(tree, ts).dom(), again),
    ensures
        again.len() == 0,
        run_tasks(run_tasks(tree, ts), again) == run_tasks(tree, ts),
{
    let after = run_tasks(tree, ts);
    lemma_run_tasks_shape(tree, ts);
    if again.len() > 0 {
        let t = again[0];
        assert(is_candidate(ls, root, after.dom(), t.0, t.1));
        let (k, j) = choose|k: int, j: int|
            0 <= k < ls.len() && 0 <= j < ls[k].1.len() && #[trigger] ls[k].1[j] == t.0 && t.1
                == dest_of(ls[k], j, root) && !after.dom().contains(t.1);
        if !tree.contains_key(dest_of(ls[k], j, root)) {
            let i = choose|i: int| 0 <= i < ts.len() && (#[trigger] ts[i]).1 == dest_of(ls[k], j, root);
        }
    }
}

/// The order in which the tasks of a plan run does not matter: any two
/// sequences of the same tasks, each destination once, leave the same tree.
/// Workers that share the tasks out run them in some such order.
pub proof fn lemma_order_irrelevant(tree: TreeModel, ts1: Seq<TaskModel>, ts2: Seq<TaskModel>)
    requires
        distinct_dests(ts1),
        distinct_dests(ts2),
        ts1.to_set() == ts2.to_set(),
    ensures
        run_tasks(tree, ts1) == run_tasks(tree, ts2),
{
    let a = run_tasks(tree, ts1);
    let b = run_tasks(tree, ts2);
    lemma_run_tasks_shape(tree, ts1);
    lemma_run_tasks_shape(tree, ts2);
    assert forall|d: PathModel| #[trigger] a.dom().contains(d) implies b.dom().contains(d) && a[d] == b[d] by {
        if !tree.contains_key(d) {
            let i = choose|i: int| 0 <= i < ts1.len() && (#[trigger] ts1[i]).1 == d;
            assert(ts1.to_set().contains(ts1[i]));
            assert(ts2.contains(ts1[i]));
            let i2 = choose|i2: int| 0 <= i2 < ts2.len() && ts2[i2] == ts1[i];
            lemma_run_tasks_value(tree, ts1, i);
            lemma_run_tasks_value(tree, ts2, i2);
        }
    }
    assert forall|d: PathModel| #[trigger] b.dom().contains(d) implies a.dom().contains(d) by {
        if !tree.contains_key(d) {
            let i2 = choose|i2: int| 0 <= i2 < ts2.len() && (#[trigger] ts2[i2]).1 == d;
            assert(ts2.to_set().contains(ts2[i2]));
            assert(ts1.contains(ts2[i2]));
            let i = choose|i: int| 0 <= i < ts1.len() && ts1[i] == ts2[i2];
            assert(ts1[i].1 == d);
        }
    }
    assert(a.dom() =~= b.dom());
    assert(a =~= b);
}

/// Two source roots with a file each at the same relative path, absent at
/// the destination: the plan is made, and after it has run exactly one file
/// stands at that path, holding the bytes of one of the two.
pub proof fn lemma_collision(
    ls: Seq<ListingModel>,
    root: PathModel,
    tree: TreeModel,
    ts: Seq<TaskModel>,
    j1: int,
    j2: int,
)
    requires
        ls.len() == 2,
        all_under(ls),
        0 <= j1 < ls[0].1.len(),
        0 <= j2 < ls[1].1.len(),
        dest_of(ls[0], j1, root) == dest_of(ls[1], j2, root),
        !tree.contains_key(dest_of(ls[0], j1, root)),
        is_plan(ls, root, tree.dom(), ts),
    ensures
        run_tasks(tree, ts).contains_key(dest_of(ls[0], j1, root)),
        run_tasks(tree, ts)[dest_of(ls[0], j1, root)] == ls[0].1[j1] || run_tasks(
            tree,
            ts,
        )[dest_of(ls[0], j1, root)] == ls[1].1[j2],
{
    let d = dest_of(ls[0], j1, root);
    lemma_complete_one(ls, root, tree, ts, 0, j1);
    let v = run_tasks(tree, ts)[d];
    let (k, j) = choose|k: int, j: int|
        0 <= k < ls.len() && 0 <= j < ls[k].1.len() && #[trigger] ls[k].1[j] == v && d
            == dest_of(ls[k], j, root);
    let jx = if k == 0 { j1 } else { j2 };
    assert(is_under(ls[k].1[j], ls[k].0));
    assert(is_under(ls[k].1[jx], ls[k].0));
    lemma_rel_round_trip(ls[k].1[j], ls[k].0);
    lemma_rel_round_trip(ls[k].1[jx], ls[k].0);
    let r1 = rel_to(ls[k].1[j], ls[k].0);
    let r2 = rel_to(ls[k].1[jx], ls[k].0);
    assert(root + r1 == root + r2);
    assert(r1 =~= (root + r1).subrange(root.len() as int, (root + r1).len() as int));
    assert(r2 =~= (root + r2).subrange(root.len() as int, (root + r2).len() as int));
}

} // verus!
