//! The hierarchy reordering engine.
//!
//! Given a flat collection of task records, each optionally referencing a
//! parent by id, the engine linearizes them into a render-ready preorder
//! sequence together with a parallel sequence of depths.
//!
//! The traversal is a stack-based depth-first walk: the roots are pushed
//! in input order and children of a popped node are pushed in input
//! order, so siblings come out in the reverse of their input order.
//! That reversal looks accidental, but earlier incarnations of this
//! algorithm agreed on it and callers test for it, so it is kept
//! deliberately.
//!
//! A task whose parent id is not present in the input set is treated as
//! a root rather than dropped, so that no subtree is orphaned.

use vstd::prelude::*;
use vstd::set_lib::set_int_range;

use crate::objects::Task;

verus! {

// ---------------------------------------------------------------------
// Shape of the input: parents, children, roots
// ---------------------------------------------------------------------

/// No two tasks share an id.
pub open spec fn uniq_ids(s: Seq<Task>) -> bool {
    forall|i: int, j: int|
        0 <= i < s.len() && 0 <= j < s.len() && i != j ==> s[i].id != s[j].id
}

/// Some task in `s` has id `id`.
pub open spec fn has_task_id(s: Seq<Task>, id: i64) -> bool {
    exists|i: int| 0 <= i < s.len() && s[i].id == id
}

/// The position of the task with id `id` (meaningful when `has_task_id`
/// holds; unique when ids are unique).
pub open spec fn index_of_id(s: Seq<Task>, id: i64) -> int {
    choose|i: int| 0 <= i < s.len() && s[i].id == id
}

/// The input position of the parent of the task at position `i`, if
/// that parent is present in the set.  A task with no parent id, or
/// whose parent id is absent, counts as a root.
pub open spec fn parent_index(s: Seq<Task>, i: int) -> Option<int> {
    match s[i].parent_id {
        Option::None => Option::None,
        Option::Some(pid) => if has_task_id(s, pid) {
            Option::Some(index_of_id(s, pid))
        } else {
            Option::None
        },
    }
}

/// The task at position `i` starts its own subtree.
pub open spec fn is_root(s: Seq<Task>, i: int) -> bool {
    parent_index(s, i) is None
}

/// The positions `< m` whose parent position is `p`, in input order.
pub open spec fn children_upto(s: Seq<Task>, p: int, m: nat) -> Seq<int>
    decreases m,
{
    if m == 0 {
        Seq::empty()
    } else {
        let pre = children_upto(s, p, (m - 1) as nat);
        if parent_index(s, m - 1) == Option::Some(p) {
            pre.push(m - 1)
        } else {
            pre
        }
    }
}

/// The positions whose parent position is `p`, in input order.
pub open spec fn children(s: Seq<Task>, p: int) -> Seq<int> {
    children_upto(s, p, s.len())
}

/// The root positions `< m`, in input order.
pub open spec fn roots_upto(s: Seq<Task>, m: nat) -> Seq<int>
    decreases m,
{
    if m == 0 {
        Seq::empty()
    } else {
        let pre = roots_upto(s, (m - 1) as nat);
        if is_root(s, m - 1) {
            pre.push(m - 1)
        } else {
            pre
        }
    }
}

/// The root positions, in input order.
pub open spec fn roots(s: Seq<Task>) -> Seq<int> {
    roots_upto(s, s.len())
}

// ---------------------------------------------------------------------
// The traversal, as a machine over (stack, unvisited set)
// ---------------------------------------------------------------------

/// The stack entries for the children of position `i`, to be emitted at
/// depth `d + 1`, in input order (so the last one is popped first).
pub open spec fn child_entries(s: Seq<Task>, i: int, d: int) -> Seq<(int, int)> {
    children(s, i).map_values(|j: int| (j, d + 1))
}

/// The initial stack: the roots at depth 0, in input order.
pub open spec fn root_entries(s: Seq<Task>) -> Seq<(int, int)> {
    roots(s).map_values(|j: int| (j, 0int))
}

/// Every position of `s`.
pub open spec fn all_indices(s: Seq<Task>) -> Set<int> {
    set_int_range(0, s.len() as int)
}

/// One run of the depth-first machine: pop the top entry; if it is
/// still unvisited, emit it and push its children, else drop it.
/// Emitted pairs are (input position, depth).
pub open spec fn traverse(s: Seq<Task>, stack: Seq<(int, int)>, avail: Set<int>) -> Seq<
    (int, int),
>
    decreases avail.len(), stack.len(),
        via traverse_decreases
{
    if !avail.finite() || stack.len() == 0 {
        Seq::empty()
    } else {
        let top = stack.last();
        let rest = stack.drop_last();
        if avail.contains(top.0) {
            seq![top] + traverse(
                s,
                rest + child_entries(s, top.0, top.1),
                avail.remove(top.0),
            )
        } else {
            traverse(s, rest, avail)
        }
    }
}

#[via_fn]
proof fn traverse_decreases(s: Seq<Task>, stack: Seq<(int, int)>, avail: Set<int>) {
    if avail.finite() && stack.len() > 0 && avail.contains(stack.last().0) {
        vstd::set::axiom_set_remove_len(avail, stack.last().0);
    }
}

/// What the engine emits for input `s`: the preorder pairs of
/// (input position, depth).
pub open spec fn reorder_spec(s: Seq<Task>) -> Seq<(int, int)> {
    traverse(s, root_entries(s), all_indices(s))
}

/// The emitted input positions, without the depths.
pub open spec fn emitted(e: Seq<(int, int)>) -> Seq<int> {
    e.map_values(|p: (int, int)| p.0)
}

// ---------------------------------------------------------------------
// Views of executable state
// ---------------------------------------------------------------------

/// A sequence of usizes, as mathematical integers.
pub open spec fn usizes(v: Seq<usize>) -> Seq<int> {
    v.map_values(|u: usize| u as int)
}

/// A sequence of usize pairs, as mathematical integer pairs.
pub open spec fn upairs(v: Seq<(usize, usize)>) -> Seq<(int, int)> {
    v.map_values(|e: (usize, usize)| (e.0 as int, e.1 as int))
}

/// The emitted pairs built so far from parallel order/depth vectors.
pub open spec fn pairs_of(order: Seq<usize>, depths: Seq<usize>) -> Seq<(int, int)> {
    Seq::new(order.len(), |k: int| (order[k] as int, depths[k] as int))
}

/// The positions still unvisited.
pub open spec fn avail_of(visited: Seq<bool>) -> Set<int> {
    Set::new(|i: int| 0 <= i < visited.len() && !visited[i])
}

// ---------------------------------------------------------------------
// Small facts about the shape functions
// ---------------------------------------------------------------------

/// Membership and order in a children list: exactly the positions below
/// `m` whose parent is `p`, listed in increasing input order.
pub proof fn lemma_children_upto(s: Seq<Task>, p: int, m: nat)
    ensures
        forall|t: int|
            0 <= t < children_upto(s, p, m).len() ==> 0 <= #[trigger] children_upto(s, p, m)[t]
                < m && parent_index(s, children_upto(s, p, m)[t]) == Option::Some(p),
        forall|j: int|
            0 <= j < m && parent_index(s, j) == Option::Some(p) ==> children_upto(
                s,
                p,
                m,
            ).contains(j),
        forall|t1: int, t2: int|
            0 <= t1 < t2 < children_upto(s, p, m).len() ==> children_upto(s, p, m)[t1]
                < children_upto(s, p, m)[t2],
    decreases m,
{
    if m > 0 {
        lemma_children_upto(s, p, (m - 1) as nat);
        let pre = children_upto(s, p, (m - 1) as nat);
        if parent_index(s, m - 1) == Option::Some(p) {
            assert forall|j: int|
                0 <= j < m && parent_index(s, j) == Option::Some(p) implies children_upto(
                s,
                p,
                m,
            ).contains(j) by {
                if j < m - 1 {
                    assert(pre.contains(j));
                    let t = choose|t: int| 0 <= t < pre.len() && pre[t] == j;
                    assert(children_upto(s, p, m)[t] == j);
                } else {
                    assert(children_upto(s, p, m)[pre.len() as int] == j);
                }
            }
        } else {
            assert forall|j: int|
                0 <= j < m && parent_index(s, j) == Option::Some(p) implies children_upto(
                s,
                p,
                m,
            ).contains(j) by {
                assert(pre.contains(j));
            }
        }
    }
}

/// Membership and order in the root list.
pub proof fn lemma_roots_upto(s: Seq<Task>, m: nat)
    ensures
        forall|t: int|
            0 <= t < roots_upto(s, m).len() ==> 0 <= #[trigger] roots_upto(s, m)[t] < m && is_root(
                s,
                roots_upto(s, m)[t],
            ),
        forall|j: int| 0 <= j < m && is_root(s, j) ==> roots_upto(s, m).contains(j),
        forall|t1: int, t2: int|
            0 <= t1 < t2 < roots_upto(s, m).len() ==> roots_upto(s, m)[t1] < roots_upto(s, m)[t2],
    decreases m,
{
    if m > 0 {
        lemma_roots_upto(s, (m - 1) as nat);
        let pre = roots_upto(s, (m - 1) as nat);
        assert forall|j: int| 0 <= j < m && is_root(s, j) implies roots_upto(s, m).contains(j) by {
            if j < m - 1 {
                assert(pre.contains(j));
                let t = choose|t: int| 0 <= t < pre.len() && pre[t] == j;
                assert(roots_upto(s, m)[t] == j);
            } else {
                assert(roots_upto(s, m)[pre.len() as int] == j);
            }
        }
    }
}

/// With unique ids, the position found for an id is the position
/// `index_of_id` denotes.
pub proof fn lemma_index_of_id(s: Seq<Task>, j: int)
    requires
        uniq_ids(s),
        0 <= j < s.len(),
    ensures
        has_task_id(s, s[j].id),
        index_of_id(s, s[j].id) == j,
{
    assert(has_task_id(s, s[j].id));
    let k = index_of_id(s, s[j].id);
    assert(0 <= k < s.len() && s[k].id == s[j].id);
}

// ---------------------------------------------------------------------
// Executable engine
// ---------------------------------------------------------------------

/// Whether all ids in the list are distinct.  The engine requires this;
/// the persistence layer assigns unique ids, and a caller that cannot
/// rely on that can check here first.
pub fn ids_unique(tasks: &Vec<Task>) -> (r: bool)
    ensures
        r == uniq_ids(tasks@),
{
    let n = tasks.len();
    let mut i: usize = 0;
    while i < n
        invariant
            i <= n,
            n == tasks@.len(),
            forall|a: int, b: int| 0 <= a < i && a < b < n ==> tasks@[a].id != tasks@[b].id,
        decreases n - i,
    {
        let mut j: usize = i + 1;
        while j < n
            invariant
                i < j <= n || (i + 1 == j && j > n),
                i < n,
                n == tasks@.len(),
                forall|b: int| i < b < j ==> tasks@[i as int].id != tasks@[b].id,
            decreases n - j,
        {
            if tasks[i].id == tasks[j].id {
                return false;
            }
            j += 1;
        }
        i += 1;
    }
    true
}

/// Linear scan for the position holding `id`.
fn find_index_of_id(tasks: &Vec<Task>, id: i64) -> (r: Option<usize>)
    ensures
        match r {
            Option::Some(j) => j < tasks@.len() && tasks@[j as int].id == id,
            Option::None => !has_task_id(tasks@, id),
        },
{
    let n = tasks.len();
    let mut j: usize = 0;
    while j < n
        invariant
            j <= n,
            n == tasks@.len(),
            forall|k: int| 0 <= k < j ==> tasks@[k].id != id,
        decreases n - j,
    {
        if tasks[j].id == id {
            return Option::Some(j);
        }
        j += 1;
    }
    Option::None
}

/// Build, in one pass over the input, the per-position children lists
/// and the root list, all in input order.
fn build_structure(tasks: &Vec<Task>) -> (r: (Vec<Vec<usize>>, Vec<usize>))
    requires
        uniq_ids(tasks@),
    ensures
        r.0@.len() == tasks@.len(),
        forall|p: int|
            0 <= p < tasks@.len() ==> usizes(#[trigger] r.0@[p]@) == children(tasks@, p),
        usizes(r.1@) == roots(tasks@),
{
    let n = tasks.len();
    let mut kids: Vec<Vec<usize>> = Vec::new();
    let mut i: usize = 0;
    while i < n
        invariant
            i <= n,
            kids@.len() == i,
            forall|p: int| 0 <= p < i ==> #[trigger] kids@[p]@ == Seq::<usize>::empty(),
        decreases n - i,
    {
        kids.push(Vec::new());
        i += 1;
    }
    let mut root_list: Vec<usize> = Vec::new();
    let ghost s = tasks@;
    let mut j: usize = 0;
    while j < n
        invariant
            j <= n,
            n == s.len(),
            s == tasks@,
            uniq_ids(s),
            kids@.len() == n,
            forall|p: int| 0 <= p < n ==> usizes(#[trigger] kids@[p]@) == children_upto(s, p, j as nat),
            usizes(root_list@) == roots_upto(s, j as nat),
        decreases n - j,
    {
        let mut root = false;
        match tasks[j].parent_id {
            Option::None => {
                root = true;
                assert(parent_index(s, j as int) is None);
            },
            Option::Some(pid) => {
                match find_index_of_id(tasks, pid) {
                    Option::None => {
                        root = true;
                        assert(parent_index(s, j as int) is None);
                    },
                    Option::Some(p) => {
                        proof {
                            lemma_index_of_id(s, p as int);
                            assert(parent_index(s, j as int) == Option::Some(p as int));
                        }
                        let ghost old_kids = kids@;
                        let mut bucket = kids.remove(p);
                        bucket.push(j);
                        kids.insert(p, bucket);
                        proof {
                            assert(kids@ =~= old_kids.update(p as int, kids@[p as int]));
                            assert(usizes(kids@[p as int]@) =~= usizes(old_kids[p as int]@).push(
                                j as int,
                            ));
                            assert forall|q: int|
                                0 <= q < n implies usizes(#[trigger] kids@[q]@) == children_upto(
                                s,
                                q,
                                (j + 1) as nat,
                            ) by {
                                if q == p as int {
                                    assert(children_upto(s, q, (j + 1) as nat) == children_upto(
                                        s,
                                        q,
                                        j as nat,
                                    ).push(j as int));
                                } else {
                                    assert(parent_index(s, j as int) != Option::Some(q));
                                    assert(children_upto(s, q, (j + 1) as nat) == children_upto(
                                        s,
                                        q,
                                        j as nat,
                                    ));
                                }
                            }
                            assert(roots_upto(s, (j + 1) as nat) == roots_upto(s, j as nat));
                        }
                    },
                }
            },
        }
        if root {
            let ghost old_roots = root_list@;
            root_list.push(j);
            proof {
                assert(usizes(root_list@) =~= usizes(old_roots).push(j as int));
                assert(roots_upto(s, (j + 1) as nat) == roots_upto(s, j as nat).push(j as int));
                assert forall|q: int|
                    0 <= q < n implies usizes(#[trigger] kids@[q]@) == children_upto(
                    s,
                    q,
                    (j + 1) as nat,
                ) by {
                    assert(parent_index(s, j as int) != Option::Some(q));
                    assert(children_upto(s, q, (j + 1) as nat) == children_upto(s, q, j as nat));
                }
            }
        }
        j += 1;
    }
    (kids, root_list)
}

/// Reorder a flat task list into preorder, returning the reordered
/// tasks and the parallel depth sequence, exactly as `reorder_spec`
/// describes.
pub fn reorder_tasks(tasks: Vec<Task>) -> (r: (Vec<Task>, Vec<usize>))
    requires
        uniq_ids(tasks@),
    ensures
        r.0@.len() == reorder_spec(tasks@).len(),
        r.1@.len() == reorder_spec(tasks@).len(),
        forall|k: int|
            0 <= k < reorder_spec(tasks@).len() ==> #[trigger] r.0@[k] == tasks@[reorder_spec(
                tasks@,
            )[k].0] && r.1@[k] as int == reorder_spec(tasks@)[k].1,
{
    let ghost s = tasks@;
    let n = tasks.len();
    let (kids, root_list) = build_structure(&tasks);

    let mut visited: Vec<bool> = Vec::new();
    let mut i: usize = 0;
    while i < n
        invariant
            i <= n,
            visited@.len() == i,
            forall|t: int| 0 <= t < i ==> !visited@[t],
        decreases n - i,
    {
        visited.push(false);
        i += 1;
    }
    proof {
        vstd::set_lib::lemma_int_range(0, n as int);
        assert(avail_of(visited@) =~= all_indices(s));
    }

    let mut stack: Vec<(usize, usize)> = Vec::new();
    let mut i: usize = 0;
    proof {
        lemma_roots_upto(s, n as nat);
    }
    while i < root_list.len()
        invariant
            i <= root_list@.len(),
            s == tasks@,
            n == s.len(),
            usizes(root_list@) == roots(s),
            forall|t: int|
                0 <= t < roots(s).len() ==> 0 <= #[trigger] roots(s)[t] < n,
            upairs(stack@) == root_entries(s).take(i as int),
            forall|t: int|
                0 <= t < stack@.len() ==> (#[trigger] stack@[t]).0 < n && stack@[t].1 == 0,
        decreases root_list@.len() - i,
    {
        let ghost old_stack = stack@;
        stack.push((root_list[i], 0));
        proof {
            assert(upairs(stack@) =~= upairs(old_stack).push(
                (root_list@[i as int] as int, 0int),
            ));
            assert(root_entries(s)[i as int] == (roots(s)[i as int], 0int));
            assert(upairs(stack@) =~= root_entries(s).take(i + 1));
        }
        i += 1;
    }
    proof {
        assert(upairs(stack@) =~= root_entries(s));
    }

    let mut order: Vec<usize> = Vec::new();
    let mut depths: Vec<usize> = Vec::new();

    proof {
        lemma_children_upto_all(s);
    }

    while stack.len() > 0
        invariant
            s == tasks@,
            n == s.len(),
            uniq_ids(s),
            kids@.len() == n,
            forall|p: int|
                0 <= p < n ==> usizes(#[trigger] kids@[p]@) == children(s, p),
            forall|p: int, t: int|
                0 <= p < n && 0 <= t < children(s, p).len() ==> 0 <= #[trigger] children(s, p)[t]
                    < n,
            visited@.len() == n,
            order@.len() == depths@.len(),
            forall|t: int| 0 <= t < order@.len() ==> (#[trigger] order@[t]) < n,
            avail_of(visited@).finite(),
            avail_of(visited@).len() <= n,
            forall|t: int|
                0 <= t < stack@.len() ==> (#[trigger] stack@[t]).0 < n && stack@[t].1 + avail_of(
                    visited@,
                ).len() <= n,
            pairs_of(order@, depths@) + traverse(s, upairs(stack@), avail_of(visited@))
                == reorder_spec(s),
        decreases avail_of(visited@).len(), stack@.len(),
    {
        let ghost pre_stack = upairs(stack@);
        let ghost pre_avail = avail_of(visited@);
        let (x, d) = stack.pop().unwrap();
        proof {
            assert(pre_stack.last() == (x as int, d as int));
            assert(upairs(stack@) =~= pre_stack.drop_last());
        }
        if !visited[x] {
            proof {
                assert(pre_avail.contains(x as int));
                vstd::set::axiom_set_remove_len(pre_avail, x as int);
            }
            visited.set(x, true);
            proof {
                assert(avail_of(visited@) =~= pre_avail.remove(x as int));
            }
            let ghost pre_pairs = pairs_of(order@, depths@);
            order.push(x);
            depths.push(d);
            proof {
                assert(pairs_of(order@, depths@) =~= pre_pairs.push((x as int, d as int)));
            }
            let ghost base = upairs(stack@);
            let m = kids[x].len();
            let mut k: usize = 0;
            while k < m
                invariant
                    0 <= k <= m,
                    s == tasks@,
                    n == s.len(),
                    kids@.len() == n,
                    (x as int) < n,
                    m == kids@[x as int]@.len(),
                    usizes(kids@[x as int]@) == children(s, x as int),
                    forall|p: int, t: int|
                        0 <= p < n && 0 <= t < children(s, p).len() ==> 0 <= #[trigger] children(
                            s,
                            p,
                        )[t] < n,
                    d + 1 + avail_of(visited@).len() <= n,
                    upairs(stack@) == base + child_entries(s, x as int, d as int).take(k as int),
                    forall|t: int|
                        0 <= t < base.len() ==> 0 <= (#[trigger] base[t]).0 < n && base[t].1 + 1
                            + avail_of(visited@).len() <= n,
                    forall|t: int|
                        0 <= t < stack@.len() ==> (#[trigger] stack@[t]).0 < n && stack@[t].1
                            + avail_of(visited@).len() <= n,
                decreases m - k,
            {
                let ghost old_stack = stack@;
                let c = kids[x][k];
                stack.push((c, d + 1));
                proof {
                    assert(children(s, x as int)[k as int] == c as int);
                    assert(child_entries(s, x as int, d as int)[k as int] == (
                        c as int,
                        d + 1,
                    ));
                    assert(upairs(stack@) =~= upairs(old_stack).push((c as int, (d + 1) as int)));
                    assert(upairs(stack@) =~= base + child_entries(s, x as int, d as int).take(
                        k + 1,
                    ));
                }
                k += 1;
            }
            proof {
                assert(child_entries(s, x as int, d as int).take(m as int) =~= child_entries(
                    s,
                    x as int,
                    d as int,
                ));
                assert(upairs(stack@) == base + child_entries(s, x as int, d as int));
                // One unfolding of the machine at the popped entry.
                assert(traverse(s, pre_stack, pre_avail) == seq![(x as int, d as int)] + traverse(
                    s,
                    pre_stack.drop_last() + child_entries(s, x as int, d as int),
                    pre_avail.remove(x as int),
                ));
                assert(pairs_of(order@, depths@) + traverse(
                    s,
                    upairs(stack@),
                    avail_of(visited@),
                ) =~= (pre_pairs + traverse(s, pre_stack, pre_avail)));
            }
        } else {
            proof {
                assert(!pre_avail.contains(x as int));
                assert(avail_of(visited@) == pre_avail);
                assert(traverse(s, pre_stack, pre_avail) == traverse(
                    s,
                    pre_stack.drop_last(),
                    pre_avail,
                ));
            }
        }
    }
    proof {
        assert(traverse(s, upairs(stack@), avail_of(visited@)) == Seq::<(int, int)>::empty());
        assert(pairs_of(order@, depths@) =~= reorder_spec(s));
    }

    let mut out: Vec<Task> = Vec::new();
    let mut k: usize = 0;
    while k < order.len()
        invariant
            k <= order@.len(),
            s == tasks@,
            n == s.len(),
            forall|t: int| 0 <= t < order@.len() ==> (#[trigger] order@[t]) < n,
            pairs_of(order@, depths@) == reorder_spec(s),
            order@.len() == depths@.len(),
            out@.len() == k,
            forall|t: int| 0 <= t < k ==> #[trigger] out@[t] == s[reorder_spec(s)[t].0],
        decreases order@.len() - k,
    {
        proof {
            assert(reorder_spec(s)[k as int] == (order@[k as int] as int, depths@[k as int] as int));
        }
        out.push(tasks[order[k]].clone());
        k += 1;
    }
    (out, depths)
}

/// All children lists stay inside the input range.
proof fn lemma_children_upto_all(s: Seq<Task>)
    ensures
        forall|p: int, t: int|
            0 <= p < s.len() && 0 <= t < children(s, p).len() ==> 0 <= #[trigger] children(
                s,
                p,
            )[t] < s.len(),
{
    assert forall|p: int, t: int|
        0 <= p < s.len() && 0 <= t < children(s, p).len() implies 0 <= #[trigger] children(
        s,
        p,
    )[t] < s.len() by {
        lemma_children_upto(s, p, s.len() as nat);
    }
}

} // verus!
