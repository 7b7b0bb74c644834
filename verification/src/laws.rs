//! The stated properties of the reordering engine, proved against
//! `reorder_spec`.
//!
//! The proofs work over configurations of the traversal machine: a
//! stack of pending entries, the set of still-unvisited positions, and
//! (where an emission order matters) the prefix already emitted.  Each
//! law is an induction along the machine's own recursion.

use vstd::prelude::*;

use crate::objects::Task;
use crate::reorder::{
    all_indices, child_entries, children, emitted, has_task_id, index_of_id, is_root,
    parent_index, reorder_spec, root_entries, roots, roots_upto, traverse,
    lemma_children_upto, lemma_index_of_id, lemma_roots_upto, uniq_ids,
};

verus! {

/// The position of the parent of `j` (meaningful when `j` is no root).
pub open spec fn the_parent(s: Seq<Task>, j: int) -> int {
    parent_index(s, j).unwrap()
}

/// Some stack entry carries the position `j`.
pub open spec fn stack_holds(st: Seq<(int, int)>, j: int) -> bool {
    exists|t: int| 0 <= t < st.len() && (#[trigger] st[t]).0 == j
}

/// Every stack entry is an unvisited position in range.
pub open spec fn entries_in(st: Seq<(int, int)>, avail: Set<int>, n: int) -> bool {
    forall|t: int|
        0 <= t < st.len() ==> 0 <= (#[trigger] st[t]).0 < n && avail.contains(st[t].0)
}

/// No two stack entries carry the same position.
pub open spec fn entries_distinct(st: Seq<(int, int)>) -> bool {
    forall|t1: int, t2: int|
        0 <= t1 < t2 < st.len() ==> (#[trigger] st[t1]).0 != (#[trigger] st[t2]).0
}

/// A child of an unvisited parent is itself unvisited and not yet
/// stacked: it can only be reached through its parent.
pub open spec fn children_clear(s: Seq<Task>, st: Seq<(int, int)>, avail: Set<int>) -> bool {
    forall|j: int|
        0 <= j < s.len() && (#[trigger] parent_index(s, j)) is Some && avail.contains(
            the_parent(s, j),
        ) ==> avail.contains(j) && !stack_holds(st, j)
}

/// A reachable configuration of the traversal machine.
pub open spec fn good_config(s: Seq<Task>, st: Seq<(int, int)>, avail: Set<int>) -> bool {
    &&& avail.finite()
    &&& forall|x: int| avail.contains(x) ==> 0 <= x < s.len()
    &&& entries_in(st, avail, s.len() as int)
    &&& entries_distinct(st)
    &&& children_clear(s, st, avail)
}

/// One unfolding of the machine at an unvisited top entry.
proof fn lemma_traverse_unfold(s: Seq<Task>, st: Seq<(int, int)>, avail: Set<int>)
    requires
        avail.finite(),
        st.len() > 0,
        avail.contains(st.last().0),
    ensures
        traverse(s, st, avail) == seq![st.last()] + traverse(
            s,
            st.drop_last() + child_entries(s, st.last().0, st.last().1),
            avail.remove(st.last().0),
        ),
{
}

/// The starting configuration is reachable.
proof fn lemma_initial_config(s: Seq<Task>)
    ensures
        good_config(s, root_entries(s), all_indices(s)),
{
    let n = s.len() as int;
    vstd::set_lib::lemma_int_range(0, n);
    lemma_roots_upto(s, s.len());
    assert forall|t: int|
        0 <= t < root_entries(s).len() implies 0 <= (#[trigger] root_entries(s)[t]).0 < n
        && all_indices(s).contains(root_entries(s)[t].0) by {
        assert(root_entries(s)[t].0 == roots(s)[t]);
    }
    assert forall|t1: int, t2: int|
        0 <= t1 < t2 < root_entries(s).len() implies (#[trigger] root_entries(s)[t1]).0 != (
    #[trigger] root_entries(s)[t2]).0 by {
        assert(root_entries(s)[t1].0 == roots(s)[t1]);
        assert(root_entries(s)[t2].0 == roots(s)[t2]);
    }
    assert forall|j: int|
        0 <= j < s.len() && (#[trigger] parent_index(s, j)) is Some && all_indices(s).contains(
            the_parent(s, j),
        ) implies all_indices(s).contains(j) && !stack_holds(root_entries(s), j) by {
        if stack_holds(root_entries(s), j) {
            let t = choose|t: int|
                0 <= t < root_entries(s).len() && (#[trigger] root_entries(s)[t]).0 == j;
            assert(root_entries(s)[t].0 == roots(s)[t]);
            assert(is_root(s, j));
        }
    }
}

/// Popping an unvisited entry leads to a reachable configuration
/// again.
proof fn lemma_step_good(s: Seq<Task>, st: Seq<(int, int)>, avail: Set<int>)
    requires
        good_config(s, st, avail),
        st.len() > 0,
    ensures
        good_config(
            s,
            st.drop_last() + child_entries(s, st.last().0, st.last().1),
            avail.remove(st.last().0),
        ),
        !avail.remove(st.last().0).contains(st.last().0),
{
    let n = s.len() as int;
    let i = st.last().0;
    let d = st.last().1;
    let rest = st.drop_last();
    let ce = child_entries(s, i, d);
    let new_st = rest + ce;
    let new_avail = avail.remove(i);
    lemma_children_upto(s, i, s.len());
    assert(stack_holds(st, i)) by {
        assert((#[trigger] st[st.len() - 1]).0 == i);
    }
    // The parent of the popped entry is not unvisited, else the entry
    // could not be on the stack.
    assert(parent_index(s, i) is Some ==> !avail.contains(the_parent(s, i)));
    assert forall|t: int|
        0 <= t < new_st.len() implies 0 <= (#[trigger] new_st[t]).0 < n && new_avail.contains(
        new_st[t].0,
    ) by {
        if t < rest.len() {
            assert(new_st[t] == st[t]);
            assert(st[t].0 != i);
        } else {
            let c = children(s, i)[t - rest.len()];
            assert(new_st[t].0 == c);
            assert(parent_index(s, c) == Option::Some(i));
            assert(the_parent(s, c) == i);
            assert(avail.contains(c) && !stack_holds(st, c));
            assert(c != i);
        }
    }
    assert forall|t1: int, t2: int|
        0 <= t1 < t2 < new_st.len() implies (#[trigger] new_st[t1]).0 != (
    #[trigger] new_st[t2]).0 by {
        if t1 < rest.len() && t2 < rest.len() {
            assert(new_st[t1] == st[t1] && new_st[t2] == st[t2]);
        } else if t1 < rest.len() {
            let c = children(s, i)[t2 - rest.len()];
            assert(new_st[t2].0 == c);
            assert(parent_index(s, c) == Option::Some(i) && the_parent(s, c) == i);
            assert(!stack_holds(st, c));
            assert((#[trigger] st[t1]).0 == new_st[t1].0);
            if new_st[t1].0 == c {
                assert(stack_holds(st, c));
            }
        } else {
            let c1 = children(s, i)[t1 - rest.len()];
            let c2 = children(s, i)[t2 - rest.len()];
            assert(new_st[t1].0 == c1 && new_st[t2].0 == c2);
            assert(c1 < c2);
        }
    }
    assert forall|j: int|
        0 <= j < s.len() && (#[trigger] parent_index(s, j)) is Some && new_avail.contains(
            the_parent(s, j),
        ) implies new_avail.contains(j) && !stack_holds(new_st, j) by {
        let p = the_parent(s, j);
        assert(avail.contains(p));
        assert(avail.contains(j) && !stack_holds(st, j));
        assert(p != i);
        // j is not the popped entry: its parent would then still be
        // unvisited, which the pop excludes.
        if j == i {
            assert(!avail.contains(the_parent(s, i)));
        }
        assert(new_avail.contains(j));
        if stack_holds(new_st, j) {
            let t = choose|t: int| 0 <= t < new_st.len() && (#[trigger] new_st[t]).0 == j;
            if t < rest.len() {
                assert((#[trigger] st[t]).0 == j);
                assert(stack_holds(st, j));
            } else {
                let c = children(s, i)[t - rest.len()];
                assert(new_st[t].0 == c);
                assert(parent_index(s, c) == Option::Some(i));
                assert(the_parent(s, j) == i);
            }
        }
    }
}

/// What the machine emits: positions that were unvisited and in range,
/// each at most once.
pub proof fn lemma_traverse_elements(s: Seq<Task>, st: Seq<(int, int)>, avail: Set<int>)
    requires
        good_config(s, st, avail),
    ensures
        forall|k: int|
            0 <= k < traverse(s, st, avail).len() ==> avail.contains(
                (#[trigger] traverse(s, st, avail)[k]).0,
            ) && 0 <= traverse(s, st, avail)[k].0 < s.len(),
        emitted(traverse(s, st, avail)).no_duplicates(),
    decreases avail.len(), st.len(),
{
    let e = traverse(s, st, avail);
    if st.len() == 0 {
        assert(e.len() == 0);
    } else {
        let i = st.last().0;
        assert(avail.contains(i)) by {
            assert((#[trigger] st[st.len() - 1]).0 == i);
        }
        vstd::set::axiom_set_remove_len(avail, i);
        lemma_traverse_unfold(s, st, avail);
        lemma_step_good(s, st, avail);
        let new_st = st.drop_last() + child_entries(s, i, st.last().1);
        let new_avail = avail.remove(i);
        lemma_traverse_elements(s, new_st, new_avail);
        let e2 = traverse(s, new_st, new_avail);
        assert forall|k: int|
            0 <= k < e.len() implies avail.contains((#[trigger] e[k]).0) && 0 <= e[k].0
            < s.len() by {
            if k == 0 {
                assert(e[0] == st.last());
            } else {
                assert(e[k] == e2[k - 1]);
            }
        }
        assert forall|k1: int, k2: int|
            0 <= k1 < k2 < emitted(e).len() implies emitted(e)[k1] != emitted(e)[k2] by {
            assert(emitted(e)[k1] == e[k1].0 && emitted(e)[k2] == e[k2].0);
            if k1 == 0 {
                assert(e[k2] == e2[k2 - 1]);
                assert(new_avail.contains(e2[k2 - 1].0));
            } else {
                assert(e[k1] == e2[k1 - 1] && e[k2] == e2[k2 - 1]);
                assert(emitted(e2)[k1 - 1] == e2[k1 - 1].0);
                assert(emitted(e2)[k2 - 1] == e2[k2 - 1].0);
            }
        }
    }
}

// ---------------------------------------------------------------------
// Depth correctness
// ---------------------------------------------------------------------

/// In an emission `o`, roots carry depth 0 and every other entry is
/// preceded by its parent, one level up.
pub open spec fn depths_consistent(s: Seq<Task>, o: Seq<(int, int)>) -> bool {
    &&& forall|k: int|
        0 <= k < o.len() && is_root(s, (#[trigger] o[k]).0) ==> o[k].1 == 0
    &&& forall|k: int|
        0 <= k < o.len() && !is_root(s, (#[trigger] o[k]).0) ==> exists|m: int|
            0 <= m < k && (#[trigger] o[m]).0 == the_parent(s, o[k].0) && o[k].1 == o[m].1 + 1
}

/// Every stack entry is a root at depth 0 or a child of an entry of
/// the emitted prefix, one level below it.
pub open spec fn stack_depth_ok(s: Seq<Task>, st: Seq<(int, int)>, prefix: Seq<(int, int)>) -> bool {
    forall|t: int|
        0 <= t < st.len() ==> ((is_root(s, (#[trigger] st[t]).0) && st[t].1 == 0) || (!is_root(
            s,
            st[t].0,
        ) && exists|m: int|
            0 <= m < prefix.len() && (#[trigger] prefix[m]).0 == the_parent(s, st[t].0)
                && st[t].1 == prefix[m].1 + 1))
}

/// Running the machine preserves depth consistency of the whole trace.
proof fn lemma_depths(s: Seq<Task>, st: Seq<(int, int)>, avail: Set<int>, prefix: Seq<(int, int)>)
    requires
        good_config(s, st, avail),
        stack_depth_ok(s, st, prefix),
        depths_consistent(s, prefix),
    ensures
        depths_consistent(s, prefix + traverse(s, st, avail)),
    decreases avail.len(), st.len(),
{
    let e = traverse(s, st, avail);
    if st.len() == 0 {
        assert(prefix + e =~= prefix);
    } else {
        let top = st.last();
        let i = top.0;
        assert(avail.contains(i)) by {
            assert((#[trigger] st[st.len() - 1]).0 == i);
        }
        vstd::set::axiom_set_remove_len(avail, i);
        lemma_traverse_unfold(s, st, avail);
        lemma_step_good(s, st, avail);
        lemma_children_upto(s, i, s.len());
        let new_st = st.drop_last() + child_entries(s, i, top.1);
        let new_avail = avail.remove(i);
        let new_prefix = prefix.push(top);
        assert(stack_depth_ok(s, st.drop_last(), prefix));
        // The popped entry itself satisfies the trace property.
        assert(depths_consistent(s, new_prefix)) by {
            assert(stack_depth_ok(s, st, prefix));
            assert(0 <= st.len() - 1 < st.len());
            assert((#[trigger] st[st.len() - 1]) == top);
            assert forall|k: int|
                0 <= k < new_prefix.len() && is_root(s, (#[trigger] new_prefix[k]).0)
                implies new_prefix[k].1 == 0 by {
                if k < prefix.len() {
                    assert(new_prefix[k] == prefix[k]);
                } else {
                    assert(new_prefix[k] == top);
                }
            }
            assert forall|k: int|
                0 <= k < new_prefix.len() && !is_root(s, (#[trigger] new_prefix[k]).0)
                implies exists|m: int|
                0 <= m < k && (#[trigger] new_prefix[m]).0 == the_parent(s, new_prefix[k].0)
                    && new_prefix[k].1 == new_prefix[m].1 + 1 by {
                if k < prefix.len() {
                    assert(new_prefix[k] == prefix[k]);
                    let m = choose|m: int|
                        0 <= m < k && (#[trigger] prefix[m]).0 == the_parent(s, prefix[k].0)
                            && prefix[k].1 == prefix[m].1 + 1;
                    assert(new_prefix[m] == prefix[m]);
                    assert(0 <= m < k && (#[trigger] new_prefix[m]).0 == the_parent(
                        s,
                        new_prefix[k].0,
                    ) && new_prefix[k].1 == new_prefix[m].1 + 1);
                } else {
                    assert(new_prefix[k] == top);
                    let m = choose|m: int|
                        0 <= m < prefix.len() && (#[trigger] prefix[m]).0 == the_parent(s, i)
                            && top.1 == prefix[m].1 + 1;
                    assert(new_prefix[m] == prefix[m]);
                    assert(0 <= m < k && (#[trigger] new_prefix[m]).0 == the_parent(
                        s,
                        new_prefix[k].0,
                    ) && new_prefix[k].1 == new_prefix[m].1 + 1);
                }
            }
        }
        assert(stack_depth_ok(s, new_st, new_prefix)) by {
            assert forall|t: int|
                0 <= t < new_st.len() implies ((is_root(s, (#[trigger] new_st[t]).0)
                && new_st[t].1 == 0) || (!is_root(s, new_st[t].0) && exists|m: int|
                0 <= m < new_prefix.len() && (#[trigger] new_prefix[m]).0 == the_parent(
                    s,
                    new_st[t].0,
                ) && new_st[t].1 == new_prefix[m].1 + 1)) by {
                if t < st.len() - 1 {
                    assert(new_st[t] == st[t]);
                    if !is_root(s, st[t].0) {
                        let m = choose|m: int|
                            0 <= m < prefix.len() && (#[trigger] prefix[m]).0 == the_parent(
                                s,
                                st[t].0,
                            ) && st[t].1 == prefix[m].1 + 1;
                        assert(new_prefix[m] == prefix[m]);
                        assert(0 <= m < new_prefix.len() && (#[trigger] new_prefix[m]).0
                            == the_parent(s, new_st[t].0) && new_st[t].1 == new_prefix[m].1 + 1);
                    }
                } else {
                    let c = children(s, i)[t - (st.len() - 1)];
                    assert(new_st[t] == child_entries(s, i, top.1)[t - (st.len() - 1)]);
                    assert(new_st[t].0 == c && new_st[t].1 == top.1 + 1);
                    assert(parent_index(s, c) == Option::Some(i));
                    assert(!is_root(s, c) && the_parent(s, c) == i);
                    let m = prefix.len() as int;
                    assert((#[trigger] new_prefix[m]).0 == i && new_prefix[m].1 == top.1);
                }
            }
        }
        lemma_depths(s, new_st, new_avail, new_prefix);
        assert(prefix + e =~= new_prefix + traverse(s, new_st, new_avail));
    }
}

/// Depth correctness: in the engine's output, roots carry depth 0, and
/// every task with its parent in the set appears strictly after the
/// parent, one level deeper.
pub proof fn lemma_depth_correctness(s: Seq<Task>)
    ensures
        forall|k: int|
            0 <= k < reorder_spec(s).len() && is_root(s, (#[trigger] reorder_spec(s)[k]).0)
                ==> reorder_spec(s)[k].1 == 0,
        forall|k: int, m: int|
            0 <= k < reorder_spec(s).len() && 0 <= m < reorder_spec(s).len() && !is_root(
                s,
                (#[trigger] reorder_spec(s)[k]).0,
            ) && (#[trigger] reorder_spec(s)[m]).0 == the_parent(s, reorder_spec(s)[k].0) ==> m
                < k && reorder_spec(s)[k].1 == reorder_spec(s)[m].1 + 1,
{
    let e = reorder_spec(s);
    lemma_initial_config(s);
    lemma_roots_upto(s, s.len());
    assert(stack_depth_ok(s, root_entries(s), Seq::<(int, int)>::empty())) by {
        assert forall|t: int|
            0 <= t < root_entries(s).len() implies is_root(
            s,
            (#[trigger] root_entries(s)[t]).0,
        ) && root_entries(s)[t].1 == 0 by {
            assert(root_entries(s)[t].0 == roots(s)[t]);
        }
    }
    lemma_depths(s, root_entries(s), all_indices(s), Seq::<(int, int)>::empty());
    assert(Seq::<(int, int)>::empty() + e =~= e);
    lemma_traverse_elements(s, root_entries(s), all_indices(s));
    assert forall|k: int, m: int|
        0 <= k < e.len() && 0 <= m < e.len() && !is_root(s, (#[trigger] e[k]).0) && (
    #[trigger] e[m]).0 == the_parent(s, e[k].0) implies m < k && e[k].1 == e[m].1 + 1 by {
        let m0 = choose|m0: int|
            0 <= m0 < k && (#[trigger] e[m0]).0 == the_parent(s, e[k].0) && e[k].1 == e[m0].1 + 1;
        assert(emitted(e)[m0] == e[m0].0);
        assert(emitted(e)[m] == e[m].0);
        if m != m0 {
            assert(false);
        }
    }
}

// ---------------------------------------------------------------------
// Sibling order
// ---------------------------------------------------------------------

/// Two positions under the same parent (or both roots).
pub open spec fn same_parent(s: Seq<Task>, a: int, b: int) -> bool {
    parent_index(s, a) == parent_index(s, b)
}

/// Stack entries under one parent sit in increasing input order, so
/// the later sibling is popped first.
pub open spec fn stack_sib_ordered(s: Seq<Task>, st: Seq<(int, int)>) -> bool {
    forall|t1: int, t2: int|
        0 <= t1 < t2 < st.len() && same_parent(s, (#[trigger] st[t1]).0, (#[trigger] st[t2]).0)
            ==> st[t1].0 < st[t2].0
}

/// An emitted entry precedes its still-stacked siblings in emission
/// order, so it must follow them in input order.
pub open spec fn cross_sib(s: Seq<Task>, prefix: Seq<(int, int)>, st: Seq<(int, int)>) -> bool {
    forall|q: int, t: int|
        0 <= q < prefix.len() && 0 <= t < st.len() && same_parent(
            s,
            (#[trigger] prefix[q]).0,
            (#[trigger] st[t]).0,
        ) ==> prefix[q].0 > st[t].0
}

/// In an emission, siblings appear in reverse input order.
pub open spec fn prefix_sib(s: Seq<Task>, o: Seq<(int, int)>) -> bool {
    forall|q1: int, q2: int|
        0 <= q1 < q2 < o.len() && same_parent(s, (#[trigger] o[q1]).0, (#[trigger] o[q2]).0)
            ==> o[q1].0 > o[q2].0
}

/// Emitted positions are no longer unvisited.
pub open spec fn prefix_gone(prefix: Seq<(int, int)>, avail: Set<int>) -> bool {
    forall|q: int| 0 <= q < prefix.len() ==> !avail.contains((#[trigger] prefix[q]).0)
}

/// Emitted positions lie in the input range.
pub open spec fn prefix_in_range(prefix: Seq<(int, int)>, n: int) -> bool {
    forall|q: int| 0 <= q < prefix.len() ==> 0 <= (#[trigger] prefix[q]).0 < n
}

/// Running the machine keeps siblings reversed over the whole trace.
proof fn lemma_siblings(
    s: Seq<Task>,
    st: Seq<(int, int)>,
    avail: Set<int>,
    prefix: Seq<(int, int)>,
)
    requires
        good_config(s, st, avail),
        stack_sib_ordered(s, st),
        cross_sib(s, prefix, st),
        prefix_sib(s, prefix),
        prefix_gone(prefix, avail),
        prefix_in_range(prefix, s.len() as int),
    ensures
        prefix_sib(s, prefix + traverse(s, st, avail)),
    decreases avail.len(), st.len(),
{
    let e = traverse(s, st, avail);
    if st.len() == 0 {
        assert(prefix + e =~= prefix);
    } else {
        let top = st.last();
        let i = top.0;
        assert(avail.contains(i)) by {
            assert((#[trigger] st[st.len() - 1]).0 == i);
        }
        vstd::set::axiom_set_remove_len(avail, i);
        lemma_traverse_unfold(s, st, avail);
        lemma_step_good(s, st, avail);
        lemma_children_upto(s, i, s.len());
        let rest = st.drop_last();
        let ce = child_entries(s, i, top.1);
        let new_st = rest + ce;
        let new_avail = avail.remove(i);
        let new_prefix = prefix.push(top);
        // The popped entry is no child of itself.
        assert(parent_index(s, i) != Option::<int>::Some(i)) by {
            if parent_index(s, i) == Option::<int>::Some(i) {
                assert(the_parent(s, i) == i);
                assert(avail.contains(i));
                assert(!stack_holds(st, i));
                assert((#[trigger] st[st.len() - 1]).0 == i);
            }
        }
        assert(prefix_sib(s, new_prefix)) by {
            assert forall|q1: int, q2: int|
                0 <= q1 < q2 < new_prefix.len() && same_parent(
                    s,
                    (#[trigger] new_prefix[q1]).0,
                    (#[trigger] new_prefix[q2]).0,
                ) implies new_prefix[q1].0 > new_prefix[q2].0 by {
                if q2 < prefix.len() {
                    assert(new_prefix[q1] == prefix[q1] && new_prefix[q2] == prefix[q2]);
                } else {
                    assert(new_prefix[q2] == top);
                    assert(new_prefix[q1] == prefix[q1]);
                    assert((#[trigger] st[st.len() - 1]) == top);
                    assert(same_parent(s, prefix[q1].0, st[st.len() - 1].0));
                }
            }
        }
        assert(stack_sib_ordered(s, new_st)) by {
            assert forall|t1: int, t2: int|
                0 <= t1 < t2 < new_st.len() && same_parent(
                    s,
                    (#[trigger] new_st[t1]).0,
                    (#[trigger] new_st[t2]).0,
                ) implies new_st[t1].0 < new_st[t2].0 by {
                if t1 < rest.len() && t2 < rest.len() {
                    assert(new_st[t1] == st[t1] && new_st[t2] == st[t2]);
                } else if t1 < rest.len() {
                    let c = children(s, i)[t2 - rest.len()];
                    assert(new_st[t2].0 == c);
                    assert(parent_index(s, c) == Option::Some(i));
                    assert(new_st[t1] == st[t1]);
                    assert(parent_index(s, st[t1].0) == Option::Some(i));
                    assert(the_parent(s, st[t1].0) == i);
                    assert(!stack_holds(st, st[t1].0));
                    assert((#[trigger] st[t1]).0 == st[t1].0);
                } else {
                    let c1 = children(s, i)[t1 - rest.len()];
                    let c2 = children(s, i)[t2 - rest.len()];
                    assert(new_st[t1].0 == c1 && new_st[t2].0 == c2);
                    assert(c1 < c2);
                }
            }
        }
        assert(cross_sib(s, new_prefix, new_st)) by {
            assert forall|q: int, t: int|
                0 <= q < new_prefix.len() && 0 <= t < new_st.len() && same_parent(
                    s,
                    (#[trigger] new_prefix[q]).0,
                    (#[trigger] new_st[t]).0,
                ) implies new_prefix[q].0 > new_st[t].0 by {
                if q < prefix.len() {
                    assert(new_prefix[q] == prefix[q]);
                    if t < rest.len() {
                        assert(new_st[t] == st[t]);
                        assert(same_parent(s, prefix[q].0, (#[trigger] st[t]).0));
                    } else {
                        let c = children(s, i)[t - rest.len()];
                        assert(new_st[t].0 == c);
                        assert(parent_index(s, c) == Option::Some(i));
                        assert(parent_index(s, prefix[q].0) == Option::Some(i));
                        assert(the_parent(s, prefix[q].0) == i);
                        assert(0 <= (#[trigger] prefix[q]).0 < s.len());
                        assert(avail.contains(prefix[q].0));
                        assert(!avail.contains((#[trigger] prefix[q]).0));
                    }
                } else {
                    assert(new_prefix[q] == top);
                    if t < rest.len() {
                        assert(new_st[t] == st[t]);
                        assert(same_parent(s, (#[trigger] st[t]).0, st[st.len() - 1].0));
                        assert((#[trigger] st[st.len() - 1]) == top);
                    } else {
                        let c = children(s, i)[t - rest.len()];
                        assert(new_st[t].0 == c);
                        assert(parent_index(s, c) == Option::Some(i));
                        assert(parent_index(s, i) == Option::Some(i));
                    }
                }
            }
        }
        assert(prefix_in_range(new_prefix, s.len() as int)) by {
            assert forall|q: int|
                0 <= q < new_prefix.len() implies 0 <= (#[trigger] new_prefix[q]).0
                < s.len() by {
                if q < prefix.len() {
                    assert(new_prefix[q] == prefix[q]);
                    assert(0 <= (#[trigger] prefix[q]).0 < s.len());
                } else {
                    assert(new_prefix[q] == top);
                    assert((#[trigger] st[st.len() - 1]).0 == i);
                }
            }
        }
        assert(prefix_gone(new_prefix, new_avail)) by {
            assert forall|q: int|
                0 <= q < new_prefix.len() implies !new_avail.contains(
                (#[trigger] new_prefix[q]).0,
            ) by {
                if q < prefix.len() {
                    assert(new_prefix[q] == prefix[q]);
                    assert(!avail.contains((#[trigger] prefix[q]).0));
                } else {
                    assert(new_prefix[q] == top);
                }
            }
        }
        lemma_siblings(s, new_st, new_avail, new_prefix);
        assert(prefix + e =~= new_prefix + traverse(s, new_st, new_avail));
    }
}

/// Sibling order: of two emitted tasks under the same parent (or two
/// roots), the one emitted earlier is the one later in the input.
pub proof fn lemma_sibling_order(s: Seq<Task>)
    ensures
        prefix_sib(s, reorder_spec(s)),
{
    lemma_initial_config(s);
    lemma_roots_upto(s, s.len());
    assert(stack_sib_ordered(s, root_entries(s))) by {
        assert forall|t1: int, t2: int|
            0 <= t1 < t2 < root_entries(s).len() implies (#[trigger] root_entries(s)[t1]).0 < (
        #[trigger] root_entries(s)[t2]).0 by {
            assert(root_entries(s)[t1].0 == roots(s)[t1]);
            assert(root_entries(s)[t2].0 == roots(s)[t2]);
        }
    }
    lemma_siblings(s, root_entries(s), all_indices(s), Seq::<(int, int)>::empty());
    assert(Seq::<(int, int)>::empty() + reorder_spec(s) =~= reorder_spec(s));
}


// ---------------------------------------------------------------------
// Completeness
// ---------------------------------------------------------------------

/// The position of the `k`-th ancestor of `j`, following present
/// parents upward; none once a root (or the range) is left behind.
pub open spec fn kth_ancestor(s: Seq<Task>, j: int, k: nat) -> Option<int>
    decreases k,
{
    if k == 0 {
        Option::Some(j)
    } else {
        match kth_ancestor(s, j, (k - 1) as nat) {
            Option::None => Option::None,
            Option::Some(a) => if 0 <= a < s.len() {
                parent_index(s, a)
            } else {
                Option::None
            },
        }
    }
}

/// `a` has `j` among its strict descendants.
pub open spec fn descends_from(s: Seq<Task>, j: int, a: int) -> bool {
    exists|k: nat| k >= 1 && kth_ancestor(s, j, k) == Option::Some(a)
}

/// Following parents upward from `j` eventually meets a root.
pub open spec fn reaches_root(s: Seq<Task>, j: int) -> bool {
    exists|k: nat|
        (#[trigger] kth_ancestor(s, j, k)) matches Option::Some(r) && is_root(s, r)
}

/// The parent chains terminate: no task set with a parent cycle.
pub open spec fn acyclic(s: Seq<Task>) -> bool {
    forall|j: int| 0 <= j < s.len() ==> reaches_root(s, j)
}

/// An ancestor chain from `j` to `x` whose nodes below `x` are all
/// still unvisited.
pub open spec fn chain_to(s: Seq<Task>, j: int, x: int, k: nat, avail: Set<int>) -> bool {
    &&& kth_ancestor(s, j, k) == Option::Some(x)
    &&& forall|t: int|
        0 <= t < k ==> ((#[trigger] kth_ancestor(s, j, t as nat)) matches Option::Some(y)
            && avail.contains(y))
}

/// A present parent position lies in range.
proof fn lemma_parent_in_range(s: Seq<Task>, a: int)
    ensures
        parent_index(s, a) matches Option::Some(p) ==> 0 <= p < s.len(),
{
    if parent_index(s, a) is Some {
        let pid = s[a].parent_id.unwrap();
        assert(has_task_id(s, pid));
        let p = index_of_id(s, pid);
        assert(0 <= p < s.len() && s[p].id == pid);
    }
}

/// Ancestor positions stay in range.
proof fn lemma_chain_in_range(s: Seq<Task>, j: int, t: nat)
    requires
        0 <= j < s.len(),
    ensures
        kth_ancestor(s, j, t) matches Option::Some(x) ==> 0 <= x < s.len(),
    decreases t,
{
    if t > 0 {
        lemma_chain_in_range(s, j, (t - 1) as nat);
        let prev = kth_ancestor(s, j, (t - 1) as nat);
        if prev is Some {
            lemma_parent_in_range(s, prev.unwrap());
        }
    }
}

/// A defined ancestor has all its intermediate ancestors defined.
proof fn lemma_chain_prefix(s: Seq<Task>, j: int, t: nat, k: nat)
    requires
        t <= k,
        kth_ancestor(s, j, k) is Some,
    ensures
        kth_ancestor(s, j, t) is Some,
    decreases k,
{
    if t < k {
        assert(kth_ancestor(s, j, (k - 1) as nat) is Some);
        lemma_chain_prefix(s, j, t, (k - 1) as nat);
    }
}

/// Among the hits of a value on an ancestor chain there is a first.
proof fn lemma_first_hit(s: Seq<Task>, j: int, i: int, k: nat)
    requires
        kth_ancestor(s, j, k) == Option::Some(i),
    ensures
        exists|t0: nat|
            t0 <= k && #[trigger] kth_ancestor(s, j, t0) == Option::Some(i) && (forall|t: int|
                0 <= t < t0 ==> #[trigger] kth_ancestor(s, j, t as nat) != Option::Some(i)),
    decreases k,
{
    if exists|t: int| 0 <= t < k && #[trigger] kth_ancestor(s, j, t as nat) == Option::Some(i) {
        let tw = choose|t: int| 0 <= t < k && #[trigger] kth_ancestor(s, j, t as nat) == Option::Some(i);
        lemma_first_hit(s, j, i, tw as nat);
        let t0 = choose|t0: nat|
            t0 <= tw as nat && #[trigger] kth_ancestor(s, j, t0) == Option::Some(i) && (forall|
                t: int,
            |
                0 <= t < t0 ==> #[trigger] kth_ancestor(s, j, t as nat) != Option::Some(i));
        assert(t0 <= k && kth_ancestor(s, j, t0) == Option::Some(i));
    } else {
        let t0 = k;
        assert(t0 <= k && kth_ancestor(s, j, t0) == Option::Some(i) && (forall|t: int|
            0 <= t < t0 ==> #[trigger] kth_ancestor(s, j, t as nat) != Option::Some(i)));
    }
}

/// Every unvisited position with an unvisited ancestor chain down to
/// some stack entry gets emitted.
proof fn lemma_reaches(
    s: Seq<Task>,
    st: Seq<(int, int)>,
    avail: Set<int>,
    j: int,
    k: nat,
    m: int,
)
    requires
        good_config(s, st, avail),
        avail.contains(j),
        0 <= m < st.len(),
        chain_to(s, j, st[m].0, k, avail),
    ensures
        emitted(traverse(s, st, avail)).contains(j),
    decreases avail.len(), st.len(),
{
    let e = traverse(s, st, avail);
    let top = st.last();
    let i = top.0;
    assert(avail.contains(i)) by {
        assert((#[trigger] st[st.len() - 1]).0 == i);
    }
    vstd::set::axiom_set_remove_len(avail, i);
    lemma_traverse_unfold(s, st, avail);
    lemma_step_good(s, st, avail);
    lemma_children_upto(s, i, s.len());
    let rest = st.drop_last();
    let ce = child_entries(s, i, top.1);
    let new_st = rest + ce;
    let new_avail = avail.remove(i);
    let e2 = traverse(s, new_st, new_avail);
    assert(e == seq![top] + e2);
    if j == i {
        assert(emitted(e)[0] == i);
    } else {
        if exists|t: int| 0 <= t <= k && #[trigger] kth_ancestor(s, j, t as nat) == Option::Some(i) {
            let th = choose|t: int|
                0 <= t <= k && #[trigger] kth_ancestor(s, j, t as nat) == Option::Some(i);
            lemma_first_hit(s, j, i, th as nat);
            let t0 = choose|t0: nat|
                t0 <= th as nat && #[trigger] kth_ancestor(s, j, t0) == Option::Some(i) && (
                forall|t: int|
                    0 <= t < t0 ==> #[trigger] kth_ancestor(s, j, t as nat) != Option::Some(i));
            assert(t0 >= 1) by {
                assert(kth_ancestor(s, j, 0) == Option::Some(j));
            }
            assert(0 <= t0 - 1 < k) by {
                if t0 - 1 == k {
                    assert(kth_ancestor(s, j, k) == Option::Some(st[m].0));
                    assert(st[m].0 != i || th < t0);
                    assert(kth_ancestor(s, j, (t0 - 1) as nat) != Option::Some(i));
                }
            }
            assert(((#[trigger] kth_ancestor(s, j, (t0 - 1) as nat)) matches Option::Some(y)
                && avail.contains(y)));
            let c = kth_ancestor(s, j, (t0 - 1) as nat).unwrap();
            assert(parent_index(s, c) == Option::Some(i)) by {
                assert(kth_ancestor(s, j, t0) == Option::Some(i));
                assert(0 <= c < s.len());
            }
            assert(children(s, i).contains(c));
            let u = choose|u: int|
                0 <= u < children(s, i).len() && children(s, i)[u] == c;
            let m2 = rest.len() + u;
            assert(new_st[m2] == ce[u]);
            assert(new_st[m2].0 == c);
            assert(chain_to(s, j, c, (t0 - 1) as nat, new_avail)) by {
                assert forall|t: int|
                    0 <= t < t0 - 1 implies ((#[trigger] kth_ancestor(s, j, t as nat)) matches
                    Option::Some(y) && new_avail.contains(y)) by {
                    assert(((#[trigger] kth_ancestor(s, j, t as nat)) matches Option::Some(y)
                        && avail.contains(y)));
                    assert(kth_ancestor(s, j, t as nat) != Option::Some(i));
                }
            }
            lemma_reaches(s, new_st, new_avail, j, (t0 - 1) as nat, m2);
            let w = choose|w: int| 0 <= w < emitted(e2).len() && emitted(e2)[w] == j;
            assert(emitted(e)[w + 1] == e2[w].0);
        } else {
            assert(m < st.len() - 1) by {
                if m == st.len() - 1 {
                    assert(st[m] == st.last());
                    let kk: int = k as int;
                    assert(0 <= kk <= k && #[trigger] kth_ancestor(s, j, kk as nat)
                        == Option::Some(i));
                    assert(false);
                }
            }
            assert(new_st[m] == st[m]);
            assert(chain_to(s, j, st[m].0, k, new_avail)) by {
                assert forall|t: int|
                    0 <= t < k implies ((#[trigger] kth_ancestor(s, j, t as nat)) matches
                    Option::Some(y) && new_avail.contains(y)) by {
                    assert(((#[trigger] kth_ancestor(s, j, t as nat)) matches Option::Some(y)
                        && avail.contains(y)));
                    assert(kth_ancestor(s, j, t as nat) != Option::Some(i));
                }
            }
            lemma_reaches(s, new_st, new_avail, j, k, m);
            let w = choose|w: int| 0 <= w < emitted(e2).len() && emitted(e2)[w] == j;
            assert(emitted(e)[w + 1] == e2[w].0);
        }
    }
}

/// Completeness: without parent cycles, the engine emits every input
/// position exactly once, so the output has the input's length.
pub proof fn lemma_completeness(s: Seq<Task>)
    requires
        acyclic(s),
    ensures
        reorder_spec(s).len() == s.len(),
        emitted(reorder_spec(s)).no_duplicates(),
        forall|j: int| 0 <= j < s.len() ==> emitted(reorder_spec(s)).contains(j),
        forall|k: int|
            0 <= k < reorder_spec(s).len() ==> 0 <= (#[trigger] reorder_spec(s)[k]).0 < s.len(),
{
    let e = reorder_spec(s);
    let n = s.len() as int;
    lemma_initial_config(s);
    lemma_traverse_elements(s, root_entries(s), all_indices(s));
    lemma_roots_upto(s, s.len());
    vstd::set_lib::lemma_int_range(0, n);
    assert forall|j: int| 0 <= j < n implies emitted(e).contains(j) by {
        assert(reaches_root(s, j));
        let k = choose|k: nat|
            (#[trigger] kth_ancestor(s, j, k)) matches Option::Some(r) && is_root(s, r);
        let r = kth_ancestor(s, j, k).unwrap();
        lemma_chain_in_range(s, j, k);
        assert(roots(s).contains(r));
        let m = choose|m: int| 0 <= m < roots(s).len() && roots(s)[m] == r;
        assert(root_entries(s)[m].0 == roots(s)[m]);
        assert(chain_to(s, j, r, k, all_indices(s))) by {
            assert forall|t: int|
                0 <= t < k implies ((#[trigger] kth_ancestor(s, j, t as nat)) matches
                Option::Some(y) && all_indices(s).contains(y)) by {
                lemma_chain_prefix(s, j, t as nat, k);
                lemma_chain_in_range(s, j, t as nat);
            }
        }
        lemma_reaches(s, root_entries(s), all_indices(s), j, k, m);
    }
    // Distinct, in range, and covering: the emission has length n.
    let ids = emitted(e);
    ids.unique_seq_to_set();
    assert(ids.to_set() =~= all_indices(s)) by {
        assert forall|x: int| ids.to_set().contains(x) implies all_indices(s).contains(x) by {
            let w = choose|w: int| 0 <= w < ids.len() && ids[w] == x;
            assert(0 <= (#[trigger] e[w]).0 < n);
        }
        assert forall|x: int| all_indices(s).contains(x) implies ids.to_set().contains(x) by {
            assert(ids.contains(x));
        }
    }
}

/// The output is a permutation of the input: same task records, as a
/// multiset.
pub proof fn lemma_permutation(s: Seq<Task>, out: Seq<Task>)
    requires
        uniq_ids(s),
        acyclic(s),
        out.len() == reorder_spec(s).len(),
        forall|k: int| 0 <= k < out.len() ==> #[trigger] out[k] == s[reorder_spec(s)[k].0],
    ensures
        out.to_multiset() == s.to_multiset(),
{
    let e = reorder_spec(s);
    let n = s.len() as int;
    lemma_completeness(s);
    assert(s.no_duplicates()) by {
        assert forall|i: int, j: int|
            0 <= i < n && 0 <= j < n && i != j implies s[i] != s[j] by {
            assert(s[i].id != s[j].id);
        }
    }
    assert(out.no_duplicates()) by {
        assert forall|k1: int, k2: int|
            0 <= k1 < k2 < out.len() implies out[k1] != out[k2] by {
            assert(out[k1] == s[e[k1].0] && out[k2] == s[e[k2].0]);
            assert(emitted(e)[k1] == e[k1].0 && emitted(e)[k2] == e[k2].0);
            assert(e[k1].0 != e[k2].0);
            assert(s[e[k1].0].id != s[e[k2].0].id);
        }
    }
    assert forall|x: Task| out.contains(x) == s.contains(x) by {
        if out.contains(x) {
            let k = choose|k: int| 0 <= k < out.len() && out[k] == x;
            assert(out[k] == s[e[k].0]);
            assert(0 <= (#[trigger] e[k]).0 < n);
            assert(s.contains(x));
        }
        if s.contains(x) {
            let j = choose|j: int| 0 <= j < n && s[j] == x;
            assert(emitted(e).contains(j));
            let w = choose|w: int| 0 <= w < emitted(e).len() && emitted(e)[w] == j;
            assert(out[w] == s[e[w].0]);
            assert(emitted(e)[w] == e[w].0);
            assert(out.contains(x));
        }
    }
    out.lemma_multiset_has_no_duplicates();
    s.lemma_multiset_has_no_duplicates();
    broadcast use vstd::seq_lib::group_to_multiset_ensures;

    assert(out.to_multiset() =~= s.to_multiset()) by {
        assert forall|x: Task| out.to_multiset().count(x) == s.to_multiset().count(x) by {
            if out.contains(x) {
                assert(s.contains(x));
                assert(out.to_multiset().count(x) == 1 && s.to_multiset().count(x) == 1);
            } else {
                assert(!s.contains(x));
                assert(out.to_multiset().count(x) == 0 && s.to_multiset().count(x) == 0);
            }
        }
    }
}


// ---------------------------------------------------------------------
// Idempotence
// ---------------------------------------------------------------------
//
// Re-running the engine on its own output keeps the order only when no
// two subtrees are ever siblings: the reversed sibling order (see
// `lemma_sibling_order`) flips back on a second run.  The law is
// therefore stated for inputs whose parent relation forms a single
// chain: at most one root and at most one child per task.

/// With at most one child per node, a singleton stack emits a chain of
/// consecutive parent links.
proof fn lemma_single_chain_run(s: Seq<Task>, st: Seq<(int, int)>, avail: Set<int>)
    requires
        good_config(s, st, avail),
        st.len() <= 1,
        forall|p: int| 0 <= p < s.len() ==> children(s, p).len() <= 1,
    ensures
        traverse(s, st, avail).len() == 0 <==> st.len() == 0,
        st.len() == 1 ==> traverse(s, st, avail)[0] == st[0],
        forall|k: int|
            1 <= k < traverse(s, st, avail).len() ==> parent_index(
                s,
                (#[trigger] traverse(s, st, avail)[k]).0,
            ) == Option::Some(traverse(s, st, avail)[k - 1].0) && traverse(s, st, avail)[k].1
                == traverse(s, st, avail)[k - 1].1 + 1,
    decreases avail.len(), st.len(),
{
    let e = traverse(s, st, avail);
    if st.len() == 0 {
    } else {
        let top = st.last();
        let i = top.0;
        assert(avail.contains(i)) by {
            assert((#[trigger] st[st.len() - 1]).0 == i);
        }
        vstd::set::axiom_set_remove_len(avail, i);
        lemma_traverse_unfold(s, st, avail);
        lemma_step_good(s, st, avail);
        lemma_children_upto(s, i, s.len());
        let ce = child_entries(s, i, top.1);
        let new_st = st.drop_last() + ce;
        assert(new_st =~= ce);
        let new_avail = avail.remove(i);
        lemma_single_chain_run(s, new_st, new_avail);
        let e2 = traverse(s, new_st, new_avail);
        assert(e == seq![top] + e2);
        assert forall|k: int|
            1 <= k < e.len() implies parent_index(s, (#[trigger] e[k]).0) == Option::Some(
            e[k - 1].0,
        ) && e[k].1 == e[k - 1].1 + 1 by {
            if k == 1 {
                assert(e2.len() > 0);
                assert(ce.len() == 1);
                assert(e[1] == e2[0] && e2[0] == ce[0]);
                assert(ce[0] == (children(s, i)[0], top.1 + 1));
                assert(parent_index(s, children(s, i)[0]) == Option::Some(i));
            } else {
                assert(e[k] == e2[k - 1] && e[k - 1] == e2[k - 2]);
            }
        }
    }
}

/// `t` steps up the chain of `out` land `t` positions earlier.
proof fn lemma_chain_ancestors(out: Seq<Task>, j: int, t: nat)
    requires
        0 <= j < out.len(),
        t <= j,
        forall|k: int| 1 <= k < out.len() ==> #[trigger] parent_index(out, k) == Option::Some(k - 1),
    ensures
        kth_ancestor(out, j, t) == Option::Some(j - t),
    decreases t,
{
    if t > 0 {
        lemma_chain_ancestors(out, j, (t - 1) as nat);
    }
}

/// Consecutive parent links force the machine to emit positions in
/// increasing order from 0.
proof fn lemma_identity_emission(out: Seq<Task>, e: Seq<(int, int)>, k: int)
    requires
        0 <= k < e.len(),
        e.len() > 0 ==> e[0].0 == 0,
        forall|w: int|
            1 <= w < e.len() ==> parent_index(out, (#[trigger] e[w]).0) == Option::Some(e[w - 1].0),
        forall|w: int| 0 <= w < e.len() ==> 0 <= (#[trigger] e[w]).0 < out.len(),
        forall|j: int| 1 <= j < out.len() ==> #[trigger] parent_index(out, j) == Option::Some(j - 1),
        parent_index(out, 0) is None,
    ensures
        e[k].0 == k,
    decreases k,
{
    if k > 0 {
        lemma_identity_emission(out, e, k - 1);
        let j = e[k].0;
        assert(parent_index(out, j) == Option::Some(e[k - 1].0));
        if j == 0 {
        } else {
            assert(parent_index(out, j) == Option::Some(j - 1));
        }
    }
}

/// Idempotence of the reorder on chain-shaped task sets: when no task
/// has two children present and at most one task is a root, re-running
/// the engine on its own output yields the same order.  (With two
/// siblings anywhere this fails: their reversed order flips back.)
pub proof fn lemma_reorder_idempotent_on_chains(s: Seq<Task>, out: Seq<Task>)
    requires
        uniq_ids(s),
        roots(s).len() <= 1,
        forall|p: int| 0 <= p < s.len() ==> children(s, p).len() <= 1,
        out.len() == reorder_spec(s).len(),
        forall|k: int| 0 <= k < out.len() ==> #[trigger] out[k] == s[reorder_spec(s)[k].0],
    ensures
        reorder_spec(out).len() == out.len(),
        forall|k: int| 0 <= k < reorder_spec(out).len() ==> (#[trigger] reorder_spec(out)[k]).0 == k
            && reorder_spec(out)[k].1 == k,
{
    let e = reorder_spec(s);
    let n = out.len() as int;
    lemma_initial_config(s);
    lemma_traverse_elements(s, root_entries(s), all_indices(s));
    lemma_roots_upto(s, s.len());
    assert(root_entries(s).len() == roots(s).len());
    lemma_single_chain_run(s, root_entries(s), all_indices(s));

    // The output is a consecutively linked chain.
    assert(uniq_ids(out)) by {
        assert forall|i: int, j: int|
            0 <= i < n && 0 <= j < n && i != j implies out[i].id != out[j].id by {
            assert(out[i] == s[e[i].0] && out[j] == s[e[j].0]);
            assert(emitted(e)[i] == e[i].0 && emitted(e)[j] == e[j].0);
        }
    }
    assert forall|k: int| 1 <= k < n implies #[trigger] parent_index(out, k) == Option::Some(
        k - 1,
    ) by {
        assert(parent_index(s, (#[trigger] e[k]).0) == Option::Some(e[k - 1].0));
        let pid = s[e[k].0].parent_id.unwrap();
        assert(has_task_id(s, pid) && index_of_id(s, pid) == e[k - 1].0);
        assert(s[index_of_id(s, pid)].id == pid) by {
            let w = choose|w: int| 0 <= w < s.len() && s[w].id == pid;
            assert(0 <= index_of_id(s, pid) < s.len() && s[index_of_id(s, pid)].id == pid);
        }
        assert(out[k].parent_id == Option::Some(pid));
        assert(out[k - 1].id == pid);
        lemma_index_of_id(out, k - 1);
        assert(index_of_id(out, pid) == k - 1);
    }
    if n > 0 {
        assert(e[0] == root_entries(s)[0]);
        assert(root_entries(s)[0].0 == roots(s)[0]);
        assert(is_root(s, e[0].0));
        assert(parent_index(out, 0) is None) by {
            match out[0].parent_id {
                Option::None => {},
                Option::Some(pid) => {
                    assert(s[e[0].0].parent_id == Option::Some(pid));
                    assert(!has_task_id(s, pid));
                    if has_task_id(out, pid) {
                        let w = choose|w: int| 0 <= w < n && out[w].id == pid;
                        assert(out[w] == s[e[w].0]);
                        assert(0 <= (#[trigger] e[w]).0 < s.len());
                        assert(has_task_id(s, pid));
                    }
                },
            }
        }
        // The chain structure of the output.
        lemma_roots_upto(out, out.len());
        assert forall|j: int| 0 <= j < n implies (is_root(out, j) <==> j == 0) by {
            if j >= 1 {
                assert(parent_index(out, j) == Option::Some(j - 1));
            }
        }
        assert(roots(out).len() == 1) by {
            assert(is_root(out, 0));
            assert(roots_upto(out, out.len()).contains(0));
            assert(roots(out).contains(0));
            if roots(out).len() >= 2 {
                assert(roots(out)[0] < roots(out)[1]);
                assert(is_root(out, roots(out)[0]) && is_root(out, roots(out)[1]));
            }
            if roots(out).len() == 0 {
                assert(!roots(out).contains(0));
            }
        }
        assert(roots(out)[0] == 0) by {
            assert(is_root(out, roots(out)[0]));
        }
        assert forall|p: int| 0 <= p < n implies children(out, p).len() <= 1 by {
            lemma_children_upto(out, p, out.len());
            if children(out, p).len() >= 2 {
                let c1 = children(out, p)[0];
                let c2 = children(out, p)[1];
                assert(c1 < c2);
                assert(parent_index(out, c1) == Option::Some(p));
                assert(parent_index(out, c2) == Option::Some(p));
                assert(c1 >= 1 && c2 >= 1);
                assert(parent_index(out, c1) == Option::Some(c1 - 1));
                assert(parent_index(out, c2) == Option::Some(c2 - 1));
            }
        }
        // The second run walks that chain in place.
        lemma_initial_config(out);
        lemma_single_chain_run(out, root_entries(out), all_indices(out));
        lemma_traverse_elements(out, root_entries(out), all_indices(out));
        let e2 = reorder_spec(out);
        assert(root_entries(out).len() == 1);
        assert(e2[0] == root_entries(out)[0]);
        assert(root_entries(out)[0] == (roots(out)[0], 0int));
        assert(e2[0].0 == 0);
        assert(acyclic(out)) by {
            assert forall|j: int| 0 <= j < n implies reaches_root(out, j) by {
                lemma_chain_ancestors(out, j, j as nat);
                assert((#[trigger] kth_ancestor(out, j, j as nat)) matches Option::Some(r)
                    && is_root(out, r));
            }
        }
        lemma_completeness(out);
        assert forall|k: int| 0 <= k < e2.len() implies (#[trigger] e2[k]).0 == k && e2[k].1
            == k by {
            lemma_identity_emission(out, e2, k);
            if k >= 1 {
                lemma_identity_emission(out, e2, k - 1);
                assert(parent_index(out, (#[trigger] e2[k]).0) == Option::Some(e2[k - 1].0));
                assert(e2[k].1 == e2[k - 1].1 + 1);
            }
            assert(e2[k].1 == k) by {
                lemma_identity_depths(out, e2, k);
            }
        }
    } else {
        assert(reorder_spec(out).len() == 0) by {
            lemma_initial_config(out);
            lemma_traverse_elements(out, root_entries(out), all_indices(out));
            lemma_roots_upto(out, out.len());
            if reorder_spec(out).len() > 0 {
                assert(0 <= (#[trigger] reorder_spec(out)[0]).0 < out.len());
            }
        }
    }
}

/// Along an identity emission the depths count up from 0.
proof fn lemma_identity_depths(out: Seq<Task>, e: Seq<(int, int)>, k: int)
    requires
        0 <= k < e.len(),
        e.len() > 0 ==> e[0].1 == 0,
        forall|w: int| 1 <= w < e.len() ==> (#[trigger] e[w]).1 == e[w - 1].1 + 1,
    ensures
        e[k].1 == k,
    decreases k,
{
    if k > 0 {
        lemma_identity_depths(out, e, k - 1);
    }
}


// ---------------------------------------------------------------------
// Preorder contiguity
// ---------------------------------------------------------------------

/// The depth that the next emitted entry may at most carry.
pub open spec fn prefix_bound(prefix: Seq<(int, int)>) -> int {
    if prefix.len() == 0 {
        0
    } else {
        prefix.last().1 + 1
    }
}

/// The structural shape of a preorder trace: depths are non-negative,
/// and every non-root entry follows its parent (one level up) with
/// nothing shallower in between.
pub open spec fn trace_structured(s: Seq<Task>, o: Seq<(int, int)>) -> bool {
    &&& forall|k: int| 0 <= k < o.len() ==> (#[trigger] o[k]).1 >= 0
    &&& forall|k: int|
        0 <= k < o.len() && is_root(s, (#[trigger] o[k]).0) ==> o[k].1 == 0
    &&& forall|k: int|
        0 <= k < o.len() && !is_root(s, (#[trigger] o[k]).0) ==> exists|m: int|
            0 <= m < k && (#[trigger] o[m]).0 == the_parent(s, o[k].0) && o[m].1 == o[k].1 - 1
                && (forall|r: int| m < r < k ==> (#[trigger] o[r]).1 >= o[k].1)
}

/// The stack shape that keeps a trace structured: depths grow towards
/// the top, stay under the bound, and every pending non-root entry has
/// its parent in the prefix with nothing shallower after it.
pub open spec fn stack_structured(
    s: Seq<Task>,
    st: Seq<(int, int)>,
    prefix: Seq<(int, int)>,
) -> bool {
    &&& forall|t: int| 0 <= t < st.len() ==> (#[trigger] st[t]).1 >= 0
    &&& forall|t1: int, t2: int|
        0 <= t1 < t2 < st.len() ==> (#[trigger] st[t1]).1 <= (#[trigger] st[t2]).1
    &&& forall|t: int| 0 <= t < st.len() ==> (#[trigger] st[t]).1 <= prefix_bound(prefix)
    &&& forall|t: int|
        0 <= t < st.len() && is_root(s, (#[trigger] st[t]).0) ==> st[t].1 == 0
    &&& forall|t: int|
        0 <= t < st.len() && !is_root(s, (#[trigger] st[t]).0) ==> exists|m: int|
            0 <= m < prefix.len() && (#[trigger] prefix[m]).0 == the_parent(s, st[t].0)
                && prefix[m].1 == st[t].1 - 1 && (forall|r: int|
                m < r < prefix.len() ==> (#[trigger] prefix[r]).1 >= st[t].1)
}

/// Running the machine preserves the structural trace shape.
proof fn lemma_structure(
    s: Seq<Task>,
    st: Seq<(int, int)>,
    avail: Set<int>,
    prefix: Seq<(int, int)>,
)
    requires
        good_config(s, st, avail),
        stack_structured(s, st, prefix),
        trace_structured(s, prefix),
    ensures
        trace_structured(s, prefix + traverse(s, st, avail)),
    decreases avail.len(), st.len(),
{
    let e = traverse(s, st, avail);
    if st.len() == 0 {
        assert(prefix + e =~= prefix);
    } else {
        let top = st.last();
        let i = top.0;
        let d = top.1;
        assert(avail.contains(i) && d >= 0 && d <= prefix_bound(prefix)) by {
            assert((#[trigger] st[st.len() - 1]) == top);
        }
        vstd::set::axiom_set_remove_len(avail, i);
        lemma_traverse_unfold(s, st, avail);
        lemma_step_good(s, st, avail);
        lemma_children_upto(s, i, s.len());
        let rest = st.drop_last();
        let ce = child_entries(s, i, d);
        let new_st = rest + ce;
        let new_avail = avail.remove(i);
        let new_prefix = prefix.push(top);
        assert(prefix_bound(new_prefix) == d + 1);
        assert(trace_structured(s, new_prefix)) by {
            assert forall|k: int|
                0 <= k < new_prefix.len() implies (#[trigger] new_prefix[k]).1 >= 0 by {
                if k < prefix.len() {
                    assert(new_prefix[k] == prefix[k]);
                } else {
                    assert(new_prefix[k] == top);
                }
            }
            assert forall|k: int|
                0 <= k < new_prefix.len() && is_root(s, (#[trigger] new_prefix[k]).0)
                implies new_prefix[k].1 == 0 by {
                if k < prefix.len() {
                    assert(new_prefix[k] == prefix[k]);
                } else {
                    assert(new_prefix[k] == top);
                    assert((#[trigger] st[st.len() - 1]) == top);
                }
            }
            assert forall|k: int|
                0 <= k < new_prefix.len() && !is_root(s, (#[trigger] new_prefix[k]).0)
                implies exists|m: int|
                0 <= m < k && (#[trigger] new_prefix[m]).0 == the_parent(s, new_prefix[k].0)
                    && new_prefix[m].1 == new_prefix[k].1 - 1 && (forall|r: int|
                    m < r < k ==> (#[trigger] new_prefix[r]).1 >= new_prefix[k].1) by {
                if k < prefix.len() {
                    assert(new_prefix[k] == prefix[k]);
                    let m = choose|m: int|
                        0 <= m < k && (#[trigger] prefix[m]).0 == the_parent(s, prefix[k].0)
                            && prefix[m].1 == prefix[k].1 - 1 && (forall|r: int|
                            m < r < k ==> (#[trigger] prefix[r]).1 >= prefix[k].1);
                    assert(new_prefix[m] == prefix[m]);
                    assert(0 <= m < k && (#[trigger] new_prefix[m]).0 == the_parent(
                        s,
                        new_prefix[k].0,
                    ) && new_prefix[m].1 == new_prefix[k].1 - 1 && (forall|r: int|
                        m < r < k ==> (#[trigger] new_prefix[r]).1 >= new_prefix[k].1)) by {
                        assert forall|r: int|
                            m < r < k implies (#[trigger] new_prefix[r]).1 >= new_prefix[k].1 by {
                            assert(new_prefix[r] == prefix[r]);
                            assert((#[trigger] prefix[r]).1 >= prefix[k].1);
                        }
                    }
                } else {
                    assert(new_prefix[k] == top);
                    assert(0 <= st.len() - 1 < st.len());
                    assert((#[trigger] st[st.len() - 1]) == top);
                    let m = choose|m: int|
                        0 <= m < prefix.len() && (#[trigger] prefix[m]).0 == the_parent(s, i)
                            && prefix[m].1 == d - 1 && (forall|r: int|
                            m < r < prefix.len() ==> (#[trigger] prefix[r]).1 >= d);
                    assert(new_prefix[m] == prefix[m]);
                    assert(0 <= m < k && (#[trigger] new_prefix[m]).0 == the_parent(
                        s,
                        new_prefix[k].0,
                    ) && new_prefix[m].1 == new_prefix[k].1 - 1 && (forall|r: int|
                        m < r < k ==> (#[trigger] new_prefix[r]).1 >= new_prefix[k].1)) by {
                        assert forall|r: int|
                            m < r < k implies (#[trigger] new_prefix[r]).1 >= new_prefix[k].1 by {
                            assert(new_prefix[r] == prefix[r]);
                            assert((#[trigger] prefix[r]).1 >= d);
                        }
                    }
                }
            }
        }
        assert(stack_structured(s, new_st, new_prefix)) by {
            // Depths below the popped entry never exceed it.
            assert forall|t: int|
                0 <= t < rest.len() implies (#[trigger] st[t]).1 <= d by {
                assert((#[trigger] st[st.len() - 1]) == top);
            }
            assert forall|t: int|
                0 <= t < new_st.len() implies (#[trigger] new_st[t]).1 >= 0 && new_st[t].1
                <= prefix_bound(new_prefix) by {
                if t < rest.len() {
                    assert(new_st[t] == st[t]);
                } else {
                    assert(new_st[t] == ce[t - rest.len()]);
                    assert(new_st[t].1 == d + 1);
                }
            }
            assert forall|t1: int, t2: int|
                0 <= t1 < t2 < new_st.len() implies (#[trigger] new_st[t1]).1 <= (
            #[trigger] new_st[t2]).1 by {
                if t1 < rest.len() && t2 < rest.len() {
                    assert(new_st[t1] == st[t1] && new_st[t2] == st[t2]);
                } else if t1 < rest.len() {
                    assert(new_st[t1] == st[t1]);
                    assert(new_st[t2] == ce[t2 - rest.len()]);
                    assert(new_st[t2].1 == d + 1);
                } else {
                    assert(new_st[t1] == ce[t1 - rest.len()] && new_st[t2] == ce[t2 - rest.len()]);
                }
            }
            assert forall|t: int|
                0 <= t < new_st.len() && is_root(s, (#[trigger] new_st[t]).0) implies new_st[t].1
                == 0 by {
                if t < rest.len() {
                    assert(new_st[t] == st[t]);
                } else {
                    let c = children(s, i)[t - rest.len()];
                    assert(new_st[t].0 == c);
                    assert(parent_index(s, c) == Option::Some(i));
                }
            }
            assert forall|t: int|
                0 <= t < new_st.len() && !is_root(s, (#[trigger] new_st[t]).0) implies exists|
                m: int,
            |
                0 <= m < new_prefix.len() && (#[trigger] new_prefix[m]).0 == the_parent(
                    s,
                    new_st[t].0,
                ) && new_prefix[m].1 == new_st[t].1 - 1 && (forall|r: int|
                    m < r < new_prefix.len() ==> (#[trigger] new_prefix[r]).1 >= new_st[t].1) by {
                if t < rest.len() {
                    assert(new_st[t] == st[t]);
                    let m = choose|m: int|
                        0 <= m < prefix.len() && (#[trigger] prefix[m]).0 == the_parent(
                            s,
                            st[t].0,
                        ) && prefix[m].1 == st[t].1 - 1 && (forall|r: int|
                            m < r < prefix.len() ==> (#[trigger] prefix[r]).1 >= st[t].1);
                    assert(new_prefix[m] == prefix[m]);
                    assert(0 <= m < new_prefix.len() && (#[trigger] new_prefix[m]).0
                        == the_parent(s, new_st[t].0) && new_prefix[m].1 == new_st[t].1 - 1 && (
                    forall|r: int|
                        m < r < new_prefix.len() ==> (#[trigger] new_prefix[r]).1 >= new_st[t].1))
                        by {
                        assert forall|r: int|
                            m < r < new_prefix.len() implies (#[trigger] new_prefix[r]).1
                            >= new_st[t].1 by {
                            if r < prefix.len() {
                                assert(new_prefix[r] == prefix[r]);
                                assert((#[trigger] prefix[r]).1 >= st[t].1);
                            } else {
                                assert(new_prefix[r] == top);
                                assert((#[trigger] st[t]).1 <= d);
                            }
                        }
                    }
                } else {
                    let c = children(s, i)[t - rest.len()];
                    assert(new_st[t] == ce[t - rest.len()]);
                    assert(new_st[t].0 == c && new_st[t].1 == d + 1);
                    assert(parent_index(s, c) == Option::Some(i));
                    let m = prefix.len() as int;
                    assert((#[trigger] new_prefix[m]).0 == i && new_prefix[m].1 == d);
                    assert(the_parent(s, c) == i);
                    assert(0 <= m < new_prefix.len() && new_prefix[m].0 == the_parent(
                        s,
                        new_st[t].0,
                    ) && new_prefix[m].1 == new_st[t].1 - 1 && (forall|r: int|
                        m < r < new_prefix.len() ==> (#[trigger] new_prefix[r]).1 >= new_st[t].1));
                }
            }
        }
        lemma_structure(s, new_st, new_avail, new_prefix);
        assert(prefix + e =~= new_prefix + traverse(s, new_st, new_avail));
    }
}

/// The engine's whole output is a structured preorder trace.
proof fn lemma_output_structured(s: Seq<Task>)
    ensures
        trace_structured(s, reorder_spec(s)),
{
    lemma_initial_config(s);
    lemma_roots_upto(s, s.len());
    assert(stack_structured(s, root_entries(s), Seq::<(int, int)>::empty())) by {
        assert forall|t: int|
            0 <= t < root_entries(s).len() implies is_root(
            s,
            (#[trigger] root_entries(s)[t]).0,
        ) && root_entries(s)[t].1 == 0 by {
            assert(root_entries(s)[t].0 == roots(s)[t]);
        }
    }
    lemma_structure(s, root_entries(s), all_indices(s), Seq::<(int, int)>::empty());
    assert(Seq::<(int, int)>::empty() + reorder_spec(s) =~= reorder_spec(s));
}

/// A one-step ancestor prepends to a chain.
proof fn lemma_anc_shift(s: Seq<Task>, j: int, p: int, k: nat)
    requires
        0 <= j < s.len(),
        parent_index(s, j) == Option::Some(p),
    ensures
        kth_ancestor(s, j, (k + 1) as nat) == kth_ancestor(s, p, k),
    decreases k,
{
    if k == 0 {
        assert(kth_ancestor(s, j, 0) == Option::Some(j));
        assert(kth_ancestor(s, j, 1) == parent_index(s, j));
    } else {
        lemma_anc_shift(s, j, p, (k - 1) as nat);
        lemma_parent_in_range(s, j);
        lemma_chain_in_range(s, p, (k - 1) as nat);
        let prev = kth_ancestor(s, p, (k - 1) as nat);
        assert(kth_ancestor(s, j, (k + 1) as nat) == (match kth_ancestor(s, j, k) {
            Option::None => Option::<int>::None,
            Option::Some(a) => if 0 <= a < s.len() {
                parent_index(s, a)
            } else {
                Option::None
            },
        }));
    }
}

/// From a descendant chain to the depth-bounded block: a descendant
/// sits after its ancestor, with everything in between strictly
/// deeper.
#[verifier::rlimit(100)]
proof fn lemma_desc_to_block(s: Seq<Task>, e: Seq<(int, int)>, m: int, q: int, k: nat)
    requires
        trace_structured(s, e),
        emitted(e).no_duplicates(),
        forall|w: int| 0 <= w < e.len() ==> 0 <= (#[trigger] e[w]).0 < s.len(),
        0 <= m < e.len(),
        0 <= q < e.len(),
        k >= 1,
        kth_ancestor(s, e[q].0, k) == Option::Some(e[m].0),
    ensures
        m < q,
        forall|r: int| m < r <= q ==> (#[trigger] e[r]).1 > e[m].1,
    decreases k,
{
    let j = e[q].0;
    assert(kth_ancestor(s, j, 1) is Some) by {
        lemma_chain_prefix(s, j, 1, k);
    }
    assert(kth_ancestor(s, j, 0) == Option::Some(j));
    assert(kth_ancestor(s, j, 1) == parent_index(s, j));
    assert(!is_root(s, j));
    let p = the_parent(s, j);
    let m1 = choose|m1: int|
        0 <= m1 < q && (#[trigger] e[m1]).0 == p && e[m1].1 == e[q].1 - 1 && (forall|r: int|
            m1 < r < q ==> (#[trigger] e[r]).1 >= e[q].1);
    if k == 1 {
        assert(e[m].0 == p);
        assert(m == m1) by {
            assert(emitted(e)[m] == e[m].0 && emitted(e)[m1] == e[m1].0);
        }
        assert forall|r: int| m < r <= q implies (#[trigger] e[r]).1 > e[m].1 by {
            if r < q {
                assert((#[trigger] e[r]).1 >= e[q].1);
            }
        }
    } else {
        lemma_anc_shift(s, j, p, (k - 1) as nat);
        assert(kth_ancestor(s, p, (k - 1) as nat) == Option::Some(e[m].0));
        lemma_desc_to_block(s, e, m, m1, (k - 1) as nat);
        assert(e[m1].1 > e[m].1);
        assert forall|r: int| m < r <= q implies (#[trigger] e[r]).1 > e[m].1 by {
            if r <= m1 {
                assert((#[trigger] e[r]).1 > e[m].1);
            } else if r < q {
                assert((#[trigger] e[r]).1 >= e[q].1);
                assert(e[q].1 == e[m1].1 + 1);
            } else {
                assert(e[q].1 == e[m1].1 + 1);
            }
        }
    }
}

/// From the depth-bounded block to a descendant chain.
#[verifier::rlimit(100)]
proof fn lemma_block_to_desc(s: Seq<Task>, e: Seq<(int, int)>, m: int, q: int)
    requires
        trace_structured(s, e),
        emitted(e).no_duplicates(),
        forall|w: int| 0 <= w < e.len() ==> 0 <= (#[trigger] e[w]).0 < s.len(),
        0 <= m < q < e.len(),
        forall|r: int| m < r <= q ==> (#[trigger] e[r]).1 > e[m].1,
    ensures
        descends_from(s, e[q].0, e[m].0),
    decreases q,
{
    let j = e[q].0;
    assert(e[q].1 > e[m].1);
    assert(e[m].1 >= 0);
    assert(!is_root(s, j)) by {
        if is_root(s, j) {
            assert((#[trigger] e[q]).1 == 0);
        }
    }
    let p = the_parent(s, j);
    let m1 = choose|m1: int|
        0 <= m1 < q && (#[trigger] e[m1]).0 == p && e[m1].1 == e[q].1 - 1 && (forall|r: int|
            m1 < r < q ==> (#[trigger] e[r]).1 >= e[q].1);
    assert(m1 >= m) by {
        if m1 < m {
            assert((#[trigger] e[m]).1 >= e[q].1);
            assert(e[q].1 > e[m].1);
        }
    }
    assert(kth_ancestor(s, j, 1) == Option::Some(p)) by {
        assert(kth_ancestor(s, j, 0) == Option::Some(j));
        assert(kth_ancestor(s, j, 1) == parent_index(s, j));
    }
    if m1 == m {
        assert(kth_ancestor(s, j, 1) == Option::Some(e[m].0));
        assert(descends_from(s, j, e[m].0)) by {
            assert(1nat >= 1 && kth_ancestor(s, j, 1nat) == Option::Some(e[m].0));
        }
    } else {
        assert(forall|r: int| m < r <= m1 ==> (#[trigger] e[r]).1 > e[m].1);
        lemma_block_to_desc(s, e, m, m1);
        let k1 = choose|k1: nat| k1 >= 1 && kth_ancestor(s, e[m1].0, k1) == Option::Some(e[m].0);
        lemma_anc_shift(s, j, p, k1);
        assert(kth_ancestor(s, j, (k1 + 1) as nat) == Option::Some(e[m].0));
        assert(descends_from(s, j, e[m].0)) by {
            assert((k1 + 1) as nat >= 1 && kth_ancestor(s, j, (k1 + 1) as nat) == Option::Some(
                e[m].0,
            ));
        }
    }
}



/// Preorder contiguity: a task's strict descendants are exactly the
/// entries of the block that follows it while depths stay greater, so
/// they occupy a contiguous run immediately after it.
pub proof fn lemma_preorder_contiguity(s: Seq<Task>)
    ensures
        forall|m: int, q: int|
            #![trigger reorder_spec(s)[m], reorder_spec(s)[q]]
            0 <= m < reorder_spec(s).len() && 0 <= q < reorder_spec(s).len() ==> (descends_from(
                s,
                reorder_spec(s)[q].0,
                reorder_spec(s)[m].0,
            ) <==> (m < q && (forall|r: int|
                m < r <= q ==> (#[trigger] reorder_spec(s)[r]).1 > reorder_spec(s)[m].1))),
        forall|m: int, r: int, q: int|
            #![trigger reorder_spec(s)[m], reorder_spec(s)[r], reorder_spec(s)[q]]
            0 <= m < r && r < q < reorder_spec(s).len() && descends_from(
                s,
                reorder_spec(s)[q].0,
                reorder_spec(s)[m].0,
            ) ==> descends_from(s, reorder_spec(s)[r].0, reorder_spec(s)[m].0),
{
    let e = reorder_spec(s);
    lemma_output_structured(s);
    lemma_initial_config(s);
    lemma_traverse_elements(s, root_entries(s), all_indices(s));
    assert forall|m: int, q: int|
        #![trigger e[m], e[q]]
        0 <= m < e.len() && 0 <= q < e.len() implies (descends_from(s, e[q].0, e[m].0) <==> (m
        < q && (forall|r: int| m < r <= q ==> (#[trigger] e[r]).1 > e[m].1))) by {
        if descends_from(s, e[q].0, e[m].0) {
            let k = choose|k: nat| k >= 1 && kth_ancestor(s, e[q].0, k) == Option::Some(e[m].0);
            lemma_desc_to_block(s, e, m, q, k);
        }
        if m < q && (forall|r: int| m < r <= q ==> (#[trigger] e[r]).1 > e[m].1) {
            lemma_block_to_desc(s, e, m, q);
        }
    }
    assert forall|m: int, r: int, q: int|
        #![trigger e[m], e[r], e[q]]
        0 <= m < r && r < q < e.len() && descends_from(s, e[q].0, e[m].0) implies descends_from(
        s,
        e[r].0,
        e[m].0,
    ) by {
        assert(forall|r2: int| m < r2 <= q ==> (#[trigger] e[r2]).1 > e[m].1);
        assert(forall|r2: int| m < r2 <= r ==> (#[trigger] e[r2]).1 > e[m].1);
    }
}

} // verus!
