//! What stride selection guarantees: the task selected has the least pass,
//! and two tasks that are always ready share the processor in proportion
//! to their strides.

use vstd::prelude::*;
use crate::manager::{charged, select_steps, selection};
use crate::task::TaskView;

verus! {

/// The larger of two numbers.
pub open spec fn larger(a: int, b: int) -> int {
    if a >= b {
        a
    } else {
        b
    }
}

/// A selection that starts with a candidate and takes `n` handles from the
/// queue ends with the earliest task of least pass among the candidate and
/// the handles taken. The result is -1 if that is the candidate, else the
/// place in the queue of the task selected: every handle before it, and
/// the candidate, has a strictly larger pass, and no handle taken has a
/// smaller one.
pub proof fn lemma_select_steps_first_least(tasks: Seq<TaskView>, c: usize, queue: Seq<usize>, n: nat) -> (j:
    int)
    requires
        n <= queue.len(),
    ensures
        select_steps(tasks, Some(c), queue, n).0 is Some,
        -1 <= j < n,
        ({
            let w = select_steps(tasks, Some(c), queue, n).0.unwrap();
            &&& j == -1 ==> w == c
            &&& j >= 0 ==> queue[j] == w && tasks[w as int].pass < tasks[c as int].pass
            &&& forall|i: int| 0 <= i < j ==> tasks[w as int].pass < tasks[#[trigger] queue[i] as int].pass
            &&& forall|i: int|
                0 <= i < n && j <= i ==> tasks[w as int].pass <= tasks[#[trigger] queue[i] as int].pass
        }),
    decreases n,
{
    if n == 0 || queue.len() == 0 {
        -1
    } else {
        let t = queue[0];
        let rest = queue.drop_first();
        let replaced = tasks[c as int].pass > tasks[t as int].pass;
        let (c2, q2) = if replaced {
            (t, rest.push(c))
        } else {
            (c, rest.push(t))
        };
        let j2 = lemma_select_steps_first_least(tasks, c2, q2, (n - 1) as nat);
        let w = select_steps(tasks, Some(c2), q2, (n - 1) as nat).0.unwrap();
        assert(select_steps(tasks, Some(c), queue, n) == select_steps(tasks, Some(c2), q2, (n - 1) as nat));
        let j = if j2 >= 0 {
            j2 + 1
        } else if replaced {
            0
        } else {
            -1
        };
        assert forall|i: int| 0 <= i < j implies tasks[w as int].pass < tasks[#[trigger] queue[i] as int].pass by {
            if i > 0 {
                assert(q2[i - 1] == queue[i]);
            }
        }
        assert forall|i: int| 0 <= i < n && j <= i implies tasks[w as int].pass <= tasks[#[trigger] queue[
            i
        ] as int].pass by {
            if i > 0 {
                assert(q2[i - 1] == queue[i]);
            }
        }
        if j2 >= 0 {
            assert(q2[j2] == queue[j2 + 1]);
        }
        j
    }
}

/// The task selected from a queue is the earliest task of least pass: the
/// result is its place in the queue, every task before it has a strictly
/// larger pass, and no task of the queue has a smaller one.
pub proof fn lemma_selection_first_least(tasks: Seq<TaskView>, queue: Seq<usize>) -> (j: int)
    requires
        queue.len() > 0,
    ensures
        selection(tasks, queue).0 is Some,
        0 <= j < queue.len(),
        ({
            let w = selection(tasks, queue).0.unwrap();
            &&& queue[j] == w
            &&& forall|i: int| 0 <= i < j ==> tasks[w as int].pass < tasks[#[trigger] queue[i] as int].pass
            &&& forall|i: int|
                0 <= i < queue.len() ==> tasks[w as int].pass <= tasks[#[trigger] queue[i] as int].pass
        }),
{
    let c = queue[0];
    let rest = queue.drop_first();
    let n = (queue.len() - 1) as nat;
    let j2 = lemma_select_steps_first_least(tasks, c, rest, n);
    let w = select_steps(tasks, Some(c), rest, n).0.unwrap();
    assert(selection(tasks, queue) == select_steps(tasks, Some(c), rest, n));
    let j = j2 + 1;
    assert forall|i: int| 0 <= i < j implies tasks[w as int].pass < tasks[#[trigger] queue[i] as int].pass by {
        if i > 0 {
            assert(rest[i - 1] == queue[i]);
        }
    }
    assert forall|i: int| 0 <= i < queue.len() implies tasks[w as int].pass <= tasks[#[trigger] queue[
        i
    ] as int].pass by {
        if i > 0 {
            assert(rest[i - 1] == queue[i]);
        }
    }
    if j2 >= 0 {
        assert(rest[j2] == queue[j2 + 1]);
    }
    j
}

/// A selection that starts with a candidate and takes `n` handles from the
/// queue loses and invents no task: the task selected and the queue that
/// is left hold what the candidate and the queue held.
pub proof fn lemma_select_steps_permutes(tasks: Seq<TaskView>, c: usize, queue: Seq<usize>, n: nat)
    requires
        n <= queue.len(),
    ensures
        select_steps(tasks, Some(c), queue, n).0 is Some,
        select_steps(tasks, Some(c), queue, n).1.to_multiset().insert(
            select_steps(tasks, Some(c), queue, n).0.unwrap(),
        ) =~= queue.to_multiset().insert(c),
    decreases n,
{
    if n == 0 || queue.len() == 0 {
    } else {
        let t = queue[0];
        let rest = queue.drop_first();
        let (c2, q2, loser) = if tasks[c as int].pass > tasks[t as int].pass {
            (t, rest.push(c), c)
        } else {
            (c, rest.push(t), t)
        };
        lemma_select_steps_permutes(tasks, c2, q2, (n - 1) as nat);
        assert(select_steps(tasks, Some(c), queue, n) == select_steps(tasks, Some(c2), q2, (n - 1) as nat));
        vstd::seq_lib::to_multiset_build(rest, loser);
        assert(rest =~= queue.remove(0));
        vstd::seq_lib::to_multiset_remove(queue, 0);
        queue.to_multiset_ensures();
        assert(queue.contains(t));
        assert(rest.to_multiset().insert(t) =~= queue.to_multiset());
    }
}

/// After a selection the ready queue holds every task it held before but
/// the one selected.
pub proof fn lemma_selection_permutes(tasks: Seq<TaskView>, queue: Seq<usize>)
    requires
        queue.len() > 0,
    ensures
        selection(tasks, queue).0 is Some,
        selection(tasks, queue).1.to_multiset().insert(selection(tasks, queue).0.unwrap())
            =~= queue.to_multiset(),
        selection(tasks, queue).1.len() == queue.len() - 1,
{
    let c = queue[0];
    let rest = queue.drop_first();
    let n = (queue.len() - 1) as nat;
    lemma_select_steps_permutes(tasks, c, rest, n);
    assert(selection(tasks, queue) == select_steps(tasks, Some(c), rest, n));
    assert(rest =~= queue.remove(0));
    vstd::seq_lib::to_multiset_remove(queue, 0);
    queue.to_multiset_ensures();
    assert(queue.contains(c));
    assert(rest.to_multiset().insert(c) =~= queue.to_multiset());
    let out = selection(tasks, queue);
    out.1.to_multiset_ensures();
    assert(out.1.to_multiset().insert(out.0.unwrap()).len() == queue.to_multiset().len());
}

/// Of two queued tasks the first is selected unless the second has a
/// strictly smaller pass; the other one stays in the queue.
pub proof fn lemma_selection_of_two(tasks: Seq<TaskView>, x: usize, y: usize)
    ensures
        selection(tasks, seq![x, y]) == (if tasks[x as int].pass > tasks[y as int].pass {
            (Some(y), seq![x])
        } else {
            (Some(x), seq![y])
        }),
{
    reveal_with_fuel(select_steps, 3);
    let q = seq![x, y];
    assert(q.drop_first() =~= seq![y]);
    assert(seq![y].drop_first() =~= Seq::<usize>::empty());
    assert(Seq::<usize>::empty().push(x) =~= seq![x]);
    assert(Seq::<usize>::empty().push(y) =~= seq![y]);
}

/// One round of scheduling when the task selected is made ready again at
/// once: the task table after the selection, and the ready queue with the
/// task selected back at its tail.
pub open spec fn round(tasks: Seq<TaskView>, queue: Seq<usize>) -> (Seq<TaskView>, Seq<usize>) {
    match selection(tasks, queue).0 {
        None => (tasks, queue),
        Some(w) => (tasks.update(w as int, charged(tasks[w as int])), selection(tasks, queue).1.push(w)),
    }
}

/// The task table and the ready queue after `k` rounds.
pub open spec fn rounds(tasks: Seq<TaskView>, queue: Seq<usize>, k: nat) -> (Seq<TaskView>, Seq<usize>)
    decreases k,
{
    if k == 0 {
        (tasks, queue)
    } else {
        rounds(round(tasks, queue).0, round(tasks, queue).1, (k - 1) as nat)
    }
}

/// How often task `who` is selected in `k` rounds.
pub open spec fn times_chosen(tasks: Seq<TaskView>, queue: Seq<usize>, k: nat, who: usize) -> nat
    decreases k,
{
    if k == 0 {
        0
    } else {
        let now: nat = if selection(tasks, queue).0 == Some(who) {
            1
        } else {
            0
        };
        now + times_chosen(round(tasks, queue).0, round(tasks, queue).1, (k - 1) as nat, who)
    }
}

/// Stride fairness for two tasks that are always ready. If their passes
/// differ by no more than the larger stride when a window of `k`
/// selections begins, then they still do when it ends, every selection
/// went to one of the two, each pass grew by the stride times the number
/// of selections, and the virtual time given to one task differs from that
/// given to the other by at most twice the larger stride. So with strides
/// `s1 < s2` the task with stride `s1` is chosen `s2 / s1` times as often
/// as the other, up to `2 * s2 / s1` selections.
pub proof fn lemma_stride_fairness(tasks: Seq<TaskView>, queue: Seq<usize>, a: usize, b: usize, k: nat)
    requires
        a != b,
        a < tasks.len(),
        b < tasks.len(),
        queue == seq![a, b] || queue == seq![b, a],
        tasks[a as int].stride > 0,
        tasks[b as int].stride > 0,
        tasks[a as int].pass - tasks[b as int].pass <= larger(
            tasks[a as int].stride as int,
            tasks[b as int].stride as int,
        ),
        tasks[b as int].pass - tasks[a as int].pass <= larger(
            tasks[a as int].stride as int,
            tasks[b as int].stride as int,
        ),
        tasks[a as int].pass + k * tasks[a as int].stride <= isize::MAX,
        tasks[b as int].pass + k * tasks[b as int].stride <= isize::MAX,
    ensures
        ({
            let sa = tasks[a as int].stride as int;
            let sb = tasks[b as int].stride as int;
            let na = times_chosen(tasks, queue, k, a) as int;
            let nb = times_chosen(tasks, queue, k, b) as int;
            let after = rounds(tasks, queue, k);
            &&& na + nb == k
            &&& after.0.len() == tasks.len()
            &&& after.1 == seq![a, b] || after.1 == seq![b, a]
            &&& after.0[a as int].stride == sa
            &&& after.0[b as int].stride == sb
            &&& after.0[a as int].pass == tasks[a as int].pass + na * sa
            &&& after.0[b as int].pass == tasks[b as int].pass + nb * sb
            &&& after.0[a as int].pass - after.0[b as int].pass <= larger(sa, sb)
            &&& after.0[b as int].pass - after.0[a as int].pass <= larger(sa, sb)
            &&& na * sa - nb * sb <= 2 * larger(sa, sb)
            &&& nb * sb - na * sa <= 2 * larger(sa, sb)
        }),
    decreases k,
{
    let sa = tasks[a as int].stride as int;
    let sb = tasks[b as int].stride as int;
    if k == 0 {
        assert(0 * sa == 0 && 0 * sb == 0) by (nonlinear_arith);
    } else {
        let x = queue[0];
        let y = queue[1];
        assert(queue =~= seq![x, y]);
        lemma_selection_of_two(tasks, x, y);
        let w = selection(tasks, queue).0.unwrap();
        let l = if w == x {
            y
        } else {
            x
        };
        let t1 = round(tasks, queue).0;
        let q1 = round(tasks, queue).1;
        assert(q1 =~= seq![l, w]);
        let sw = tasks[w as int].stride as int;
        assert(k * sa == (k - 1) * sa + sa && k * sb == (k - 1) * sb + sb) by (nonlinear_arith);
        assert(k * sa >= sa && k * sb >= sb) by (nonlinear_arith)
            requires
                k >= 1,
                sa > 0,
                sb > 0,
        ;
        assert((k - 1) * sa >= 0 && (k - 1) * sb >= 0) by (nonlinear_arith)
            requires
                k >= 1,
                sa > 0,
                sb > 0,
        ;
        assert(t1[w as int].pass == tasks[w as int].pass + sw);
        assert(t1[l as int] == tasks[l as int]);
        lemma_stride_fairness(t1, q1, a, b, (k - 1) as nat);
        let na1 = times_chosen(t1, q1, (k - 1) as nat, a) as int;
        let nb1 = times_chosen(t1, q1, (k - 1) as nat, b) as int;
        let na = times_chosen(tasks, queue, k, a) as int;
        let nb = times_chosen(tasks, queue, k, b) as int;
        if w == a {
            assert(na == na1 + 1 && nb == nb1);
            assert((na1 + 1) * sa == na1 * sa + sa) by (nonlinear_arith);
        } else {
            assert(w == b);
            assert(nb == nb1 + 1 && na == na1);
            assert((nb1 + 1) * sb == nb1 * sb + sb) by (nonlinear_arith);
        }
    }
}

} // verus!
