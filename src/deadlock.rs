//! Deadlock states and the transitions that lead into them, stated over the
//! edges of a transition system.
use vstd::prelude::*;
use crate::explore::Edge;
use crate::lts::LtsView;

verus! {

/// Some transition leaves state `i`.
pub open spec fn has_out(trans: Seq<Edge>, i: nat) -> bool {
    exists|j: int| 0 <= j < trans.len() && (#[trigger] trans[j]).before == i
}

/// From `i` a state of `goal` can be reached in at most `n` transitions.
pub open spec fn reaches_within(trans: Seq<Edge>, goal: Set<nat>, i: nat, n: nat) -> bool
    decreases n,
{
    goal.contains(i) || (n > 0 && exists|j: int|
        0 <= j < trans.len() && (#[trigger] trans[j]).before == i && reaches_within(
            trans,
            goal,
            trans[j].after,
            (n - 1) as nat,
        ))
}

/// From `i` a state of `goal` can be reached.
pub open spec fn reaches(trans: Seq<Edge>, goal: Set<nat>, i: nat) -> bool {
    exists|n: nat| reaches_within(trans, goal, i, n)
}

/// The state ids that a sequence holds.
pub open spec fn id_set(v: Seq<usize>) -> Set<nat> {
    Set::new(|i: nat| exists|k: int| 0 <= k < v.len() && v[k] as nat == i)
}

pub proof fn lemma_id_set_contains(v: Seq<usize>, k: int)
    requires
        0 <= k < v.len(),
    ensures
        id_set(v).contains(v[k] as nat),
{
}

pub proof fn lemma_id_set_push(v: Seq<usize>, x: usize)
    ensures
        id_set(v.push(x)) == id_set(v).insert(x as nat),
{
    assert forall|y: nat| id_set(v.push(x)).contains(y) <==> id_set(v).insert(x as nat).contains(y) by {
        if id_set(v.push(x)).contains(y) {
            let k = choose|k: int| 0 <= k < v.push(x).len() && v.push(x)[k] as nat == y;
            if k < v.len() {
                assert(v[k] as nat == y);
            }
        }
        if id_set(v).contains(y) {
            let k = choose|k: int| 0 <= k < v.len() && v[k] as nat == y;
            assert(v.push(x)[k] as nat == y);
        }
        if y == x as nat {
            assert(v.push(x)[v.len() as int] as nat == y);
        }
    }
    assert(id_set(v.push(x)) =~= id_set(v).insert(x as nat));
}

/// The deadlock states: those with no outgoing transition.
pub open spec fn sinks<T>(l: LtsView<T>) -> Set<nat> {
    Set::new(|i: nat| i < l.states.len() && !has_out(l.trans, i))
}

/// Each transition marked when it was already, or when its target can reach
/// `goal`; no mark is taken away.
pub open spec fn mark_edges(trans: Seq<Edge>, goal: Set<nat>) -> Seq<Edge> {
    trans.map_values(
        |t: Edge|
            Edge {
                label: t.label,
                before: t.before,
                after: t.after,
                on_deadlock: t.on_deadlock || reaches(trans, goal, t.after),
            },
    )
}

/// Marks for states `0..n`: which of them are in `ids`.
pub open spec fn marks(n: nat, ids: Set<nat>) -> Seq<bool> {
    Seq::new(n, |i: int| ids.contains(i as nat))
}

/// The transition system with its deadlock states marked, and each
/// transition marked when it lies on a path that ends in one.
pub open spec fn analyze<T>(l: LtsView<T>) -> LtsView<T> {
    LtsView {
        states: l.states,
        trans: mark_edges(l.trans, sinks(l)),
        dead: marks(l.states.len(), sinks(l)),
    }
}

/// The number of unset marks.
pub open spec fn count_false(s: Seq<bool>) -> nat
    decreases s.len(),
{
    if s.len() == 0 {
        0
    } else {
        count_false(s.drop_last()) + if s.last() {
            0nat
        } else {
            1nat
        }
    }
}

pub proof fn lemma_count_false_set(s: Seq<bool>, i: int)
    requires
        0 <= i < s.len(),
        !s[i],
    ensures
        count_false(s.update(i, true)) < count_false(s),
    decreases s.len(),
{
    if i == s.len() - 1 {
        assert(s.update(i, true).drop_last() =~= s.drop_last());
    } else {
        assert(s.update(i, true).drop_last() =~= s.drop_last().update(i, true));
        lemma_count_false_set(s.drop_last(), i);
    }
}

/// A transition into a state that reaches `goal` starts at one that does.
pub proof fn lemma_reaches_back(trans: Seq<Edge>, goal: Set<nat>, j: int)
    requires
        0 <= j < trans.len(),
        reaches(trans, goal, trans[j].after),
    ensures
        reaches(trans, goal, trans[j].before),
{
    let n = choose|n: nat| reaches_within(trans, goal, trans[j].after, n);
    assert(reaches_within(trans, goal, trans[j].before, n + 1));
}

/// A set of states that holds `goal` and is closed backwards along the
/// transitions holds every state that reaches `goal`.
pub proof fn lemma_closed_holds_reaching(
    trans: Seq<Edge>,
    goal: Set<nat>,
    r: Seq<bool>,
    x: nat,
    n: nat,
)
    requires
        x < r.len(),
        forall|j: int| 0 <= j < trans.len() ==> (#[trigger] trans[j]).after < r.len(),
        forall|y: nat| y < r.len() && goal.contains(y) ==> r[y as int],
        forall|j: int| 0 <= j < trans.len() && r[(#[trigger] trans[j]).after as int] ==> r[trans[j].before as int],
        reaches_within(trans, goal, x, n),
    ensures
        r[x as int],
    decreases n,
{
    if !goal.contains(x) {
        let j = choose|j: int|
            0 <= j < trans.len() && (#[trigger] trans[j]).before == x && reaches_within(
                trans,
                goal,
                trans[j].after,
                (n - 1) as nat,
            );
        lemma_closed_holds_reaching(trans, goal, r, trans[j].after, (n - 1) as nat);
    }
}

/// Reaching depends only on where transitions start and end.
pub proof fn lemma_reaches_within_same_ends(
    t1: Seq<Edge>,
    t2: Seq<Edge>,
    goal: Set<nat>,
    i: nat,
    n: nat,
)
    requires
        t1.len() == t2.len(),
        forall|j: int|
            0 <= j < t1.len() ==> (#[trigger] t1[j]).before == t2[j].before && t1[j].after
                == t2[j].after,
    ensures
        reaches_within(t1, goal, i, n) == reaches_within(t2, goal, i, n),
    decreases n,
{
    if n > 0 {
        assert forall|j: int| 0 <= j < t1.len() implies reaches_within(
            t1,
            goal,
            (#[trigger] t1[j]).after,
            (n - 1) as nat,
        ) == reaches_within(t2, goal, t2[j].after, (n - 1) as nat) by {
            lemma_reaches_within_same_ends(t1, t2, goal, t1[j].after, (n - 1) as nat);
        }
        if reaches_within(t1, goal, i, n) && !goal.contains(i) {
            let j = choose|j: int|
                0 <= j < t1.len() && (#[trigger] t1[j]).before == i && reaches_within(
                    t1,
                    goal,
                    t1[j].after,
                    (n - 1) as nat,
                );
            assert(t2[j].before == i);
        }
        if reaches_within(t2, goal, i, n) && !goal.contains(i) {
            let j = choose|j: int|
                0 <= j < t2.len() && (#[trigger] t2[j]).before == i && reaches_within(
                    t2,
                    goal,
                    t2[j].after,
                    (n - 1) as nat,
                );
            assert(t1[j].before == i);
        }
    }
}

/// Analysis keeps where transitions start and end, so it keeps which states
/// are deadlocks and which reach them.
pub proof fn lemma_analyze_keeps_ends<T>(l: LtsView<T>)
    ensures
        analyze(l).trans.len() == l.trans.len(),
        forall|j: int|
            0 <= j < l.trans.len() ==> (#[trigger] analyze(l).trans[j]).before == l.trans[j].before
                && analyze(l).trans[j].after == l.trans[j].after && analyze(l).trans[j].label
                == l.trans[j].label,
        forall|i: nat| has_out(analyze(l).trans, i) == has_out(l.trans, i),
        sinks(analyze(l)) == sinks(l),
        forall|i: nat| reaches(analyze(l).trans, sinks(l), i) == reaches(l.trans, sinks(l), i),
{
    let a = analyze(l);
    let tr = l.trans;
    let g = sinks(l);
    assert forall|i: nat| has_out(a.trans, i) == has_out(tr, i) by {
        if has_out(tr, i) {
            let j = choose|j: int| 0 <= j < tr.len() && (#[trigger] tr[j]).before == i;
            assert(a.trans[j].before == i);
        }
        if has_out(a.trans, i) {
            let j = choose|j: int| 0 <= j < a.trans.len() && (#[trigger] a.trans[j]).before == i;
            assert(tr[j].before == i);
        }
    }
    assert(sinks(a) =~= g);
    assert forall|i: nat| reaches(a.trans, g, i) == reaches(tr, g, i) by {
        if reaches(a.trans, g, i) {
            let n = choose|n: nat| reaches_within(a.trans, g, i, n);
            lemma_reaches_within_same_ends(a.trans, tr, g, i, n);
        }
        if reaches(tr, g, i) {
            let n = choose|n: nat| reaches_within(tr, g, i, n);
            lemma_reaches_within_same_ends(a.trans, tr, g, i, n);
        }
    }
}

/// Running the deadlock analysis a second time changes no mark.
pub proof fn lemma_analysis_idempotent<T>(l: LtsView<T>)
    ensures
        analyze(analyze(l)) == analyze(l),
{
    lemma_analyze_keeps_ends(l);
    let a = analyze(l);
    assert(mark_edges(a.trans, sinks(l)) =~= mark_edges(l.trans, sinks(l)));
}

} // verus!
