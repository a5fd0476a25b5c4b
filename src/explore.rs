//! What composition computes, stated over sequences: the moves a global state
//! allows, and breadth-first exploration from an initial state.
use vstd::prelude::*;
use crate::process::{Location, Model, Process, ProcessTrans};

verus! {

/// What identifies a global state: the shared value and each process's location.
pub type Key<T> = (T, Seq<Location>);

/// One step out of a global state: its composite label and the state it leads to.
pub struct Move<T> {
    pub label: Seq<char>,
    pub target: Key<T>,
}

/// A composite transition between two states, by index.
pub struct Edge {
    pub label: Seq<char>,
    pub before: nat,
    pub after: nat,
    pub on_deadlock: bool,
}

/// States in order of discovery and transitions in order of exploration.
pub struct Explored<T> {
    pub states: Seq<Key<T>>,
    pub trans: Seq<Edge>,
}

/// The label of a composite transition: `{process}.{transition}`.
pub open spec fn comp_label(p: Seq<char>, t: Seq<char>) -> Seq<char> {
    p + seq!['.'] + t
}

/// The state reached when process `i` fires `t` from `k`.
pub open spec fn fire<T: Model>(i: int, t: ProcessTrans<T>, k: Key<T>) -> Key<T> {
    (T::apply(t.action, k.0, k.0), k.1.update(i, t.dst))
}

/// The moves of process `i` (labelled `pl`) through those of `ts` whose guard holds at `k`.
pub open spec fn trans_moves<T: Model>(
    pl: Seq<char>,
    i: int,
    ts: Seq<ProcessTrans<T>>,
    k: Key<T>,
) -> Seq<Move<T>>
    decreases ts.len(),
{
    if ts.len() == 0 {
        Seq::empty()
    } else {
        let rest = trans_moves(pl, i, ts.drop_last(), k);
        let t = ts.last();
        if T::holds(t.guard, k.0) {
            rest.push(Move { label: comp_label(pl, t.label@), target: fire(i, t, k) })
        } else {
            rest
        }
    }
}

/// The moves of process `i` from `k`.
pub open spec fn process_moves<T: Model>(ps: Seq<Process<T>>, i: int, k: Key<T>) -> Seq<Move<T>> {
    trans_moves(ps[i].label@, i, ps[i].v@[k.1[i].0 as int].transs@, k)
}

/// The moves of processes `0..n` from `k`, process by process.
pub open spec fn moves_upto<T: Model>(ps: Seq<Process<T>>, n: nat, k: Key<T>) -> Seq<Move<T>>
    decreases n,
{
    if n == 0 {
        Seq::empty()
    } else {
        moves_upto(ps, (n - 1) as nat, k) + process_moves(ps, n - 1, k)
    }
}

/// Every move out of `k`, in exploration order.
pub open spec fn moves<T: Model>(ps: Seq<Process<T>>, k: Key<T>) -> Seq<Move<T>> {
    moves_upto(ps, ps.len(), k)
}

/// The first index at which `k` stands in `s`.
pub open spec fn find_key<T>(s: Seq<Key<T>>, k: Key<T>) -> Option<nat>
    decreases s.len(),
{
    if s.len() == 0 {
        None
    } else {
        match find_key(s.drop_last(), k) {
            Some(i) => Some(i),
            None => if s.last() == k {
                Some((s.len() - 1) as nat)
            } else {
                None
            },
        }
    }
}

/// Records move `m` out of state `src`, adding its target if it is new.
pub open spec fn add_move<T>(c: Explored<T>, src: nat, m: Move<T>) -> Explored<T> {
    match find_key(c.states, m.target) {
        Some(j) => Explored {
            states: c.states,
            trans: c.trans.push(Edge { label: m.label, before: src, after: j, on_deadlock: false }),
        },
        None => Explored {
            states: c.states.push(m.target),
            trans: c.trans.push(
                Edge { label: m.label, before: src, after: c.states.len(), on_deadlock: false },
            ),
        },
    }
}

/// Records the moves `ms` out of state `src`, in order.
pub open spec fn add_moves<T>(c: Explored<T>, src: nat, ms: Seq<Move<T>>) -> Explored<T>
    decreases ms.len(),
{
    if ms.len() == 0 {
        c
    } else {
        add_move(add_moves(c, src, ms.drop_last()), src, ms.last())
    }
}

/// Exploration after the first `n` states have been taken from the queue.
pub open spec fn explore<T: Model>(ps: Seq<Process<T>>, k0: Key<T>, n: nat) -> Explored<T>
    decreases n,
{
    if n == 0 {
        Explored { states: seq![k0], trans: Seq::empty() }
    } else {
        let c = explore(ps, k0, (n - 1) as nat);
        if n - 1 < c.states.len() {
            add_moves(c, (n - 1) as nat, moves(ps, c.states[n - 1]))
        } else {
            c
        }
    }
}

/// After `n` steps the queue is empty.
pub open spec fn drained<T: Model>(ps: Seq<Process<T>>, k0: Key<T>, n: nat) -> bool {
    n >= explore(ps, k0, n).states.len()
}

/// The outcome of exploration from `k0`, once the queue has drained.
pub open spec fn composed<T: Model>(ps: Seq<Process<T>>, k0: Key<T>) -> Explored<T> {
    explore(ps, k0, choose|n: nat| drained(ps, k0, n))
}

/// Once drained, further steps change nothing.
pub proof fn lemma_drained_stays<T: Model>(ps: Seq<Process<T>>, k0: Key<T>, n: nat, m: nat)
    requires
        drained(ps, k0, n),
        n <= m,
    ensures
        explore(ps, k0, m) == explore(ps, k0, n),
    decreases m - n,
{
    if m > n {
        lemma_drained_stays(ps, k0, n, (m - 1) as nat);
    }
}

/// Exploration is deterministic: whenever the queue has drained, the states
/// and transitions found are the same.
pub proof fn lemma_exploration_deterministic<T: Model>(
    ps: Seq<Process<T>>,
    k0: Key<T>,
    n1: nat,
    n2: nat,
)
    requires
        drained(ps, k0, n1),
        drained(ps, k0, n2),
    ensures
        explore(ps, k0, n1) == explore(ps, k0, n2),
        explore(ps, k0, n1) == composed(ps, k0),
{
    if n1 <= n2 {
        lemma_drained_stays(ps, k0, n1, n2);
    } else {
        lemma_drained_stays(ps, k0, n2, n1);
    }
    let c = choose|n: nat| drained(ps, k0, n);
    if n1 <= c {
        lemma_drained_stays(ps, k0, n1, c);
    } else {
        lemma_drained_stays(ps, k0, c, n1);
    }
}

} // verus!

verus! {

/// `k` has one location per process, each naming one of that process's units.
pub open spec fn valid_key<T: Model>(ps: Seq<Process<T>>, k: Key<T>) -> bool {
    &&& k.1.len() == ps.len()
    &&& forall|i: int| 0 <= i < ps.len() ==> (#[trigger] k.1[i]).0 < ps[i].v@.len()
}

/// Every process is well formed.
pub open spec fn processes_wf<T: Model>(ps: Seq<Process<T>>) -> bool {
    forall|i: int| 0 <= i < ps.len() ==> (#[trigger] ps[i]).wf()
}

/// If `k` first stands at `i` in a prefix of `s`, it first stands at `i` in `s`.
pub proof fn lemma_find_key_prefix<T>(s: Seq<Key<T>>, n: int, k: Key<T>)
    requires
        0 <= n <= s.len(),
        find_key(s.subrange(0, n), k) is Some,
    ensures
        find_key(s, k) == find_key(s.subrange(0, n), k),
    decreases s.len(),
{
    if s.len() == n {
        assert(s.subrange(0, n) =~= s);
    } else {
        assert(s.drop_last().subrange(0, n) =~= s.subrange(0, n));
        lemma_find_key_prefix(s.drop_last(), n, k);
    }
}

/// `find_key` finds `k` exactly where it stands first.
pub proof fn lemma_find_key<T>(s: Seq<Key<T>>, k: Key<T>)
    ensures
        find_key(s, k) is None <==> !s.contains(k),
        find_key(s, k) matches Some(i) ==> i < s.len() && s[i as int] == k,
    decreases s.len(),
{
    if s.len() > 0 {
        lemma_find_key(s.drop_last(), k);
        if s.contains(k) && find_key(s, k) is None {
            let j = choose|j: int| 0 <= j < s.len() && s[j] == k;
            if j < s.len() - 1 {
                assert(s.drop_last()[j] == k);
            }
        }
        if find_key(s.drop_last(), k) is None && s.last() != k {
            assert forall|j: int| 0 <= j < s.len() implies s[j] != k by {
                if j < s.len() - 1 {
                    assert(s.drop_last()[j] == s[j]);
                }
            }
        }
    }
}

/// Recording moves only adds states and transitions after those there were.
pub proof fn lemma_add_moves_extends<T>(c: Explored<T>, src: nat, ms: Seq<Move<T>>)
    ensures
        add_moves(c, src, ms).states.len() >= c.states.len(),
        add_moves(c, src, ms).states.subrange(0, c.states.len() as int) == c.states,
    decreases ms.len(),
{
    if ms.len() > 0 {
        lemma_add_moves_extends(c, src, ms.drop_last());
        let d = add_moves(c, src, ms.drop_last());
        assert(add_moves(c, src, ms).states.subrange(0, c.states.len() as int) =~= d.states.subrange(
            0,
            c.states.len() as int,
        ));
    }
}

/// Exploration keeps the initial state first.
pub proof fn lemma_explore_starts_at<T: Model>(ps: Seq<Process<T>>, k0: Key<T>, n: nat)
    ensures
        explore(ps, k0, n).states.len() >= 1,
        explore(ps, k0, n).states[0] == k0,
    decreases n,
{
    if n > 0 {
        lemma_explore_starts_at(ps, k0, (n - 1) as nat);
        let c = explore(ps, k0, (n - 1) as nat);
        if n - 1 < c.states.len() {
            lemma_add_moves_extends(c, (n - 1) as nat, moves(ps, c.states[n - 1]));
            assert(explore(ps, k0, n).states.subrange(0, c.states.len() as int)[0] == c.states[0]);
        }
    }
}

/// Process `i` fires the `t`-th transition of its unit at `k`: the guard
/// holds, and the step leads to `k2` under `label`.
pub open spec fn is_step<T: Model>(
    ps: Seq<Process<T>>,
    k: Key<T>,
    i: int,
    t: int,
    label: Seq<char>,
    k2: Key<T>,
) -> bool {
    let ts = ps[i].v@[k.1[i].0 as int].transs@;
    &&& 0 <= i < ps.len()
    &&& 0 <= t < ts.len()
    &&& T::holds(ts[t].guard, k.0)
    &&& label == comp_label(ps[i].label@, ts[t].label@)
    &&& k2 == fire(i, ts[t], k)
}

/// Some process has an enabled transition from `k` to `k2` labelled `label`.
pub open spec fn step_of<T: Model>(ps: Seq<Process<T>>, k: Key<T>, label: Seq<char>, k2: Key<T>) -> bool {
    exists|i: int, t: int| #[trigger] is_step(ps, k, i, t, label, k2)
}

/// `m` is what firing `tr` (of process `i`, labelled `pl`) from `k` gives.
pub open spec fn move_of<T: Model>(pl: Seq<char>, i: int, tr: ProcessTrans<T>, k: Key<T>, m: Move<T>) -> bool {
    &&& T::holds(tr.guard, k.0)
    &&& m == Move { label: comp_label(pl, tr.label@), target: fire(i, tr, k) }
}

/// The transition that the `x`-th move of a unit's moves comes from.
proof fn lemma_trans_moves_from<T: Model>(
    pl: Seq<char>,
    i: int,
    ts: Seq<ProcessTrans<T>>,
    k: Key<T>,
    x: int,
) -> (t: int)
    requires
        0 <= x < trans_moves(pl, i, ts, k).len(),
    ensures
        0 <= t < ts.len(),
        move_of(pl, i, ts[t], k, trans_moves(pl, i, ts, k)[x]),
    decreases ts.len(),
{
    let rest = trans_moves(pl, i, ts.drop_last(), k);
    if x < rest.len() {
        let t = lemma_trans_moves_from(pl, i, ts.drop_last(), k, x);
        assert(ts.drop_last()[t] == ts[t]);
        t
    } else {
        ts.len() - 1
    }
}

/// Every move out of `k` is a step of some process.
pub proof fn lemma_moves_are_steps<T: Model>(ps: Seq<Process<T>>, n: nat, k: Key<T>)
    requires
        n <= ps.len(),
    ensures
        forall|x: int|
            0 <= x < moves_upto(ps, n, k).len() ==> step_of(
                ps,
                k,
                (#[trigger] moves_upto(ps, n, k)[x]).label,
                moves_upto(ps, n, k)[x].target,
            ),
    decreases n,
{
    if n > 0 {
        lemma_moves_are_steps(ps, (n - 1) as nat, k);
        let a = moves_upto(ps, (n - 1) as nat, k);
        let i = n - 1;
        let ts = ps[i].v@[k.1[i].0 as int].transs@;
        let b = process_moves(ps, i, k);
        let all = moves_upto(ps, n, k);
        assert forall|x: int| 0 <= x < all.len() implies step_of(
            ps,
            k,
            (#[trigger] all[x]).label,
            all[x].target,
        ) by {
            if x < a.len() {
                assert(all[x] == a[x]);
            } else {
                assert(all[x] == b[x - a.len()]);
                let t = lemma_trans_moves_from(ps[i].label@, i, ts, k, x - a.len());
                assert(is_step(ps, k, i, t, all[x].label, all[x].target));
            }
        }
    }
}

/// What exploration keeps true: no state twice, and every transition an
/// unmarked step between the states it joins.
pub open spec fn explored_inv<T: Model>(ps: Seq<Process<T>>, c: Explored<T>) -> bool {
    &&& c.states.no_duplicates()
    &&& forall|j: int|
        0 <= j < c.trans.len() ==> (#[trigger] c.trans[j]).before < c.states.len()
            && c.trans[j].after < c.states.len() && !c.trans[j].on_deadlock && step_of(
            ps,
            c.states[c.trans[j].before as int],
            c.trans[j].label,
            c.states[c.trans[j].after as int],
        )
}

proof fn lemma_add_move_inv<T: Model>(ps: Seq<Process<T>>, c: Explored<T>, src: nat, m: Move<T>)
    requires
        explored_inv(ps, c),
        src < c.states.len(),
        step_of(ps, c.states[src as int], m.label, m.target),
    ensures
        explored_inv(ps, add_move(c, src, m)),
{
    lemma_find_key(c.states, m.target);
    let d = add_move(c, src, m);
    match find_key(c.states, m.target) {
        Some(j) => {
            assert forall|x: int| 0 <= x < d.trans.len() implies (#[trigger] d.trans[x]).before
                < d.states.len() && d.trans[x].after < d.states.len() && step_of(
                ps,
                d.states[d.trans[x].before as int],
                d.trans[x].label,
                d.states[d.trans[x].after as int],
            ) by {
                if x < c.trans.len() {
                    assert(d.trans[x] == c.trans[x]);
                }
            }
        },
        None => {
            assert forall|x: int| 0 <= x < d.trans.len() implies (#[trigger] d.trans[x]).before
                < d.states.len() && d.trans[x].after < d.states.len() && step_of(
                ps,
                d.states[d.trans[x].before as int],
                d.trans[x].label,
                d.states[d.trans[x].after as int],
            ) by {
                if x < c.trans.len() {
                    assert(d.trans[x] == c.trans[x]);
                    assert(d.states[c.trans[x].before as int] == c.states[c.trans[x].before as int]);
                    assert(d.states[c.trans[x].after as int] == c.states[c.trans[x].after as int]);
                }
            }
            assert forall|a: int, b: int| 0 <= a < d.states.len() && 0 <= b < d.states.len() && a != b
                implies d.states[a] != d.states[b] by {
                if a < c.states.len() && b < c.states.len() {
                } else if a < c.states.len() {
                    assert(c.states.contains(c.states[a]));
                } else if b < c.states.len() {
                    assert(c.states.contains(c.states[b]));
                }
            }
        },
    }
}

proof fn lemma_add_moves_inv<T: Model>(ps: Seq<Process<T>>, c: Explored<T>, src: nat, ms: Seq<Move<T>>)
    requires
        explored_inv(ps, c),
        src < c.states.len(),
        forall|x: int| 0 <= x < ms.len() ==> step_of(ps, c.states[src as int], (#[trigger] ms[x]).label, ms[x].target),
    ensures
        explored_inv(ps, add_moves(c, src, ms)),
    decreases ms.len(),
{
    if ms.len() > 0 {
        let a = ms.drop_last();
        assert forall|x: int| 0 <= x < a.len() implies step_of(ps, c.states[src as int], (#[trigger] a[x]).label, a[x].target) by {
            assert(a[x] == ms[x]);
        }
        lemma_add_moves_inv(ps, c, src, a);
        lemma_add_moves_extends(c, src, a);
        let d = add_moves(c, src, a);
        assert(d.states.subrange(0, c.states.len() as int)[src as int] == d.states[src as int]);
        assert(ms.last() == ms[ms.len() - 1]);
        lemma_add_move_inv(ps, d, src, ms.last());
    }
}

/// Every stage of exploration keeps its invariant.
pub proof fn lemma_explore_inv<T: Model>(ps: Seq<Process<T>>, k0: Key<T>, n: nat)
    ensures
        explored_inv(ps, explore(ps, k0, n)),
    decreases n,
{
    if n == 0 {
        let c = explore(ps, k0, 0);
        assert(c.states.len() == 1);
    } else {
        lemma_explore_inv(ps, k0, (n - 1) as nat);
        let c = explore(ps, k0, (n - 1) as nat);
        if n - 1 < c.states.len() {
            let k = c.states[n - 1];
            lemma_moves_are_steps(ps, ps.len(), k);
            lemma_add_moves_inv(ps, c, (n - 1) as nat, moves(ps, k));
        }
    }
}

/// `k` can be reached from `k0` in at most `n` steps.
pub open spec fn reach_within<T: Model>(ps: Seq<Process<T>>, k0: Key<T>, k: Key<T>, n: nat) -> bool
    decreases n,
{
    k == k0 || (n > 0 && exists|k1: Key<T>, l: Seq<char>|
        reach_within(ps, k0, k1, (n - 1) as nat) && #[trigger] step_of(ps, k1, l, k))
}

/// `k` can be reached from `k0` by steps whose guards hold when they fire.
pub open spec fn reachable<T: Model>(ps: Seq<Process<T>>, k0: Key<T>, k: Key<T>) -> bool {
    exists|n: nat| reach_within(ps, k0, k, n)
}

proof fn lemma_trans_moves_has<T: Model>(pl: Seq<char>, i: int, ts: Seq<ProcessTrans<T>>, k: Key<T>, t: int)
    requires
        0 <= t < ts.len(),
        T::holds(ts[t].guard, k.0),
    ensures
        trans_moves(pl, i, ts, k).contains(
            Move { label: comp_label(pl, ts[t].label@), target: fire(i, ts[t], k) },
        ),
    decreases ts.len(),
{
    let m = Move { label: comp_label(pl, ts[t].label@), target: fire(i, ts[t], k) };
    let r = trans_moves(pl, i, ts, k);
    if t == ts.len() - 1 {
        assert(r[r.len() - 1] == m);
    } else {
        lemma_trans_moves_has(pl, i, ts.drop_last(), k, t);
        let rest = trans_moves(pl, i, ts.drop_last(), k);
        let x = choose|x: int| 0 <= x < rest.len() && rest[x] == m;
        assert(r[x] == m);
    }
}

/// Every step of a process is among the moves out of `k`.
proof fn lemma_step_is_move<T: Model>(
    ps: Seq<Process<T>>,
    n: nat,
    k: Key<T>,
    i: int,
    t: int,
    l: Seq<char>,
    k2: Key<T>,
)
    requires
        n <= ps.len(),
        i < n,
        is_step(ps, k, i, t, l, k2),
    ensures
        moves_upto(ps, n, k).contains(Move { label: l, target: k2 }),
    decreases n,
{
    let a = moves_upto(ps, (n - 1) as nat, k);
    let all = moves_upto(ps, n, k);
    let m = Move { label: l, target: k2 };
    if i < n - 1 {
        lemma_step_is_move(ps, (n - 1) as nat, k, i, t, l, k2);
        let x = choose|x: int| 0 <= x < a.len() && a[x] == m;
        assert(all[x] == m);
    } else {
        let ts = ps[i].v@[k.1[i].0 as int].transs@;
        lemma_trans_moves_has(ps[i].label@, i, ts, k, t);
        let b = process_moves(ps, i, k);
        let x = choose|x: int| 0 <= x < b.len() && b[x] == m;
        assert(all[a.len() + x] == m);
    }
}

/// Recording moves adds each of their targets.
proof fn lemma_add_moves_holds_targets<T>(c: Explored<T>, src: nat, ms: Seq<Move<T>>)
    ensures
        forall|x: int|
            0 <= x < ms.len() ==> add_moves(c, src, ms).states.contains((#[trigger] ms[x]).target),
    decreases ms.len(),
{
    if ms.len() > 0 {
        let a = ms.drop_last();
        lemma_add_moves_holds_targets(c, src, a);
        let d = add_moves(c, src, a);
        let e = add_moves(c, src, ms);
        lemma_find_key(d.states, ms.last().target);
        assert forall|x: int| 0 <= x < ms.len() implies e.states.contains((#[trigger] ms[x]).target) by {
            if x < a.len() {
                assert(a[x] == ms[x]);
                let y = choose|y: int| 0 <= y < d.states.len() && d.states[y] == a[x].target;
                assert(e.states[y] == d.states[y]);
            } else {
                if d.states.contains(ms.last().target) {
                    assert(e.states == d.states);
                } else {
                    assert(e.states[d.states.len() as int] == ms.last().target);
                }
            }
        }
    }
}

/// Some transition from an earlier state leads to state `x`.
pub open spec fn first_reached(trans: Seq<Edge>, x: int) -> bool {
    exists|j: int| 0 <= j < trans.len() && (#[trigger] trans[j]).after == x && trans[j].before < x
}

/// Each state after the first was first reached from an earlier one, and
/// every move out of a state already taken from the queue leads to a known state.
pub open spec fn explore_history<T: Model>(ps: Seq<Process<T>>, c: Explored<T>, n: nat) -> bool {
    &&& forall|x: int| 0 < x < c.states.len() ==> #[trigger] first_reached(c.trans, x)
    &&& forall|x: int, y: int|
        0 <= x < n && x < c.states.len() && 0 <= y < moves(ps, c.states[x]).len()
            ==> c.states.contains((#[trigger] moves(ps, c.states[x])[y]).target)
}

proof fn lemma_add_moves_history<T: Model>(c: Explored<T>, src: nat, ms: Seq<Move<T>>)
    requires
        src < c.states.len(),
        forall|x: int| 0 < x < c.states.len() ==> #[trigger] first_reached(c.trans, x),
    ensures
        forall|x: int|
            0 < x < add_moves(c, src, ms).states.len() ==> #[trigger] first_reached(
                add_moves(c, src, ms).trans,
                x,
            ),
        add_moves(c, src, ms).trans.len() >= c.trans.len(),
        add_moves(c, src, ms).trans.subrange(0, c.trans.len() as int) == c.trans,
    decreases ms.len(),
{
    if ms.len() > 0 {
        let a = ms.drop_last();
        lemma_add_moves_history(c, src, a);
        lemma_add_moves_extends(c, src, a);
        let d = add_moves(c, src, a);
        let e = add_moves(c, src, ms);
        assert(e.trans.subrange(0, c.trans.len() as int) =~= d.trans.subrange(0, c.trans.len() as int));
        assert forall|x: int| 0 < x < e.states.len() implies #[trigger] first_reached(e.trans, x) by {
            if x < d.states.len() {
                assert(first_reached(d.trans, x));
                let j = choose|j: int|
                    0 <= j < d.trans.len() && (#[trigger] d.trans[j]).after == x && d.trans[j].before < x;
                assert(e.trans[j] == d.trans[j]);
            } else {
                assert(e.trans[d.trans.len() as int].after == x);
            }
        }
    }
}

proof fn lemma_explore_history<T: Model>(ps: Seq<Process<T>>, k0: Key<T>, n: nat)
    ensures
        explore_history(ps, explore(ps, k0, n), n),
    decreases n,
{
    if n > 0 {
        lemma_explore_history(ps, k0, (n - 1) as nat);
        let c = explore(ps, k0, (n - 1) as nat);
        if n - 1 < c.states.len() {
            let ms = moves(ps, c.states[n - 1]);
            let e = explore(ps, k0, n);
            lemma_add_moves_history(c, (n - 1) as nat, ms);
            lemma_add_moves_extends(c, (n - 1) as nat, ms);
            lemma_add_moves_holds_targets(c, (n - 1) as nat, ms);
            assert forall|x: int, y: int|
                0 <= x < n && x < e.states.len() && 0 <= y < moves(ps, e.states[x]).len()
                    implies e.states.contains((#[trigger] moves(ps, e.states[x])[y]).target) by {
                assert(e.states.subrange(0, c.states.len() as int)[x] == c.states[x]);
                assert(e.states[x] == c.states[x]);
                if x < n - 1 {
                    let z = choose|z: int| 0 <= z < c.states.len() && c.states[z] == moves(ps, c.states[x])[y].target;
                    assert(e.states.subrange(0, c.states.len() as int)[z] == c.states[z]);
                } else {
                    assert(ms[y] == moves(ps, e.states[x])[y]);
                }
            }
        }
    }
}

/// Exploration finds exactly the states reachable from the initial one.
pub proof fn lemma_composed_is_reachable<T: Model>(ps: Seq<Process<T>>, k0: Key<T>, n: nat)
    requires
        drained(ps, k0, n),
    ensures
        forall|k: Key<T>| explore(ps, k0, n).states.contains(k) <==> reachable(ps, k0, k),
{
    let c = explore(ps, k0, n);
    lemma_explore_history(ps, k0, n);
    lemma_explore_inv(ps, k0, n);
    lemma_explore_starts_at(ps, k0, n);
    assert forall|k: Key<T>| c.states.contains(k) implies reachable(ps, k0, k) by {
        let x = choose|x: int| 0 <= x < c.states.len() && c.states[x] == k;
        lemma_found_reachable(ps, k0, c, x);
    }
    assert forall|k: Key<T>| reachable(ps, k0, k) implies c.states.contains(k) by {
        let m = choose|m: nat| reach_within(ps, k0, k, m);
        lemma_reachable_found(ps, k0, n, k, m);
    }
}

proof fn lemma_found_reachable<T: Model>(ps: Seq<Process<T>>, k0: Key<T>, c: Explored<T>, x: int)
    requires
        0 <= x < c.states.len(),
        c.states[0] == k0,
        explored_inv(ps, c),
        forall|y: int| 0 < y < c.states.len() ==> #[trigger] first_reached(c.trans, y),
    ensures
        reach_within(ps, k0, c.states[x], x as nat),
    decreases x,
{
    if x > 0 {
        assert(first_reached(c.trans, x));
        let j = choose|j: int|
            0 <= j < c.trans.len() && (#[trigger] c.trans[j]).after == x && c.trans[j].before < x;
        let b = c.trans[j].before as int;
        lemma_found_reachable(ps, k0, c, b);
        lemma_reach_within_mono(ps, k0, c.states[b], b as nat, (x - 1) as nat);
        assert(step_of(ps, c.states[b], c.trans[j].label, c.states[x]));
    }
}

proof fn lemma_reach_within_mono<T: Model>(ps: Seq<Process<T>>, k0: Key<T>, k: Key<T>, a: nat, b: nat)
    requires
        reach_within(ps, k0, k, a),
        a <= b,
    ensures
        reach_within(ps, k0, k, b),
    decreases b,
{
    if a < b && k != k0 {
        let (k1, l) = choose|k1: Key<T>, l: Seq<char>|
            reach_within(ps, k0, k1, (a - 1) as nat) && #[trigger] step_of(ps, k1, l, k);
        lemma_reach_within_mono(ps, k0, k1, (a - 1) as nat, (b - 1) as nat);
    }
}

proof fn lemma_reachable_found<T: Model>(ps: Seq<Process<T>>, k0: Key<T>, n: nat, k: Key<T>, m: nat)
    requires
        drained(ps, k0, n),
        explore_history(ps, explore(ps, k0, n), n),
        explore(ps, k0, n).states[0] == k0,
        explore(ps, k0, n).states.len() >= 1,
        reach_within(ps, k0, k, m),
    ensures
        explore(ps, k0, n).states.contains(k),
    decreases m,
{
    let c = explore(ps, k0, n);
    if k == k0 {
        assert(c.states[0] == k0);
    } else {
        let (k1, l) = choose|k1: Key<T>, l: Seq<char>|
            reach_within(ps, k0, k1, (m - 1) as nat) && #[trigger] step_of(ps, k1, l, k);
        lemma_reachable_found(ps, k0, n, k1, (m - 1) as nat);
        let x = choose|x: int| 0 <= x < c.states.len() && c.states[x] == k1;
        let (i, t) = choose|i: int, t: int| #[trigger] is_step(ps, k1, i, t, l, k);
        lemma_step_is_move(ps, ps.len(), k1, i, t, l, k);
        let y = choose|y: int| 0 <= y < moves(ps, k1).len() && moves(ps, k1)[y] == Move { label: l, target: k };
        assert(c.states.contains(moves(ps, c.states[x])[y].target));
    }
}

/// `p` is a chain: each unit but the last holds one transition, always
/// enabled, to the next unit; the last holds none.
pub open spec fn is_chain<T: Model>(p: Process<T>) -> bool {
    &&& p.v@.len() >= 1
    &&& forall|j: int|
        0 <= j < p.v@.len() - 1 ==> (#[trigger] p.v@[j]).transs@.len() == 1
            && p.v@[j].transs@[0].dst.0 == j + 1
            && forall|v: T| T::holds(p.v@[j].transs@[0].guard, v)
    &&& p.v@[p.v@.len() - 1].transs@.len() == 0
}

/// The `j`-th state along a chain from `k0`.
pub open spec fn chain_key<T: Model>(p: Process<T>, k0: Key<T>, j: nat) -> Key<T>
    decreases j,
{
    if j == 0 {
        k0
    } else {
        fire(0, p.v@[j - 1].transs@[0], chain_key(p, k0, (j - 1) as nat))
    }
}

/// The `j`-th transition along a chain.
pub open spec fn chain_edge<T: Model>(p: Process<T>, j: nat) -> Edge {
    Edge {
        label: comp_label(p.label@, p.v@[j as int].transs@[0].label@),
        before: j,
        after: j + 1,
        on_deadlock: false,
    }
}

proof fn lemma_chain_locations<T: Model>(p: Process<T>, k0: Key<T>, j: nat)
    requires
        is_chain(p),
        k0.1 == seq![Location(0)],
        j < p.v@.len(),
    ensures
        chain_key(p, k0, j).1 == seq![Location(j as usize)],
    decreases j,
{
    if j > 0 {
        lemma_chain_locations(p, k0, (j - 1) as nat);
        assert(p.v@[j - 1].transs@[0].dst == Location(j as usize));
        assert(chain_key(p, k0, j).1 =~= seq![Location(j as usize)]);
    }
}

proof fn lemma_chain_explore<T: Model>(ps: Seq<Process<T>>, k0: Key<T>, m: nat)
    requires
        ps.len() == 1,
        is_chain(ps[0]),
        k0.1 == seq![Location(0)],
        m < ps[0].v@.len(),
    ensures
        explore(ps, k0, m) == (Explored {
            states: Seq::new(m + 1, |x: int| chain_key(ps[0], k0, x as nat)),
            trans: Seq::new(m, |x: int| chain_edge(ps[0], x as nat)),
        }),
    decreases m,
{
    let p = ps[0];
    if m == 0 {
        assert(explore(ps, k0, 0).states =~= Seq::new(1, |x: int| chain_key(p, k0, x as nat)));
        assert(explore(ps, k0, 0).trans =~= Seq::new(0, |x: int| chain_edge(p, x as nat)));
    } else {
        let j = (m - 1) as nat;
        lemma_chain_explore(ps, k0, j);
        let c = explore(ps, k0, j);
        let k = chain_key(p, k0, j);
        lemma_chain_locations(p, k0, j);
        assert(c.states[j as int] == k);
        let t = p.v@[j as int].transs@[0];
        assert(T::holds(t.guard, k.0));
        let mv = Move { label: comp_label(p.label@, t.label@), target: fire(0, t, k) };
        let ts = p.v@[j as int].transs@;
        assert(k.1[0] == Location(j as usize));
        assert(ts.drop_last().len() == 0);
        assert(trans_moves(p.label@, 0, ts.drop_last(), k) == Seq::<Move<T>>::empty());
        assert(ts.last() == t);
        assert(trans_moves(p.label@, 0, ts, k) =~= seq![mv]);
        assert(process_moves(ps, 0, k) == trans_moves(p.label@, 0, ts, k));
        assert(moves_upto(ps, 0, k) =~= Seq::<Move<T>>::empty());
        assert(moves_upto(ps, 1, k) =~= seq![mv]);
        assert(moves(ps, k) =~= seq![mv]);
        assert(seq![mv].drop_last() =~= Seq::<Move<T>>::empty());
        assert(seq![mv].last() == mv);
        assert(add_moves(c, j, Seq::<Move<T>>::empty()) == c);
        assert(add_moves(c, j, seq![mv]) == add_move(c, j, mv));
        lemma_chain_locations(p, k0, m);
        assert(mv.target == chain_key(p, k0, m));
        assert forall|x: int| 0 <= x < c.states.len() implies c.states[x] != mv.target by {
            lemma_chain_locations(p, k0, x as nat);
            assert(c.states[x].1[0] != mv.target.1[0]);
        }
        lemma_find_key(c.states, mv.target);
        assert(find_key(c.states, mv.target) is None);
        assert(explore(ps, k0, m) == add_move(c, j, mv));
        assert(explore(ps, k0, m).states =~= Seq::new(m + 1, |x: int| chain_key(p, k0, x as nat)));
        assert(explore(ps, k0, m).trans =~= Seq::new(m, |x: int| chain_edge(p, x as nat)));
    }
}

/// A single process that is a chain of always-enabled transitions composes
/// to a chain: one state per unit, each transition from one to the next.
pub proof fn lemma_chain_composes_to_chain<T: Model>(ps: Seq<Process<T>>, k0: Key<T>)
    requires
        ps.len() == 1,
        is_chain(ps[0]),
        k0.1 == seq![Location(0)],
    ensures
        composed(ps, k0) == (Explored {
            states: Seq::new(ps[0].v@.len(), |x: int| chain_key(ps[0], k0, x as nat)),
            trans: Seq::new((ps[0].v@.len() - 1) as nat, |x: int| chain_edge(ps[0], x as nat)),
        }),
        forall|x: int|
            0 <= x < ps[0].v@.len() ==> (#[trigger] composed(ps, k0).states[x]).1 == seq![
                Location(x as usize),
            ],
{
    let p = ps[0];
    let n = p.v@.len();
    let last = (n - 1) as nat;
    lemma_chain_explore(ps, k0, last);
    let c = explore(ps, k0, last);
    let k = chain_key(p, k0, last);
    lemma_chain_locations(p, k0, last);
    assert(c.states[last as int] == k);
    assert(k.1[0] == Location(last as usize));
    assert(trans_moves(p.label@, 0, p.v@[last as int].transs@, k).len() == 0);
    assert(process_moves(ps, 0, k).len() == 0);
    assert(moves_upto(ps, 0, k) =~= Seq::<Move<T>>::empty());
    assert(moves_upto(ps, 1, k) =~= Seq::<Move<T>>::empty());
    assert(moves(ps, k) =~= Seq::<Move<T>>::empty());
    assert(explore(ps, k0, n) == c);
    lemma_exploration_deterministic(ps, k0, n, n);
    assert forall|x: int| 0 <= x < n implies (#[trigger] composed(ps, k0).states[x]).1 == seq![
        Location(x as usize),
    ] by {
        lemma_chain_locations(p, k0, x as nat);
    }
}

} // verus!
