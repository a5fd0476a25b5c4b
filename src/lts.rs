use vstd::prelude::*;
use vstd::string::StringExecFns;
use crate::deadlock::{
    analyze, count_false, has_out, id_set, lemma_analyze_keeps_ends, lemma_closed_holds_reaching,
    lemma_count_false_set, lemma_id_set_contains, lemma_id_set_push, lemma_reaches_back,
    mark_edges, marks, reaches, reaches_within, sinks,
};
use crate::explore::{
    add_move, add_moves, comp_label, composed, explore, find_key, fire, lemma_composed_is_reachable,
    lemma_exploration_deterministic, lemma_explore_inv, lemma_explore_starts_at, lemma_find_key,
    lemma_find_key_prefix, moves, moves_upto, process_moves, processes_wf, reachable, step_of,
    trans_moves, valid_key, Edge, Explored, Key, Move,
};
use crate::dot::{locs_text, lts_dot, state_line, states_text, trans_line, trans_text};
use crate::process::{Label, Location, Model, Process, ProcessTrans};
use crate::text::usize_text;

verus! {

/// Index of a global state, in order of discovery from 0 (the initial state).
pub type StateId = usize;

/// A global state: the shared value and one location per process. The
/// `deadlock` flag is an annotation and takes no part in a state's identity.
#[derive(Debug, Clone, PartialEq, Eq, Hash, Default)]
pub struct State<T> {
    pub shared_vars: T,
    pub locations: Vec<Location>,
    pub deadlock: bool,
}

impl<T> State<T> {
    pub open spec fn key(&self) -> Key<T> {
        (self.shared_vars, self.locations@)
    }
}

/// The identities of a sequence of states.
pub open spec fn keys<T>(v: Seq<State<T>>) -> Seq<Key<T>> {
    v.map_values(|s: State<T>| s.key())
}

fn copy_locations(v: &Vec<Location>) -> (r: Vec<Location>)
    ensures
        r@ == v@,
{
    let mut r: Vec<Location> = Vec::new();
    let mut i: usize = 0;
    while i < v.len()
        invariant
            i <= v@.len(),
            r@ == v@.subrange(0, i as int),
        decreases v@.len() - i,
    {
        r.push(v[i]);
        i += 1;
        assert(r@ =~= v@.subrange(0, i as int));
    }
    assert(r@ =~= v@);
    r
}

impl<T: Model> State<T> {
    /// A state with shared value `r` and two processes, both at location 0.
    pub fn new(r: T) -> (s: State<T>)
        ensures
            s.shared_vars == r,
            s.locations@ == seq![Location(0), Location(0)],
            !s.deadlock,
    {
        State { shared_vars: r, locations: vec![Location::new(0), Location::new(0)], deadlock: false }
    }

    /// Whether the two are the same global state (the `deadlock` flag aside).
    pub fn same_state(&self, other: &State<T>) -> (r: bool)
        ensures
            r == (self.key() == other.key()),
    {
        if !self.shared_vars.same(&other.shared_vars) {
            return false;
        }
        if self.locations.len() != other.locations.len() {
            return false;
        }
        let mut i: usize = 0;
        while i < self.locations.len()
            invariant
                i <= self.locations@.len(),
                self.locations@.len() == other.locations@.len(),
                forall|j: int| 0 <= j < i ==> self.locations@[j] == other.locations@[j],
            decreases self.locations@.len() - i,
        {
            if self.locations[i].0 != other.locations[i].0 {
                return false;
            }
            i += 1;
        }
        assert(self.locations@ =~= other.locations@);
        true
    }

    fn duplicate(&self) -> (r: State<T>)
        ensures
            r.key() == self.key(),
            r.deadlock == self.deadlock,
    {
        State {
            shared_vars: self.shared_vars,
            locations: copy_locations(&self.locations),
            deadlock: self.deadlock,
        }
    }
}

/// A queued state, with the step that first reached it (none for the
/// initial state).
#[derive(Clone)]
pub struct Trans<T> {
    pub state: State<T>,
    pub dst: Vec<Option<(Label, Location)>>,
}

impl<T: Model> Trans<T> {
    pub fn new(s: &State<T>, v: Option<(Label, Location)>) -> (r: Trans<T>)
        ensures
            r.state.key() == s.key(),
            r.state.deadlock == s.deadlock,
            r.dst@ == seq![v],
    {
        Trans { state: s.duplicate(), dst: vec![v] }
    }
}

/// A composite transition: `label` is `{process}.{transition}`.
#[derive(Debug, Clone)]
pub struct CompTrans {
    pub label: String,
    pub before: StateId,
    pub after: StateId,
    pub on_deadlock: bool,
}

impl View for CompTrans {
    type V = Edge;

    open spec fn view(&self) -> Edge {
        Edge {
            label: self.label@,
            before: self.before as nat,
            after: self.after as nat,
            on_deadlock: self.on_deadlock,
        }
    }
}

impl CompTrans {
    pub fn new(label: String, b: StateId, a: StateId) -> (r: CompTrans)
        ensures
            r.label == label,
            r.before == b,
            r.after == a,
            !r.on_deadlock,
    {
        CompTrans { label, before: b, after: a, on_deadlock: false }
    }
}

/// The views of a sequence of composite transitions.
pub open spec fn edges(v: Seq<CompTrans>) -> Seq<Edge> {
    v.map_values(|t: CompTrans| t@)
}

/// The abstract content of a transition system.
pub struct LtsView<T> {
    pub states: Seq<Key<T>>,
    pub trans: Seq<Edge>,
    pub dead: Seq<bool>,
}

impl<T> LtsView<T> {
    /// One deadlock mark per state; every transition joins two states.
    pub open spec fn wf(self) -> bool {
        &&& self.dead.len() == self.states.len()
        &&& forall|j: int|
            0 <= j < self.trans.len() ==> (#[trigger] self.trans[j]).before < self.states.len()
                && self.trans[j].after < self.states.len()
    }
}

/// The explored states and transitions, with nothing marked.
pub open spec fn unmarked<T>(e: Explored<T>) -> LtsView<T> {
    LtsView { states: e.states, trans: e.trans, dead: Seq::new(e.states.len(), |i: int| false) }
}

/// A labelled transition system: states in order of discovery, composite
/// transitions in order of exploration, and which states are deadlocks.
#[derive(Clone)]
pub struct Lts<T> {
    states: Vec<State<T>>,
    dead: Vec<bool>,
    trans: Vec<CompTrans>,
    names: Vec<Label>,
}

impl<T> View for Lts<T> {
    type V = LtsView<T>;

    closed spec fn view(&self) -> LtsView<T> {
        LtsView { states: keys(self.states@), trans: edges(self.trans@), dead: self.dead@ }
    }
}

impl<T> Lts<T> {
    /// The labels of the composed processes, in order.
    pub closed spec fn names(&self) -> Seq<Seq<char>> {
        self.names@.map_values(|l: Label| l@)
    }

    pub fn new() -> (r: Lts<T>)
        ensures
            r@.states.len() == 0,
            r@.trans.len() == 0,
            r@.wf(),
            r.names().len() == 0,
    {
        let r = Lts { states: Vec::new(), dead: Vec::new(), trans: Vec::new(), names: Vec::new() };
        assert(r@.dead =~= Seq::<bool>::empty());
        r
    }
}

/// The index of the first state in `states` that is the same as `s`.
fn find_state<T: Model>(states: &Vec<State<T>>, s: &State<T>) -> (r: Option<StateId>)
    ensures
        match r {
            Some(i) => find_key(keys(states@), s.key()) == Some(i as nat),
            None => find_key(keys(states@), s.key()) is None,
        },
{
    let ghost ks = keys(states@);
    let mut i: usize = 0;
    while i < states.len()
        invariant
            i <= states@.len(),
            ks == keys(states@),
            find_key(ks.subrange(0, i as int), s.key()) is None,
        decreases states@.len() - i,
    {
        assert(ks.subrange(0, i + 1).drop_last() =~= ks.subrange(0, i as int));
        if states[i].same_state(s) {
            proof {
                lemma_find_key_prefix(ks, i + 1, s.key());
            }
            return Some(i);
        }
        i += 1;
    }
    assert(ks.subrange(0, i as int) =~= ks);
    None
}

fn composite_label(p: &Label, t: &Label) -> (r: String)
    ensures
        r@ == comp_label(p@, t@),
{
    let mut s = p.0.clone();
    s.append(".");
    s.append(t.0.as_str());
    proof {
        reveal_strlit(".");
    }
    assert(s@ =~= comp_label(p@, t@));
    s
}

/// One more move appended to a sequence of moves being recorded.
proof fn lemma_add_moves_push<T>(c: Explored<T>, src: nat, a: Seq<Move<T>>, m: Move<T>)
    ensures
        add_moves(c, src, a.push(m)) == add_move(add_moves(c, src, a), src, m),
{
    assert(a.push(m).drop_last() =~= a);
}

/// The moves of a unit's first `j + 1` transitions.
proof fn lemma_trans_moves_step<T: Model>(
    pl: Seq<char>,
    i: int,
    ts: Seq<ProcessTrans<T>>,
    j: int,
    k: Key<T>,
)
    requires
        0 <= j < ts.len(),
    ensures
        trans_moves(pl, i, ts.subrange(0, j + 1), k) == if T::holds(ts[j].guard, k.0) {
            trans_moves(pl, i, ts.subrange(0, j), k).push(
                Move { label: comp_label(pl, ts[j].label@), target: fire(i, ts[j], k) },
            )
        } else {
            trans_moves(pl, i, ts.subrange(0, j), k)
        },
{
    assert(ts.subrange(0, j + 1).drop_last() =~= ts.subrange(0, j));
}

/// Explores every state reachable from `s0` by the interleaved transitions of
/// `process`, breadth first, then marks deadlock states and the transitions
/// that lead into them.
pub fn concurrent_composition<T: Model>(process: Vec<Process<T>>, s0: State<T>) -> (lts: Lts<T>)
    requires
        processes_wf(process@),
        valid_key(process@, s0.key()),
    ensures
        lts@.wf(),
        lts@ == analyze(unmarked(composed(process@, s0.key()))),
        lts.names() == process@.map_values(|p: Process<T>| p.label@),
        lts@.states[0] == s0.key(),
        lts@.states.no_duplicates(),
        forall|k: Key<T>| lts@.states.contains(k) <==> reachable(process@, s0.key(), k),
        forall|j: int|
            0 <= j < lts@.trans.len() ==> step_of(
                process@,
                lts@.states[(#[trigger] lts@.trans[j]).before as int],
                lts@.trans[j].label,
                lts@.states[lts@.trans[j].after as int],
            ),
        forall|i: int|
            0 <= i < lts@.states.len() ==> (lts@.dead[i] <==> !has_out(lts@.trans, i as nat)),
        forall|j: int|
            0 <= j < lts@.trans.len() ==> ((#[trigger] lts@.trans[j]).on_deadlock <==> reaches(
                lts@.trans,
                sinks(lts@),
                lts@.trans[j].after,
            )),
{
    let ghost ps = process@;
    let ghost k0 = s0.key();
    let mut names: Vec<Label> = Vec::new();
    let mut n: usize = 0;
    while n < process.len()
        invariant
            n <= process@.len(),
            names@.len() == n,
            forall|x: int| 0 <= x < n ==> (#[trigger] names@[x])@ == process@[x].label@,
        decreases process@.len() - n,
    {
        names.push(Label(process[n].label.0.clone()));
        n += 1;
    }
    assert(names@.map_values(|l: Label| l@) =~= process@.map_values(|p: Process<T>| p.label@));
    let mut states: Vec<State<T>> = Vec::new();
    states.push(s0);
    let mut trans: Vec<CompTrans> = Vec::new();
    assert(keys(states@) =~= seq![k0]);
    assert(edges(trans@) =~= Seq::<Edge>::empty());
    let mut head: usize = 0;
    while head < states.len()
        invariant
            ps == process@,
            processes_wf(ps),
            head <= states@.len(),
            (Explored { states: keys(states@), trans: edges(trans@) }) == explore(ps, k0, head as nat),
            forall|x: int| 0 <= x < states@.len() ==> valid_key(ps, #[trigger] keys(states@)[x]),
            forall|j: int|
                0 <= j < trans@.len() ==> (#[trigger] trans@[j]).before < states@.len()
                    && trans@[j].after < states@.len(),
        decreases usize::MAX - head,
    {
        let s = states[head].duplicate();
        let ghost k = s.key();
        let ghost c0 = explore(ps, k0, head as nat);
        assert(k == keys(states@)[head as int]);
        let mut i: usize = 0;
        while i < process.len()
            invariant
                ps == process@,
                processes_wf(ps),
                head < states@.len(),
                valid_key(ps, k),
                k == s.key(),
                (Explored { states: keys(states@), trans: edges(trans@) }) == add_moves(
                    c0,
                    head as nat,
                    moves_upto(ps, i as nat, k),
                ),
                i <= ps.len(),
                forall|x: int| 0 <= x < states@.len() ==> valid_key(ps, #[trigger] keys(states@)[x]),
                forall|j: int|
                    0 <= j < trans@.len() ==> (#[trigger] trans@[j]).before < states@.len()
                        && trans@[j].after < states@.len(),
            decreases ps.len() - i,
        {
            let p = &process[i];
            let loc = s.locations[i].to_usize();
            assert(p.wf());
            let unit = &p.v[loc];
            let ghost ts = unit.transs@;
            let ghost pre = moves_upto(ps, i as nat, k);
            let mut j: usize = 0;
            while j < unit.transs.len()
                invariant
                    ps == process@,
                    processes_wf(ps),
                    head < states@.len(),
                    valid_key(ps, k),
                    k == s.key(),
                    i < ps.len(),
                    p == ps[i as int],
                    loc == k.1[i as int].0,
                    loc < p.v@.len(),
                    unit == p.v@[loc as int],
                    ts == unit.transs@,
                    j <= ts.len(),
                    (Explored { states: keys(states@), trans: edges(trans@) }) == add_moves(
                        c0,
                        head as nat,
                        pre + trans_moves(p.label@, i as int, ts.subrange(0, j as int), k),
                    ),
                    forall|x: int|
                        0 <= x < states@.len() ==> valid_key(ps, #[trigger] keys(states@)[x]),
                    forall|x: int|
                        0 <= x < trans@.len() ==> (#[trigger] trans@[x]).before < states@.len()
                            && trans@[x].after < states@.len(),
                decreases ts.len() - j,
            {
                let t = &unit.transs[j];
                proof {
                    lemma_trans_moves_step(p.label@, i as int, ts, j as int, k);
                }
                if T::guard(&t.guard, &s.shared_vars) {
                    let mut nv = s.shared_vars;
                    T::action(&t.action, &mut nv, &s.shared_vars);
                    let mut locs = copy_locations(&s.locations);
                    locs.set(i, t.dst);
                    let ns = State { shared_vars: nv, locations: locs, deadlock: s.deadlock };
                    let label = composite_label(&p.label, &t.label);
                    let ghost m = Move { label: label@, target: ns.key() };
                    assert(m.target == fire(i as int, ts[j as int], k));
                    assert(t.dst.0 < p.v@.len());
                    assert(valid_key(ps, ns.key()));
                    proof {
                        lemma_add_moves_push(
                            c0,
                            head as nat,
                            pre + trans_moves(p.label@, i as int, ts.subrange(0, j as int), k),
                            m,
                        );
                        assert(pre + trans_moves(p.label@, i as int, ts.subrange(0, j as int), k).push(m)
                            =~= (pre + trans_moves(p.label@, i as int, ts.subrange(0, j as int), k)).push(m));
                    }
                    let ghost old_st = states@;
                    let ghost old_tr = trans@;
                    match find_state(&states, &ns) {
                        Some(id) => {
                            proof {
                                lemma_find_key(keys(old_st), ns.key());
                            }
                            trans.push(CompTrans::new(label, head, id));
                            assert(edges(trans@) =~= edges(old_tr).push(trans@.last()@));
                        },
                        None => {
                            let id = states.len();
                            states.push(ns);
                            trans.push(CompTrans::new(label, head, id));
                            assert(edges(trans@) =~= edges(old_tr).push(trans@.last()@));
                            assert(keys(states@) =~= keys(old_st).push(ns.key()));
                            assert forall|x: int| 0 <= x < states@.len() implies valid_key(
                                ps,
                                #[trigger] keys(states@)[x],
                            ) by {
                                if x < old_st.len() {
                                    assert(keys(states@)[x] == keys(old_st)[x]);
                                }
                            }
                        },
                    }
                }
                j += 1;
            }
            assert(ts.subrange(0, j as int) =~= ts);
            assert(moves_upto(ps, (i + 1) as nat, k) == pre + process_moves(ps, i as int, k));
            i += 1;
        }
        head += 1;
    }
    proof {
        lemma_exploration_deterministic(ps, k0, head as nat, head as nat);
        lemma_explore_starts_at(ps, k0, head as nat);
        lemma_explore_inv(ps, k0, head as nat);
        lemma_composed_is_reachable(ps, k0, head as nat);
    }
    let dead = falses(states.len());
    let mut lts = Lts { states, dead, trans, names };
    let ghost u = unmarked(composed(ps, k0));
    assert(lts@ =~= u);
    lts.analyze_deadlocks();
    proof {
        lemma_analyze_keeps_ends(u);
    }
    assert(lts@.dead.len() == lts@.states.len());
    lts
}

fn falses(n: usize) -> (r: Vec<bool>)
    ensures
        r@ == Seq::new(n as nat, |x: int| false),
{
    let mut r: Vec<bool> = Vec::new();
    let mut d: usize = 0;
    while d < n
        invariant
            d <= n,
            r@ == Seq::new(d as nat, |x: int| false),
        decreases n - d,
    {
        r.push(false);
        d += 1;
        assert(r@ =~= Seq::new(d as nat, |x: int| false));
    }
    r
}

impl<T> Lts<T> {
    /// For each state, whether some transition leaves it.
    fn outgoing(&self) -> (out: Vec<bool>)
        requires
            self@.wf(),
        ensures
            out@.len() == self@.states.len(),
            forall|x: int| 0 <= x < out@.len() ==> out@[x] == has_out(self@.trans, x as nat),
    {
        let ghost tr = self@.trans;
        let n = self.states.len();
        let mut out = falses(n);
        let mut j: usize = 0;
        while j < self.trans.len()
            invariant
                self@.wf(),
                tr == self@.trans,
                n == self@.states.len(),
                j <= tr.len(),
                out@.len() == n,
                forall|x: int|
                    0 <= x < n ==> out@[x] == exists|k: int| 0 <= k < j && (#[trigger] tr[k]).before == x,
            decreases tr.len() - j,
        {
            let b = self.trans[j].before;
            assert(tr[j as int].before == b);
            out.set(b, true);
            j += 1;
            assert forall|x: int| 0 <= x < n implies out@[x] == exists|k: int|
                0 <= k < j && (#[trigger] tr[k]).before == x by {
                if x == b {
                    assert(tr[j - 1].before == x);
                }
            }
        }
        out
    }

    /// The deadlock states, in ascending order: those that no transition
    /// leaves. The flag says whether there is any.
    pub fn detect_deadlock(&self) -> (r: (bool, Vec<StateId>))
        requires
            self@.wf(),
        ensures
            id_set(r.1@) == sinks(self@),
            forall|a: int, b: int| 0 <= a < b < r.1@.len() ==> r.1@[a] < r.1@[b],
            r.0 == (r.1@.len() > 0),
    {
        let out = self.outgoing();
        let n = self.states.len();
        let mut ids: Vec<StateId> = Vec::new();
        let mut x: usize = 0;
        while x < n
            invariant
                n == self@.states.len(),
                out@.len() == n,
                forall|y: int| 0 <= y < n ==> out@[y] == has_out(self@.trans, y as nat),
                x <= n,
                forall|a: int, b: int| 0 <= a < b < ids@.len() ==> ids@[a] < ids@[b],
                forall|a: int| 0 <= a < ids@.len() ==> ids@[a] < x,
                forall|y: nat| y < x ==> (id_set(ids@).contains(y) <==> !out@[y as int]),
                forall|y: nat| id_set(ids@).contains(y) ==> y < x,
            decreases n - x,
        {
            let ghost old_ids = ids@;
            if !out[x] {
                ids.push(x);
                proof {
                    lemma_id_set_push(old_ids, x);
                }
            }
            assert forall|y: nat| y < x + 1 implies (id_set(ids@).contains(y) <==> !out@[y as int]) by {
                if y == x && id_set(ids@).contains(y) && out@[y as int] {
                    assert(id_set(old_ids).contains(y));
                }
            }
            x += 1;
        }
        assert forall|y: nat| id_set(ids@).contains(y) <==> sinks(self@).contains(y) by {
            if y < n {
                assert(id_set(ids@).contains(y) <==> !out@[y as int]);
            }
        }
        assert(id_set(ids@) =~= sinks(self@));
        (ids.len() > 0, ids)
    }

    /// Marks as deadlocks exactly the states whose ids `deadlock` holds.
    pub fn mark_state(&mut self, deadlock: Vec<StateId>)
        requires
            old(self)@.wf(),
        ensures
            final(self)@ == (LtsView {
                dead: marks(old(self)@.states.len(), id_set(deadlock@)),
                ..old(self)@
            }),
            final(self).names() == old(self).names(),
    {
        let n = self.states.len();
        let mut dead = falses(n);
        let mut k: usize = 0;
        while k < deadlock.len()
            invariant
                k <= deadlock@.len(),
                dead@.len() == n,
                forall|x: int|
                    0 <= x < n ==> dead@[x] == exists|m: int| 0 <= m < k && deadlock@[m] as int == x,
            decreases deadlock@.len() - k,
        {
            let d = deadlock[k];
            if d < n {
                dead.set(d, true);
            }
            k += 1;
            assert forall|x: int| 0 <= x < n implies dead@[x] == exists|m: int|
                0 <= m < k && deadlock@[m] as int == x by {
                if x == d {
                    assert(deadlock@[k - 1] as int == x);
                }
            }
        }
        self.dead = dead;
        assert(self@.dead =~= marks(n as nat, id_set(deadlock@)));
    }

    /// Marks each transition whose target can reach a state whose id
    /// `deadlock` holds, that is each one on a path into one of them. Marks
    /// already set stay set.
    pub fn mark_path(&mut self, deadlock: Vec<StateId>)
        requires
            old(self)@.wf(),
        ensures
            final(self)@ == (LtsView {
                trans: mark_edges(old(self)@.trans, id_set(deadlock@)),
                ..old(self)@
            }),
            final(self).names() == old(self).names(),
    {
        let ghost tr = self@.trans;
        let ghost goal = id_set(deadlock@);
        let n = self.states.len();
        let mut r = falses(n);
        let mut k: usize = 0;
        while k < deadlock.len()
            invariant
                goal == id_set(deadlock@),
                k <= deadlock@.len(),
                r@.len() == n,
                forall|x: int| 0 <= x < n && r@[x] ==> reaches(tr, goal, x as nat),
                forall|m: int| 0 <= m < k && deadlock@[m] < n ==> r@[deadlock@[m] as int],
            decreases deadlock@.len() - k,
        {
            let d = deadlock[k];
            if d < n {
                proof {
                    lemma_id_set_contains(deadlock@, k as int);
                }
                assert(reaches_within(tr, goal, d as nat, 0));
                r.set(d, true);
            }
            k += 1;
        }
        assert forall|y: nat| y < n && goal.contains(y) implies r@[y as int] by {
            let m = choose|m: int| 0 <= m < deadlock@.len() && deadlock@[m] as nat == y;
        }
        let mut changed = true;
        while changed
            invariant
                self@.wf(),
                tr == self@.trans,
                n == self@.states.len(),
                r@.len() == n,
                forall|x: int| 0 <= x < n && r@[x] ==> reaches(tr, goal, x as nat),
                forall|y: nat| y < n && goal.contains(y) ==> r@[y as int],
                !changed ==> forall|j: int|
                    0 <= j < tr.len() && r@[(#[trigger] tr[j]).after as int] ==> r@[tr[j].before as int],
            decreases count_false(r@) + if changed {
                1nat
            } else {
                0nat
            },
        {
            changed = false;
            let ghost r0 = r@;
            let mut j: usize = 0;
            while j < self.trans.len()
                invariant
                    self@.wf(),
                    tr == self@.trans,
                    n == self@.states.len(),
                    r@.len() == n,
                    j <= tr.len(),
                    forall|x: int| 0 <= x < n && r@[x] ==> reaches(tr, goal, x as nat),
                    forall|y: nat| y < n && goal.contains(y) ==> r@[y as int],
                    changed ==> count_false(r@) < count_false(r0),
                    !changed ==> r@ == r0,
                    !changed ==> forall|i: int|
                        0 <= i < j && r@[(#[trigger] tr[i]).after as int] ==> r@[tr[i].before as int],
                decreases tr.len() - j,
            {
                let a = self.trans[j].after;
                let b = self.trans[j].before;
                assert(tr[j as int].after == a && tr[j as int].before == b);
                if r[a] && !r[b] {
                    proof {
                        lemma_reaches_back(tr, goal, j as int);
                        lemma_count_false_set(r@, b as int);
                    }
                    r.set(b, true);
                    changed = true;
                }
                j += 1;
            }
        }
        assert forall|x: int| 0 <= x < n implies r@[x] == reaches(tr, goal, x as nat) by {
            if reaches(tr, goal, x as nat) {
                let m = choose|m: nat| #[trigger] reaches_within(tr, goal, x as nat, m);
                lemma_closed_holds_reaching(tr, goal, r@, x as nat, m);
            }
        }
        let mut j: usize = 0;
        while j < self.trans.len()
            invariant
                n == self@.states.len(),
                self@.states.len() == old(self)@.states.len(),
                self@.dead == old(self)@.dead,
                self.names() == old(self).names(),
                self@.states == old(self)@.states,
                tr == old(self)@.trans,
                self@.trans.len() == tr.len(),
                forall|x: int| 0 <= x < tr.len() ==> (#[trigger] tr[x]).after < n && tr[x].before < n,
                r@.len() == n,
                forall|x: int| 0 <= x < n ==> r@[x] == reaches(tr, goal, x as nat),
                j <= tr.len(),
                forall|x: int| 0 <= x < j ==> self@.trans[x] == mark_edges(tr, goal)[x],
                forall|x: int| j <= x < tr.len() ==> self@.trans[x] == tr[x],
            decreases tr.len() - j,
        {
            let a = self.trans[j].after;
            assert(tr[j as int].after == a);
            let marked = self.trans[j].on_deadlock || r[a];
            self.trans[j].on_deadlock = marked;
            j += 1;
        }
        assert(self@.trans =~= mark_edges(tr, goal));
    }

    /// Marks the deadlock states and every transition on a path into one.
    pub fn analyze_deadlocks(&mut self)
        requires
            old(self)@.wf(),
        ensures
            final(self)@ == analyze(old(self)@),
            final(self).names() == old(self).names(),
    {
        let (found, ids) = self.detect_deadlock();
        let ids2 = ids.clone();
        self.mark_path(ids);
        self.mark_state(ids2);
        assert(self@ =~= analyze(old(self)@));
    }
}

impl<T: Model> Lts<T> {
    fn locations_text(&self, locs: &Vec<Location>) -> (r: String)
        ensures
            r@ == locs_text(self.names(), locs@, locs@.len()),
    {
        let ghost names = self.names();
        let mut s = String::new();
        let mut j: usize = 0;
        while j < locs.len()
            invariant
                names == self.names(),
                j <= locs@.len(),
                s@ == locs_text(names, locs@, j as nat),
            decreases locs@.len() - j,
        {
            let ghost c = s@;
            if j < self.names.len() {
                s.append(self.names[j].0.as_str());
                assert(names[j as int] == self.names@[j as int]@);
            } else {
                assert(c + Seq::<char>::empty() =~= c);
            }
            s.append(usize_text(locs[j].0).as_str());
            s.append(" ");
            j += 1;
            assert(s@ =~= locs_text(names, locs@, j as nat));
        }
        s
    }

    fn state_text(&self, i: usize) -> (r: String)
        requires
            self@.wf(),
            i < self@.states.len(),
        ensures
            r@ == state_line(i as nat, self@.states[i as int], self@.dead[i as int], self.names()),
    {
        let st = &self.states[i];
        let mut s = usize_text(i);
        s.append(" [label=\"");
        s.append(usize_text(i).as_str());
        s.append("\\n");
        s.append(self.locations_text(&st.locations).as_str());
        s.append("\\n");
        s.append(st.shared_vars.show().as_str());
        s.append("\"");
        let ghost c = s@;
        if i == 0 {
            s.append(", color=cyan, style=filled");
        } else if self.dead[i] {
            s.append(", color=pink, style=filled");
        } else {
            assert(c + Seq::<char>::empty() =~= c);
        }
        s.append("];\n");
        assert(self@.states[i as int] == st.key());
        assert(s@ =~= state_line(i as nat, self@.states[i as int], self@.dead[i as int], self.names()));
        s
    }

    /// The transition system in GraphViz text: states in order of discovery
    /// (the initial one cyan, deadlocks pink), then transitions in order of
    /// exploration (those on a deadlock path red).
    pub fn dot(&self) -> (r: String)
        requires
            self@.wf(),
        ensures
            r@ == lts_dot(self@, self.names()),
    {
        let ghost l = self@;
        let ghost names = self.names();
        let mut s = "digraph {\n".to_owned();
        let n = self.states.len();
        let mut i: usize = 0;
        while i < n
            invariant
                l == self@,
                names == self.names(),
                l.wf(),
                n == l.states.len(),
                i <= n,
                s@ == "digraph {\n"@ + states_text(l, names, i as nat),
            decreases n - i,
        {
            s.append(self.state_text(i).as_str());
            i += 1;
            assert(s@ =~= "digraph {\n"@ + states_text(l, names, i as nat));
        }
        let ghost head = s@;
        let m = self.trans.len();
        let mut j: usize = 0;
        while j < m
            invariant
                l == self@,
                m == l.trans.len(),
                j <= m,
                s@ == head + trans_text(l.trans, j as nat),
            decreases m - j,
        {
            let t = &self.trans[j];
            let ghost b0 = s@;
            s.append(usize_text(t.before).as_str());
            s.append(" -> ");
            s.append(usize_text(t.after).as_str());
            s.append(" [label=\"");
            s.append(t.label.as_str());
            s.append("\"");
            let ghost c = s@;
            if t.on_deadlock {
                s.append(", color=red,fontcolor=red,weight=2,penwidth=2");
            } else {
                assert(c + Seq::<char>::empty() =~= c);
            }
            s.append("];\n");
            j += 1;
            assert(l.trans[j - 1] == t@);
            assert(s@ =~= b0 + trans_line(l.trans[j - 1]));
            assert(s@ =~= head + trans_text(l.trans, j as nat));
        }
        s.append("}\n");
        assert(s@ =~= lts_dot(l, names));
        s
    }
}

/// The targets of the first `m` transitions that leave state `i`, in order.
pub open spec fn succs(trans: Seq<Edge>, i: nat, m: nat) -> Seq<StateId>
    decreases m,
{
    if m == 0 {
        Seq::empty()
    } else if trans[m - 1].before == i {
        succs(trans, i, (m - 1) as nat).push(trans[m - 1].after as StateId)
    } else {
        succs(trans, i, (m - 1) as nat)
    }
}

impl<T: Model> Lts<T> {
    /// The transition system as adjacency lists: for each state, the targets
    /// of the transitions that leave it, in order.
    pub fn get_ali(&self) -> (r: Vec<Vec<StateId>>)
        requires
            self@.wf(),
        ensures
            r@.len() == self@.states.len(),
            forall|i: int|
                0 <= i < r@.len() ==> (#[trigger] r@[i])@ == succs(
                    self@.trans,
                    i as nat,
                    self@.trans.len(),
                ),
    {
        let ghost l = self@;
        let n = self.states.len();
        let mut ret: Vec<Vec<StateId>> = Vec::new();
        let mut i: usize = 0;
        while i < n
            invariant
                i <= n,
                ret@.len() == i,
                forall|x: int| 0 <= x < i ==> (#[trigger] ret@[x])@ == Seq::<StateId>::empty(),
            decreases n - i,
        {
            ret.push(Vec::new());
            i += 1;
        }
        let mut j: usize = 0;
        while j < self.trans.len()
            invariant
                l == self@,
                l.wf(),
                n == l.states.len(),
                j <= l.trans.len(),
                ret@.len() == n,
                forall|x: int|
                    0 <= x < n ==> (#[trigger] ret@[x])@ == succs(l.trans, x as nat, j as nat),
            decreases l.trans.len() - j,
        {
            let b = self.trans[j].before;
            let a = self.trans[j].after;
            assert(l.trans[j as int].before == b && l.trans[j as int].after == a);
            ret[b].push(a);
            j += 1;
            assert forall|x: int| 0 <= x < n implies (#[trigger] ret@[x])@ == succs(
                l.trans,
                x as nat,
                j as nat,
            ) by {}
        }
        ret
    }

    /// A copy of state `id`, its `deadlock` flag set when it is a deadlock.
    pub fn state(&self, id: StateId) -> (r: State<T>)
        requires
            self@.wf(),
            id < self@.states.len(),
        ensures
            r.key() == self@.states[id as int],
            r.deadlock == self@.dead[id as int],
    {
        let mut s = self.states[id].duplicate();
        s.deadlock = self.dead[id];
        s
    }

    /// The number of states.
    pub fn state_count(&self) -> (r: usize)
        ensures
            r == self@.states.len(),
    {
        self.states.len()
    }

    /// The composite transitions, in order of exploration.
    pub fn transitions(&self) -> (r: &Vec<CompTrans>)
        ensures
            edges(r@) == self@.trans,
    {
        &self.trans
    }

    /// Whether state `id` is a deadlock.
    pub fn is_deadlock(&self, id: StateId) -> (r: bool)
        requires
            self@.wf(),
            id < self@.states.len(),
        ensures
            r == self@.dead[id as int],
    {
        self.dead[id]
    }
}

/// When no process has a transition at its initial location, composition
/// gives the initial state alone, no transition, and that state a deadlock.
pub proof fn lemma_no_move_single_deadlock<T: Model>(ps: Seq<Process<T>>, k0: Key<T>)
    requires
        forall|i: int| 0 <= i < ps.len() ==> (#[trigger] ps[i]).v@[k0.1[i].0 as int].transs@.len() == 0,
    ensures
        analyze(unmarked(composed(ps, k0))).states == seq![k0],
        analyze(unmarked(composed(ps, k0))).trans.len() == 0,
        analyze(unmarked(composed(ps, k0))).dead == seq![true],
{
    assert forall|n: nat| n <= ps.len() implies moves_upto(ps, n, k0).len() == 0 by {
        lemma_no_moves(ps, n, k0);
    }
    let c0 = explore(ps, k0, 0);
    assert(explore(ps, k0, 1) == add_moves(c0, 0, moves(ps, k0)));
    assert(explore(ps, k0, 1) == c0);
    lemma_exploration_deterministic(ps, k0, 1, 1);
    let l = analyze(unmarked(composed(ps, k0)));
    assert(!has_out(c0.trans, 0));
    assert(sinks(unmarked(c0)).contains(0));
    assert(l.dead =~= seq![true]);
}

proof fn lemma_no_moves<T: Model>(ps: Seq<Process<T>>, n: nat, k0: Key<T>)
    requires
        n <= ps.len(),
        forall|i: int| 0 <= i < ps.len() ==> (#[trigger] ps[i]).v@[k0.1[i].0 as int].transs@.len() == 0,
    ensures
        moves_upto(ps, n, k0).len() == 0,
    decreases n,
{
    if n > 0 {
        lemma_no_moves(ps, (n - 1) as nat, k0);
        assert(ps[n - 1].v@[k0.1[n - 1].0 as int].transs@.len() == 0);
    }
}

/// In a chain of `n` states, only the last is a deadlock, and every
/// transition lies on the path into it.
pub proof fn lemma_chain_analysis<T>(l: LtsView<T>)
    requires
        l.states.len() >= 1,
        l.trans.len() == l.states.len() - 1,
        forall|j: int|
            0 <= j < l.trans.len() ==> (#[trigger] l.trans[j]).before == j && l.trans[j].after == j
                + 1,
    ensures
        forall|i: int|
            0 <= i < l.states.len() ==> (#[trigger] analyze(l).dead[i] <==> i == l.states.len() - 1),
        forall|j: int| 0 <= j < l.trans.len() ==> (#[trigger] analyze(l).trans[j]).on_deadlock,
{
    let n = l.states.len();
    let g = sinks(l);
    assert forall|i: nat| has_out(l.trans, i) <==> i < n - 1 by {
        if i < n - 1 {
            assert(l.trans[i as int].before == i);
        }
    }
    assert forall|i: int| 0 <= i < n implies (#[trigger] analyze(l).dead[i] <==> i == n - 1) by {
        assert(g.contains(i as nat) <==> i == n - 1);
    }
    assert forall|j: int| 0 <= j < l.trans.len() implies (#[trigger] analyze(l).trans[j]).on_deadlock by {
        lemma_chain_reaches_end(l, (j + 1) as nat, (n - 1 - (j + 1)) as nat);
    }
}

proof fn lemma_chain_reaches_end<T>(l: LtsView<T>, x: nat, d: nat)
    requires
        l.states.len() >= 1,
        l.trans.len() == l.states.len() - 1,
        forall|j: int|
            0 <= j < l.trans.len() ==> (#[trigger] l.trans[j]).before == j && l.trans[j].after == j
                + 1,
        x + d == l.states.len() - 1,
    ensures
        reaches_within(l.trans, sinks(l), x, d),
    decreases d,
{
    let n = l.states.len();
    if d == 0 {
        assert forall|j: int| 0 <= j < l.trans.len() implies (#[trigger] l.trans[j]).before != x by {}
        assert(sinks(l).contains(x));
    } else {
        lemma_chain_reaches_end(l, x + 1, (d - 1) as nat);
        assert(l.trans[x as int].before == x);
    }
}

} // verus!
