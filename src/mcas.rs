//! A compare-and-swap spinlock: P and Q each swap 1 into `x`, keeping the old
//! value, retry while it was 1, and otherwise enter, leave and unlock.
use vstd::prelude::*;
use vstd::string::StringExecFns;
use crate::deadlock::analyze;
use crate::explore::{composed, processes_wf, valid_key, Key};
use crate::lts::{concurrent_composition, unmarked, Lts, State};
use crate::process::{
    action_nop, guard_true, shape, units_wf, ExecUnit, Location, Model, Process, ProcessTrans,
};
use crate::text::{i32_text, int_text};

verus! {

/// The spinlock's variables: `x` is the lock, `t1` is P's local, `t2` is Q's.
#[derive(Debug, Clone, Copy, PartialEq, Eq, Structural, Hash)]
pub struct SharedVars {
    pub x: i32,
    pub t1: i32,
    pub t2: i32,
}

impl Default for SharedVars {
    fn default() -> (r: SharedVars)
        ensures
            r == (SharedVars { x: 0, t1: 0, t2: 0 }),
    {
        SharedVars { x: 0, t1: 0, t2: 0 }
    }
}

/// The spinlock's guards.
#[derive(Debug, Clone, Copy, PartialEq, Eq, Structural)]
pub enum CasGuard {
    True,
    PRetry,
    PBegin,
    QRetry,
    QBegin,
}

/// The spinlock's actions.
#[derive(Debug, Clone, Copy, PartialEq, Eq, Structural)]
pub enum CasAction {
    Nop,
    PCas,
    PRetry,
    PUnlock,
    QCas,
    QRetry,
    QUnlock,
}

fn action_p_cas(p: &mut SharedVars, q: &SharedVars)
    ensures
        *final(p) == (SharedVars { x: 1, t1: q.x, t2: old(p).t2 }),
{
    p.x = 1;
    p.t1 = q.x;
}

fn guard_p_retry(p: &SharedVars) -> (r: bool)
    ensures
        r == (p.t1 == 1),
{
    p.t1 == 1
}

fn action_p_retry(p: &mut SharedVars, _q: &SharedVars)
    ensures
        *final(p) == (SharedVars { t1: 0, ..*old(p) }),
{
    p.t1 = 0;
}

fn guard_p_begin(p: &SharedVars) -> (r: bool)
    ensures
        r == (p.t1 == 0),
{
    p.t1 == 0
}

fn action_p_unlock(p: &mut SharedVars, _q: &SharedVars)
    ensures
        *final(p) == (SharedVars { x: 0, ..*old(p) }),
{
    p.x = 0;
}

fn action_q_cas(q: &mut SharedVars, p: &SharedVars)
    ensures
        *final(q) == (SharedVars { x: 1, t1: old(q).t1, t2: p.x }),
{
    q.x = 1;
    q.t2 = p.x;
}

fn guard_q_retry(q: &SharedVars) -> (r: bool)
    ensures
        r == (q.t2 == 1),
{
    q.t2 == 1
}

fn action_q_retry(q: &mut SharedVars, _p: &SharedVars)
    ensures
        *final(q) == (SharedVars { t2: 0, ..*old(q) }),
{
    q.t2 = 0;
}

fn guard_q_begin(q: &SharedVars) -> (r: bool)
    ensures
        r == (q.t2 == 0),
{
    q.t2 == 0
}

fn action_q_unlock(q: &mut SharedVars, _p: &SharedVars)
    ensures
        *final(q) == (SharedVars { x: 0, ..*old(q) }),
{
    q.x = 0;
}

impl Model for SharedVars {
    type Guard = CasGuard;

    type Action = CasAction;

    open spec fn holds(g: CasGuard, v: SharedVars) -> bool {
        match g {
            CasGuard::True => true,
            CasGuard::PRetry => v.t1 == 1,
            CasGuard::PBegin => v.t1 == 0,
            CasGuard::QRetry => v.t2 == 1,
            CasGuard::QBegin => v.t2 == 0,
        }
    }

    open spec fn apply(a: CasAction, next: SharedVars, prev: SharedVars) -> SharedVars {
        match a {
            CasAction::Nop => next,
            CasAction::PCas => SharedVars { x: 1, t1: prev.x, ..next },
            CasAction::PRetry => SharedVars { t1: 0, ..next },
            CasAction::PUnlock => SharedVars { x: 0, ..next },
            CasAction::QCas => SharedVars { x: 1, t2: prev.x, ..next },
            CasAction::QRetry => SharedVars { t2: 0, ..next },
            CasAction::QUnlock => SharedVars { x: 0, ..next },
        }
    }

    open spec fn text(v: SharedVars) -> Seq<char> {
        seq!['x', '='] + int_text(v.x as int) + seq![' ', 't', '1', '='] + int_text(v.t1 as int)
            + seq![' ', 't', '2', '='] + int_text(v.t2 as int)
    }

    fn guard(g: &CasGuard, v: &SharedVars) -> (r: bool) {
        match g {
            CasGuard::True => guard_true(*v),
            CasGuard::PRetry => guard_p_retry(v),
            CasGuard::PBegin => guard_p_begin(v),
            CasGuard::QRetry => guard_q_retry(v),
            CasGuard::QBegin => guard_q_begin(v),
        }
    }

    fn action(a: &CasAction, next: &mut SharedVars, prev: &SharedVars) {
        match a {
            CasAction::Nop => action_nop(next, prev),
            CasAction::PCas => action_p_cas(next, prev),
            CasAction::PRetry => action_p_retry(next, prev),
            CasAction::PUnlock => action_p_unlock(next, prev),
            CasAction::QCas => action_q_cas(next, prev),
            CasAction::QRetry => action_q_retry(next, prev),
            CasAction::QUnlock => action_q_unlock(next, prev),
        }
    }

    fn same(&self, other: &SharedVars) -> (r: bool) {
        self.x == other.x && self.t1 == other.t1 && self.t2 == other.t2
    }

    fn show(&self) -> (r: String) {
        let mut s = "x=".to_owned();
        s.append(i32_text(self.x).as_str());
        s.append(" t1=");
        s.append(i32_text(self.t1).as_str());
        s.append(" t2=");
        s.append(i32_text(self.t2).as_str());
        proof {
            reveal_strlit("x=");
            reveal_strlit(" t1=");
            reveal_strlit(" t2=");
        }
        assert(s@ =~= Self::text(*self));
        s
    }
}

/// P's units: CAS; retry or begin; end; unlock.
pub open spec fn cas_p_shape() -> Seq<Seq<(Seq<char>, usize, CasGuard, CasAction)>> {
    seq![
        seq![("CAS"@, 1usize, CasGuard::True, CasAction::PCas)],
        seq![
            ("retry"@, 0usize, CasGuard::PRetry, CasAction::PRetry),
            ("begin"@, 2usize, CasGuard::PBegin, CasAction::Nop),
        ],
        seq![("end"@, 3usize, CasGuard::True, CasAction::Nop)],
        seq![("unlock"@, 0usize, CasGuard::True, CasAction::PUnlock)],
    ]
}

/// Q's units: as P's, on `t2`.
pub open spec fn cas_q_shape() -> Seq<Seq<(Seq<char>, usize, CasGuard, CasAction)>> {
    seq![
        seq![("CAS"@, 1usize, CasGuard::True, CasAction::QCas)],
        seq![
            ("retry"@, 0usize, CasGuard::QRetry, CasAction::QRetry),
            ("begin"@, 2usize, CasGuard::QBegin, CasAction::Nop),
        ],
        seq![("end"@, 3usize, CasGuard::True, CasAction::Nop)],
        seq![("unlock"@, 0usize, CasGuard::True, CasAction::QUnlock)],
    ]
}

/// The spinlock: P then Q, well formed, with exactly these units.
pub open spec fn cas_model(ps: Seq<Process<SharedVars>>) -> bool {
    &&& ps.len() == 2
    &&& processes_wf(ps)
    &&& ps[0].label@ == seq!['P']
    &&& ps[1].label@ == seq!['Q']
    &&& shape(ps[0]) == cas_p_shape()
    &&& shape(ps[1]) == cas_q_shape()
}

/// Process P: CAS (0 to 1), retry (1 to 0) or begin (1 to 2), end (2 to 3),
/// unlock (3 to 0).
pub fn m_cas_p_def() -> (r: Process<SharedVars>)
    ensures
        r.wf(),
        r.label@ == seq!['P'],
        shape(r) == cas_p_shape(),
{
    let p_cas = ProcessTrans::new("CAS", 1, CasGuard::True, CasAction::PCas);
    let p_retry = ProcessTrans::new("retry", 0, CasGuard::PRetry, CasAction::PRetry);
    let p_begin = ProcessTrans::new("begin", 2, CasGuard::PBegin, CasAction::Nop);
    let p_end = ProcessTrans::new("end", 3, CasGuard::True, CasAction::Nop);
    let p_unlock = ProcessTrans::new("unlock", 0, CasGuard::True, CasAction::PUnlock);

    let p0 = ExecUnit::new(0, vec![p_cas]);
    let p1 = ExecUnit::new(1, vec![p_retry, p_begin]);
    let p2 = ExecUnit::new(2, vec![p_end]);
    let p3 = ExecUnit::new(3, vec![p_unlock]);

    let p = vec![p0, p1, p2, p3];
    assert(units_wf(p@));
    proof {
        reveal_strlit("P");
    }
    let r = Process::new("P", p);
    assert(shape(r) =~~= cas_p_shape());
    r
}

/// Process Q: as P, on `t2`.
pub fn m_cas_q_def() -> (r: Process<SharedVars>)
    ensures
        r.wf(),
        r.label@ == seq!['Q'],
        shape(r) == cas_q_shape(),
{
    let q_cas = ProcessTrans::new("CAS", 1, CasGuard::True, CasAction::QCas);
    let q_retry = ProcessTrans::new("retry", 0, CasGuard::QRetry, CasAction::QRetry);
    let q_begin = ProcessTrans::new("begin", 2, CasGuard::QBegin, CasAction::Nop);
    let q_end = ProcessTrans::new("end", 3, CasGuard::True, CasAction::Nop);
    let q_unlock = ProcessTrans::new("unlock", 0, CasGuard::True, CasAction::QUnlock);

    let q0 = ExecUnit::new(0, vec![q_cas]);
    let q1 = ExecUnit::new(1, vec![q_retry, q_begin]);
    let q2 = ExecUnit::new(2, vec![q_end]);
    let q3 = ExecUnit::new(3, vec![q_unlock]);

    let q = vec![q0, q1, q2, q3];
    assert(units_wf(q@));
    proof {
        reveal_strlit("Q");
    }
    let r = Process::new("Q", q);
    assert(shape(r) =~~= cas_q_shape());
    r
}

/// The spinlock: P then Q.
pub fn m_cas_def() -> (r: Vec<Process<SharedVars>>)
    ensures
        cas_model(r@),
{
    let p = m_cas_p_def();
    let q = m_cas_q_def();
    vec![p, q]
}

/// All variables 0, both processes at location 0.
pub open spec fn cas_start() -> Key<SharedVars> {
    (SharedVars { x: 0, t1: 0, t2: 0 }, seq![Location(0), Location(0)])
}

/// Composes the spinlock from all variables 0 and both processes at 0.
pub fn run() -> (r: Lts<SharedVars>)
    ensures
        r@.wf(),
        r@.states[0] == (SharedVars { x: 0, t1: 0, t2: 0 }, seq![Location(0), Location(0)]),
        r.names() == seq![seq!['P'], seq!['Q']],
        exists|ps: Seq<Process<SharedVars>>|
            #[trigger] cas_model(ps) && r@ == analyze(unmarked(composed(ps, cas_start()))),
{
    let process = m_cas_def();
    let ghost ps = process@;
    assert(shape(ps[0]).len() == ps[0].v@.len() && shape(ps[1]).len() == ps[1].v@.len());
    let r = SharedVars::default();
    let s = State::new(r);
    assert(valid_key(process@, s.key()));
    let lts = concurrent_composition(process, s);
    assert(lts.names() =~= seq![seq!['P'], seq!['Q']]);
    assert(s.key() == cas_start());
    assert(cas_model(ps));
    lts
}

} // verus!
