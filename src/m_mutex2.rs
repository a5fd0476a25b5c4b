//! Two locks taken in opposite orders: P takes m0 then m1, Q takes m1 then
//! m0, so each can end up holding the lock that the other waits for.
use vstd::prelude::*;
use vstd::string::StringExecFns;
use crate::deadlock::analyze;
use crate::explore::{composed, processes_wf, valid_key, Key};
use crate::lts::{concurrent_composition, unmarked, Lts, State};
use crate::process::{guard_true, shape, units_wf, ExecUnit, Location, Model, Process, ProcessTrans};
use crate::text::{i32_text, int_text};

verus! {

/// The two locks, 1 when held.
#[derive(Debug, Clone, Copy, PartialEq, Eq, Structural, Hash)]
pub struct SharedVars {
    pub m0: i32,
    pub m1: i32,
}

impl Default for SharedVars {
    fn default() -> (r: SharedVars)
        ensures
            r == (SharedVars { m0: 0, m1: 0 }),
    {
        SharedVars { m0: 0, m1: 0 }
    }
}

/// The guards: always, or a lock is free.
#[derive(Debug, Clone, Copy, PartialEq, Eq, Structural)]
pub enum LockGuard {
    True,
    Free0,
    Free1,
}

/// The actions: take or release a lock.
#[derive(Debug, Clone, Copy, PartialEq, Eq, Structural)]
pub enum LockAction {
    Lock0,
    Lock1,
    Unlock0,
    Unlock1,
}

fn guard_lock0(c: &SharedVars) -> (r: bool)
    ensures
        r == (c.m0 == 0),
{
    c.m0 == 0
}

fn guard_lock1(c: &SharedVars) -> (r: bool)
    ensures
        r == (c.m1 == 0),
{
    c.m1 == 0
}

impl Model for SharedVars {
    type Guard = LockGuard;

    type Action = LockAction;

    open spec fn holds(g: LockGuard, v: SharedVars) -> bool {
        match g {
            LockGuard::True => true,
            LockGuard::Free0 => v.m0 == 0,
            LockGuard::Free1 => v.m1 == 0,
        }
    }

    open spec fn apply(a: LockAction, next: SharedVars, prev: SharedVars) -> SharedVars {
        match a {
            LockAction::Lock0 => SharedVars { m0: 1, ..next },
            LockAction::Lock1 => SharedVars { m1: 1, ..next },
            LockAction::Unlock0 => SharedVars { m0: 0, ..next },
            LockAction::Unlock1 => SharedVars { m1: 0, ..next },
        }
    }

    open spec fn text(v: SharedVars) -> Seq<char> {
        seq!['m', '0', '='] + int_text(v.m0 as int) + seq![' ', 'm', '1', '='] + int_text(
            v.m1 as int,
        )
    }

    fn guard(g: &LockGuard, v: &SharedVars) -> (r: bool) {
        match g {
            LockGuard::True => guard_true(*v),
            LockGuard::Free0 => guard_lock0(v),
            LockGuard::Free1 => guard_lock1(v),
        }
    }

    fn action(a: &LockAction, next: &mut SharedVars, prev: &SharedVars) {
        match a {
            LockAction::Lock0 => next.m0 = 1,
            LockAction::Lock1 => next.m1 = 1,
            LockAction::Unlock0 => next.m0 = 0,
            LockAction::Unlock1 => next.m1 = 0,
        }
    }

    fn same(&self, other: &SharedVars) -> (r: bool) {
        self.m0 == other.m0 && self.m1 == other.m1
    }

    fn show(&self) -> (r: String) {
        let mut s = "m0=".to_owned();
        s.append(i32_text(self.m0).as_str());
        s.append(" m1=");
        s.append(i32_text(self.m1).as_str());
        proof {
            reveal_strlit("m0=");
            reveal_strlit(" m1=");
        }
        assert(s@ =~= Self::text(*self));
        s
    }
}

/// P's units: lock0, lock1, unlock1, unlock0.
pub open spec fn lock_p_shape() -> Seq<Seq<(Seq<char>, usize, LockGuard, LockAction)>> {
    seq![
        seq![("lock0"@, 1usize, LockGuard::Free0, LockAction::Lock0)],
        seq![("lock1"@, 2usize, LockGuard::Free1, LockAction::Lock1)],
        seq![("unlock1"@, 3usize, LockGuard::True, LockAction::Unlock1)],
        seq![("unlock0"@, 0usize, LockGuard::True, LockAction::Unlock0)],
    ]
}

/// Q's units: lock1, lock0, unlock0, unlock1.
pub open spec fn lock_q_shape() -> Seq<Seq<(Seq<char>, usize, LockGuard, LockAction)>> {
    seq![
        seq![("lock1"@, 1usize, LockGuard::Free1, LockAction::Lock1)],
        seq![("lock0"@, 2usize, LockGuard::Free0, LockAction::Lock0)],
        seq![("unlock0"@, 3usize, LockGuard::True, LockAction::Unlock0)],
        seq![("unlock1"@, 0usize, LockGuard::True, LockAction::Unlock1)],
    ]
}

/// The two processes, P then Q, well formed, with exactly these units.
pub open spec fn lock_model(ps: Seq<Process<SharedVars>>) -> bool {
    &&& ps.len() == 2
    &&& processes_wf(ps)
    &&& ps[0].label@ == "P"@
    &&& ps[1].label@ == "Q"@
    &&& shape(ps[0]) == lock_p_shape()
    &&& shape(ps[1]) == lock_q_shape()
}

/// Both locks free, both processes at location 0.
pub open spec fn lock_start() -> Key<SharedVars> {
    (SharedVars { m0: 0, m1: 0 }, seq![Location(0), Location(0)])
}

/// Process P: lock0, lock1, unlock1, unlock0.
pub fn m_mutex2_p_def() -> (r: Process<SharedVars>)
    ensures
        r.wf(),
        r.label@ == "P"@,
        shape(r) == lock_p_shape(),
{
    let p_lock0 = ProcessTrans::new("lock0", 1, LockGuard::Free0, LockAction::Lock0);
    let p_lock1 = ProcessTrans::new("lock1", 2, LockGuard::Free1, LockAction::Lock1);
    let p_unlock1 = ProcessTrans::new("unlock1", 3, LockGuard::True, LockAction::Unlock1);
    let p_unlock0 = ProcessTrans::new("unlock0", 0, LockGuard::True, LockAction::Unlock0);

    let p0 = ExecUnit::new(0, vec![p_lock0]);
    let p1 = ExecUnit::new(1, vec![p_lock1]);
    let p2 = ExecUnit::new(2, vec![p_unlock1]);
    let p3 = ExecUnit::new(3, vec![p_unlock0]);

    let p = vec![p0, p1, p2, p3];
    assert(units_wf(p@));
    let r = Process::new("P", p);
    assert(shape(r) =~~= lock_p_shape());
    r
}

/// Process Q: lock1, lock0, unlock0, unlock1.
pub fn m_mutex2_q_def() -> (r: Process<SharedVars>)
    ensures
        r.wf(),
        r.label@ == "Q"@,
        shape(r) == lock_q_shape(),
{
    let q_lock1 = ProcessTrans::new("lock1", 1, LockGuard::Free1, LockAction::Lock1);
    let q_lock0 = ProcessTrans::new("lock0", 2, LockGuard::Free0, LockAction::Lock0);
    let q_unlock0 = ProcessTrans::new("unlock0", 3, LockGuard::True, LockAction::Unlock0);
    let q_unlock1 = ProcessTrans::new("unlock1", 0, LockGuard::True, LockAction::Unlock1);

    let q0 = ExecUnit::new(0, vec![q_lock1]);
    let q1 = ExecUnit::new(1, vec![q_lock0]);
    let q2 = ExecUnit::new(2, vec![q_unlock0]);
    let q3 = ExecUnit::new(3, vec![q_unlock1]);

    let q = vec![q0, q1, q2, q3];
    assert(units_wf(q@));
    let r = Process::new("Q", q);
    assert(shape(r) =~~= lock_q_shape());
    r
}

/// The two processes: P then Q.
pub fn m_mutex2_def() -> (r: Vec<Process<SharedVars>>)
    ensures
        lock_model(r@),
{
    let p = m_mutex2_p_def();
    let q = m_mutex2_q_def();
    vec![p, q]
}

/// Composes the two from both locks free and both processes at 0.
pub fn m_mutex2() -> (r: Lts<SharedVars>)
    ensures
        r@.wf(),
        r@.states[0] == (SharedVars { m0: 0, m1: 0 }, seq![Location(0), Location(0)]),
        exists|ps: Seq<Process<SharedVars>>|
            #[trigger] lock_model(ps) && r@ == analyze(unmarked(composed(ps, lock_start()))),
{
    let process = m_mutex2_def();
    let ghost ps = process@;
    assert(shape(ps[0]).len() == ps[0].v@.len() && shape(ps[1]).len() == ps[1].v@.len());
    let s = State::new(SharedVars::default());
    assert(valid_key(process@, s.key()));
    let lts = concurrent_composition(process, s);
    assert(s.key() == lock_start());
    assert(lock_model(ps));
    lts
}

} // verus!
