//! A racy increment: P and Q each read `x` into a local, increment the local
//! and write it back, in three separate steps.
use vstd::prelude::*;
use vstd::string::StringExecFns;
use crate::deadlock::analyze;
use crate::explore::{composed, processes_wf, valid_key, Key};
use crate::lts::{concurrent_composition, unmarked, Lts, State};
use crate::process::{guard_true, shape, units_wf, ExecUnit, Location, Model, Process, ProcessTrans};
use crate::text::{i32_text, int_text};

verus! {

/// The race's variables: `x` is shared, `t1` is P's local, `t2` is Q's.
#[derive(Debug, Clone, Copy, PartialEq, Eq, Structural, Hash)]
pub struct SharedVars {
    pub x: i32,
    pub t1: i32,
    pub t2: i32,
}

impl Default for SharedVars {
    fn default() -> (r: SharedVars)
        ensures
            r == (SharedVars { x: 0, t1: 0, t2: 0 }),
    {
        SharedVars { x: 0, t1: 0, t2: 0 }
    }
}

/// The race's guards: every step is always enabled.
#[derive(Debug, Clone, Copy, PartialEq, Eq, Structural)]
pub enum IncGuard {
    True,
}

/// The race's actions.
#[derive(Debug, Clone, Copy, PartialEq, Eq, Structural)]
pub enum IncAction {
    PRead,
    PInc,
    PWrite,
    QRead,
    QInc,
    QWrite,
}

/// `n + 1`, wrapping at the top of `i32`.
pub open spec fn wrap_inc(n: i32) -> i32 {
    if n < i32::MAX {
        (n + 1) as i32
    } else {
        i32::MIN
    }
}

fn succ(n: i32) -> (r: i32)
    ensures
        r == wrap_inc(n),
{
    if n < i32::MAX {
        n + 1
    } else {
        i32::MIN
    }
}

fn action_p_read(a: &mut SharedVars, b: &SharedVars)
    ensures
        *final(a) == (SharedVars { t1: b.x, ..*old(a) }),
{
    a.t1 = b.x;
}

fn action_p_inc(a: &mut SharedVars, b: &SharedVars)
    ensures
        *final(a) == (SharedVars { t1: wrap_inc(b.t1), ..*old(a) }),
{
    a.t1 = succ(b.t1);
}

fn action_p_write(a: &mut SharedVars, b: &SharedVars)
    ensures
        *final(a) == (SharedVars { x: b.t1, ..*old(a) }),
{
    a.x = b.t1;
}

fn action_q_read(a: &mut SharedVars, b: &SharedVars)
    ensures
        *final(a) == (SharedVars { t2: b.x, ..*old(a) }),
{
    a.t2 = b.x;
}

fn action_q_inc(a: &mut SharedVars, b: &SharedVars)
    ensures
        *final(a) == (SharedVars { t2: wrap_inc(b.t2), ..*old(a) }),
{
    a.t2 = succ(b.t2);
}

fn action_q_write(a: &mut SharedVars, b: &SharedVars)
    ensures
        *final(a) == (SharedVars { x: b.t2, ..*old(a) }),
{
    a.x = b.t2;
}

impl Model for SharedVars {
    type Guard = IncGuard;

    type Action = IncAction;

    open spec fn holds(g: IncGuard, v: SharedVars) -> bool {
        true
    }

    open spec fn apply(a: IncAction, next: SharedVars, prev: SharedVars) -> SharedVars {
        match a {
            IncAction::PRead => SharedVars { t1: prev.x, ..next },
            IncAction::PInc => SharedVars { t1: wrap_inc(prev.t1), ..next },
            IncAction::PWrite => SharedVars { x: prev.t1, ..next },
            IncAction::QRead => SharedVars { t2: prev.x, ..next },
            IncAction::QInc => SharedVars { t2: wrap_inc(prev.t2), ..next },
            IncAction::QWrite => SharedVars { x: prev.t2, ..next },
        }
    }

    open spec fn text(v: SharedVars) -> Seq<char> {
        seq!['x', '='] + int_text(v.x as int) + seq![' ', 't', '1', '='] + int_text(v.t1 as int)
            + seq![' ', 't', '2', '='] + int_text(v.t2 as int)
    }

    fn guard(g: &IncGuard, v: &SharedVars) -> (r: bool) {
        guard_true(*v)
    }

    fn action(a: &IncAction, next: &mut SharedVars, prev: &SharedVars) {
        match a {
            IncAction::PRead => action_p_read(next, prev),
            IncAction::PInc => action_p_inc(next, prev),
            IncAction::PWrite => action_p_write(next, prev),
            IncAction::QRead => action_q_read(next, prev),
            IncAction::QInc => action_q_inc(next, prev),
            IncAction::QWrite => action_q_write(next, prev),
        }
    }

    fn same(&self, other: &SharedVars) -> (r: bool) {
        self.x == other.x && self.t1 == other.t1 && self.t2 == other.t2
    }

    fn show(&self) -> (r: String) {
        let mut s = "x=".to_owned();
        s.append(i32_text(self.x).as_str());
        s.append(" t1=");
        s.append(i32_text(self.t1).as_str());
        s.append(" t2=");
        s.append(i32_text(self.t2).as_str());
        proof {
            reveal_strlit("x=");
            reveal_strlit(" t1=");
            reveal_strlit(" t2=");
        }
        assert(s@ =~= Self::text(*self));
        s
    }
}

/// P's units: read, inc, write, then none.
pub open spec fn inc_p_shape() -> Seq<Seq<(Seq<char>, usize, IncGuard, IncAction)>> {
    seq![
        seq![("read"@, 1usize, IncGuard::True, IncAction::PRead)],
        seq![("inc"@, 2usize, IncGuard::True, IncAction::PInc)],
        seq![("write"@, 3usize, IncGuard::True, IncAction::PWrite)],
        Seq::empty(),
    ]
}

/// Q's units: as P's, on `t2`.
pub open spec fn inc_q_shape() -> Seq<Seq<(Seq<char>, usize, IncGuard, IncAction)>> {
    seq![
        seq![("read"@, 1usize, IncGuard::True, IncAction::QRead)],
        seq![("inc"@, 2usize, IncGuard::True, IncAction::QInc)],
        seq![("write"@, 3usize, IncGuard::True, IncAction::QWrite)],
        Seq::empty(),
    ]
}

/// The race: P then Q, well formed, with exactly these units.
pub open spec fn inc_model(ps: Seq<Process<SharedVars>>) -> bool {
    &&& ps.len() == 2
    &&& processes_wf(ps)
    &&& ps[0].label@ == seq!['P']
    &&& ps[1].label@ == seq!['Q']
    &&& shape(ps[0]) == inc_p_shape()
    &&& shape(ps[1]) == inc_q_shape()
}

/// All variables 0, both processes at location 0.
pub open spec fn inc_start() -> Key<SharedVars> {
    (SharedVars { x: 0, t1: 0, t2: 0 }, seq![Location(0), Location(0)])
}

/// Process P: read (0 to 1), inc (1 to 2), write (2 to 3); 3 is final.
pub fn m_inc2_p_def() -> (r: Process<SharedVars>)
    ensures
        r.wf(),
        r.label@ == seq!['P'],
        shape(r) == inc_p_shape(),
{
    let p_read = ProcessTrans::new("read", 1, IncGuard::True, IncAction::PRead);
    let p_inc = ProcessTrans::new("inc", 2, IncGuard::True, IncAction::PInc);
    let p_write = ProcessTrans::new("write", 3, IncGuard::True, IncAction::PWrite);

    let p0 = ExecUnit::new(0, vec![p_read]);
    let p1 = ExecUnit::new(1, vec![p_inc]);
    let p2 = ExecUnit::new(2, vec![p_write]);
    let p3 = ExecUnit::new(3, Vec::new());

    let p = vec![p0, p1, p2, p3];
    assert(units_wf(p@));
    proof {
        reveal_strlit("P");
    }
    let r = Process::new("P", p);
    assert(shape(r) =~~= inc_p_shape());
    r
}

/// Process Q: as P, on `t2`.
pub fn m_inc2_q_def() -> (r: Process<SharedVars>)
    ensures
        r.wf(),
        r.label@ == seq!['Q'],
        shape(r) == inc_q_shape(),
{
    let q_read = ProcessTrans::new("read", 1, IncGuard::True, IncAction::QRead);
    let q_inc = ProcessTrans::new("inc", 2, IncGuard::True, IncAction::QInc);
    let q_write = ProcessTrans::new("write", 3, IncGuard::True, IncAction::QWrite);

    let q0 = ExecUnit::new(0, vec![q_read]);
    let q1 = ExecUnit::new(1, vec![q_inc]);
    let q2 = ExecUnit::new(2, vec![q_write]);
    let q3 = ExecUnit::new(3, Vec::new());

    let q = vec![q0, q1, q2, q3];
    assert(units_wf(q@));
    proof {
        reveal_strlit("Q");
    }
    let r = Process::new("Q", q);
    assert(shape(r) =~~= inc_q_shape());
    r
}

/// The race: P then Q.
pub fn m_inc2_def() -> (r: Vec<Process<SharedVars>>)
    ensures
        inc_model(r@),
{
    let p = m_inc2_p_def();
    let q = m_inc2_q_def();
    vec![p, q]
}

/// Composes the race from all variables 0 and both processes at 0.
pub fn m_inc() -> (r: Lts<SharedVars>)
    ensures
        r@.wf(),
        r@.states[0] == (SharedVars { x: 0, t1: 0, t2: 0 }, seq![Location(0), Location(0)]),
        r.names() == seq![seq!['P'], seq!['Q']],
        exists|ps: Seq<Process<SharedVars>>|
            #[trigger] inc_model(ps) && r@ == analyze(unmarked(composed(ps, inc_start()))),
{
    let process = m_inc2_def();
    let ghost ps = process@;
    assert(shape(ps[0]).len() == ps[0].v@.len() && shape(ps[1]).len() == ps[1].v@.len());
    let r = SharedVars::default();
    let s = State::new(r);
    assert(valid_key(process@, s.key()));
    let lts = concurrent_composition(process, s);
    assert(lts.names() =~= seq![seq!['P'], seq!['Q']]);
    assert(s.key() == inc_start());
    assert(inc_model(ps));
    lts
}

} // verus!
