//! A lone writer: one process sets x, y and z to 1, then y back to 0, and stops.
use vstd::prelude::*;
use vstd::string::StringExecFns;
use crate::deadlock::analyze;
use crate::explore::{composed, is_chain, lemma_chain_composes_to_chain, processes_wf, valid_key, Key};
use crate::lts::{concurrent_composition, lemma_chain_analysis, unmarked, Lts, State};
use crate::process::{guard_true, shape, trans_shape, units_wf, ExecUnit, Location, Model, Process, ProcessTrans};
use crate::text::{i32_text, int_text};

verus! {

/// The writer's variables.
#[derive(Debug, Clone, Copy, PartialEq, Eq, Structural, Hash)]
pub struct SharedVars {
    pub x: i32,
    pub y: i32,
    pub z: i32,
}

impl Default for SharedVars {
    fn default() -> (r: SharedVars)
        ensures
            r == (SharedVars { x: 0, y: 0, z: 0 }),
    {
        SharedVars { x: 0, y: 0, z: 0 }
    }
}

/// The writer's only guard: always.
#[derive(Debug, Clone, Copy, PartialEq, Eq, Structural)]
pub enum WriteGuard {
    True,
}

/// The writer's actions.
#[derive(Debug, Clone, Copy, PartialEq, Eq, Structural)]
pub enum WriteAction {
    X1,
    Y1,
    Z1,
    Y0,
}

impl Model for SharedVars {
    type Guard = WriteGuard;

    type Action = WriteAction;

    open spec fn holds(g: WriteGuard, v: SharedVars) -> bool {
        true
    }

    open spec fn apply(a: WriteAction, next: SharedVars, prev: SharedVars) -> SharedVars {
        match a {
            WriteAction::X1 => SharedVars { x: 1, ..next },
            WriteAction::Y1 => SharedVars { y: 1, ..next },
            WriteAction::Z1 => SharedVars { z: 1, ..next },
            WriteAction::Y0 => SharedVars { y: 0, ..next },
        }
    }

    open spec fn text(v: SharedVars) -> Seq<char> {
        seq!['x', '='] + int_text(v.x as int) + seq![' ', 'y', '='] + int_text(v.y as int)
            + seq![' ', 'z', '='] + int_text(v.z as int)
    }

    fn guard(g: &WriteGuard, v: &SharedVars) -> (r: bool) {
        guard_true(*v)
    }

    fn action(a: &WriteAction, next: &mut SharedVars, prev: &SharedVars) {
        match a {
            WriteAction::X1 => next.x = 1,
            WriteAction::Y1 => next.y = 1,
            WriteAction::Z1 => next.z = 1,
            WriteAction::Y0 => next.y = 0,
        }
    }

    fn same(&self, other: &SharedVars) -> (r: bool) {
        self.x == other.x && self.y == other.y && self.z == other.z
    }

    fn show(&self) -> (r: String) {
        let mut s = "x=".to_owned();
        s.append(i32_text(self.x).as_str());
        s.append(" y=");
        s.append(i32_text(self.y).as_str());
        s.append(" z=");
        s.append(i32_text(self.z).as_str());
        proof {
            reveal_strlit("x=");
            reveal_strlit(" y=");
            reveal_strlit(" z=");
        }
        assert(s@ =~= Self::text(*self));
        s
    }
}

/// The writer's units: x=1, y=1, z=1, y=0, then none.
pub open spec fn writer_shape() -> Seq<Seq<(Seq<char>, usize, WriteGuard, WriteAction)>> {
    seq![
        seq![("x=1"@, 1usize, WriteGuard::True, WriteAction::X1)],
        seq![("y=1"@, 2usize, WriteGuard::True, WriteAction::Y1)],
        seq![("z=1"@, 3usize, WriteGuard::True, WriteAction::Z1)],
        seq![("y=0"@, 4usize, WriteGuard::True, WriteAction::Y0)],
        Seq::empty(),
    ]
}

/// The writer alone, well formed, with exactly these units.
pub open spec fn writer_model(ps: Seq<Process<SharedVars>>) -> bool {
    &&& ps.len() == 1
    &&& processes_wf(ps)
    &&& ps[0].label@ == "P"@
    &&& shape(ps[0]) == writer_shape()
}

/// All variables 0, the writer at location 0.
pub open spec fn writer_start() -> Key<SharedVars> {
    (SharedVars { x: 0, y: 0, z: 0 }, seq![Location(0)])
}

/// The writer: x=1, y=1, z=1, y=0, then location 4 with no transition.
pub fn m_test1_p_def() -> (r: Process<SharedVars>)
    ensures
        r.wf(),
        r.label@ == "P"@,
        shape(r) == writer_shape(),
{
    let x1 = ProcessTrans::new("x=1", 1, WriteGuard::True, WriteAction::X1);
    let y1 = ProcessTrans::new("y=1", 2, WriteGuard::True, WriteAction::Y1);
    let z1 = ProcessTrans::new("z=1", 3, WriteGuard::True, WriteAction::Z1);
    let y0 = ProcessTrans::new("y=0", 4, WriteGuard::True, WriteAction::Y0);

    let p0 = ExecUnit::new(0, vec![x1]);
    let p1 = ExecUnit::new(1, vec![y1]);
    let p2 = ExecUnit::new(2, vec![z1]);
    let p3 = ExecUnit::new(3, vec![y0]);
    let p4 = ExecUnit::new(4, Vec::new());

    let p = vec![p0, p1, p2, p3, p4];
    assert(units_wf(p@));
    let r = Process::new("P", p);
    assert(shape(r) =~~= writer_shape());
    r
}

/// Composes the writer alone, from all variables 0 at location 0.
pub fn m_test1() -> (r: Lts<SharedVars>)
    ensures
        r@.wf(),
        r@.states[0] == (SharedVars { x: 0, y: 0, z: 0 }, seq![Location(0)]),
        exists|ps: Seq<Process<SharedVars>>|
            #[trigger] writer_model(ps) && r@ == analyze(unmarked(composed(ps, writer_start()))),
        r@.states.len() == 5,
        forall|i: int| 0 <= i < 5 ==> (#[trigger] r@.states[i]).1 == seq![Location(i as usize)],
        r@.trans.len() == 4,
        forall|j: int|
            0 <= j < 4 ==> (#[trigger] r@.trans[j]).before == j && r@.trans[j].after == j + 1
                && r@.trans[j].on_deadlock,
        forall|i: int| 0 <= i < 5 ==> (#[trigger] r@.dead[i] <==> i == 4),
{
    let process = vec![m_test1_p_def()];
    let ghost ps = process@;
    assert(shape(ps[0]).len() == ps[0].v@.len());
    let s = State {
        shared_vars: SharedVars::default(),
        locations: vec![Location::new(0)],
        deadlock: false,
    };
    assert(processes_wf(process@));
    assert(valid_key(process@, s.key()));
    let lts = concurrent_composition(process, s);
    assert(s.key() == writer_start());
    assert(writer_model(ps));
    proof {
        let p = ps[0];
        assert forall|j: int| 0 <= j < p.v@.len() - 1 implies (#[trigger] p.v@[j]).transs@.len() == 1
            && p.v@[j].transs@[0].dst.0 == j + 1 && forall|v: SharedVars|
            SharedVars::holds(p.v@[j].transs@[0].guard, v) by {
            assert(shape(p)[j] == p.v@[j].transs@.map_values(
                |t: ProcessTrans<SharedVars>| trans_shape(t),
            ));
            assert(shape(p)[j][0] == trans_shape(p.v@[j].transs@[0]));
        }
        assert(shape(p)[4] == p.v@[4].transs@.map_values(
            |t: ProcessTrans<SharedVars>| trans_shape(t),
        ));
        assert(p.v@.len() == 5);
        assert(shape(p)[4].len() == 0);
        assert(p.v@[4].transs@.len() == 0);
        assert(is_chain(p));
        lemma_chain_composes_to_chain(ps, writer_start());
        let u = unmarked(composed(ps, writer_start()));
        lemma_chain_analysis(u);
    }
    lts
}

} // verus!
