use rddsv::mcas::{m_cas_def, m_cas_p_def, CasAction, CasGuard, SharedVars};
use rddsv::m_inc2::m_inc2_def;
use rddsv::process::{action_nop, guard_true, ExecUnit, Label, Location, Model, Process, ProcessTrans};

#[test]
fn new_process_trans() {
    let p0 = ProcessTrans::<SharedVars>::new("CAS", 1, CasGuard::True, CasAction::Nop);
    assert_eq!(p0.label.0, "CAS");
    assert_eq!(p0.dst.to_usize(), 1);
}

#[test]
fn default_shared_vars() {
    let sv: SharedVars = Default::default();
    assert_eq!(sv.t1, 0);
    assert_eq!(sv.t2, 0);
    assert_eq!(sv.x, 0);
}

#[test]
fn __conf_ret_false() {
    let p0 = ProcessTrans::<SharedVars>::new("CAS", 1, CasGuard::PRetry, CasAction::Nop);
    let sv: SharedVars = Default::default();
    assert_eq!(SharedVars::guard(&p0.guard, &sv), false);
}

#[test]
fn __conf_ret_true() {
    let p0 = ProcessTrans::<SharedVars>::new("CAS", 1, CasGuard::PRetry, CasAction::Nop);
    let mut sv: SharedVars = Default::default();
    sv.t1 = 1;
    assert_eq!(SharedVars::guard(&p0.guard, &sv), true);
}

#[test]
fn mcas_process_create() {
    let process = m_cas_def();
    let p = &process[0].label.0;
    let q = &process[1].label.0;
    assert_eq!("P", p);
    assert_eq!("Q", q);
}

#[test]
fn m_inc2_process_create() {
    let process = m_inc2_def();
    let p = &process[0].label.0;
    let q = &process[1].label.0;
    assert_eq!("P", p);
    assert_eq!("Q", q);
}

#[test]
fn location_and_label() {
    let l = Location::new(7);
    assert_eq!(l.to_usize(), 7);
    assert_eq!(l, Location(7));
    assert_eq!(Label::new("lock0").0, "lock0");
}

#[test]
fn always_guard_and_idle_action() {
    assert!(guard_true(SharedVars { x: 3, t1: 1, t2: 1 }));
    let mut next = SharedVars { x: 1, t1: 2, t2: 3 };
    let prev = SharedVars { x: 9, t1: 9, t2: 9 };
    action_nop(&mut next, &prev);
    assert_eq!(next, SharedVars { x: 1, t1: 2, t2: 3 });
}

#[test]
fn cas_actions_read_the_pre_state() {
    let prev = SharedVars { x: 1, t1: 0, t2: 0 };
    let mut next = prev;
    SharedVars::action(&CasAction::PCas, &mut next, &prev);
    assert_eq!(next, SharedVars { x: 1, t1: 1, t2: 0 });
    let prev = SharedVars { x: 0, t1: 5, t2: 6 };
    let mut next = prev;
    SharedVars::action(&CasAction::QCas, &mut next, &prev);
    assert_eq!(next, SharedVars { x: 1, t1: 5, t2: 0 });
    assert!(SharedVars::guard(&CasGuard::PBegin, &SharedVars { x: 1, t1: 0, t2: 1 }));
    assert!(!SharedVars::guard(&CasGuard::QBegin, &SharedVars { x: 1, t1: 0, t2: 1 }));
    assert!(SharedVars::guard(&CasGuard::QRetry, &SharedVars { x: 1, t1: 0, t2: 1 }));
}

#[test]
fn shared_vars_text() {
    assert_eq!(SharedVars { x: 1, t1: 0, t2: -12 }.show(), "x=1 t1=0 t2=-12");
}

#[test]
fn exec_unit_and_process_new() {
    let t = ProcessTrans::<SharedVars>::new("end", 0, CasGuard::True, CasAction::Nop);
    let u = ExecUnit::new(0, vec![t]);
    assert_eq!(u.src, Location(0));
    assert_eq!(u.transs.len(), 1);
    let p = Process::new("R", vec![u]);
    assert_eq!(p.label.0, "R");
    assert_eq!(p.v.len(), 1);
}

#[test]
fn process_graph_text() {
    let p = m_cas_p_def();
    let expected = "digraph {\n\
0 [label=\"P0\"];\n\
1 [label=\"P1\"];\n\
2 [label=\"P2\"];\n\
3 [label=\"P3\"];\n\
0 -> 1 [label=\"CAS\"]\n\
1 -> 0 [label=\"retry\"]\n\
1 -> 2 [label=\"begin\"]\n\
2 -> 3 [label=\"end\"]\n\
3 -> 0 [label=\"unlock\"]\n\
}\n";
    assert_eq!(p.dot(), expected);
}

#[test]
fn process_graph_text_twice_identical() {
    let p = m_cas_p_def();
    assert_eq!(p.dot(), p.dot());
}
