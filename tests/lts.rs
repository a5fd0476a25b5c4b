use rddsv::lts::{concurrent_composition, CompTrans, Lts, State, Trans};
use rddsv::mcas::{self, CasAction, CasGuard};
use rddsv::m_inc2;
use rddsv::m_mutex2;
use rddsv::m_test1;
use rddsv::process::{ExecUnit, Label, Location, Process, ProcessTrans};

fn labels(lts: &Lts<impl rddsv::process::Model>) -> Vec<(String, usize, usize, bool)> {
    lts.transitions()
        .iter()
        .map(|t| (t.label.clone(), t.before, t.after, t.on_deadlock))
        .collect()
}

#[test]
fn cas_spinlock_has_no_deadlock() {
    let lts = mcas::run();
    assert_eq!(lts.state_count(), 15);
    assert_eq!(lts.transitions().len(), 30);
    for id in 0..lts.state_count() {
        assert!(!lts.is_deadlock(id));
    }
    assert!(lts.transitions().iter().all(|t| !t.on_deadlock));
    let (found, ids) = lts.detect_deadlock();
    assert!(!found);
    assert!(ids.is_empty());
    let t = labels(&lts);
    assert_eq!(t[0], ("P.CAS".to_string(), 0, 1, false));
    assert_eq!(t[1], ("Q.CAS".to_string(), 0, 2, false));
    assert_eq!(t[2], ("P.begin".to_string(), 1, 3, false));
}

#[test]
fn cas_spinlock_keeps_mutual_exclusion() {
    let lts = mcas::run();
    for id in 0..lts.state_count() {
        let s = lts.state(id);
        assert!(!(s.locations[0] == Location(2) && s.locations[1] == Location(2)));
    }
}

#[test]
fn increment_race_reaches_one_and_two() {
    let lts = m_inc2::m_inc();
    assert_eq!(lts.state_count(), 22);
    assert_eq!(lts.transitions().len(), 28);
    let mut finals = Vec::new();
    for id in 0..lts.state_count() {
        let s = lts.state(id);
        if s.locations[0] == Location(3) && s.locations[1] == Location(3) {
            finals.push(s.shared_vars.x);
            assert!(s.deadlock);
        }
    }
    finals.sort();
    assert_eq!(finals, vec![1, 2, 2]);
}

#[test]
fn two_lock_inversion_deadlocks() {
    let lts = m_mutex2::m_mutex2();
    assert_eq!(lts.state_count(), 10);
    assert_eq!(lts.transitions().len(), 14);
    let (found, ids) = lts.detect_deadlock();
    assert!(found);
    assert_eq!(ids, vec![4]);
    let s = lts.state(4);
    assert!(s.deadlock);
    assert_eq!(s.shared_vars, m_mutex2::SharedVars { m0: 1, m1: 1 });
    assert_eq!(s.locations, vec![Location(1), Location(1)]);
    let t = labels(&lts);
    assert_eq!(t[0], ("P.lock0".to_string(), 0, 1, true));
    assert_eq!(t[1], ("Q.lock1".to_string(), 0, 2, true));
    assert!(t.iter().all(|x| x.3));
}

#[test]
fn lone_writer_is_a_chain() {
    let lts = m_test1::m_test1();
    assert_eq!(lts.state_count(), 5);
    let t = labels(&lts);
    assert_eq!(
        t,
        vec![
            ("P.x=1".to_string(), 0, 1, true),
            ("P.y=1".to_string(), 1, 2, true),
            ("P.z=1".to_string(), 2, 3, true),
            ("P.y=0".to_string(), 3, 4, true),
        ]
    );
    for id in 0..4 {
        assert!(!lts.is_deadlock(id));
    }
    assert!(lts.is_deadlock(4));
    assert_eq!(lts.state(4).shared_vars, m_test1::SharedVars { x: 1, y: 0, z: 1 });
    assert_eq!(lts.get_ali(), vec![vec![1], vec![2], vec![3], vec![4], vec![]]);
}

#[test]
fn lone_writer_graph_text() {
    let lts = m_test1::m_test1();
    let red = ", color=red,fontcolor=red,weight=2,penwidth=2";
    let expected = format!(
        "digraph {{\n\
0 [label=\"0\\nP0 \\nx=0 y=0 z=0\", color=cyan, style=filled];\n\
1 [label=\"1\\nP1 \\nx=1 y=0 z=0\"];\n\
2 [label=\"2\\nP2 \\nx=1 y=1 z=0\"];\n\
3 [label=\"3\\nP3 \\nx=1 y=1 z=1\"];\n\
4 [label=\"4\\nP4 \\nx=1 y=0 z=1\", color=pink, style=filled];\n\
0 -> 1 [label=\"P.x=1\"{red}];\n\
1 -> 2 [label=\"P.y=1\"{red}];\n\
2 -> 3 [label=\"P.z=1\"{red}];\n\
3 -> 4 [label=\"P.y=0\"{red}];\n\
}}\n"
    );
    assert_eq!(lts.dot(), expected);
}

fn single(units: Vec<ExecUnit<mcas::SharedVars>>) -> Lts<mcas::SharedVars> {
    let p = Process::new("P", units);
    let s0 = State {
        shared_vars: mcas::SharedVars { x: 0, t1: 0, t2: 0 },
        locations: vec![Location::new(0)],
        deadlock: false,
    };
    concurrent_composition(vec![p], s0)
}

#[test]
fn empty_model_is_one_deadlock() {
    let lts = single(vec![ExecUnit::new(0, vec![])]);
    assert_eq!(lts.state_count(), 1);
    assert!(lts.transitions().is_empty());
    assert!(lts.is_deadlock(0));
    let (found, ids) = lts.detect_deadlock();
    assert!(found);
    assert_eq!(ids, vec![0]);
    assert!(lts.dot().contains("0 [label=\"0\\nP0 \\nx=0 t1=0 t2=0\", color=cyan, style=filled];"));
}

#[test]
fn self_loop_adds_no_state() {
    let t = ProcessTrans::new("spin", 0, CasGuard::True, CasAction::Nop);
    let lts = single(vec![ExecUnit::new(0, vec![t])]);
    assert_eq!(lts.state_count(), 1);
    assert_eq!(labels(&lts), vec![("P.spin".to_string(), 0, 0, false)]);
    assert!(!lts.is_deadlock(0));
}

#[test]
fn failing_guard_blocks_its_process() {
    let t = ProcessTrans::new("retry", 0, CasGuard::PRetry, CasAction::PRetry);
    let lts = single(vec![ExecUnit::new(0, vec![t])]);
    assert_eq!(lts.state_count(), 1);
    assert!(lts.transitions().is_empty());
    assert!(lts.is_deadlock(0));
}

#[test]
fn initial_state_comes_first() {
    let lts = mcas::run();
    let s = lts.state(0);
    assert_eq!(s.shared_vars, mcas::SharedVars { x: 0, t1: 0, t2: 0 });
    assert_eq!(s.locations, vec![Location(0), Location(0)]);
}

#[test]
fn states_are_distinct() {
    let lts = m_inc2::m_inc();
    let n = lts.state_count();
    for a in 0..n {
        for b in 0..n {
            if a != b {
                assert!(!lts.state(a).same_state(&lts.state(b)));
            }
        }
    }
}

#[test]
fn transitions_join_known_states() {
    let lts = mcas::run();
    for t in lts.transitions() {
        assert!(t.before < lts.state_count());
        assert!(t.after < lts.state_count());
    }
}

#[test]
fn composition_is_deterministic() {
    let a = mcas::run();
    let b = mcas::run();
    assert_eq!(labels(&a), labels(&b));
    assert_eq!(a.dot(), b.dot());
}

#[test]
fn analysis_twice_keeps_marks() {
    let mut lts = m_mutex2::m_mutex2();
    let before = (labels(&lts), lts.dot());
    lts.analyze_deadlocks();
    assert_eq!((labels(&lts), lts.dot()), before);
    let mut chain = m_test1::m_test1();
    let before = labels(&chain);
    chain.analyze_deadlocks();
    chain.analyze_deadlocks();
    assert_eq!(labels(&chain), before);
}

#[test]
fn marking_by_hand() {
    let mut lts = m_test1::m_test1();
    lts.mark_path(vec![2]);
    let t = labels(&lts);
    assert_eq!(t.iter().map(|x| x.3).collect::<Vec<_>>(), vec![true, true, true, true]);
    lts.mark_state(vec![2, 9]);
    assert!(lts.is_deadlock(2));
    assert!(!lts.is_deadlock(4));
    let spin = ProcessTrans::new("spin", 0, CasGuard::True, CasAction::Nop);
    let mut lts = single(vec![ExecUnit::new(0, vec![spin])]);
    lts.mark_path(vec![]);
    assert!(!labels(&lts)[0].3);
    lts.mark_path(vec![0]);
    assert!(labels(&lts)[0].3);
    lts.mark_path(vec![]);
    assert!(labels(&lts)[0].3);
}

#[test]
fn graph_text_twice_identical() {
    let lts = m_mutex2::m_mutex2();
    assert_eq!(lts.dot(), lts.dot());
}

#[test]
fn state_and_transition_constructors() {
    let s = State::new(mcas::SharedVars { x: 1, t1: 0, t2: 0 });
    assert_eq!(s.locations, vec![Location(0), Location(0)]);
    assert!(!s.deadlock);
    let c = CompTrans::new("P.CAS".to_string(), 0, 1);
    assert_eq!((c.label.as_str(), c.before, c.after, c.on_deadlock), ("P.CAS", 0, 1, false));
    let q = Trans::new(&s, Some((Label::new("P"), Location::new(1))));
    assert!(q.state.same_state(&s));
    assert_eq!(q.dst, vec![Some((Label::new("P"), Location(1)))]);
    let empty: Lts<mcas::SharedVars> = Lts::new();
    assert_eq!(empty.state_count(), 0);
    assert_eq!(empty.dot(), "digraph {\n}\n");
}

fn check_marks<T: rddsv::process::Model>(lts: &Lts<T>) {
    let n = lts.state_count();
    let t = labels(lts);
    for id in 0..n {
        let has_out = t.iter().any(|x| x.1 == id);
        assert_eq!(lts.is_deadlock(id), !has_out);
    }
    let mut reach: Vec<bool> = (0..n).map(|id| lts.is_deadlock(id)).collect();
    loop {
        let mut changed = false;
        for x in &t {
            if reach[x.2] && !reach[x.1] {
                reach[x.1] = true;
                changed = true;
            }
        }
        if !changed {
            break;
        }
    }
    for x in &t {
        assert_eq!(x.3, reach[x.2]);
    }
}

#[test]
fn deadlock_marks_follow_outgoing_and_paths() {
    check_marks(&m_inc2::m_inc());
    check_marks(&m_mutex2::m_mutex2());
    check_marks(&mcas::run());
    check_marks(&m_test1::m_test1());
}

#[test]
fn increment_race_marks_every_path_into_its_final_states() {
    let lts = m_inc2::m_inc();
    let (found, ids) = lts.detect_deadlock();
    assert!(found);
    assert_eq!(ids, vec![19, 20, 21]);
    assert!(labels(&lts).iter().all(|x| x.3));
}
