//! GraphViz text of a process's control graph and of a transition system.
use vstd::prelude::*;
use vstd::string::StringExecFns;
use crate::explore::{Edge, Key};
use crate::lts::LtsView;
use crate::process::{ExecUnit, Location, Model, Process, ProcessTrans};
use crate::text::{dec, usize_text};

verus! {

/// `i [label="{label}{src}"];`
pub open spec fn node_line(i: nat, label: Seq<char>, src: nat) -> Seq<char> {
    dec(i) + " [label=\""@ + label + dec(src) + "\"];\n"@
}

/// `i -> dst [label="{label}"]`
pub open spec fn arc_line(i: nat, dst: nat, label: Seq<char>) -> Seq<char> {
    dec(i) + " -> "@ + dec(dst) + " [label=\""@ + label + "\"]\n"@
}

/// The node lines of the first `n` units.
pub open spec fn nodes_text<T: Model>(label: Seq<char>, units: Seq<ExecUnit<T>>, n: nat) -> Seq<char>
    decreases n,
{
    if n == 0 {
        Seq::empty()
    } else {
        nodes_text(label, units, (n - 1) as nat) + node_line(
            (n - 1) as nat,
            label,
            units[n - 1].src.0 as nat,
        )
    }
}

/// The arc lines of the first `n` transitions of unit `i`.
pub open spec fn arcs_text<T: Model>(i: nat, ts: Seq<ProcessTrans<T>>, n: nat) -> Seq<char>
    decreases n,
{
    if n == 0 {
        Seq::empty()
    } else {
        arcs_text(i, ts, (n - 1) as nat) + arc_line(i, ts[n - 1].dst.0 as nat, ts[n - 1].label@)
    }
}

/// The arc lines of the first `n` units.
pub open spec fn units_arcs_text<T: Model>(units: Seq<ExecUnit<T>>, n: nat) -> Seq<char>
    decreases n,
{
    if n == 0 {
        Seq::empty()
    } else {
        units_arcs_text(units, (n - 1) as nat) + arcs_text(
            (n - 1) as nat,
            units[n - 1].transs@,
            units[n - 1].transs@.len(),
        )
    }
}

/// A process's graph: one node per unit, then one arc per transition.
pub open spec fn process_dot<T: Model>(p: Process<T>) -> Seq<char> {
    "digraph {\n"@ + nodes_text(p.label@, p.v@, p.v@.len()) + units_arcs_text(p.v@, p.v@.len())
        + "}\n"@
}

/// `{name}{location} ` for the first `n` processes.
pub open spec fn locs_text(names: Seq<Seq<char>>, locs: Seq<Location>, n: nat) -> Seq<char>
    decreases n,
{
    if n == 0 {
        Seq::empty()
    } else {
        locs_text(names, locs, (n - 1) as nat) + (if n - 1 < names.len() {
            names[n - 1]
        } else {
            Seq::empty()
        }) + dec(locs[n - 1].0 as nat) + " "@
    }
}

/// How state `i` is styled: the initial state cyan, a deadlock pink.
pub open spec fn state_style(i: nat, dead: bool) -> Seq<char> {
    if i == 0 {
        ", color=cyan, style=filled"@
    } else if dead {
        ", color=pink, style=filled"@
    } else {
        Seq::empty()
    }
}

/// `i [label="i\n{locations}\n{shared}"{style}];`
pub open spec fn state_line<T: Model>(i: nat, k: Key<T>, dead: bool, names: Seq<Seq<char>>) -> Seq<char> {
    dec(i) + " [label=\""@ + dec(i) + "\\n"@ + locs_text(names, k.1, k.1.len()) + "\\n"@ + T::text(
        k.0,
    ) + "\""@ + state_style(i, dead) + "];\n"@
}

/// The lines of the first `n` states.
pub open spec fn states_text<T: Model>(l: LtsView<T>, names: Seq<Seq<char>>, n: nat) -> Seq<char>
    decreases n,
{
    if n == 0 {
        Seq::empty()
    } else {
        states_text(l, names, (n - 1) as nat) + state_line(
            (n - 1) as nat,
            l.states[n - 1],
            l.dead[n - 1],
            names,
        )
    }
}

/// `before -> after [label="{label}"{style}];`, red when on a deadlock path.
pub open spec fn trans_line(t: Edge) -> Seq<char> {
    dec(t.before) + " -> "@ + dec(t.after) + " [label=\""@ + t.label + "\""@ + (if t.on_deadlock {
        ", color=red,fontcolor=red,weight=2,penwidth=2"@
    } else {
        Seq::empty()
    }) + "];\n"@
}

/// The lines of the first `n` transitions.
pub open spec fn trans_text(trans: Seq<Edge>, n: nat) -> Seq<char>
    decreases n,
{
    if n == 0 {
        Seq::empty()
    } else {
        trans_text(trans, (n - 1) as nat) + trans_line(trans[n - 1])
    }
}

/// A transition system's graph: one node per state, then one arc per transition.
pub open spec fn lts_dot<T: Model>(l: LtsView<T>, names: Seq<Seq<char>>) -> Seq<char> {
    "digraph {\n"@ + states_text(l, names, l.states.len()) + trans_text(l.trans, l.trans.len())
        + "}\n"@
}

impl<T: Model> Process<T> {
    /// The process's control graph in GraphViz text.
    pub fn dot(&self) -> (r: String)
        ensures
            r@ == process_dot(*self),
    {
        let mut s = "digraph {\n".to_owned();
        let n = self.v.len();
        let mut i: usize = 0;
        while i < n
            invariant
                n == self.v@.len(),
                i <= n,
                s@ == "digraph {\n"@ + nodes_text(self.label@, self.v@, i as nat),
            decreases n - i,
        {
            s.append(usize_text(i).as_str());
            s.append(" [label=\"");
            s.append(self.label.0.as_str());
            s.append(usize_text(self.v[i].src.0).as_str());
            s.append("\"];\n");
            i += 1;
            assert(s@ =~= "digraph {\n"@ + nodes_text(self.label@, self.v@, i as nat));
        }
        let ghost head = s@;
        let mut i: usize = 0;
        while i < n
            invariant
                n == self.v@.len(),
                i <= n,
                s@ == head + units_arcs_text(self.v@, i as nat),
            decreases n - i,
        {
            let ts = &self.v[i].transs;
            let ghost before = s@;
            let mut j: usize = 0;
            while j < ts.len()
                invariant
                    ts@ == self.v@[i as int].transs@,
                    j <= ts@.len(),
                    s@ == before + arcs_text(i as nat, ts@, j as nat),
                decreases ts@.len() - j,
            {
                s.append(usize_text(i).as_str());
                s.append(" -> ");
                s.append(usize_text(ts[j].dst.0).as_str());
                s.append(" [label=\"");
                s.append(ts[j].label.0.as_str());
                s.append("\"]\n");
                j += 1;
                assert(s@ =~= before + arcs_text(i as nat, ts@, j as nat));
            }
            i += 1;
            assert(s@ =~= head + units_arcs_text(self.v@, i as nat));
        }
        s.append("}\n");
        assert(s@ =~= process_dot(*self));
        s
    }
}

} // verus!
