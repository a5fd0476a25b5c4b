use vstd::prelude::*;

verus! {

/// The shared value of a model, together with what its guards and actions mean.
///
/// A model's guards and actions are values of `Guard` and `Action` (most often
/// enums naming the model's own predicates and transformers); `holds` and
/// `apply` say what each one does, and `guard` and `action` compute it.
pub trait Model: Copy + Sized {
    type Guard: Clone;

    type Action: Clone;

    /// Whether guard `g` holds on the shared value `v`.
    spec fn holds(g: Self::Guard, v: Self) -> bool;

    /// The value that action `a` leaves in `next`, given the pre-state `prev`.
    spec fn apply(a: Self::Action, next: Self, prev: Self) -> Self;

    /// How a shared value is written out in a rendered graph.
    spec fn text(v: Self) -> Seq<char>;

    fn guard(g: &Self::Guard, v: &Self) -> (r: bool)
        ensures
            r == Self::holds(*g, *v),
    ;

    fn action(a: &Self::Action, next: &mut Self, prev: &Self)
        ensures
            *final(next) == Self::apply(*a, *old(next), *prev),
    ;

    fn same(&self, other: &Self) -> (r: bool)
        ensures
            r == (*self == *other),
    ;

    fn show(&self) -> (r: String)
        ensures
            r@ == Self::text(*self),
    ;
}

/// The guard that always holds.
pub fn guard_true<T>(_p: T) -> (r: bool)
    ensures
        r,
{
    true
}

/// The action that leaves the shared value as it is.
pub fn action_nop<T>(_q: &mut T, _p: &T)
    ensures
        *final(_q) == *old(_q),
{
}

/// A control-flow node of one process: an index into its execution units.
#[derive(Debug, Clone, Copy, PartialEq, Eq, Structural, Hash)]
pub struct Location(pub usize);

impl Location {
    pub fn new(s: usize) -> (r: Location)
        ensures
            r.0 == s,
    {
        Location(s)
    }

    pub fn to_usize(&self) -> (r: usize)
        ensures
            r == self.0,
    {
        self.0
    }
}

/// A name shown in rendered graphs and in composite transition labels.
#[derive(Debug, Clone, PartialEq, Eq)]
pub struct Label(pub String);

impl View for Label {
    type V = Seq<char>;

    open spec fn view(&self) -> Seq<char> {
        self.0@
    }
}

impl Label {
    pub fn new(s: &str) -> (r: Label)
        ensures
            r@ == s@,
    {
        Label(s.to_owned())
    }
}

/// One guarded transition of a process, leading to location `dst`.
#[derive(Clone)]
pub struct ProcessTrans<T: Model> {
    pub label: Label,
    pub dst: Location,
    pub guard: T::Guard,
    pub action: T::Action,
}

impl<T: Model> ProcessTrans<T> {
    pub fn new(name: &str, dst: usize, guard: T::Guard, action: T::Action) -> (r: ProcessTrans<T>)
        ensures
            r.label@ == name@,
            r.dst.0 == dst,
            r.guard == guard,
            r.action == action,
    {
        ProcessTrans { label: Label::new(name), dst: Location::new(dst), guard, action }
    }
}

/// All transitions leaving location `src` of one process, in declared order.
#[derive(Clone)]
pub struct ExecUnit<T: Model> {
    pub src: Location,
    pub transs: Vec<ProcessTrans<T>>,
}

impl<T: Model> ExecUnit<T> {
    pub fn new(src: usize, trans: Vec<ProcessTrans<T>>) -> (r: ExecUnit<T>)
        ensures
            r.src.0 == src,
            r.transs@ == trans@,
    {
        ExecUnit { src: Location::new(src), transs: trans }
    }
}

/// Units indexed by their source location, every destination naming a unit.
pub open spec fn units_wf<T: Model>(v: Seq<ExecUnit<T>>) -> bool {
    &&& forall|i: int| 0 <= i < v.len() ==> (#[trigger] v[i]).src.0 == i
    &&& forall|i: int, j: int|
        0 <= i < v.len() && 0 <= j < v[i].transs@.len() ==> (#[trigger] v[i].transs@[j]).dst.0
            < v.len()
}

/// What one transition is: its label, destination, guard and action.
pub open spec fn trans_shape<T: Model>(t: ProcessTrans<T>) -> (Seq<char>, usize, T::Guard, T::Action) {
    (t.label@, t.dst.0, t.guard, t.action)
}

/// A process's transitions, unit by unit, each as its `trans_shape`.
pub open spec fn shape<T: Model>(p: Process<T>) -> Seq<Seq<(Seq<char>, usize, T::Guard, T::Action)>> {
    p.v@.map_values(|u: ExecUnit<T>| u.transs@.map_values(|t: ProcessTrans<T>| trans_shape(t)))
}

/// A named process: its execution units, one per location.
#[derive(Clone)]
pub struct Process<T: Model> {
    pub label: Label,
    pub v: Vec<ExecUnit<T>>,
}

impl<T: Model> Process<T> {
    pub open spec fn wf(&self) -> bool {
        units_wf(self.v@)
    }

    pub fn new(label: &str, v: Vec<ExecUnit<T>>) -> (r: Process<T>)
        requires
            units_wf(v@),
        ensures
            r.label@ == label@,
            r.v@ == v@,
            r.wf(),
    {
        Process { label: Label::new(label), v }
    }
}

} // verus!
