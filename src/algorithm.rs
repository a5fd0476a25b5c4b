use vstd::prelude::*;

verus! {

/// Adjacency lists: row `i` holds the targets of the edges out of `i`.
pub struct AdjacencyList {
    list: Vec<Vec<usize>>,
}

impl View for AdjacencyList {
    type V = Seq<Seq<usize>>;

    closed spec fn view(&self) -> Seq<Seq<usize>> {
        self.list@.map_values(|row: Vec<usize>| row@)
    }
}

impl AdjacencyList {
    /// One empty row.
    pub fn new() -> (r: AdjacencyList)
        ensures
            r@ == seq![Seq::<usize>::empty()],
    {
        let r = AdjacencyList { list: vec![Vec::new()] };
        assert(r@ =~= seq![Seq::<usize>::empty()]);
        r
    }

    /// Every index is accepted as the source of an edge.
    pub fn has_edge(_edge: usize) -> (r: bool)
        ensures
            r,
    {
        true
    }

    /// The targets of the edges out of `i`.
    pub fn row(&self, i: usize) -> (r: &Vec<usize>)
        requires
            i < self@.len(),
        ensures
            r@ == self@[i as int],
    {
        &self.list[i]
    }

    /// Adds an edge from `edge` to `new` when row `edge` exists.
    pub fn insert(&mut self, edge: usize, new: usize)
        ensures
            edge < old(self)@.len() ==> final(self)@ == old(self)@.update(
                edge as int,
                old(self)@[edge as int].push(new),
            ),
            edge >= old(self)@.len() ==> final(self)@ == old(self)@,
    {
        if edge < self.list.len() {
            self.list[edge].push(new);
            assert(self@ =~= old(self)@.update(edge as int, old(self)@[edge as int].push(new)));
        }
    }
}

} // verus!
