use vstd::prelude::*;

verus! {

/// Handle of one simulation object. It carries no data of its own: everything
/// known about an entity lives in the component tables, keyed by `id`.
#[derive(Clone, Copy, Debug, PartialEq, Eq, Hash, Structural)]
pub struct Entity {
    pub id: usize,
}

impl View for Entity {
    type V = int;

    open spec fn view(&self) -> int {
        self.id as int
    }
}

/// Sparse table of one component kind: at most one value per entity.
///
/// Its view is the mathematical map from entity ids to the views of the
/// components stored.
pub struct Storage<T> {
    slots: Vec<Option<T>>,
}

impl<T: View> View for Storage<T> {
    type V = Map<int, T::V>;

    closed spec fn view(&self) -> Map<int, T::V> {
        Map::new(
            |i: int| 0 <= i < self.slots@.len() && self.slots@[i].is_some(),
            |i: int| self.slots@[i].unwrap()@,
        )
    }
}

impl<T: View> Storage<T> {
    /// An empty table.
    pub fn new() -> (s: Self)
        ensures
            s@ == Map::<int, T::V>::empty(),
    {
        let s = Storage { slots: Vec::new() };
        assert(s@ =~= Map::<int, T::V>::empty());
        s
    }

    /// An exclusive upper bound on the ids that hold a component. Every id is
    /// a natural number.
    pub(crate) fn bound(&self) -> (n: usize)
        ensures
            forall|i: int| self@.dom().contains(i) ==> 0 <= i < n,
    {
        self.slots.len()
    }

    /// Whether `e` holds a component of this kind.
    pub fn contains(&self, e: Entity) -> (b: bool)
        ensures
            b == self@.dom().contains(e@),
    {
        e.id < self.slots.len() && self.slots[e.id].is_some()
    }

    /// The component of `e`, if it holds one.
    pub fn get(&self, e: Entity) -> (r: Option<&T>)
        ensures
            r.is_some() == self@.dom().contains(e@),
            r matches Some(v) ==> v@ == self@[e@],
    {
        if e.id < self.slots.len() {
            self.slots[e.id].as_ref()
        } else {
            None
        }
    }

    /// Gives `e` the component `value`, replacing the one it held.
    pub fn insert(&mut self, e: Entity, value: T)
        requires
            e.id < usize::MAX,
        ensures
            final(self)@ == old(self)@.insert(e@, value@),
    {
        while self.slots.len() <= e.id
            invariant
                self@ == old(self)@,
                e.id < usize::MAX,
            decreases e.id + 1 - self.slots.len(),
        {
            let ghost before = self@;
            self.slots.push(None);
            assert(self@ =~= before);
        }
        let ghost before = self@;
        self.slots[e.id] = Some(value);
        assert(self@ =~= before.insert(e@, value@));
    }

    /// Takes the component of `e` out of the table, if it holds one.
    pub fn remove(&mut self, e: Entity) -> (r: Option<T>)
        ensures
            final(self)@ == old(self)@.remove(e@),
            r.is_some() == old(self)@.dom().contains(e@),
            r matches Some(v) ==> v@ == old(self)@[e@],
    {
        if e.id < self.slots.len() {
            let ghost before = self@;
            let r = self.slots[e.id].take();
            assert(self@ =~= before.remove(e@));
            r
        } else {
            assert(self@ =~= self@.remove(e@));
            None
        }
    }

    /// Empties the table.
    pub fn clear(&mut self)
        ensures
            final(self)@ == Map::<int, T::V>::empty(),
    {
        self.slots.clear();
        assert(self@ =~= Map::<int, T::V>::empty());
    }

    /// Whether every id of the table is below `n`.
    pub fn fits(&self, n: usize) -> (b: bool)
        ensures
            b == (forall|i: int| self@.dom().contains(i) ==> 0 <= i < n),
    {
        let mut i: usize = n;
        while i < self.slots.len()
            invariant
                n <= i,
                forall|k: int| n <= k < i && k < self.slots@.len() ==> !self@.dom().contains(k),
            decreases self.slots@.len() - i,
        {
            if self.slots[i].is_some() {
                assert(self@.dom().contains(i as int));
                return false;
            }
            i += 1;
        }
        true
    }
}

} // verus!
