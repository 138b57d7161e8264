//! Handler registry.
//!
//! Every interrupt source can be bound to one handler. A handler declares
//! named storage cells that keep their content from one invocation to the
//! next; the registry owns them and hands them to that handler alone, by
//! exclusive reference, whenever it runs.

use crate::nr::Nr;
use vstd::prelude::*;

verus! {

/// A storage cell as a handler declares it: its name and its initial value.
pub struct StorageCell<V> {
    pub name: String,
    pub value: V,
}

/// What services an interrupt.
pub trait Handler<V> {
    /// What one service does: whether a handler that finds `before` in its
    /// cells can become `then` and leave `after` in them. Every handler says
    /// this of itself; one that says nothing can do anything.
    open spec fn services(&self, before: Seq<V>, then: &Self, after: Seq<V>) -> bool {
        true
    }

    /// Services one interrupt. `cells` holds the values of the storage cells
    /// that were declared when the handler was bound, in that order. The
    /// handler can change what the cells hold, not how many there are.
    fn handle(&mut self, cells: &mut [V])
        ensures
            old(self).services(old(cells)@, final(self), final(cells)@),
            final(cells)@.len() == old(cells)@.len(),
    ;
}

/// Why a handler could not be bound.
#[derive(Clone, Copy, PartialEq, Eq, Debug, Structural)]
pub enum BindError {
    /// The source already has a handler.
    AlreadyBound,
    /// The cell at `index` has the name of an earlier cell.
    DuplicateCell { index: usize },
}

/// What binding a handler asks of the trap entry point, of which a program has
/// one, however many handlers it binds.
#[derive(Clone, Copy, PartialEq, Eq, Debug, Structural)]
pub enum TrapEntry {
    /// This is the first binding: the trap entry point is to be installed.
    Install,
    /// An earlier binding has installed the trap entry point.
    Installed,
}

/// The storage of one handler: the names of its cells and what they hold,
/// both in the order of declaration.
pub struct Storage<V> {
    pub names: Seq<Seq<char>>,
    pub values: Seq<V>,
}

impl<V> Storage<V> {
    /// Whether every cell has a name and a value, and no two cells share a
    /// name.
    pub open spec fn wf(self) -> bool {
        self.values.len() == self.names.len() && distinct(self.names)
    }

    /// Whether the cell at `i` has the name `name`.
    pub open spec fn holds(self, name: Seq<char>, i: int) -> bool {
        0 <= i < self.names.len() && self.names[i] == name
    }

    /// The value of the cell with the name `name`.
    pub open spec fn get(self, name: Seq<char>) -> Option<V> {
        if exists|i: int| self.holds(name, i) {
            Some(self.values[choose|i: int| self.holds(name, i)])
        } else {
            None
        }
    }
}

/// What is bound to a source: the handler, and the storage that it alone is
/// handed.
pub struct Bound<H, V> {
    pub handler: H,
    pub storage: Storage<V>,
}

/// The names of the declared cells.
pub open spec fn names_of<V>(cells: Seq<StorageCell<V>>) -> Seq<Seq<char>> {
    Seq::new(cells.len(), |i: int| cells[i].name@)
}

/// The initial values of the declared cells.
pub open spec fn values_of<V>(cells: Seq<StorageCell<V>>) -> Seq<V> {
    Seq::new(cells.len(), |i: int| cells[i].value)
}

/// Whether `after` is what `before` becomes when the handler of `source` has
/// run once: the handler was handed the values of its own cells and has
/// serviced them, its cells are as many as before and have the names that
/// they had, the same sources are bound, and every other handler and its
/// storage are untouched.
pub open spec fn ran<H: Handler<V>, V>(
    before: Map<nat, Bound<H, V>>,
    after: Map<nat, Bound<H, V>>,
    source: nat,
) -> bool {
    &&& before.contains_key(source)
    &&& after.dom() == before.dom()
    &&& before[source].handler.services(
        before[source].storage.values,
        &after[source].handler,
        after[source].storage.values,
    )
    &&& after[source].storage.values.len() == before[source].storage.values.len()
    &&& after[source].storage.names == before[source].storage.names
    &&& forall|t: nat| t != source && before.contains_key(t) ==> after[t] == before[t]
}

/// Whether no name occurs twice.
pub open spec fn distinct(names: Seq<Seq<char>>) -> bool {
    forall|i: int, j: int| 0 <= i < j < names.len() ==> names[i] != names[j]
}

/// Whether `j` is the first position whose name occurred before.
pub open spec fn first_repeat(names: Seq<Seq<char>>, j: int) -> bool {
    &&& 0 <= j < names.len()
    &&& distinct(names.take(j))
    &&& exists|i: int| 0 <= i < j && names[i] == names[j]
}

struct Binding<H, V> {
    source: Nr,
    handler: H,
    names: Vec<String>,
    values: Vec<V>,
}

impl<H, V> Binding<H, V> {
    spec fn names(self) -> Seq<Seq<char>> {
        Seq::new(self.names@.len(), |i: int| self.names@[i]@)
    }

    spec fn bound(self) -> Bound<H, V> {
        Bound {
            handler: self.handler,
            storage: Storage { names: self.names(), values: self.values@ },
        }
    }
}

/// The handlers of a program, by the source that each is bound to.
pub struct Registry<H, V> {
    bindings: Vec<Binding<H, V>>,
}

impl<H, V> View for Registry<H, V> {
    type V = Map<nat, Bound<H, V>>;

    /// What is bound to every bound source.
    closed spec fn view(&self) -> Map<nat, Bound<H, V>> {
        Map::new(
            |s: nat| self.bound_at(s, self.slot(s)),
            |s: nat| self.bindings@[self.slot(s)].bound(),
        )
    }
}

impl<H, V> Registry<H, V> {
    spec fn bound_at(self, source: nat, i: int) -> bool {
        0 <= i < self.bindings@.len() && self.bindings@[i].source@ == source
    }

    spec fn slot(self, source: nat) -> int {
        choose|i: int| self.bound_at(source, i)
    }

    /// The invariant of the registry: a source has at most one binding,
    /// every cell of a binding has a name and a value, and no two cells of a
    /// binding share a name.
    pub closed spec fn wf(&self) -> bool {
        &&& forall|i: int, j: int|
            0 <= i < j < self.bindings@.len() ==> self.bindings@[i].source@
                != self.bindings@[j].source@
        &&& forall|i: int|
            0 <= i < self.bindings@.len() ==> (#[trigger] self.bindings@[i].bound()).storage.wf()
    }

    /// In a well-formed registry every cell of a handler has a name and a
    /// value, and no two cells of a handler share a name.
    pub proof fn lemma_storage_wf(&self, source: nat)
        requires
            self.wf(),
            self@.contains_key(source),
        ensures
            self@[source].storage.wf(),
    {
    }

    proof fn lemma_slot(&self, source: nat, i: int)
        requires
            self.wf(),
            self.bound_at(source, i),
        ensures
            self.slot(source) == i,
            self@.contains_key(source),
            self@[source] == self.bindings@[i].bound(),
    {
    }

    /// A registry with one more binding, of a source that had none.
    proof fn lemma_pushed(before: Self, after: Self, binding: Binding<H, V>)
        requires
            before.wf(),
            !before@.contains_key(binding.source@),
            binding.bound().storage.wf(),
            after.bindings@ == before.bindings@.push(binding),
        ensures
            after.wf(),
            after@ == before@.insert(binding.source@, binding.bound()),
    {
        let n = before.bindings@.len() as int;
        let source = binding.source@;
        let bound = before@.insert(source, binding.bound());
        assert forall|i: int, j: int|
            0 <= i < j < after.bindings@.len() implies after.bindings@[i].source@
            != after.bindings@[j].source@ by {
            if j == n && before.bound_at(source, i) {
                before.lemma_slot(source, i);
            }
        }
        assert(after.wf());
        after.lemma_slot(source, n);
        assert forall|s: nat| #[trigger] after@.contains_key(s) == bound.contains_key(s) by {
            if s != source {
                if before@.contains_key(s) {
                    after.lemma_slot(s, before.slot(s));
                }
                if after@.contains_key(s) {
                    before.lemma_slot(s, after.slot(s));
                }
            }
        }
        assert forall|s: nat| after@.contains_key(s) implies #[trigger] after@[s] == bound[s] by {
            if s != source {
                before.lemma_slot(s, after.slot(s));
                after.lemma_slot(s, after.slot(s));
            }
        }
        assert(after@ =~= bound);
    }

    /// A registry without bindings.
    pub fn new() -> (r: Self)
        ensures
            r.wf(),
            r@ == Map::<nat, Bound<H, V>>::empty(),
    {
        let r = Registry { bindings: Vec::new() };
        assert(r@ =~= Map::<nat, Bound<H, V>>::empty());
        r
    }

    fn find(&self, source: Nr) -> (r: Option<usize>)
        requires
            self.wf(),
        ensures
            r is Some <==> self@.contains_key(source@),
            r matches Some(i) ==> self.bound_at(source@, i as int),
    {
        let mut i: usize = 0;
        while i < self.bindings.len()
            invariant
                self.wf(),
                i <= self.bindings@.len(),
                forall|k: int| 0 <= k < i ==> !self.bound_at(source@, k),
            decreases self.bindings@.len() - i,
        {
            if self.bindings[i].source == source {
                proof {
                    self.lemma_slot(source@, i as int);
                }
                return Some(i);
            }
            proof {
                if self.bindings@[i as int].source@ == source@ {
                    Nr::lemma_view_injective(self.bindings@[i as int].source, source);
                }
            }
            i += 1;
        }
        None
    }

    /// Tells whether a source has a handler.
    pub fn is_bound(&self, source: Nr) -> (r: bool)
        requires
            self.wf(),
        ensures
            r == self@.contains_key(source@),
    {
        self.find(source).is_some()
    }

    /// Binds a handler to a source and gives it the declared storage cells,
    /// each with its initial value.
    ///
    /// A source has one handler, and the cells of a handler have different
    /// names: a second binding of a source is refused, and so is a cell whose
    /// name an earlier cell of the same handler has. A refused binding leaves
    /// the registry as it was. The first binding of a registry tells the
    /// caller to install the trap entry point, every later one that this has
    /// been asked for.
    pub fn bind(&mut self, source: Nr, handler: H, cells: Vec<StorageCell<V>>) -> (r: Result<
        TrapEntry,
        BindError,
    >)
        requires
            old(self).wf(),
        ensures
            final(self).wf(),
            match r {
                Ok(entry) => {
                    &&& !old(self)@.contains_key(source@)
                    &&& distinct(names_of(cells@))
                    &&& final(self)@ == old(self)@.insert(
                        source@,
                        Bound {
                            handler,
                            storage: Storage { names: names_of(cells@), values: values_of(cells@) },
                        },
                    )
                    &&& entry == TrapEntry::Install <==> old(self)@ == Map::<
                        nat,
                        Bound<H, V>,
                    >::empty()
                },
                Err(BindError::AlreadyBound) => {
                    &&& old(self)@.contains_key(source@)
                    &&& final(self)@ == old(self)@
                },
                Err(BindError::DuplicateCell { index }) => {
                    &&& !old(self)@.contains_key(source@)
                    &&& first_repeat(names_of(cells@), index as int)
                    &&& final(self)@ == old(self)@
                },
            },
    {
        if self.find(source).is_some() {
            return Err(BindError::AlreadyBound);
        }
        if let Some(index) = repeated(&cells) {
            return Err(BindError::DuplicateCell { index });
        }
        let entry = if self.bindings.len() == 0 {
            assert(self@ =~= Map::<nat, Bound<H, V>>::empty());
            TrapEntry::Install
        } else {
            proof {
                self.lemma_slot(self.bindings@[0].source@, 0);
            }
            TrapEntry::Installed
        };
        let ghost declared = cells@;
        let mut names: Vec<String> = Vec::new();
        let mut values: Vec<V> = Vec::new();
        for cell in it: cells
            invariant
                it.seq() == declared,
                names@.len() == it.index(),
                values@.len() == it.index(),
                forall|k: int| 0 <= k < it.index() ==> names@[k]@ == declared[k].name@,
                forall|k: int| 0 <= k < it.index() ==> values@[k] == declared[k].value,
        {
            names.push(cell.name);
            values.push(cell.value);
        }
        let binding = Binding { source, handler, names, values };
        proof {
            assert(binding.names() =~= names_of(declared));
            assert(binding.values@ =~= values_of(declared));
        }
        let ghost before = *self;
        self.bindings.push(binding);
        proof {
            Self::lemma_pushed(before, *self, binding);
        }
        Ok(entry)
    }

    /// The value of the cell that the handler of `source` declared under
    /// `name`, as its last invocation left it, or `None` where the source has
    /// no handler or its handler declared no cell of that name.
    pub fn cell(&self, source: Nr, name: &String) -> (r: Option<&V>)
        requires
            self.wf(),
        ensures
            match r {
                Some(value) => self@.contains_key(source@) && self@[source@].storage.get(name@)
                    == Some(*value),
                None => !self@.contains_key(source@) || self@[source@].storage.get(name@) is None,
            },
    {
        match self.find(source) {
            None => None,
            Some(i) => {
                let binding = &self.bindings[i];
                let ghost storage = binding.bound().storage;
                proof {
                    self.lemma_slot(source@, i as int);
                }
                let mut k: usize = 0;
                while k < binding.names.len()
                    invariant
                        k <= binding.names@.len(),
                        storage == binding.bound().storage,
                        self@.contains_key(source@),
                        self@[source@].storage == storage,
                        storage.wf(),
                        forall|j: int| 0 <= j < k ==> storage.names[j] != name@,
                    decreases binding.names@.len() - k,
                {
                    if binding.names[k] == *name {
                        assert(storage.holds(name@, k as int));
                        assert(forall|j: int| storage.holds(name@, j) ==> j == k);
                        return Some(&binding.values[k]);
                    }
                    k += 1;
                }
                None
            },
        }
    }
}

impl<V, H: Handler<V>> Registry<H, V> {
    /// A registry after the handler of the binding at `i` has run.
    proof fn lemma_handled(before: Self, after: Self, i: int)
        requires
            before.wf(),
            0 <= i < before.bindings@.len(),
            after.bindings@.len() == before.bindings@.len(),
            after.bindings@[i].source == before.bindings@[i].source,
            after.bindings@[i].names == before.bindings@[i].names,
            after.bindings@[i].values@.len() == before.bindings@[i].values@.len(),
            before.bindings@[i].handler.services(
                before.bindings@[i].values@,
                &after.bindings@[i].handler,
                after.bindings@[i].values@,
            ),
            forall|k: int|
                0 <= k < before.bindings@.len() && k != i ==> after.bindings@[k]
                    == before.bindings@[k],
        ensures
            after.wf(),
            ran(before@, after@, before.bindings@[i].source@),
    {
        let source = before.bindings@[i].source@;
        assert(after.bindings@[i].names() =~= before.bindings@[i].names());
        assert forall|k: int| 0 <= k < after.bindings@.len() implies (#[trigger] after.bindings@[k]
            .bound()).storage.wf() by {
            assert(before.bindings@[k].bound().storage.wf());
        }
        assert(after.wf());
        assert forall|s: nat| #[trigger] after@.contains_key(s) == before@.contains_key(s) by {
            if before@.contains_key(s) {
                after.lemma_slot(s, before.slot(s));
            }
            if after@.contains_key(s) {
                before.lemma_slot(s, after.slot(s));
            }
        }
        assert(after@.dom() =~= before@.dom());
        assert forall|t: nat| t != source && before@.contains_key(t) implies after@[t]
            == before@[t] by {
            after.lemma_slot(t, before.slot(t));
        }
        before.lemma_slot(source, i);
        after.lemma_slot(source, i);
    }

    /// Runs the handler of a source once, handing it its own storage cells by
    /// exclusive reference, and tells whether the source has a handler.
    ///
    /// The cells hold afterwards what the handler left in them. No other
    /// handler is run and no other storage is touched. Where the source has
    /// no handler, nothing is run and nothing changes.
    pub fn invoke(&mut self, source: Nr) -> (r: bool)
        requires
            old(self).wf(),
        ensures
            final(self).wf(),
            r == old(self)@.contains_key(source@),
            r ==> ran(old(self)@, final(self)@, source@),
            !r ==> final(self)@ == old(self)@,
    {
        match self.find(source) {
            None => false,
            Some(i) => {
                let ghost before = *self;
                let binding = &mut self.bindings[i];
                binding.handler.handle(binding.values.as_mut_slice());
                proof {
                    Self::lemma_handled(before, *self, i as int);
                }
                true
            },
        }
    }
}

/// The value of the cell with the name of the cell at `i` is the value of
/// the cell at `i`.
pub proof fn lemma_get<V>(storage: Storage<V>, i: int)
    requires
        storage.wf(),
        0 <= i < storage.names.len(),
    ensures
        storage.get(storage.names[i]) == Some(storage.values[i]),
{
    let name = storage.names[i];
    assert(storage.holds(name, i));
    let j = choose|j: int| storage.holds(name, j);
    assert(j == i);
}

/// A name that no cell has gives no value.
pub proof fn lemma_get_none<V>(storage: Storage<V>, name: Seq<char>)
    requires
        forall|j: int| 0 <= j < storage.names.len() ==> storage.names[j] != name,
    ensures
        storage.get(name) is None,
{
}

/// A registry with a binding is not empty: once a handler is bound, no later
/// binding is told to install the trap entry point.
pub proof fn lemma_install_once<H, V>(
    registry: Map<nat, Bound<H, V>>,
    source: nat,
    bound: Bound<H, V>,
)
    ensures
        registry.insert(source, bound) != Map::<nat, Bound<H, V>>::empty(),
{
    assert(registry.insert(source, bound).contains_key(source));
}

/// The first cell that has the name of an earlier cell.
fn repeated<V>(cells: &Vec<StorageCell<V>>) -> (r: Option<usize>)
    ensures
        match r {
            Some(j) => first_repeat(names_of(cells@), j as int),
            None => distinct(names_of(cells@)),
        },
{
    let ghost names = names_of(cells@);
    let mut j: usize = 0;
    while j < cells.len()
        invariant
            j <= cells@.len(),
            names == names_of(cells@),
            forall|a: int, b: int| 0 <= a < b < j ==> names[a] != names[b],
        decreases cells@.len() - j,
    {
        let mut i: usize = 0;
        while i < j
            invariant
                i <= j < cells@.len(),
                names == names_of(cells@),
                forall|a: int, b: int| 0 <= a < b < j ==> names[a] != names[b],
                forall|a: int| 0 <= a < i ==> names[a] != names[j as int],
            decreases j - i,
        {
            if cells[i].name == cells[j].name {
                assert(names[i as int] == names[j as int]);
                assert(distinct(names.take(j as int)));
                return Some(j);
            }
            i += 1;
        }
        j += 1;
    }
    None
}

} // verus!
