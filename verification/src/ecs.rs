//! The CPU-side entity store.
//!
//! Entities are grouped into archetypes.  An archetype owns one flat byte
//! column per component of its component set; entry `i` of every column
//! belongs to entity slot `i`.  Each column carries a data version that is
//! bumped on every write to it, which is what the GPU sync layer uses to
//! decide whether a re-upload is due.

use vstd::prelude::*;

verus! {

/// A registered component: its id (index in the world's registry) and the
/// byte size of one value.
#[derive(Clone, Copy, PartialEq, Eq, Structural)]
pub struct ComponentDesc {
    pub id: usize,
    pub size: usize,
}

/// One flat component column of an archetype.
pub struct Column {
    component: usize,
    element_size: usize,
    data_version: u64,
    data: Vec<u8>,
}

/// Ghost image of a [`Column`].
pub struct ColumnView {
    pub component: usize,
    pub element_size: usize,
    pub data_version: u64,
    pub data: Seq<u8>,
}

impl View for Column {
    type V = ColumnView;

    closed spec fn view(&self) -> ColumnView {
        ColumnView {
            component: self.component,
            element_size: self.element_size,
            data_version: self.data_version,
            data: self.data@,
        }
    }
}

/// A group of entities sharing one component set, stored as parallel flat
/// columns.
pub struct Archetype {
    id: usize,
    entity_ids: Vec<u64>,
    columns: Vec<Column>,
}

/// Ghost image of an [`Archetype`].
pub struct ArchetypeView {
    pub id: usize,
    pub entities: Seq<u64>,
    pub columns: Seq<ColumnView>,
}

impl View for Archetype {
    type V = ArchetypeView;

    closed spec fn view(&self) -> ArchetypeView {
        ArchetypeView {
            id: self.id,
            entities: self.entity_ids@,
            columns: Seq::new(self.columns@.len(), |i: int| self.columns@[i]@),
        }
    }
}

impl ArchetypeView {
    /// Whether the archetype carries the given component.
    pub open spec fn has_component(self, component: usize) -> bool {
        exists|j: int| 0 <= j < self.columns.len() && self.columns[j].component == component
    }

    /// The column holding the given component (meaningful when the
    /// component is present and columns are distinct).
    pub open spec fn column_of(self, component: usize) -> ColumnView {
        self.columns[choose|j: int|
            0 <= j < self.columns.len() && self.columns[j].component == component]
    }

    /// Well-formedness: component ids are distinct within the archetype and
    /// every column holds exactly one element per entity slot.
    pub open spec fn wf(self) -> bool {
        &&& forall|i: int, j: int|
            0 <= i < j < self.columns.len() ==> self.columns[i].component
                != self.columns[j].component
        &&& forall|i: int|
            0 <= i < self.columns.len() ==> (#[trigger] self.columns[i]).data.len()
                == self.entities.len() * self.columns[i].element_size
    }
}

/// Bytes `data` with the range starting at `offset` replaced by `bytes`
/// (callers keep the range inside the data).
pub open spec fn splice_bytes(data: Seq<u8>, offset: int, bytes: Seq<u8>) -> Seq<u8> {
    Seq::new(
        data.len(),
        |i: int|
            if offset <= i < offset + bytes.len() {
                bytes[i - offset]
            } else {
                data[i]
            },
    )
}

/// `n` zero bytes.
pub open spec fn zero_bytes(n: int) -> Seq<u8> {
    Seq::new(n as nat, |i: int| 0u8)
}

impl Column {
    /// Replaces the bytes starting at `offset` with `bytes`; versions and
    /// shape stay as they were.
    fn write_at(&mut self, offset: usize, bytes: &[u8])
        requires
            offset + bytes@.len() <= old(self)@.data.len(),
        ensures
            final(self)@ == (ColumnView {
                data: splice_bytes(old(self)@.data, offset as int, bytes@),
                ..old(self)@
            }),
    {
        let n = bytes.len();
        let total = self.data.len();
        for k in 0..n
            invariant
                n == bytes@.len(),
                offset + n <= total,
                total == self.data@.len(),
                self.component == old(self)@.component,
                self.element_size == old(self)@.element_size,
                self.data_version == old(self)@.data_version,
                self.data@.len() == old(self)@.data.len(),
                forall|i: int|
                    0 <= i < self.data@.len() ==> self.data@[i] == (if offset <= i < offset + k {
                        bytes@[i - offset]
                    } else {
                        old(self)@.data[i]
                    }),
        {
            self.data[offset + k] = bytes[k];
        }
        proof {
            assert(self@.data =~= splice_bytes(old(self)@.data, offset as int, bytes@));
        }
    }

    /// Bumps the data version after a write.
    fn bump_version(&mut self)
        requires
            old(self)@.data_version < u64::MAX,
        ensures
            final(self)@ == (ColumnView {
                data_version: (old(self)@.data_version + 1) as u64,
                ..old(self)@
            }),
    {
        self.data_version = self.data_version + 1;
    }

    /// Appends one zeroed element to the column.
    fn push_zero_element(&mut self)
        ensures
            final(self)@ == (ColumnView {
                data: old(self)@.data + zero_bytes(old(self)@.element_size as int),
                ..old(self)@
            }),
    {
        let n = self.element_size;
        for k in 0..n
            invariant
                self.component == old(self)@.component,
                self.element_size == old(self)@.element_size,
                n == self.element_size,
                self.data_version == old(self)@.data_version,
                self.data@ == old(self)@.data + zero_bytes(k as int),
        {
            self.data.push(0u8);
            proof {
                assert(self.data@ =~= old(self)@.data + zero_bytes(k + 1));
            }
        }
    }
}

impl Archetype {
    /// The archetype's id.
    pub fn id(&self) -> (r: usize)
        ensures
            r == self@.id,
    {
        self.id
    }

    /// How many entity slots the archetype currently holds.
    pub fn entity_count(&self) -> (r: usize)
        ensures
            r == self@.entities.len(),
    {
        self.entity_ids.len()
    }

    /// The entity id stored at the given slot.
    pub fn entity_id_at(&self, index: usize) -> (r: u64)
        requires
            index < self@.entities.len(),
        ensures
            r == self@.entities[index as int],
    {
        self.entity_ids[index]
    }

    /// Position of the column holding `component`, if any.
    fn column_index(&self, component: usize) -> (r: Option<usize>)
        requires
            self@.wf(),
        ensures
            match r {
                Some(j) => j < self@.columns.len() && self@.columns[j as int].component
                    == component && self@.columns[j as int] == self@.column_of(component),
                None => !self@.has_component(component),
            },
    {
        let n = self.columns.len();
        for j in 0..n
            invariant
                n == self@.columns.len(),
                self@.wf(),
                forall|k: int| 0 <= k < j ==> self@.columns[k].component != component,
        {
            if self.columns[j].component == component {
                return Some(j);
            }
        }
        None
    }

    /// Whether the archetype carries the given component.
    pub fn has_component(&self, component: usize) -> (r: bool)
        requires
            self@.wf(),
        ensures
            r == self@.has_component(component),
    {
        self.column_index(component).is_some()
    }

    /// The current data version of the column holding `component`, or
    /// `None` when the archetype does not carry that component.
    pub fn get_component_data_version(&self, component: usize) -> (r: Option<u64>)
        requires
            self@.wf(),
        ensures
            match r {
                Some(v) => self@.has_component(component) && v == self@.column_of(
                    component,
                ).data_version,
                None => !self@.has_component(component),
            },
    {
        match self.column_index(component) {
            Some(j) => Some(self.columns[j].data_version),
            None => None,
        }
    }

    /// The raw bytes of the column holding `component`, or `None` when the
    /// archetype does not carry that component.
    pub fn get_component_buffer(&self, component: usize) -> (r: Option<&Vec<u8>>)
        requires
            self@.wf(),
        ensures
            match r {
                Some(b) => self@.has_component(component) && b@ == self@.column_of(
                    component,
                ).data,
                None => !self@.has_component(component),
            },
    {
        match self.column_index(component) {
            Some(j) => Some(&self.columns[j].data),
            None => None,
        }
    }
}

/// Ghost image of an [`ArchetypeFilter`].
pub struct FilterView {
    pub incl: Seq<usize>,
    pub excl: Seq<usize>,
}

impl FilterView {
    /// Whether an archetype passes the filter: it carries every included
    /// component and none of the excluded ones.
    pub open spec fn matches(self, a: ArchetypeView) -> bool {
        &&& forall|i: int| 0 <= i < self.incl.len() ==> a.has_component(#[trigger] self.incl[i])
        &&& forall|i: int| 0 <= i < self.excl.len() ==> !a.has_component(#[trigger] self.excl[i])
    }
}

/// Selects archetypes by the components they must and must not carry.
pub struct ArchetypeFilter {
    incl: Vec<usize>,
    excl: Vec<usize>,
}

impl View for ArchetypeFilter {
    type V = FilterView;

    closed spec fn view(&self) -> FilterView {
        FilterView { incl: self.incl@, excl: self.excl@ }
    }
}

impl ArchetypeFilter {
    /// The filter that passes every archetype.
    pub fn new() -> (r: ArchetypeFilter)
        ensures
            r@.incl == Seq::<usize>::empty(),
            r@.excl == Seq::<usize>::empty(),
    {
        ArchetypeFilter { incl: Vec::new(), excl: Vec::new() }
    }

    /// Additionally require the given component to be present.
    pub fn incl(self, component: usize) -> (r: ArchetypeFilter)
        ensures
            r@.incl == self@.incl.push(component),
            r@.excl == self@.excl,
    {
        let mut f = self;
        f.incl.push(component);
        f
    }

    /// Additionally require the given component to be absent.
    pub fn excl(self, component: usize) -> (r: ArchetypeFilter)
        ensures
            r@.incl == self@.incl,
            r@.excl == self@.excl.push(component),
    {
        let mut f = self;
        f.excl.push(component);
        f
    }

    /// Whether the given archetype passes the filter.
    pub fn matches(&self, arch: &Archetype) -> (r: bool)
        requires
            arch@.wf(),
        ensures
            r == self@.matches(arch@),
    {
        let n = self.incl.len();
        for i in 0..n
            invariant
                n == self@.incl.len(),
                arch@.wf(),
                forall|k: int| 0 <= k < i ==> arch@.has_component(#[trigger] self@.incl[k]),
        {
            if !arch.has_component(self.incl[i]) {
                return false;
            }
        }
        let m = self.excl.len();
        for i in 0..m
            invariant
                m == self@.excl.len(),
                arch@.wf(),
                forall|k: int| 0 <= k < self@.incl.len() ==> arch@.has_component(
                    #[trigger] self@.incl[k],
                ),
                forall|k: int| 0 <= k < i ==> !arch@.has_component(#[trigger] self@.excl[k]),
        {
            if arch.has_component(self.excl[i]) {
                return false;
            }
        }
        true
    }
}

/// The entity store: a component registry plus the current archetypes.
pub struct World {
    component_sizes: Vec<usize>,
    archetypes: Vec<Archetype>,
    next_archetype_id: usize,
}

/// Ghost image of a [`World`].
pub struct WorldView {
    pub component_sizes: Seq<usize>,
    pub archs: Seq<ArchetypeView>,
    pub next_id: usize,
}

impl View for World {
    type V = WorldView;

    closed spec fn view(&self) -> WorldView {
        WorldView {
            component_sizes: self.component_sizes@,
            archs: Seq::new(self.archetypes@.len(), |i: int| self.archetypes@[i]@),
            next_id: self.next_archetype_id,
        }
    }
}

impl WorldView {
    /// Whether an archetype with the given id currently exists.
    pub open spec fn has_arch(self, id: usize) -> bool {
        exists|i: int| 0 <= i < self.archs.len() && self.archs[i].id == id
    }

    /// Index of the archetype with the given id (meaningful when present).
    pub open spec fn arch_index_of(self, id: usize) -> int {
        choose|i: int| 0 <= i < self.archs.len() && self.archs[i].id == id
    }

    /// The archetype with the given id (meaningful when present).
    pub open spec fn arch_of(self, id: usize) -> ArchetypeView {
        self.archs[self.arch_index_of(id)]
    }

    /// Well-formedness: archetypes are well formed, their ids strictly
    /// increase (so ids are never reused), every id stays below the next
    /// one to be handed out, and every column belongs to a registered
    /// component and has its registered element size.
    pub open spec fn wf(self) -> bool {
        &&& forall|i: int| 0 <= i < self.archs.len() ==> (#[trigger] self.archs[i]).wf()
        &&& forall|i: int, j: int|
            0 <= i < j < self.archs.len() ==> self.archs[i].id < self.archs[j].id
        &&& forall|i: int| 0 <= i < self.archs.len() ==> (#[trigger] self.archs[i]).id < self.next_id
        &&& forall|i: int, j: int|
            0 <= i < self.archs.len() && 0 <= j < self.archs[i].columns.len() ==> {
                let c = #[trigger] self.archs[i].columns[j];
                &&& c.component < self.component_sizes.len()
                &&& c.element_size == self.component_sizes[c.component as int]
            }
    }
}

/// The expected world after one component write: the named column of the
/// named archetype has `bytes` spliced in at entity slot `index` and its
/// data version bumped; everything else is as before.
pub open spec fn with_written(
    w: WorldView,
    arch_id: usize,
    component: usize,
    index: usize,
    bytes: Seq<u8>,
) -> WorldView {
    let ai = w.arch_index_of(arch_id);
    let a = w.archs[ai];
    let col = a.column_of(component);
    let newcol = ColumnView {
        data_version: (col.data_version + 1) as u64,
        data: splice_bytes(col.data, index * col.element_size, bytes),
        ..col
    };
    let ci = choose|j: int| 0 <= j < a.columns.len() && a.columns[j].component == component;
    WorldView { archs: w.archs.update(ai, ArchetypeView { columns: a.columns.update(ci, newcol), ..a }), ..w }
}

/// The expected world after one entity spawn: the named archetype gains
/// one entity slot, zero-filled in every column; versions do not move.
pub open spec fn with_spawned(w: WorldView, arch_id: usize, entity: u64) -> WorldView {
    let ai = w.arch_index_of(arch_id);
    let a = w.archs[ai];
    let newarch = ArchetypeView {
        entities: a.entities.push(entity),
        columns: Seq::new(
            a.columns.len(),
            |j: int| ColumnView {
                data: a.columns[j].data + zero_bytes(a.columns[j].element_size as int),
                ..a.columns[j]
            },
        ),
        ..a
    };
    WorldView { archs: w.archs.update(ai, newarch), ..w }
}

/// A component write preserves world well-formedness: it only replaces
/// bytes within one column and bumps that column's version.
pub proof fn lemma_with_written_wf(
    w: WorldView,
    arch_id: usize,
    component: usize,
    index: usize,
    bytes: Seq<u8>,
)
    requires
        w.wf(),
        w.has_arch(arch_id),
        w.arch_of(arch_id).has_component(component),
        bytes.len() == w.arch_of(arch_id).column_of(component).element_size,
    ensures
        with_written(w, arch_id, component, index, bytes).wf(),
{
    let r = with_written(w, arch_id, component, index, bytes);
    let ai = w.arch_index_of(arch_id);
    let a = w.archs[ai];
    let ci = choose|j: int| 0 <= j < a.columns.len() && a.columns[j].component == component;
    assert(a.column_of(component) == a.columns[ci]);
    assert forall|i: int| 0 <= i < r.archs.len() implies (#[trigger] r.archs[i]).wf() by {
        if i == ai {
            assert(r.archs[i].columns =~= a.columns.update(
                ci,
                ColumnView {
                    data_version: (a.columns[ci].data_version + 1) as u64,
                    data: splice_bytes(
                        a.columns[ci].data,
                        index * a.columns[ci].element_size,
                        bytes,
                    ),
                    ..a.columns[ci]
                },
            ));
            assert(a.wf());
        } else {
            assert(r.archs[i] == w.archs[i]);
        }
    }
    assert forall|i: int| 0 <= i < r.archs.len() implies (#[trigger] r.archs[i]).id
        == w.archs[i].id by {}
    assert forall|i: int, j: int|
        0 <= i < r.archs.len() && 0 <= j < r.archs[i].columns.len() implies {
            let c = #[trigger] r.archs[i].columns[j];
            &&& c.component < r.component_sizes.len()
            &&& c.element_size == r.component_sizes[c.component as int]
        } by {
        if i == ai {
            assert(a.columns[j].component < w.component_sizes.len() && a.columns[j].element_size
                == w.component_sizes[a.columns[j].component as int]);
        } else {
            assert(r.archs[i].columns[j] == w.archs[i].columns[j]);
        }
    }
}

/// An entity spawn preserves world well-formedness: every column of the
/// archetype grows by exactly one element.
pub proof fn lemma_with_spawned_wf(w: WorldView, arch_id: usize, entity: u64)
    requires
        w.wf(),
        w.has_arch(arch_id),
    ensures
        with_spawned(w, arch_id, entity).wf(),
{
    let r = with_spawned(w, arch_id, entity);
    let ai = w.arch_index_of(arch_id);
    let a = w.archs[ai];
    assert forall|i: int| 0 <= i < r.archs.len() implies (#[trigger] r.archs[i]).wf() by {
        if i == ai {
            let na = r.archs[i];
            assert(a.wf());
            assert forall|k: int| 0 <= k < na.columns.len() implies (
            #[trigger] na.columns[k]).data.len() == na.entities.len()
                * na.columns[k].element_size by {
                assert(a.columns[k].data.len() == a.entities.len() * a.columns[k].element_size);
                assert((a.entities.len() + 1) * a.columns[k].element_size == a.entities.len()
                    * a.columns[k].element_size + a.columns[k].element_size) by (nonlinear_arith);
            }
            assert forall|k: int, l: int| 0 <= k < l < na.columns.len() implies na.columns[
                k
            ].component != na.columns[l].component by {
                assert(a.columns[k].component != a.columns[l].component);
            }
        } else {
            assert(r.archs[i] == w.archs[i]);
        }
    }
    assert forall|i: int| 0 <= i < r.archs.len() implies (#[trigger] r.archs[i]).id
        == w.archs[i].id by {}
    assert forall|i: int, j: int|
        0 <= i < r.archs.len() && 0 <= j < r.archs[i].columns.len() implies {
            let c = #[trigger] r.archs[i].columns[j];
            &&& c.component < r.component_sizes.len()
            &&& c.element_size == r.component_sizes[c.component as int]
        } by {
        if i == ai {
            assert(r.archs[i].columns[j].component == a.columns[j].component
                && r.archs[i].columns[j].element_size == a.columns[j].element_size);
            assert(a.columns[j].component < w.component_sizes.len() && a.columns[j].element_size
                == w.component_sizes[a.columns[j].component as int]);
        } else {
            assert(r.archs[i].columns[j] == w.archs[i].columns[j]);
        }
    }
}

impl World {
    /// An empty world: no components registered, no archetypes.
    pub fn new() -> (r: World)
        ensures
            r@.wf(),
            r@.component_sizes == Seq::<usize>::empty(),
            r@.archs == Seq::<ArchetypeView>::empty(),
            r@.next_id == 0,
    {
        let r = World { component_sizes: Vec::new(), archetypes: Vec::new(), next_archetype_id: 0 };
        proof {
            assert(r@.archs =~= Seq::<ArchetypeView>::empty());
        }
        r
    }

    /// Registers a component of the given byte size and returns its id.
    pub fn register_component(&mut self, size: usize) -> (id: usize)
        requires
            old(self)@.wf(),
            size >= 1,
        ensures
            final(self)@.wf(),
            id == old(self)@.component_sizes.len(),
            final(self)@ == (WorldView {
                component_sizes: old(self)@.component_sizes.push(size),
                ..old(self)@
            }),
    {
        let id = self.component_sizes.len();
        self.component_sizes.push(size);
        proof {
            assert(self@.archs =~= old(self)@.archs);
        }
        id
    }

    /// How many components are registered.
    pub fn num_components(&self) -> (r: usize)
        ensures
            r == self@.component_sizes.len(),
    {
        self.component_sizes.len()
    }

    /// The registered byte size of a component id, if registered.
    pub fn component_size(&self, component: usize) -> (r: Option<usize>)
        ensures
            match r {
                Some(s) => component < self@.component_sizes.len() && s
                    == self@.component_sizes[component as int],
                None => component >= self@.component_sizes.len(),
            },
    {
        if component < self.component_sizes.len() {
            Some(self.component_sizes[component])
        } else {
            None
        }
    }

    /// How many archetypes currently exist.
    pub fn num_archetypes(&self) -> (r: usize)
        ensures
            r == self@.archs.len(),
    {
        self.archetypes.len()
    }

    /// The archetype at the given position.
    pub fn archetype_at(&self, i: usize) -> (r: &Archetype)
        requires
            i < self@.archs.len(),
        ensures
            r@ == self@.archs[i as int],
    {
        &self.archetypes[i]
    }

    /// Position of the archetype with the given id, if it exists.
    fn arch_index(&self, arch_id: usize) -> (r: Option<usize>)
        requires
            self@.wf(),
        ensures
            match r {
                Some(i) => i < self@.archs.len() && self@.archs[i as int].id == arch_id && i
                    == self@.arch_index_of(arch_id),
                None => !self@.has_arch(arch_id),
            },
    {
        let n = self.archetypes.len();
        for i in 0..n
            invariant
                n == self@.archs.len(),
                self@.wf(),
                forall|k: int| 0 <= k < i ==> self@.archs[k].id != arch_id,
        {
            if self.archetypes[i].id == arch_id {
                proof {
                    let w = self@.arch_index_of(arch_id);
                    if w < i {
                        assert(self@.archs[w].id < self@.archs[i as int].id);
                    } else if w > i {
                        assert(self@.archs[i as int].id < self@.archs[w].id);
                    }
                }
                return Some(i);
            }
        }
        None
    }

    /// Creates a fresh, empty archetype over the given component set and
    /// returns its id.  Fails (returning `None`, changing nothing) when a
    /// component is unregistered or repeated, or ids have run out.
    pub fn create_archetype(&mut self, components: &Vec<usize>) -> (r: Option<usize>)
        requires
            old(self)@.wf(),
        ensures
            final(self)@.wf(),
            r is Some <==> {
                &&& forall|i: int|
                    0 <= i < components@.len() ==> (#[trigger] components@[i])
                        < old(self)@.component_sizes.len()
                &&& forall|i: int, j: int|
                    0 <= i < j < components@.len() ==> components@[i] != components@[j]
                &&& old(self)@.next_id < usize::MAX
            },
            match r {
                Some(id) => {
                    &&& id == old(self)@.next_id
                    &&& final(self)@ == (WorldView {
                        archs: old(self)@.archs.push(
                            ArchetypeView {
                                id: id,
                                entities: Seq::empty(),
                                columns: Seq::new(
                                    components@.len(),
                                    |j: int| ColumnView {
                                        component: components@[j],
                                        element_size: old(
                                            self,
                                        )@.component_sizes[components@[j] as int],
                                        data_version: 0,
                                        data: Seq::empty(),
                                    },
                                ),
                            },
                        ),
                        next_id: (old(self)@.next_id + 1) as usize,
                        ..old(self)@
                    })
                },
                None => final(self)@ == old(self)@,
            },
    {
        if self.next_archetype_id == usize::MAX {
            return None;
        }
        let n = components.len();
        for i in 0..n
            invariant
                n == components@.len(),
                self@ == old(self)@,
                self@.wf(),
                forall|k: int|
                    0 <= k < i ==> (#[trigger] components@[k]) < self@.component_sizes.len(),
                forall|k: int, l: int|
                    0 <= k < l < n && k < i ==> components@[k] != components@[l],
        {
            if components[i] >= self.component_sizes.len() {
                return None;
            }
            let mut j = i + 1;
            while j < n
                invariant
                    i < j <= n,
                    n == components@.len(),
                    self@ == old(self)@,
                    self@.wf(),
                    forall|l: int| i < l < j ==> components@[l] != components@[i as int],
                decreases n - j,
            {
                if components[j] == components[i] {
                    return None;
                }
                j = j + 1;
            }
        }
        let mut columns: Vec<Column> = Vec::new();
        for i in 0..n
            invariant
                n == components@.len(),
                self@ == old(self)@,
                self@.wf(),
                forall|k: int|
                    0 <= k < n ==> (#[trigger] components@[k]) < self@.component_sizes.len(),
                columns@.len() == i,
                forall|k: int|
                    0 <= k < i ==> #[trigger] columns@[k]@ == (ColumnView {
                        component: components@[k],
                        element_size: self@.component_sizes[components@[k] as int],
                        data_version: 0,
                        data: Seq::empty(),
                    }),
        {
            let c = components[i];
            columns.push(
                Column {
                    component: c,
                    element_size: self.component_sizes[c],
                    data_version: 0,
                    data: Vec::new(),
                },
            );
        }
        let id = self.next_archetype_id;
        self.next_archetype_id = self.next_archetype_id + 1;
        self.archetypes.push(Archetype { id, entity_ids: Vec::new(), columns });
        proof {
            let newarch = self@.archs[self@.archs.len() - 1];
            assert(newarch.columns =~= Seq::new(
                components@.len(),
                |j: int| ColumnView {
                    component: components@[j],
                    element_size: old(self)@.component_sizes[components@[j] as int],
                    data_version: 0,
                    data: Seq::empty(),
                },
            ));
            assert(final(self)@.archs =~= old(self)@.archs.push(newarch));
        }
        Some(id)
    }

    /// Removes the archetype with the given id; reports whether it existed.
    pub fn destroy_archetype(&mut self, arch_id: usize) -> (r: bool)
        requires
            old(self)@.wf(),
        ensures
            final(self)@.wf(),
            r == old(self)@.has_arch(arch_id),
            if r {
                final(self)@ == (WorldView {
                    archs: old(self)@.archs.remove(old(self)@.arch_index_of(arch_id)),
                    ..old(self)@
                })
            } else {
                final(self)@ == old(self)@
            },
    {
        match self.arch_index(arch_id) {
            Some(i) => {
                self.archetypes.remove(i);
                proof {
                    assert(self@.archs =~= old(self)@.archs.remove(
                        old(self)@.arch_index_of(arch_id),
                    ));
                    assert forall|k: int| 0 <= k < self@.archs.len() implies #[trigger] self@.archs[k]
                        == (if k < i { old(self)@.archs[k] } else { old(self)@.archs[k + 1] }) by {}
                }
                true
            },
            None => false,
        }
    }

    /// Adds one entity slot to the archetype with the given id, zero-filled
    /// in every column; reports whether the archetype existed.
    #[verifier::rlimit(30)]
    pub fn spawn_entity(&mut self, arch_id: usize, entity: u64) -> (r: bool)
        requires
            old(self)@.wf(),
        ensures
            final(self)@.wf(),
            r == old(self)@.has_arch(arch_id),
            if r {
                final(self)@ == with_spawned(old(self)@, arch_id, entity)
            } else {
                final(self)@ == old(self)@
            },
    {
        let ai = match self.arch_index(arch_id) {
            Some(i) => i,
            None => {
                return false;
            },
        };
        let arch = &mut self.archetypes[ai];
        arch.entity_ids.push(entity);
        let ncols = arch.columns.len();
        for j in 0..ncols
            invariant
                ncols == arch.columns@.len(),
                arch.id == old(self)@.archs[ai as int].id,
                arch.entity_ids@ == old(self)@.archs[ai as int].entities.push(entity),
                arch.columns@.len() == old(self)@.archs[ai as int].columns.len(),
                forall|k: int|
                    j <= k < ncols ==> #[trigger] arch.columns@[k]@ == old(self)@.archs[
                        ai as int
                    ].columns[k],
                forall|k: int|
                    0 <= k < j ==> #[trigger] arch.columns@[k]@ == (ColumnView {
                        data: old(self)@.archs[ai as int].columns[k].data + zero_bytes(
                            old(self)@.archs[ai as int].columns[k].element_size as int,
                        ),
                        ..old(self)@.archs[ai as int].columns[k]
                    }),
        {
            let col = &mut arch.columns[j];
            col.push_zero_element();
        }
        proof {
            let ai_s = old(self)@.arch_index_of(arch_id);
            let a = old(self)@.archs[ai_s];
            assert(self@.archs[ai_s].columns =~= with_spawned(
                old(self)@,
                arch_id,
                entity,
            ).archs[ai_s].columns);
            assert(self@.archs =~= with_spawned(old(self)@, arch_id, entity).archs);
            assert(self@ == with_spawned(old(self)@, arch_id, entity));
            lemma_with_spawned_wf(old(self)@, arch_id, entity);
        }
        true
    }

    /// Overwrites the value of `component` at entity slot `index` of the
    /// archetype with id `arch_id` and bumps the column's data version.
    /// Reports whether the write happened: it does if and only if the
    /// archetype exists, carries the component, the slot is in range and
    /// `bytes` is exactly one element.
    #[verifier::rlimit(30)]
    pub fn write_component(
        &mut self,
        arch_id: usize,
        component: usize,
        index: usize,
        bytes: &[u8],
    ) -> (r: bool)
        requires
            old(self)@.wf(),
            old(self)@.has_arch(arch_id) && old(self)@.arch_of(arch_id).has_component(component)
                ==> old(self)@.arch_of(arch_id).column_of(component).data_version < u64::MAX,
        ensures
            final(self)@.wf(),
            r == {
                &&& old(self)@.has_arch(arch_id)
                &&& old(self)@.arch_of(arch_id).has_component(component)
                &&& index < old(self)@.arch_of(arch_id).entities.len()
                &&& bytes@.len() == old(self)@.arch_of(arch_id).column_of(component).element_size
            },
            if r {
                final(self)@ == with_written(old(self)@, arch_id, component, index, bytes@)
            } else {
                final(self)@ == old(self)@
            },
    {
        let ai = match self.arch_index(arch_id) {
            Some(i) => i,
            None => {
                return false;
            },
        };
        let arch = &self.archetypes[ai];
        let ci = match arch.column_index(component) {
            Some(j) => j,
            None => {
                return false;
            },
        };
        if index >= arch.entity_ids.len() {
            return false;
        }
        let es = arch.columns[ci].element_size;
        if bytes.len() != es {
            return false;
        }
        let dlen = arch.columns[ci].data.len();
        proof {
            let a = old(self)@.archs[ai as int];
            assert(a.columns[ci as int].data.len() == a.entities.len() * es);
            assert(index * es + es <= a.entities.len() * es) by (nonlinear_arith)
                requires
                    index < a.entities.len(),
                    0 <= es,
            ;
            assert(index * es + es <= dlen);
        }
        let offset = index * es;
        let col = &mut self.archetypes[ai].columns[ci];
        col.write_at(offset, bytes);
        col.bump_version();
        proof {
            let ai_s = old(self)@.arch_index_of(arch_id);
            assert(ai_s == ai);
            let ci_s = choose|j: int|
                0 <= j < old(self)@.archs[ai_s].columns.len() && old(self)@.archs[
                    ai_s
                ].columns[j].component == component;
            assert(ci_s == ci);
            assert(self@.archs[ai as int].columns =~= with_written(
                old(self)@,
                arch_id,
                component,
                index,
                bytes@,
            ).archs[ai as int].columns);
            assert(self@.archs =~= with_written(
                old(self)@,
                arch_id,
                component,
                index,
                bytes@,
            ).archs);
            assert(self@ == with_written(old(self)@, arch_id, component, index, bytes@));
            lemma_with_written_wf(old(self)@, arch_id, component, index, bytes@);
        }
        true
    }
}

} // verus!
