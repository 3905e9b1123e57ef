//! Per-frame systems that copy CPU component columns into their GPU
//! buffer regions, and the change tracker that makes the copies
//! edge-triggered: an archetype is re-uploaded exactly when its column's
//! data version or its region's layout version moved since the last look.

use vstd::prelude::*;

use crate::ecs::Archetype;
use crate::ecs::ArchetypeView;
use crate::ecs::ArchetypeFilter;
use crate::ecs::ComponentDesc;
use crate::ecs::FilterView;
use crate::ecs::World;
use crate::ecs::WorldView;
use crate::gpu_world::GpuComponentFormat;
use crate::gpu_world::GpuComponentId;
use crate::gpu_world::GpuWorld;
use crate::gpu_world::GpuWorldView;
use crate::gpu_world::all_plans_fit;
use crate::gpu_world::any_dest_changed;
use crate::gpu_world::format_size;
use crate::gpu_world::gpu_with_write;
use crate::gpu_world::layout_current;
use crate::gpu_world::lemma_current_alloc_size;
use crate::gpu_world::relayout;
use crate::sparse::SparseVec;

verus! {

/// The event on which GPU sync systems run.  They must run immediately
/// after the GPU world has recomputed its layout — that is the only time
/// the layout is known to be current — so the frame driver hands them this
/// dedicated event rather than a general frame event.
pub struct GpuWorldSyncEvent {}

/// What a change tracker remembers: per archetype id, the data version and
/// the layout version it saw at the previous check.
pub struct TrackerView {
    pub data_versions: Map<int, u64>,
    pub layout_versions: Map<int, u64>,
}

/// Whether a check against these current versions reports a change: it
/// does unless both recorded versions exist and are equal to the current
/// ones.  A first check (nothing recorded) always reports a change.
pub open spec fn tracker_reports(
    t: TrackerView,
    arch_id: int,
    data_version: u64,
    layout_version: u64,
) -> bool {
    !(t.data_versions.contains_key(arch_id) && t.data_versions[arch_id] == data_version
        && t.layout_versions.contains_key(arch_id) && t.layout_versions[arch_id]
        == layout_version)
}

/// The tracker after a check: both current versions are recorded,
/// whatever the check reported.  This is what makes detection
/// edge-triggered: one change is reported exactly once.
pub open spec fn tracker_record(
    t: TrackerView,
    arch_id: int,
    data_version: u64,
    layout_version: u64,
) -> TrackerView {
    TrackerView {
        data_versions: t.data_versions.insert(arch_id, data_version),
        layout_versions: t.layout_versions.insert(arch_id, layout_version),
    }
}

/// Per-archetype change detection for one sync system.  Each system owns
/// its tracker; records are never shared across systems.
pub struct ArchChangeDetection {
    arch_data_versions: SparseVec<u64>,
    arch_layout_versions: SparseVec<u64>,
}

impl View for ArchChangeDetection {
    type V = TrackerView;

    closed spec fn view(&self) -> TrackerView {
        TrackerView {
            data_versions: self.arch_data_versions@,
            layout_versions: self.arch_layout_versions@,
        }
    }
}

impl ArchChangeDetection {
    /// A tracker with no records: every archetype's first check will
    /// report a change.
    pub fn new() -> (r: Self)
        ensures
            r@.data_versions == Map::<int, u64>::empty(),
            r@.layout_versions == Map::<int, u64>::empty(),
    {
        ArchChangeDetection {
            arch_data_versions: SparseVec::new(),
            arch_layout_versions: SparseVec::new(),
        }
    }

    /// Whether the archetype's tracked component or its region moved since
    /// the previous check: true exactly when the recorded data version
    /// differs from the column's current one, or the recorded layout
    /// version differs from `layout_version` (or nothing was recorded).
    /// Unconditionally records the current versions, so a given change is
    /// reported exactly once.  The archetype must carry the component;
    /// sync systems guarantee that by construction through their filter.
    pub fn changed(&mut self, arch: &Archetype, component: ComponentDesc, layout_version: u64) -> (r:
        bool)
        requires
            arch@.wf(),
            arch@.has_component(component.id),
        ensures
            r == tracker_reports(
                old(self)@,
                arch@.id as int,
                arch@.column_of(component.id).data_version,
                layout_version,
            ),
            final(self)@ == tracker_record(
                old(self)@,
                arch@.id as int,
                arch@.column_of(component.id).data_version,
                layout_version,
            ),
    {
        let id = arch.id();
        let data_version = match arch.get_component_data_version(component.id) {
            Some(v) => v,
            None => 0,
        };
        let changed_data = match self.arch_data_versions.get(id) {
            Some(v) => *v != data_version,
            None => true,
        };
        let changed_layout = match self.arch_layout_versions.get(id) {
            Some(v) => *v != layout_version,
            None => true,
        };
        self.arch_data_versions.set(id, data_version);
        self.arch_layout_versions.set(id, layout_version);
        changed_data || changed_layout
    }
}

/// Ghost image of a [`ComponentToGpuSystem`].
pub struct DirectSystemView {
    pub format: GpuComponentFormat,
    pub source: ComponentDesc,
    pub dest: GpuComponentId,
    pub filter: FilterView,
    pub tracker: TrackerView,
}

impl DirectSystemView {
    /// The system's filter only passes archetypes that carry the source
    /// component, so a passed archetype always has a column to read.
    pub open spec fn wf(self) -> bool {
        self.filter.incl.contains(self.source.id)
    }
}

/// One sync step of a direct-copy system on one archetype: if the
/// archetype passes the filter and has a region under the system's
/// destination, the current versions are recorded and — exactly when one
/// of them moved — the whole column is written over the region.  Archetypes
/// without a region are skipped untouched, tracker included.
pub open spec fn direct_step(
    s: DirectSystemView,
    a: ArchetypeView,
    g: GpuWorldView,
    t: TrackerView,
) -> (GpuWorldView, TrackerView) {
    if s.filter.matches(a) && g.has_dest(s.format, s.dest) && g.dest_has_arch(
        g.dest_index_of(s.format, s.dest),
        a.id,
    ) {
        let di = g.dest_index_of(s.format, s.dest);
        let al = g.alloc_of(di, a.id);
        let col = a.column_of(s.source.id);
        let t2 = tracker_record(t, a.id as int, col.data_version, al.layout_version);
        if tracker_reports(t, a.id as int, col.data_version, al.layout_version) {
            (gpu_with_write(g, di, al.offset as int, col.data), t2)
        } else {
            (g, t2)
        }
    } else {
        (g, t)
    }
}

/// A direct-copy system's whole pass over the first `n` archetypes of the
/// world, in order.
pub open spec fn direct_pass(
    s: DirectSystemView,
    w: WorldView,
    g: GpuWorldView,
    t: TrackerView,
    n: int,
) -> (GpuWorldView, TrackerView)
    decreases n,
{
    if n <= 0 {
        (g, t)
    } else {
        let prev = direct_pass(s, w, g, t, n - 1);
        direct_step(s, w.archs[n - 1], prev.0, prev.1)
    }
}

/// Copies one CPU component's columns into GPU buffer regions, unchanged:
/// the CPU value is already bit-identical to the GPU representation, which
/// is why construction insists that the declared format's byte size equal
/// the CPU component's.
pub struct ComponentToGpuSystem {
    format: GpuComponentFormat,
    source_component: ComponentDesc,
    destination_component: GpuComponentId,
    source_archetypes: ArchetypeFilter,
    changed: ArchChangeDetection,
}

impl View for ComponentToGpuSystem {
    type V = DirectSystemView;

    closed spec fn view(&self) -> DirectSystemView {
        DirectSystemView {
            format: self.format,
            source: self.source_component,
            dest: self.destination_component,
            filter: self.source_archetypes@,
            tracker: self.changed@,
        }
    }
}

impl ComponentToGpuSystem {
    /// A direct-copy system from `source_component` to
    /// `destination_component`.  The declared GPU format must have exactly
    /// the CPU component's byte size — a mismatch is a programming error
    /// caught at construction, never at frame time.
    pub fn new(
        format: GpuComponentFormat,
        source_component: ComponentDesc,
        destination_component: GpuComponentId,
    ) -> (r: Self)
        requires
            format_size(format) == source_component.size,
        ensures
            r@.wf(),
            r@.format == format,
            r@.source == source_component,
            r@.dest == destination_component,
            r@.filter.incl == Seq::<usize>::empty().push(source_component.id),
            r@.filter.excl == Seq::<usize>::empty(),
            r@.tracker.data_versions == Map::<int, u64>::empty(),
            r@.tracker.layout_versions == Map::<int, u64>::empty(),
    {
        let r = ComponentToGpuSystem {
            format,
            source_component,
            destination_component,
            source_archetypes: ArchetypeFilter::new().incl(source_component.id),
            changed: ArchChangeDetection::new(),
        };
        proof {
            assert(r@.filter.incl[0] == source_component.id);
            assert(r@.filter.incl.contains(source_component.id));
        }
        r
    }

    /// Like [`ComponentToGpuSystem::new`], but reports a size mismatch as
    /// `None` instead of demanding the check from the caller: `Some` if
    /// and only if the format's byte size equals the component's.
    pub fn try_new(
        format: GpuComponentFormat,
        source_component: ComponentDesc,
        destination_component: GpuComponentId,
    ) -> (r: Option<Self>)
        ensures
            r is Some <==> format_size(format) == source_component.size,
            match r {
                Some(s) => s@.wf() && s@.format == format && s@.source == source_component
                    && s@.dest == destination_component,
                None => true,
            },
    {
        if format.size() == source_component.size {
            Some(Self::new(format, source_component, destination_component))
        } else {
            None
        }
    }

    /// Narrows which archetypes the system looks at.  The filter must
    /// still require the source component, so that every passed archetype
    /// has a column to read.
    pub fn with_arch_filter(self, arch_filter: ArchetypeFilter) -> (r: Self)
        requires
            arch_filter@.incl.contains(self@.source.id),
        ensures
            r@ == (DirectSystemView { filter: arch_filter@, ..self@ }),
            r@.wf(),
    {
        let mut s = self;
        s.source_archetypes = arch_filter;
        s
    }

    /// One frame of this system: walks the archetypes in order and, for
    /// each one that passes the filter and has a region under the system's
    /// destination, re-uploads the whole column exactly when its data
    /// version or the region's layout version moved since the previous
    /// frame.  Requires the layout to be current — the layout recompute of
    /// the same frame must already have run.
    #[verifier::loop_isolation(false)]
    pub fn run(&mut self, world: &World, gpu_world: &mut GpuWorld, _event: &GpuWorldSyncEvent)
        requires
            world@.wf(),
            old(gpu_world)@.wf(),
            layout_current(old(gpu_world)@, world@),
            old(self)@.wf(),
            format_size(old(self)@.format) == old(self)@.source.size,
            old(self)@.source.id < world@.component_sizes.len(),
            world@.component_sizes[old(self)@.source.id as int] == old(self)@.source.size,
        ensures
            final(self)@ == (DirectSystemView {
                tracker: direct_pass(
                    old(self)@,
                    world@,
                    old(gpu_world)@,
                    old(self)@.tracker,
                    world@.archs.len() as int,
                ).1,
                ..old(self)@
            }),
            final(gpu_world)@ == direct_pass(
                old(self)@,
                world@,
                old(gpu_world)@,
                old(self)@.tracker,
                world@.archs.len() as int,
            ).0,
            final(gpu_world)@.wf(),
            layout_current(final(gpu_world)@, world@),
            final(gpu_world)@.destinations == old(gpu_world)@.destinations,
            final(gpu_world)@.layout_version == old(gpu_world)@.layout_version,
            final(gpu_world)@.layouts.len() == old(gpu_world)@.layouts.len(),
            forall|di: int|
                0 <= di < old(gpu_world)@.layouts.len() ==> (
                #[trigger] final(gpu_world)@.layouts[di]).allocs == old(gpu_world)@.layouts[
                    di
                ].allocs && final(gpu_world)@.layouts[di].data.len() == old(gpu_world)@.layouts[
                    di
                ].data.len(),
    {
        let ghost s0 = old(self)@;
        let ghost g0 = old(gpu_world)@;
        let ghost t0 = old(self)@.tracker;
        let na = world.num_archetypes();
        for i in 0..na
            invariant
                self@.format == s0.format,
                self@.source == s0.source,
                self@.dest == s0.dest,
                self@.filter == s0.filter,
                gpu_world@.wf(),
                layout_current(gpu_world@, world@),
                gpu_world@.destinations == g0.destinations,
                gpu_world@.layout_version == g0.layout_version,
                gpu_world@.layouts.len() == g0.layouts.len(),
                forall|di: int|
                    0 <= di < g0.layouts.len() ==> (#[trigger] gpu_world@.layouts[di]).allocs
                        == g0.layouts[di].allocs && gpu_world@.layouts[di].data.len()
                        == g0.layouts[di].data.len(),
                (gpu_world@, self@.tracker) == direct_pass(s0, world@, g0, t0, i as int),
        {
            let ghost g_i = gpu_world@;
            let ghost t_i = self@.tracker;
            let arch = world.archetype_at(i);
            if self.source_archetypes.matches(arch) {
                match gpu_world.get_buffer(self.format, self.destination_component, arch.id()) {
                    Some((buf, offset, layout_version)) => {
                        proof {
                            assert(world@.archs[i as int].has_component(s0.source.id));
                        }
                        let is_changed = self.changed.changed(
                            arch,
                            self.source_component,
                            layout_version,
                        );
                        if is_changed {
                            match arch.get_component_buffer(self.source_component.id) {
                                Some(data) => {
                                    proof {
                                        lemma_current_alloc_size(
                                            g_i,
                                            world@,
                                            buf as int,
                                            i as int,
                                        );
                                        let a = world@.archs[i as int];
                                        let col = a.column_of(s0.source.id);
                                        assert(col.element_size == s0.source.size);
                                        assert(col.data.len() == a.entities.len()
                                            * col.element_size);
                                        assert(g_i.alloc_of(buf as int, a.id).size
                                            == a.entities.len() * format_size(s0.format));
                                        assert(data@.len() == g_i.alloc_of(
                                            buf as int,
                                            a.id,
                                        ).size);
                                        assert(g_i.alloc_of(buf as int, a.id).offset + g_i.alloc_of(
                                            buf as int,
                                            a.id,
                                        ).size <= g_i.layouts[buf as int].data.len());
                                    }
                                    gpu_world.write_buffer(buf, offset, data.as_slice());
                                },
                                None => {
                                    proof {
                                        assert(false);
                                    }
                                },
                            }
                        }
                    },
                    None => {},
                }
            }
            proof {
                assert(direct_pass(s0, world@, g0, t0, i + 1) == direct_step(
                    s0,
                    world@.archs[i as int],
                    g_i,
                    t_i,
                ));
                assert((gpu_world@, self@.tracker) == direct_pass(s0, world@, g0, t0, i + 1));
                assert forall|di: int|
                    0 <= di < gpu_world@.destinations.len() implies !crate::gpu_world::dest_changed(
                    gpu_world@,
                    world@,
                    di,
                ) by {
                    assert(gpu_world@.layouts[di].allocs == g_i.layouts[di].allocs);
                    assert(!crate::gpu_world::dest_changed(g_i, world@, di));
                }
            }
        }
    }
}

/// A pure element transformation applied by a mapped sync system: the CPU
/// value is re-encoded, element by element, into the GPU representation
/// (a packed or derived form that exists as no CPU component).  Systems
/// are given the world and the owning entity alongside the raw value.
pub trait GpuComponentMap: Sized {
    /// Byte size of one mapped (GPU-side) element.
    spec fn out_size(&self) -> int;

    /// What the transformation produces for one element.
    spec fn map_spec(&self, w: WorldView, entity: u64, value: Seq<u8>) -> Seq<u8>;

    /// Every mapped element has exactly the declared output size.
    proof fn map_spec_len(&self, w: WorldView, entity: u64, value: Seq<u8>)
        ensures
            self.map_spec(w, entity, value).len() == self.out_size(),
    ;

    /// Byte size of one mapped element, as a runtime value.
    fn output_size(&self) -> (r: usize)
        ensures
            r as int == self.out_size(),
    ;

    /// Transforms one element.
    fn map(&self, world: &World, entity: u64, value: &[u8]) -> (r: Vec<u8>)
        ensures
            r@ == self.map_spec(world@, entity, value@),
    ;
}

/// The raw bytes of element `j` of a column.
pub open spec fn element_bytes(col: crate::ecs::ColumnView, j: int) -> Seq<u8> {
    col.data.subrange(j * col.element_size, (j + 1) * col.element_size)
}

/// The concatenated transformation of the first `j` elements of a column,
/// in entity-slot order.
pub open spec fn mapped_bytes_upto<M: GpuComponentMap>(
    m: M,
    w: WorldView,
    a: ArchetypeView,
    col: crate::ecs::ColumnView,
    j: int,
) -> Seq<u8>
    decreases j,
{
    if j <= 0 {
        Seq::empty()
    } else {
        mapped_bytes_upto(m, w, a, col, j - 1) + m.map_spec(
            w,
            a.entities[j - 1],
            element_bytes(col, j - 1),
        )
    }
}

/// The bytes a mapped system uploads for one archetype: every element of
/// the column transformed and concatenated.
pub open spec fn mapped_bytes<M: GpuComponentMap>(
    m: M,
    w: WorldView,
    a: ArchetypeView,
    col: crate::ecs::ColumnView,
) -> Seq<u8> {
    mapped_bytes_upto(m, w, a, col, a.entities.len() as int)
}

/// The transformed column of `j` elements is exactly `j` output elements
/// long.
pub proof fn lemma_mapped_bytes_len<M: GpuComponentMap>(
    m: M,
    w: WorldView,
    a: ArchetypeView,
    col: crate::ecs::ColumnView,
    j: int,
)
    requires
        j >= 0,
    ensures
        mapped_bytes_upto(m, w, a, col, j).len() == j * m.out_size(),
    decreases j,
{
    if j == 0 {
        assert(0 * m.out_size() == 0) by (nonlinear_arith);
    } else {
        lemma_mapped_bytes_len(m, w, a, col, j - 1);
        m.map_spec_len(w, a.entities[j - 1], element_bytes(col, j - 1));
        assert(j * m.out_size() == (j - 1) * m.out_size() + m.out_size()) by (nonlinear_arith);
    }
}

/// Ghost image of a [`MappedComponentToGpuSystem`].
pub struct MappedSystemView<M: GpuComponentMap> {
    pub format: GpuComponentFormat,
    pub source: ComponentDesc,
    pub dest: GpuComponentId,
    pub mapper: M,
    pub tracker: TrackerView,
}

/// One sync step of a mapped system on one archetype: as
/// [`direct_step`], except that every archetype with a region is
/// considered (no filter) and the written bytes are the transformed
/// column, not the raw one.
pub open spec fn mapped_step<M: GpuComponentMap>(
    s: MappedSystemView<M>,
    w: WorldView,
    a: ArchetypeView,
    g: GpuWorldView,
    t: TrackerView,
) -> (GpuWorldView, TrackerView) {
    if g.has_dest(s.format, s.dest) && g.dest_has_arch(g.dest_index_of(s.format, s.dest), a.id) {
        let di = g.dest_index_of(s.format, s.dest);
        let al = g.alloc_of(di, a.id);
        let col = a.column_of(s.source.id);
        let t2 = tracker_record(t, a.id as int, col.data_version, al.layout_version);
        if tracker_reports(t, a.id as int, col.data_version, al.layout_version) {
            (gpu_with_write(g, di, al.offset as int, mapped_bytes(s.mapper, w, a, col)), t2)
        } else {
            (g, t2)
        }
    } else {
        (g, t)
    }
}

/// A mapped system's whole pass over the first `n` archetypes of the
/// world, in order.
pub open spec fn mapped_pass<M: GpuComponentMap>(
    s: MappedSystemView<M>,
    w: WorldView,
    g: GpuWorldView,
    t: TrackerView,
    n: int,
) -> (GpuWorldView, TrackerView)
    decreases n,
{
    if n <= 0 {
        (g, t)
    } else {
        let prev = mapped_pass(s, w, g, t, n - 1);
        mapped_step(s, w, w.archs[n - 1], prev.0, prev.1)
    }
}

/// Copies one CPU component's columns into GPU buffer regions through a
/// pure per-element transformation: used when the GPU-side representation
/// is a packed or derived form that exists as no CPU component.
pub struct MappedComponentToGpuSystem<M: GpuComponentMap> {
    format: GpuComponentFormat,
    source_component: ComponentDesc,
    destination_component: GpuComponentId,
    map: M,
    changed: ArchChangeDetection,
}

impl<M: GpuComponentMap> View for MappedComponentToGpuSystem<M> {
    type V = MappedSystemView<M>;

    closed spec fn view(&self) -> MappedSystemView<M> {
        MappedSystemView {
            format: self.format,
            source: self.source_component,
            dest: self.destination_component,
            mapper: self.map,
            tracker: self.changed@,
        }
    }
}

impl<M: GpuComponentMap> MappedComponentToGpuSystem<M> {
    /// A mapped system from `source_component` to
    /// `destination_component`.  The declared GPU format must have exactly
    /// the transformation's output byte size — a mismatch is a programming
    /// error caught at construction, never at frame time.
    pub fn new(
        format: GpuComponentFormat,
        source_component: ComponentDesc,
        destination_component: GpuComponentId,
        map: M,
    ) -> (r: Self)
        requires
            format_size(format) == map.out_size(),
        ensures
            r@.format == format,
            r@.source == source_component,
            r@.dest == destination_component,
            r@.mapper == map,
            r@.tracker.data_versions == Map::<int, u64>::empty(),
            r@.tracker.layout_versions == Map::<int, u64>::empty(),
    {
        MappedComponentToGpuSystem {
            format,
            source_component,
            destination_component,
            map,
            changed: ArchChangeDetection::new(),
        }
    }

    /// Like [`MappedComponentToGpuSystem::new`], but reports a size
    /// mismatch as `None` instead of demanding the check from the caller:
    /// `Some` if and only if the format's byte size equals the
    /// transformation's output size.
    pub fn try_new(
        format: GpuComponentFormat,
        source_component: ComponentDesc,
        destination_component: GpuComponentId,
        map: M,
    ) -> (r: Option<Self>)
        ensures
            r is Some <==> format_size(format) == map.out_size(),
            match r {
                Some(s) => s@.format == format && s@.source == source_component && s@.dest
                    == destination_component && s@.mapper == map,
                None => true,
            },
    {
        if format.size() == map.output_size() {
            Some(Self::new(format, source_component, destination_component, map))
        } else {
            None
        }
    }

    /// One frame of this system: walks all archetypes in order and, for
    /// each one with a region under the system's destination, re-uploads
    /// the transformed column exactly when its data version or the
    /// region's layout version moved since the previous frame.  Requires
    /// the layout to be current, and the destination to be registered over
    /// this system's own source component.
    #[verifier::loop_isolation(false)]
    #[verifier::rlimit(30)]
    pub fn run(&mut self, world: &World, gpu_world: &mut GpuWorld, _event: &GpuWorldSyncEvent)
        requires
            world@.wf(),
            old(gpu_world)@.wf(),
            layout_current(old(gpu_world)@, world@),
            format_size(old(self)@.format) == old(self)@.mapper.out_size(),
            old(gpu_world)@.has_dest(old(self)@.format, old(self)@.dest) ==> old(
                gpu_world,
            )@.destinations[old(gpu_world)@.dest_index_of(
                old(self)@.format,
                old(self)@.dest,
            )].source_component == old(self)@.source.id,
            old(self)@.source.id < world@.component_sizes.len(),
            world@.component_sizes[old(self)@.source.id as int] == old(self)@.source.size,
        ensures
            final(self)@ == (MappedSystemView {
                tracker: mapped_pass(
                    old(self)@,
                    world@,
                    old(gpu_world)@,
                    old(self)@.tracker,
                    world@.archs.len() as int,
                ).1,
                ..old(self)@
            }),
            final(gpu_world)@ == mapped_pass(
                old(self)@,
                world@,
                old(gpu_world)@,
                old(self)@.tracker,
                world@.archs.len() as int,
            ).0,
            final(gpu_world)@.wf(),
            layout_current(final(gpu_world)@, world@),
            final(gpu_world)@.destinations == old(gpu_world)@.destinations,
            final(gpu_world)@.layout_version == old(gpu_world)@.layout_version,
            final(gpu_world)@.layouts.len() == old(gpu_world)@.layouts.len(),
            forall|di: int|
                0 <= di < old(gpu_world)@.layouts.len() ==> (
                #[trigger] final(gpu_world)@.layouts[di]).allocs == old(gpu_world)@.layouts[
                    di
                ].allocs && final(gpu_world)@.layouts[di].data.len() == old(gpu_world)@.layouts[
                    di
                ].data.len(),
    {
        let ghost s0 = old(self)@;
        let ghost g0 = old(gpu_world)@;
        let ghost t0 = old(self)@.tracker;
        let na = world.num_archetypes();
        for i in 0..na
            invariant
                self@.format == s0.format,
                self@.source == s0.source,
                self@.dest == s0.dest,
                self@.mapper == s0.mapper,
                gpu_world@.wf(),
                layout_current(gpu_world@, world@),
                gpu_world@.destinations == g0.destinations,
                gpu_world@.layout_version == g0.layout_version,
                gpu_world@.layouts.len() == g0.layouts.len(),
                forall|di: int|
                    0 <= di < g0.layouts.len() ==> (#[trigger] gpu_world@.layouts[di]).allocs
                        == g0.layouts[di].allocs && gpu_world@.layouts[di].data.len()
                        == g0.layouts[di].data.len(),
                (gpu_world@, self@.tracker) == mapped_pass(s0, world@, g0, t0, i as int),
        {
            let ghost g_i = gpu_world@;
            let ghost t_i = self@.tracker;
            let arch = world.archetype_at(i);
            match gpu_world.get_buffer(self.format, self.destination_component, arch.id()) {
                Some((buf, offset, layout_version)) => {
                    proof {
                        lemma_current_alloc_size(g_i, world@, buf as int, i as int);
                        assert(world@.archs[i as int].has_component(s0.source.id));
                    }
                    let is_changed = self.changed.changed(
                        arch,
                        self.source_component,
                        layout_version,
                    );
                    if is_changed {
                        match arch.get_component_buffer(self.source_component.id) {
                            Some(data) => {
                                let ghost a = world@.archs[i as int];
                                let ghost col = a.column_of(s0.source.id);
                                let es = self.source_component.size;
                                let count = arch.entity_count();
                                let out_size = self.map.output_size();
                                proof {
                                    assert(col.element_size == es);
                                    assert(col.data.len() == a.entities.len() * es);
                                }
                                let dlen = data.len();
                                let mut out: Vec<u8> = Vec::new();
                                for j in 0..count
                                    invariant
                                        count == a.entities.len(),
                                        es == col.element_size,
                                        data@ == col.data,
                                        dlen == data@.len(),
                                        data@.len() == count * es,
                                        out@ == mapped_bytes_upto(s0.mapper, world@, a, col, j as int),
                                        self@.mapper == s0.mapper,
                                        self@.source == s0.source,
                                {
                                    proof {
                                        assert((j + 1) * es <= count * es && j * es + es == (j + 1)
                                            * es) by (nonlinear_arith)
                                            requires
                                                0 <= j < count,
                                                0 <= es,
                                        ;
                                        assert(j * es + es <= dlen);
                                    }
                                    let mut elem: Vec<u8> = Vec::new();
                                    let base = j * es;
                                    for b in 0..es
                                        invariant
                                            base == j * es,
                                            base + es <= dlen,
                                            dlen == data@.len(),
                                            elem@.len() == b,
                                            elem@ == data@.subrange(
                                                base as int,
                                                base + b as int,
                                            ),
                                    {
                                        elem.push(data[base + b]);
                                        proof {
                                            assert(elem@ =~= data@.subrange(
                                                base as int,
                                                base + b + 1,
                                            ));
                                        }
                                    }
                                    proof {
                                        assert(elem@ =~= element_bytes(col, j as int));
                                    }
                                    let entity = arch.entity_id_at(j);
                                    let mut piece = self.map.map(world, entity, elem.as_slice());
                                    out.append(&mut piece);
                                    proof {
                                        assert(out@ =~= mapped_bytes_upto(
                                            s0.mapper,
                                            world@,
                                            a,
                                            col,
                                            j + 1,
                                        ));
                                    }
                                }
                                proof {
                                    lemma_mapped_bytes_len(
                                        s0.mapper,
                                        world@,
                                        a,
                                        col,
                                        count as int,
                                    );
                                    assert(out@.len() == count * s0.mapper.out_size());
                                    assert(g_i.alloc_of(buf as int, a.id).size == a.entities.len()
                                        * format_size(s0.format));
                                    assert(out@.len() == g_i.alloc_of(buf as int, a.id).size);
                                    assert(g_i.alloc_of(buf as int, a.id).offset + g_i.alloc_of(
                                        buf as int,
                                        a.id,
                                    ).size <= g_i.layouts[buf as int].data.len());
                                }
                                gpu_world.write_buffer(buf, offset, out.as_slice());
                            },
                            None => {
                                proof {
                                    assert(false);
                                }
                            },
                        }
                    }
                },
                None => {},
            }
            proof {
                assert(mapped_pass(s0, world@, g0, t0, i + 1) == mapped_step(
                    s0,
                    world@,
                    world@.archs[i as int],
                    g_i,
                    t_i,
                ));
                assert((gpu_world@, self@.tracker) == mapped_pass(s0, world@, g0, t0, i + 1));
                assert forall|di: int|
                    0 <= di < gpu_world@.destinations.len() implies !crate::gpu_world::dest_changed(
                    gpu_world@,
                    world@,
                    di,
                ) by {
                    assert(gpu_world@.layouts[di].allocs == g_i.layouts[di].allocs);
                    assert(!crate::gpu_world::dest_changed(g_i, world@, di));
                }
            }
        }
    }
}

/// A transformation that keeps the leading bytes of the CPU value (and
/// zero-pads a shorter one): the simplest packed GPU representation of a
/// wider CPU component.
pub struct LeadingBytesMap {
    /// Byte size of one packed element.
    pub packed_size: usize,
}

impl GpuComponentMap for LeadingBytesMap {
    open spec fn out_size(&self) -> int {
        self.packed_size as int
    }

    open spec fn map_spec(&self, w: WorldView, entity: u64, value: Seq<u8>) -> Seq<u8> {
        Seq::new(
            self.packed_size as nat,
            |b: int|
                if b < value.len() {
                    value[b]
                } else {
                    0u8
                },
        )
    }

    proof fn map_spec_len(&self, w: WorldView, entity: u64, value: Seq<u8>) {
    }

    fn output_size(&self) -> (r: usize) {
        self.packed_size
    }

    fn map(&self, world: &World, entity: u64, value: &[u8]) -> (r: Vec<u8>) {
        let n = self.packed_size;
        let avail = value.len();
        let mut out: Vec<u8> = Vec::new();
        for b in 0..n
            invariant
                avail == value@.len(),
                out@.len() == b,
                forall|i: int|
                    0 <= i < b ==> out@[i] == (if i < value@.len() {
                        value@[i]
                    } else {
                        0u8
                    }),
        {
            if b < avail {
                out.push(value[b]);
            } else {
                out.push(0u8);
            }
        }
        proof {
            assert(out@ =~= self.map_spec(world@, entity, value@));
        }
        out
    }
}

/// A frame event for systems that do their work (or none) on the general
/// per-frame tick rather than the GPU sync event.
pub struct FrameEvent {}

/// A system that does nothing: it stands in where a slot in a system list
/// must be filled but no work is wanted.
pub struct DummySystem {}

impl DummySystem {
    /// Does nothing and changes nothing.
    pub fn run(&mut self, world: &mut World, _event: &FrameEvent)
        ensures
            final(world)@ == old(world)@,
    {
    }
}

/// One registered sync system of either variant.
pub enum SyncSystem<M: GpuComponentMap> {
    /// Copies columns unchanged.
    Direct(ComponentToGpuSystem),
    /// Copies columns through a per-element transformation.
    Mapped(MappedComponentToGpuSystem<M>),
}

/// Ghost image of a [`SyncSystem`].
pub enum SyncSystemView<M: GpuComponentMap> {
    /// Image of the direct variant.
    Direct(DirectSystemView),
    /// Image of the mapped variant.
    Mapped(MappedSystemView<M>),
}

impl<M: GpuComponentMap> View for SyncSystem<M> {
    type V = SyncSystemView<M>;

    closed spec fn view(&self) -> SyncSystemView<M> {
        match self {
            SyncSystem::Direct(s) => SyncSystemView::Direct(s@),
            SyncSystem::Mapped(s) => SyncSystemView::Mapped(s@),
        }
    }
}

/// What a system needs of the world and the GPU world to run: its sizes
/// line up and its source component is registered (and, for a mapped
/// system, feeds the destination it writes).
pub open spec fn sys_ok<M: GpuComponentMap>(
    s: SyncSystemView<M>,
    w: WorldView,
    g: GpuWorldView,
) -> bool {
    match s {
        SyncSystemView::Direct(d) => {
            &&& d.wf()
            &&& format_size(d.format) == d.source.size
            &&& d.source.id < w.component_sizes.len()
            &&& w.component_sizes[d.source.id as int] == d.source.size
        },
        SyncSystemView::Mapped(m) => {
            &&& format_size(m.format) == m.mapper.out_size()
            &&& (g.has_dest(m.format, m.dest) ==> g.destinations[g.dest_index_of(
                m.format,
                m.dest,
            )].source_component == m.source.id)
            &&& m.source.id < w.component_sizes.len()
            &&& w.component_sizes[m.source.id as int] == m.source.size
        },
    }
}

/// One system's whole frame: its pass over all archetypes, and the system
/// with its tracker updated.
pub open spec fn sys_run<M: GpuComponentMap>(
    s: SyncSystemView<M>,
    w: WorldView,
    g: GpuWorldView,
) -> (GpuWorldView, SyncSystemView<M>) {
    match s {
        SyncSystemView::Direct(d) => {
            let r = direct_pass(d, w, g, d.tracker, w.archs.len() as int);
            (r.0, SyncSystemView::Direct(DirectSystemView { tracker: r.1, ..d }))
        },
        SyncSystemView::Mapped(m) => {
            let r = mapped_pass(m, w, g, m.tracker, w.archs.len() as int);
            (r.0, SyncSystemView::Mapped(MappedSystemView { tracker: r.1, ..m }))
        },
    }
}

/// The first `n` systems run in order against the same world, each seeing
/// the GPU buffers its predecessors wrote.
pub open spec fn frame_pass<M: GpuComponentMap>(
    ss: Seq<SyncSystemView<M>>,
    w: WorldView,
    g: GpuWorldView,
    n: int,
) -> (GpuWorldView, Seq<SyncSystemView<M>>)
    decreases n,
{
    if n <= 0 {
        (g, Seq::empty())
    } else {
        let prev = frame_pass(ss, w, g, n - 1);
        let r = sys_run(ss[n - 1], w, prev.0);
        (r.0, prev.1.push(r.1))
    }
}

/// The GPU sync system family of one world instance, run in a fixed order
/// once per frame, always immediately after the layout recompute.
pub struct GpuWorldSyncSystems<M: GpuComponentMap> {
    systems: Vec<SyncSystem<M>>,
}

/// An empty GPU sync system group; systems are added in the order they
/// are to run.
pub fn gpu_world_sync_systems<M: GpuComponentMap>() -> (r: GpuWorldSyncSystems<M>)
    ensures
        r@ == Seq::<SyncSystemView<M>>::empty(),
{
    let r = GpuWorldSyncSystems { systems: Vec::new() };
    proof {
        assert(r@ =~= Seq::<SyncSystemView<M>>::empty());
    }
    r
}

impl<M: GpuComponentMap> View for GpuWorldSyncSystems<M> {
    type V = Seq<SyncSystemView<M>>;

    closed spec fn view(&self) -> Seq<SyncSystemView<M>> {
        Seq::new(self.systems@.len(), |i: int| self.systems@[i]@)
    }
}

impl<M: GpuComponentMap> GpuWorldSyncSystems<M> {
    /// Appends a system; it will run after every system already added.
    pub fn add(&mut self, system: SyncSystem<M>)
        ensures
            final(self)@ == old(self)@.push(system@),
    {
        self.systems.push(system);
        proof {
            assert(self@ =~= old(self)@.push(system@));
        }
    }

    /// One whole frame of GPU synchronization, in the one order that is
    /// correct: first the layout recompute, then — only after it has
    /// completed — every sync system, each reading regions that reflect
    /// this frame's final layout.  Running a sync system before the
    /// recompute would let it write at a previous frame's offsets; this
    /// entry point makes that impossible.  Returns whether the layout
    /// moved, or the recompute's error (in which case nothing runs and
    /// nothing changes).
    #[verifier::loop_isolation(false)]
    pub fn run_frame(&mut self, world: &World, gpu_world: &mut GpuWorld) -> (r: Result<
        bool,
        crate::gpu_world::LayoutError,
    >)
        requires
            world@.wf(),
            old(gpu_world)@.wf(),
            old(gpu_world)@.layout_version < u64::MAX,
            forall|k: int|
                0 <= k < old(self)@.len() ==> sys_ok(
                    #[trigger] old(self)@[k],
                    world@,
                    old(gpu_world)@,
                ),
        ensures
            r is Ok <==> all_plans_fit(old(gpu_world)@, world@),
            match r {
                Ok(changed) => {
                    &&& changed == any_dest_changed(old(gpu_world)@, world@)
                    &&& (final(gpu_world)@, final(self)@) == frame_pass(
                        old(self)@,
                        world@,
                        relayout(old(gpu_world)@, world@),
                        old(self)@.len() as int,
                    )
                    &&& final(gpu_world)@.wf()
                    &&& layout_current(final(gpu_world)@, world@)
                },
                Err(e) => final(gpu_world)@ == old(gpu_world)@ && final(self)@ == old(self)@,
            },
    {
        let changed = match gpu_world.update_layout(world) {
            Ok(c) => c,
            Err(e) => {
                return Err(e);
            },
        };
        let ghost ss0 = old(self)@;
        let ghost lay = relayout(old(gpu_world)@, world@);
        let event = GpuWorldSyncEvent {};
        let n = self.systems.len();
        let ghost mut done: Seq<SyncSystemView<M>> = Seq::empty();
        for k in 0..n
            invariant
                n == ss0.len(),
                self.systems@.len() == n,
                gpu_world@.wf(),
                layout_current(gpu_world@, world@),
                gpu_world@.destinations == lay.destinations,
                done.len() == k,
                (gpu_world@, done) == frame_pass(ss0, world@, lay, k as int),
                forall|l: int| 0 <= l < k ==> #[trigger] self.systems@[l]@ == done[l],
                forall|l: int| k <= l < n ==> #[trigger] self.systems@[l]@ == ss0[l],
        {
            let ghost g_k = gpu_world@;
            let ghost sys_pre = self.systems@;
            proof {
                assert(sys_ok(ss0[k as int], world@, old(gpu_world)@));
                assert(self.systems@[k as int]@ == ss0[k as int]);
            }
            let sys = &mut self.systems[k];
            match sys {
                SyncSystem::Direct(s) => s.run(world, gpu_world, &event),
                SyncSystem::Mapped(s) => s.run(world, gpu_world, &event),
            }
            proof {
                assert(self.systems@ == sys_pre.update(k as int, self.systems@[k as int]));
                assert(frame_pass(ss0, world@, lay, k + 1) == (
                    sys_run(ss0[k as int], world@, g_k).0,
                    frame_pass(ss0, world@, lay, k as int).1.push(
                        sys_run(ss0[k as int], world@, g_k).1,
                    ),
                ));
                assert(self.systems@[k as int]@ == sys_run(ss0[k as int], world@, g_k).1);
                done = done.push(self.systems@[k as int]@);
                assert forall|l: int| 0 <= l < n && l != k implies self.systems@[l]
                    == sys_pre[l] by {}
            }
        }
        proof {
            assert(self@ =~= done);
        }
        Ok(changed)
    }
}

} // verus!
