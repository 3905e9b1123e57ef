//! The GPU-side mirror of the entity store.
//!
//! A [`GpuWorld`] owns one buffer per registered destination (a GPU
//! component in a given format).  Within a destination's buffer, every
//! archetype that carries the destination's source component and has at
//! least one entity owns a contiguous region; regions are laid out in
//! archetype order, back to back.  A layout recompute runs once per frame,
//! before any sync system: it re-places the regions and bumps the global
//! layout version by exactly one if and only if some region moved, resized,
//! appeared or vanished.  Each region remembers the layout version at which
//! it last changed, so untouched destinations do not force re-uploads.

use vstd::prelude::*;

use crate::ecs::World;
use crate::ecs::WorldView;
use crate::ecs::splice_bytes;
use crate::ecs::zero_bytes;

verus! {

/// The GPU-side representation of one mirrored component.
#[derive(Clone, Copy, PartialEq, Eq, Structural)]
pub enum GpuComponentFormat {
    /// A 4x4 matrix of 32-bit scalars: 64 bytes.
    Mat4,
    /// A vector of four 32-bit scalars: 16 bytes.
    Vec4,
    /// A vector of four unsigned 32-bit integers: 16 bytes.
    UVec4,
    /// One unsigned 32-bit integer: 4 bytes.
    U32,
}

/// Byte size of one value in the given format.
pub open spec fn format_size(f: GpuComponentFormat) -> usize {
    match f {
        GpuComponentFormat::Mat4 => 64,
        GpuComponentFormat::Vec4 => 16,
        GpuComponentFormat::UVec4 => 16,
        GpuComponentFormat::U32 => 4,
    }
}

impl GpuComponentFormat {
    /// Byte size of one value in this format.
    pub fn size(&self) -> (r: usize)
        ensures
            r == format_size(*self),
    {
        match self {
            GpuComponentFormat::Mat4 => 64,
            GpuComponentFormat::Vec4 => 16,
            GpuComponentFormat::UVec4 => 16,
            GpuComponentFormat::U32 => 4,
        }
    }
}

/// Identifies a GPU-side component.
pub type GpuComponentId = usize;

/// A registered destination: which CPU component feeds which GPU component,
/// and in which format.
#[derive(Clone, Copy, PartialEq, Eq, Structural)]
pub struct GpuDestination {
    /// GPU-side format of one element.
    pub format: GpuComponentFormat,
    /// GPU-side component being fed.
    pub dest_component: GpuComponentId,
    /// CPU-side component whose archetypes get regions in this
    /// destination's buffer.
    pub source_component: usize,
}

/// One archetype's region within a destination's buffer.
struct ArchAlloc {
    arch_id: usize,
    offset: usize,
    size: usize,
    layout_version: u64,
}

/// Ghost image of an [`ArchAlloc`].
pub struct ArchAllocView {
    pub arch_id: usize,
    pub offset: usize,
    pub size: usize,
    pub layout_version: u64,
}

impl View for ArchAlloc {
    type V = ArchAllocView;

    closed spec fn view(&self) -> ArchAllocView {
        ArchAllocView {
            arch_id: self.arch_id,
            offset: self.offset,
            size: self.size,
            layout_version: self.layout_version,
        }
    }
}

/// A destination's buffer together with its current region table.
struct DestLayout {
    allocs: Vec<ArchAlloc>,
    data: Vec<u8>,
}

/// Ghost image of a [`DestLayout`].
pub struct DestLayoutView {
    pub allocs: Seq<ArchAllocView>,
    pub data: Seq<u8>,
}

impl View for DestLayout {
    type V = DestLayoutView;

    closed spec fn view(&self) -> DestLayoutView {
        DestLayoutView {
            allocs: Seq::new(self.allocs@.len(), |i: int| self.allocs@[i]@),
            data: self.data@,
        }
    }
}

/// The GPU world: the destination registry, one buffer and region table
/// per destination, and the global layout version.
pub struct GpuWorld {
    layout_version: u64,
    destinations: Vec<GpuDestination>,
    layouts: Vec<DestLayout>,
}

/// Ghost image of a [`GpuWorld`].
pub struct GpuWorldView {
    pub layout_version: u64,
    pub destinations: Seq<GpuDestination>,
    pub layouts: Seq<DestLayoutView>,
}

impl View for GpuWorld {
    type V = GpuWorldView;

    closed spec fn view(&self) -> GpuWorldView {
        GpuWorldView {
            layout_version: self.layout_version,
            destinations: self.destinations@,
            layouts: Seq::new(self.layouts@.len(), |i: int| self.layouts@[i]@),
        }
    }
}

/// A planned region: where one archetype's data will live within a
/// destination's buffer after a layout recompute.
pub struct SlotPlan {
    pub arch_id: usize,
    pub offset: int,
    pub size: int,
}

/// Whether archetype `a` gets a region in destination `d`'s buffer: it must
/// carry the source component and have at least one entity.
pub open spec fn arch_relevant(a: crate::ecs::ArchetypeView, d: GpuDestination) -> bool {
    a.has_component(d.source_component) && a.entities.len() > 0
}

/// Total bytes covered by a plan (regions are back to back from zero).
pub open spec fn plan_total(p: Seq<SlotPlan>) -> int {
    if p.len() == 0 {
        0
    } else {
        p.last().offset + p.last().size
    }
}

/// The planned regions of destination `d` over the first `i` archetypes of
/// the world: one region per relevant archetype, in world order, each
/// starting where the previous one ended.
pub open spec fn dest_plan_upto(w: WorldView, d: GpuDestination, i: int) -> Seq<SlotPlan>
    decreases i,
{
    if i <= 0 {
        Seq::empty()
    } else {
        let rest = dest_plan_upto(w, d, i - 1);
        let a = w.archs[i - 1];
        if arch_relevant(a, d) {
            rest.push(
                SlotPlan {
                    arch_id: a.id,
                    offset: plan_total(rest),
                    size: a.entities.len() * format_size(d.format),
                },
            )
        } else {
            rest
        }
    }
}

/// The full planned layout of destination `d` for the current world.
pub open spec fn dest_plan(w: WorldView, d: GpuDestination) -> Seq<SlotPlan> {
    dest_plan_upto(w, d, w.archs.len() as int)
}

/// Whether a region table realizes a plan (versions aside).
pub open spec fn allocs_match_plan(allocs: Seq<ArchAllocView>, p: Seq<SlotPlan>) -> bool {
    &&& allocs.len() == p.len()
    &&& forall|k: int|
        0 <= k < p.len() ==> {
            &&& (#[trigger] allocs[k]).arch_id == p[k].arch_id
            &&& allocs[k].offset == p[k].offset
            &&& allocs[k].size == p[k].size
        }
}

/// Whether destination `di`'s regions would move under a recompute against
/// world `w`.
pub open spec fn dest_changed(g: GpuWorldView, w: WorldView, di: int) -> bool {
    !allocs_match_plan(g.layouts[di].allocs, dest_plan(w, g.destinations[di]))
}

/// Whether any destination's regions would move under a recompute.
pub open spec fn any_dest_changed(g: GpuWorldView, w: WorldView) -> bool {
    exists|di: int| 0 <= di < g.destinations.len() && dest_changed(g, w, di)
}

/// The layout is current for `w`: a recompute against `w` would move
/// nothing.  This is what sync systems rely on; the frame driver
/// establishes it by running the layout recompute first.
pub open spec fn layout_current(g: GpuWorldView, w: WorldView) -> bool {
    forall|di: int| 0 <= di < g.destinations.len() ==> !dest_changed(g, w, di)
}

/// The GPU world after a layout recompute against world `w`: destinations
/// whose plan moved get fresh region tables (remembering the new global
/// version) and zero-filled buffers of the planned size; untouched
/// destinations keep their regions, versions and contents.  The global
/// version moves by exactly one, and only if something moved.
pub open spec fn relayout(g: GpuWorldView, w: WorldView) -> GpuWorldView {
    let newv = if any_dest_changed(g, w) {
        (g.layout_version + 1) as u64
    } else {
        g.layout_version
    };
    GpuWorldView {
        layout_version: newv,
        destinations: g.destinations,
        layouts: Seq::new(
            g.layouts.len(),
            |di: int|
                if dest_changed(g, w, di) {
                    let p = dest_plan(w, g.destinations[di]);
                    DestLayoutView {
                        allocs: Seq::new(
                            p.len(),
                            |k: int| ArchAllocView {
                                arch_id: p[k].arch_id,
                                offset: p[k].offset as usize,
                                size: p[k].size as usize,
                                layout_version: newv,
                            },
                        ),
                        data: zero_bytes(plan_total(p)),
                    }
                } else {
                    g.layouts[di]
                },
        ),
    }
}

/// The GPU world with `bytes` written into buffer `di` at `offset`:
/// exactly what one driver-level queue write does.  Regions, versions and
/// every other buffer stay as they were.
pub open spec fn gpu_with_write(
    g: GpuWorldView,
    di: int,
    offset: int,
    bytes: Seq<u8>,
) -> GpuWorldView {
    GpuWorldView {
        layouts: g.layouts.update(
            di,
            DestLayoutView {
                allocs: g.layouts[di].allocs,
                data: splice_bytes(g.layouts[di].data, offset, bytes),
            },
        ),
        ..g
    }
}

/// Whether destination `d`'s planned buffer fits in addressable memory.
pub open spec fn plan_fits(w: WorldView, d: GpuDestination) -> bool {
    plan_total(dest_plan(w, d)) <= usize::MAX
}

/// Whether every registered destination's planned buffer fits.
pub open spec fn all_plans_fit(g: GpuWorldView, w: WorldView) -> bool {
    forall|di: int| 0 <= di < g.destinations.len() ==> plan_fits(w, (#[trigger] g.destinations[di]))
}

impl GpuWorldView {
    /// Whether a destination for this format and GPU component is
    /// registered.
    pub open spec fn has_dest(self, format: GpuComponentFormat, dest: GpuComponentId) -> bool {
        exists|di: int|
            0 <= di < self.destinations.len() && self.destinations[di].format == format
                && self.destinations[di].dest_component == dest
    }

    /// Index of that destination (meaningful when present).
    pub open spec fn dest_index_of(self, format: GpuComponentFormat, dest: GpuComponentId) -> int {
        choose|di: int|
            0 <= di < self.destinations.len() && self.destinations[di].format == format
                && self.destinations[di].dest_component == dest
    }

    /// Whether the destination at `di` currently has a region for the
    /// archetype with the given id.
    pub open spec fn dest_has_arch(self, di: int, arch_id: usize) -> bool {
        exists|k: int|
            0 <= k < self.layouts[di].allocs.len() && self.layouts[di].allocs[k].arch_id == arch_id
    }

    /// That region (meaningful when present).
    pub open spec fn alloc_of(self, di: int, arch_id: usize) -> ArchAllocView {
        self.layouts[di].allocs[choose|k: int|
            0 <= k < self.layouts[di].allocs.len() && self.layouts[di].allocs[k].arch_id
                == arch_id]
    }

    /// Well-formedness: one buffer per destination; destination keys are
    /// distinct; per destination, region arch ids strictly increase,
    /// regions are disjoint, lie inside the buffer, and remember a layout
    /// version no newer than the global one.
    pub open spec fn wf(self) -> bool {
        &&& self.layouts.len() == self.destinations.len()
        &&& forall|i: int, j: int|
            0 <= i < j < self.destinations.len() ==> !((#[trigger] self.destinations[i]).format
                == (#[trigger] self.destinations[j]).format && self.destinations[i].dest_component
                == self.destinations[j].dest_component)
        &&& forall|di: int, k: int, l: int|
            0 <= di < self.layouts.len() && 0 <= k < l < self.layouts[di].allocs.len() ==> (
            #[trigger] self.layouts[di].allocs[k]).arch_id < (
            #[trigger] self.layouts[di].allocs[l]).arch_id
        &&& forall|di: int, k: int, l: int|
            0 <= di < self.layouts.len() && 0 <= k < l < self.layouts[di].allocs.len() ==> (
            #[trigger] self.layouts[di].allocs[k]).offset + self.layouts[di].allocs[k].size <= (
            #[trigger] self.layouts[di].allocs[l]).offset
        &&& forall|di: int, k: int|
            0 <= di < self.layouts.len() && 0 <= k < self.layouts[di].allocs.len() ==> (
            #[trigger] self.layouts[di].allocs[k]).offset + self.layouts[di].allocs[k].size
                <= self.layouts[di].data.len()
        &&& forall|di: int, k: int|
            0 <= di < self.layouts.len() && 0 <= k < self.layouts[di].allocs.len() ==> (
            #[trigger] self.layouts[di].allocs[k]).layout_version <= self.layout_version
    }
}

/// Shape of a planned layout: every region belongs to a relevant archetype
/// (with the size its entity count dictates), regions are disjoint, in
/// strictly increasing archetype order, and all lie below the plan total.
pub proof fn lemma_dest_plan_props(w: WorldView, d: GpuDestination, i: int)
    requires
        w.wf(),
        0 <= i <= w.archs.len(),
    ensures
        forall|k: int|
            0 <= k < dest_plan_upto(w, d, i).len() ==> exists|j: int|
                0 <= j < i && w.archs[j].id == (#[trigger] dest_plan_upto(w, d, i)[k]).arch_id
                    && arch_relevant(w.archs[j], d) && dest_plan_upto(w, d, i)[k].size
                    == w.archs[j].entities.len() * format_size(d.format),
        forall|k: int, l: int|
            0 <= k < l < dest_plan_upto(w, d, i).len() ==> (#[trigger] dest_plan_upto(
                w,
                d,
                i,
            )[k]).arch_id < (#[trigger] dest_plan_upto(w, d, i)[l]).arch_id,
        forall|k: int|
            0 <= k < dest_plan_upto(w, d, i).len() ==> 0 <= (#[trigger] dest_plan_upto(
                w,
                d,
                i,
            )[k]).offset && 0 <= dest_plan_upto(w, d, i)[k].size && dest_plan_upto(w, d, i)[k].offset
                + dest_plan_upto(w, d, i)[k].size <= plan_total(dest_plan_upto(w, d, i)),
        forall|k: int, l: int|
            0 <= k < l < dest_plan_upto(w, d, i).len() ==> (#[trigger] dest_plan_upto(
                w,
                d,
                i,
            )[k]).offset + dest_plan_upto(w, d, i)[k].size <= (#[trigger] dest_plan_upto(
                w,
                d,
                i,
            )[l]).offset,
        plan_total(dest_plan_upto(w, d, i)) >= 0,
    decreases i,
{
    if i > 0 {
        lemma_dest_plan_props(w, d, i - 1);
        let rest = dest_plan_upto(w, d, i - 1);
        let p = dest_plan_upto(w, d, i);
        let a = w.archs[i - 1];
        if arch_relevant(a, d) {
            assert(a.entities.len() * format_size(d.format) >= 0);
            assert forall|k: int| 0 <= k < p.len() implies exists|j: int|
                0 <= j < i && w.archs[j].id == (#[trigger] p[k]).arch_id && arch_relevant(
                    w.archs[j],
                    d,
                ) && p[k].size == w.archs[j].entities.len() * format_size(d.format) by {
                if k < rest.len() {
                    let j = choose|j: int|
                        0 <= j < i - 1 && w.archs[j].id == rest[k].arch_id && arch_relevant(
                            w.archs[j],
                            d,
                        ) && rest[k].size == w.archs[j].entities.len() * format_size(d.format);
                    assert(0 <= j < i && w.archs[j].id == p[k].arch_id && arch_relevant(
                        w.archs[j],
                        d,
                    ) && p[k].size == w.archs[j].entities.len() * format_size(d.format));
                } else {
                    assert(p[k] == p.last());
                    assert(0 <= i - 1 < i && w.archs[i - 1].id == p[k].arch_id && arch_relevant(
                        w.archs[i - 1],
                        d,
                    ) && p[k].size == w.archs[i - 1].entities.len() * format_size(d.format));
                }
            }
            assert forall|k: int, l: int| 0 <= k < l < p.len() implies (#[trigger] p[k]).arch_id < (
            #[trigger] p[l]).arch_id by {
                if l == p.len() - 1 {
                    let j = choose|j: int|
                        0 <= j < i - 1 && w.archs[j].id == rest[k].arch_id && arch_relevant(
                            w.archs[j],
                            d,
                        ) && rest[k].size == w.archs[j].entities.len() * format_size(d.format);
                    assert(w.archs[j].id < w.archs[i - 1].id);
                }
            }
        }
    }
}

/// A shorter plan is a prefix of a longer one over the same world.
pub proof fn lemma_dest_plan_prefix(w: WorldView, d: GpuDestination, i: int, i2: int)
    requires
        0 <= i <= i2 <= w.archs.len(),
    ensures
        dest_plan_upto(w, d, i).len() <= dest_plan_upto(w, d, i2).len(),
        forall|k: int|
            0 <= k < dest_plan_upto(w, d, i).len() ==> #[trigger] dest_plan_upto(w, d, i2)[k]
                == dest_plan_upto(w, d, i)[k],
    decreases i2 - i,
{
    if i < i2 {
        lemma_dest_plan_prefix(w, d, i, i2 - 1);
    }
}

/// Plan totals only grow as more archetypes are considered.
pub proof fn lemma_plan_total_monotone(w: WorldView, d: GpuDestination, i: int, i2: int)
    requires
        w.wf(),
        0 <= i <= i2 <= w.archs.len(),
    ensures
        plan_total(dest_plan_upto(w, d, i)) <= plan_total(dest_plan_upto(w, d, i2)),
{
    lemma_dest_plan_props(w, d, i);
    lemma_dest_plan_props(w, d, i2);
    lemma_dest_plan_prefix(w, d, i, i2);
    let p = dest_plan_upto(w, d, i);
    let p2 = dest_plan_upto(w, d, i2);
    if p.len() > 0 {
        assert(p2[p.len() - 1] == p[p.len() - 1]);
        assert(p2[p.len() - 1].offset + p2[p.len() - 1].size <= plan_total(p2));
    }
}

/// A layout recompute against a well-formed world yields a well-formed GPU
/// world, provided every planned buffer fits in addressable memory.
pub proof fn lemma_relayout_wf(g: GpuWorldView, w: WorldView)
    requires
        g.wf(),
        w.wf(),
        g.layout_version < u64::MAX,
        all_plans_fit(g, w),
    ensures
        relayout(g, w).wf(),
{
    let r = relayout(g, w);
    assert forall|di: int| 0 <= di < r.layouts.len() implies {
        let dl = #[trigger] r.layouts[di];
        &&& forall|k: int, l: int|
            0 <= k < l < dl.allocs.len() ==> (#[trigger] dl.allocs[k]).arch_id < (
            #[trigger] dl.allocs[l]).arch_id
        &&& forall|k: int, l: int|
            0 <= k < l < dl.allocs.len() ==> (#[trigger] dl.allocs[k]).offset + dl.allocs[k].size
                <= (#[trigger] dl.allocs[l]).offset
        &&& forall|k: int|
            0 <= k < dl.allocs.len() ==> (#[trigger] dl.allocs[k]).offset + dl.allocs[k].size
                <= dl.data.len()
        &&& forall|k: int|
            0 <= k < dl.allocs.len() ==> (#[trigger] dl.allocs[k]).layout_version
                <= r.layout_version
    } by {
        if dest_changed(g, w, di) {
            let d = g.destinations[di];
            let p = dest_plan(w, d);
            lemma_dest_plan_props(w, d, w.archs.len() as int);
            assert(plan_total(p) <= usize::MAX);
            let dl = r.layouts[di];
            assert forall|k: int| 0 <= k < dl.allocs.len() implies (#[trigger] dl.allocs[k]).offset
                == p[k].offset && dl.allocs[k].size == p[k].size && dl.allocs[k].arch_id
                == p[k].arch_id && dl.allocs[k].layout_version == r.layout_version by {
                assert(0 <= p[k].offset && p[k].offset + p[k].size <= plan_total(p));
            }
        }
    }
}

/// Under a current layout, the region a destination holds for an archetype
/// is sized for exactly that archetype's entities, and the archetype is
/// relevant to the destination (it carries the source component).
pub proof fn lemma_current_alloc_size(g: GpuWorldView, w: WorldView, di: int, ai: int)
    requires
        g.wf(),
        w.wf(),
        layout_current(g, w),
        0 <= di < g.destinations.len(),
        0 <= ai < w.archs.len(),
        g.dest_has_arch(di, w.archs[ai].id),
    ensures
        g.alloc_of(di, w.archs[ai].id).size == w.archs[ai].entities.len() * format_size(
            g.destinations[di].format,
        ),
        arch_relevant(w.archs[ai], g.destinations[di]),
{
    let d = g.destinations[di];
    let p = dest_plan(w, d);
    lemma_dest_plan_props(w, d, w.archs.len() as int);
    assert(!dest_changed(g, w, di));
    assert(allocs_match_plan(g.layouts[di].allocs, p));
    let id = w.archs[ai].id;
    let k = choose|k: int|
        0 <= k < g.layouts[di].allocs.len() && g.layouts[di].allocs[k].arch_id == id;
    assert(g.layouts[di].allocs[k].arch_id == p[k].arch_id && g.layouts[di].allocs[k].size
        == p[k].size);
    let j = choose|j: int|
        0 <= j < w.archs.len() && w.archs[j].id == p[k].arch_id && arch_relevant(w.archs[j], d)
            && p[k].size == w.archs[j].entities.len() * format_size(d.format);
    assert(0 <= j < w.archs.len() && w.archs[j].id == p[k].arch_id && arch_relevant(
        w.archs[j],
        d,
    ) && p[k].size == w.archs[j].entities.len() * format_size(d.format));
    if j < ai {
        assert(w.archs[j].id < w.archs[ai].id);
    } else if j > ai {
        assert(w.archs[ai].id < w.archs[j].id);
    }
    assert(j == ai);
    assert(g.alloc_of(di, id) == g.layouts[di].allocs[k]);
}

/// Recompute failed: a destination's planned buffer would not fit in
/// addressable memory.  Nothing is changed in that case.
#[derive(Clone, Copy, PartialEq, Eq, Structural, Debug)]
pub enum LayoutError {
    /// Some destination's regions add up to more bytes than a buffer can
    /// hold.
    TooLarge,
}

impl GpuWorld {
    /// A GPU world over the given destinations, before any layout
    /// recompute: all buffers empty, layout version zero.  Fails
    /// (returning `None`) when two destinations share a format and GPU
    /// component.
    pub fn new(destinations: Vec<GpuDestination>) -> (r: Option<GpuWorld>)
        ensures
            r is Some <==> forall|i: int, j: int|
                0 <= i < j < destinations@.len() ==> !((#[trigger] destinations@[i]).format == (
                #[trigger] destinations@[j]).format && destinations@[i].dest_component
                    == destinations@[j].dest_component),
            match r {
                Some(g) => {
                    &&& g@.wf()
                    &&& g@.layout_version == 0
                    &&& g@.destinations == destinations@
                    &&& g@.layouts.len() == destinations@.len()
                    &&& forall|di: int|
                        0 <= di < g@.layouts.len() ==> (#[trigger] g@.layouts[di]).allocs
                            == Seq::<ArchAllocView>::empty() && g@.layouts[di].data == Seq::<
                            u8,
                        >::empty()
                },
                None => true,
            },
    {
        let n = destinations.len();
        for i in 0..n
            invariant
                n == destinations@.len(),
                forall|k: int, l: int|
                    0 <= k < l < n && k < i ==> !((#[trigger] destinations@[k]).format == (
                    #[trigger] destinations@[l]).format && destinations@[k].dest_component
                        == destinations@[l].dest_component),
        {
            let mut j = i + 1;
            while j < n
                invariant
                    i < j <= n,
                    n == destinations@.len(),
                    forall|l: int|
                        i < l < j ==> !((#[trigger] destinations@[l]).format == destinations@[
                            i as int
                        ].format && destinations@[l].dest_component == destinations@[
                            i as int
                        ].dest_component),
                decreases n - j,
            {
                if destinations[j].format == destinations[i].format && destinations[j].dest_component
                    == destinations[i].dest_component {
                    return None;
                }
                j = j + 1;
            }
        }
        let mut layouts: Vec<DestLayout> = Vec::new();
        for i in 0..n
            invariant
                layouts@.len() == i,
                forall|k: int|
                    0 <= k < i ==> (#[trigger] layouts@[k]@).allocs == Seq::<
                        ArchAllocView,
                    >::empty() && layouts@[k]@.data == Seq::<u8>::empty(),
        {
            layouts.push(DestLayout { allocs: Vec::new(), data: Vec::new() });
            proof {
                assert(layouts@.last()@.allocs =~= Seq::<ArchAllocView>::empty());
                assert(layouts@.last()@.data =~= Seq::<u8>::empty());
            }
        }
        Some(GpuWorld { layout_version: 0, destinations, layouts })
    }

    /// The current global layout version.
    pub fn current_layout_version(&self) -> (r: u64)
        ensures
            r == self@.layout_version,
    {
        self.layout_version
    }

    /// How many destinations (and so buffers) are registered.
    pub fn num_destinations(&self) -> (r: usize)
        ensures
            r == self@.destinations.len(),
    {
        self.destinations.len()
    }

    /// The destination registered at the given position.
    pub fn destination_at(&self, di: usize) -> (r: GpuDestination)
        requires
            di < self@.destinations.len(),
        ensures
            r == self@.destinations[di as int],
    {
        self.destinations[di]
    }

    /// The raw contents of the buffer with the given handle; this is what
    /// the renderer reads after the sync pass.
    pub fn buffer_data(&self, buffer: usize) -> (r: &Vec<u8>)
        requires
            self@.wf(),
            buffer < self@.layouts.len(),
        ensures
            r@ == self@.layouts[buffer as int].data,
    {
        &self.layouts[buffer].data
    }

    /// Position of the destination for this format and GPU component.
    fn dest_index(&self, format: GpuComponentFormat, dest: GpuComponentId) -> (r: Option<usize>)
        requires
            self@.wf(),
        ensures
            match r {
                Some(di) => di < self@.destinations.len() && self@.destinations[di as int].format
                    == format && self@.destinations[di as int].dest_component == dest && di
                    == self@.dest_index_of(format, dest),
                None => !self@.has_dest(format, dest),
            },
    {
        let n = self.destinations.len();
        for di in 0..n
            invariant
                n == self@.destinations.len(),
                self@.wf(),
                forall|k: int|
                    0 <= k < di ==> !((#[trigger] self@.destinations[k]).format == format
                        && self@.destinations[k].dest_component == dest),
        {
            if self.destinations[di].format == format && self.destinations[di].dest_component
                == dest {
                proof {
                    let v = self@.dest_index_of(format, dest);
                    if v != di {
                        assert(!(self@.destinations[v].format == self@.destinations[
                            di as int
                        ].format && self@.destinations[v].dest_component == self@.destinations[
                            di as int
                        ].dest_component));
                    }
                }
                return Some(di);
            }
        }
        None
    }

    /// The buffer handle, byte offset and recorded layout version of the
    /// region for the given archetype under the given destination, or
    /// `None` when no destination of that key is registered or the
    /// archetype has no region (no entities, or never laid out).  Callers
    /// treat `None` as "skip this archetype this frame".
    pub fn get_buffer(
        &self,
        format: GpuComponentFormat,
        dest: GpuComponentId,
        arch_id: usize,
    ) -> (r: Option<(usize, usize, u64)>)
        requires
            self@.wf(),
        ensures
            match r {
                Some(t) => {
                    &&& self@.has_dest(format, dest)
                    &&& t.0 == self@.dest_index_of(format, dest)
                    &&& self@.dest_has_arch(t.0 as int, arch_id)
                    &&& t.1 == self@.alloc_of(t.0 as int, arch_id).offset
                    &&& t.2 == self@.alloc_of(t.0 as int, arch_id).layout_version
                },
                None => !(self@.has_dest(format, dest) && self@.dest_has_arch(
                    self@.dest_index_of(format, dest),
                    arch_id,
                )),
            },
    {
        let di = match self.dest_index(format, dest) {
            Some(di) => di,
            None => {
                return None;
            },
        };
        let allocs = &self.layouts[di].allocs;
        let n = allocs.len();
        for k in 0..n
            invariant
                self@.wf(),
                self@.has_dest(format, dest),
                di == self@.dest_index_of(format, dest),
                di < self@.layouts.len(),
                n == self@.layouts[di as int].allocs.len(),
                allocs@.len() == n,
                forall|l: int|
                    0 <= l < n ==> allocs@[l]@ == #[trigger] self@.layouts[di as int].allocs[l],
                forall|l: int|
                    0 <= l < k ==> (#[trigger] self@.layouts[di as int].allocs[l]).arch_id
                        != arch_id,
        {
            if allocs[k].arch_id == arch_id {
                proof {
                    assert(allocs@[k as int]@ == self@.layouts[di as int].allocs[k as int]);
                    assert(self@.layouts[di as int].allocs[k as int].arch_id == arch_id);
                    assert(self@.dest_has_arch(di as int, arch_id));
                    let v = choose|l: int|
                        0 <= l < self@.layouts[di as int].allocs.len() && self@.layouts[
                            di as int
                        ].allocs[l].arch_id == arch_id;
                    assert(0 <= v < self@.layouts[di as int].allocs.len() && self@.layouts[
                        di as int
                    ].allocs[v].arch_id == arch_id);
                    if v < k {
                        assert(self@.layouts[di as int].allocs[v].arch_id < self@.layouts[
                            di as int
                        ].allocs[k as int].arch_id);
                    } else if v > k {
                        assert(self@.layouts[di as int].allocs[k as int].arch_id < self@.layouts[
                            di as int
                        ].allocs[v].arch_id);
                    }
                    assert(v == k);
                    assert(self@.alloc_of(di as int, arch_id) == self@.layouts[
                        di as int
                    ].allocs[k as int]);
                }
                return Some((di, allocs[k].offset, allocs[k].layout_version));
            }
        }
        None
    }

    /// Whether destination `di`'s regions would move under a recompute
    /// against `world`, or `None` when its planned buffer would not fit in
    /// addressable memory.  Reads only.
    #[verifier::loop_isolation(false)]
    fn plan_check(&self, world: &World, di: usize) -> (r: Option<bool>)
        requires
            self@.wf(),
            world@.wf(),
            di < self@.destinations.len(),
        ensures
            match r {
                Some(changed) => plan_fits(world@, self@.destinations[di as int]) && changed
                    == dest_changed(self@, world@, di as int),
                None => !plan_fits(world@, self@.destinations[di as int]),
            },
    {
        let d = self.destinations[di];
        let fsize = d.format.size();
        let allocs = &self.layouts[di].allocs;
        let existing_len = allocs.len();
        let na = world.num_archetypes();
        let mut running: usize = 0;
        let mut k: usize = 0;
        let mut matched: bool = true;
        proof {
            assert(forall|l: int|
                0 <= l < existing_len ==> allocs@[l]@ == #[trigger] self@.layouts[
                    di as int
                ].allocs[l]);
        }
        for i in 0..na
            invariant
                k <= i,
                k == dest_plan_upto(world@, d, i as int).len(),
                running == plan_total(dest_plan_upto(world@, d, i as int)),
                matched == (k <= existing_len && forall|l: int|
                    0 <= l < k ==> {
                        let al = #[trigger] self@.layouts[di as int].allocs[l];
                        let pl = dest_plan_upto(world@, d, i as int)[l];
                        al.arch_id == pl.arch_id && al.offset == pl.offset && al.size == pl.size
                    }),
        {
            let arch = world.archetype_at(i);
            let cnt = arch.entity_count();
            proof {
                lemma_dest_plan_prefix(world@, d, i as int, i + 1);
            }
            if cnt > 0 && arch.has_component(d.source_component) {
                let size = match cnt.checked_mul(fsize) {
                    Some(s) => s,
                    None => {
                        proof {
                            lemma_plan_total_monotone(world@, d, i + 1, world@.archs.len() as int);
                        }
                        return None;
                    },
                };
                let newrun = match running.checked_add(size) {
                    Some(s) => s,
                    None => {
                        proof {
                            lemma_plan_total_monotone(world@, d, i + 1, world@.archs.len() as int);
                        }
                        return None;
                    },
                };
                let ghost p1 = dest_plan_upto(world@, d, i + 1);
                proof {
                    assert(p1[k as int].arch_id == arch@.id && p1[k as int].offset == running
                        && p1[k as int].size == cnt * fsize);
                }
                if matched {
                    if k < existing_len {
                        let al = &self.layouts[di].allocs[k];
                        proof {
                            assert(al@ == self@.layouts[di as int].allocs[k as int]);
                        }
                        if !(al.arch_id == arch.id() && al.offset == running && al.size == size) {
                            matched = false;
                        }
                    } else {
                        matched = false;
                    }
                }
                running = newrun;
                k = k + 1;
            } else {
                proof {
                    assert(dest_plan_upto(world@, d, i + 1) == dest_plan_upto(
                        world@,
                        d,
                        i as int,
                    ));
                }
            }
        }
        let changed = !(matched && k == existing_len);
        proof {
            let p = dest_plan(world@, d);
            if !changed {
                assert(allocs_match_plan(self@.layouts[di as int].allocs, p));
            } else {
                assert(!allocs_match_plan(self@.layouts[di as int].allocs, p));
            }
        }
        Some(changed)
    }

    /// The fresh region table and zero-filled buffer for destination `d`,
    /// as its plan against `world` dictates, every region stamped with
    /// layout version `newv`.
    #[verifier::loop_isolation(false)]
    fn build_dest(world: &World, d: GpuDestination, newv: u64) -> (r: DestLayout)
        requires
            world@.wf(),
            plan_fits(world@, d),
        ensures
            ({
                let p = dest_plan(world@, d);
                &&& r@.allocs.len() == p.len()
                &&& forall|k: int|
                    0 <= k < p.len() ==> #[trigger] r@.allocs[k] == (ArchAllocView {
                        arch_id: p[k].arch_id,
                        offset: p[k].offset as usize,
                        size: p[k].size as usize,
                        layout_version: newv,
                    })
                &&& r@.data == zero_bytes(plan_total(p))
            }),
    {
        let fsize = d.format.size();
        let na = world.num_archetypes();
        let mut newallocs: Vec<ArchAlloc> = Vec::new();
        let mut running: usize = 0;
        proof {
            lemma_dest_plan_props(world@, d, world@.archs.len() as int);
        }
        for i in 0..na
            invariant
                newallocs@.len() == dest_plan_upto(world@, d, i as int).len(),
                running == plan_total(dest_plan_upto(world@, d, i as int)),
                forall|l: int|
                    0 <= l < newallocs@.len() ==> {
                        let al = (#[trigger] newallocs@[l])@;
                        let pl = dest_plan_upto(world@, d, i as int)[l];
                        al.arch_id == pl.arch_id && al.offset == pl.offset && al.size == pl.size
                            && al.layout_version == newv
                    },
        {
            let arch = world.archetype_at(i);
            let cnt = arch.entity_count();
            proof {
                lemma_dest_plan_prefix(world@, d, i as int, i + 1);
                lemma_dest_plan_prefix(world@, d, i + 1, world@.archs.len() as int);
            }
            if cnt > 0 && arch.has_component(d.source_component) {
                proof {
                    let p1 = dest_plan_upto(world@, d, i + 1);
                    assert(p1[p1.len() - 1].offset + p1[p1.len() - 1].size <= plan_total(
                        dest_plan(world@, d),
                    )) by {
                        lemma_dest_plan_props(world@, d, i + 1);
                        lemma_plan_total_monotone(world@, d, i + 1, world@.archs.len() as int);
                    }
                }
                let size = cnt * fsize;
                newallocs.push(
                    ArchAlloc { arch_id: arch.id(), offset: running, size, layout_version: newv },
                );
                running = running + size;
            }
        }
        let mut data: Vec<u8> = Vec::new();
        while data.len() < running
            invariant
                data@.len() <= running,
                forall|b: int| 0 <= b < data@.len() ==> data@[b] == 0u8,
            decreases running - data@.len(),
        {
            data.push(0u8);
        }
        let r = DestLayout { allocs: newallocs, data };
        proof {
            assert(r@.data =~= zero_bytes(plan_total(dest_plan(world@, d))));
        }
        r
    }

    /// Recomputes the buffer layout against the current world: walks all
    /// archetypes, determines the bytes each destination needs per
    /// archetype (entity count times element size), and re-places regions
    /// back to back.  The global layout version moves by exactly one if
    /// and only if some region moved, resized, appeared or vanished;
    /// destinations whose regions all stayed put keep their buffers and
    /// recorded versions, so no spurious re-upload follows.  Returns
    /// whether anything moved, or an error (changing nothing) when a
    /// planned buffer would not fit in addressable memory.
    ///
    /// Must run to completion before any sync system of the same frame:
    /// on success the layout is current for `world`, which is what sync
    /// systems require.
    #[verifier::loop_isolation(false)]
    pub fn update_layout(&mut self, world: &World) -> (r: Result<bool, LayoutError>)
        requires
            old(self)@.wf(),
            world@.wf(),
            old(self)@.layout_version < u64::MAX,
        ensures
            final(self)@.wf(),
            final(self)@.destinations == old(self)@.destinations,
            r is Ok <==> all_plans_fit(old(self)@, world@),
            match r {
                Ok(changed) => {
                    &&& changed == any_dest_changed(old(self)@, world@)
                    &&& final(self)@ == relayout(old(self)@, world@)
                    &&& layout_current(final(self)@, world@)
                    &&& !changed ==> final(self)@ == old(self)@
                },
                Err(e) => final(self)@ == old(self)@,
            },
    {
        let ndest = self.destinations.len();
        let na = world.num_archetypes();
        let mut flags: Vec<bool> = Vec::new();
        let mut any: bool = false;
        for di in 0..ndest
            invariant
                self@ == old(self)@,
                flags@.len() == di,
                forall|l: int|
                    0 <= l < di ==> flags@[l] == dest_changed(old(self)@, world@, l),
                forall|l: int|
                    0 <= l < di ==> plan_fits(world@, (#[trigger] old(self)@.destinations[l])),
        {
            let changed = match self.plan_check(world, di) {
                Some(c) => c,
                None => {
                    return Err(LayoutError::TooLarge);
                },
            };
            flags.push(changed);
        }
        for di in 0..ndest
            invariant
                self@ == old(self)@,
                flags@.len() == ndest,
                forall|l: int|
                    0 <= l < ndest ==> flags@[l] == dest_changed(old(self)@, world@, l),
                any ==> any_dest_changed(old(self)@, world@),
                !any ==> forall|l: int| 0 <= l < di ==> !(#[trigger] flags@[l]),
        {
            if flags[di] {
                any = true;
            }
        }
        if !any {
            proof {
                assert forall|l: int| 0 <= l < ndest implies !dest_changed(
                    old(self)@,
                    world@,
                    l,
                ) by {
                    assert(!flags@[l]);
                }
                assert(!any_dest_changed(old(self)@, world@));
                assert(relayout(old(self)@, world@).layouts =~= old(self)@.layouts);
                assert(relayout(old(self)@, world@) == old(self)@);
            }
            return Ok(false);
        }
        self.layout_version = self.layout_version + 1;
        let newv = self.layout_version;
        let ghost gold = old(self)@;
        let ghost wv = world@;
        proof {
            assert(self@.layouts =~= gold.layouts);
        }
        for di in 0..ndest
            invariant
                any_dest_changed(gold, wv),
                newv == self.layout_version,
                newv == gold.layout_version + 1,
                self.destinations@ == gold.destinations,
                self.layouts@.len() == gold.layouts.len(),
                forall|l: int|
                    di <= l < ndest ==> #[trigger] self.layouts@[l]@ == gold.layouts[l],
                forall|l: int|
                    0 <= l < di ==> #[trigger] self.layouts@[l]@ == relayout(gold, wv).layouts[l],
        {
            if flags[di] {
                let d = self.destinations[di];
                let built = Self::build_dest(world, d, newv);
                proof {
                    assert(plan_fits(wv, gold.destinations[di as int]));
                }
                self.layouts[di] = built;
                proof {
                    assert(self.layouts@[di as int]@.allocs =~= relayout(gold, wv).layouts[
                        di as int
                    ].allocs);
                    assert(self.layouts@[di as int]@ == relayout(gold, wv).layouts[di as int]);
                }
            } else {
                proof {
                    assert(self.layouts@[di as int]@ == relayout(gold, wv).layouts[di as int]);
                }
            }
        }
        proof {
            assert(self@.layouts =~= relayout(gold, wv).layouts);
            assert(self@ == relayout(gold, wv));
            assert forall|di: int| 0 <= di < self@.destinations.len() implies !dest_changed(
                self@,
                wv,
                di,
            ) by {
                let d = gold.destinations[di];
                let p = dest_plan(wv, d);
                if dest_changed(gold, wv, di) {
                    lemma_dest_plan_props(wv, d, wv.archs.len() as int);
                    assert(plan_fits(wv, d));
                    assert forall|k: int| 0 <= k < p.len() implies {
                        let al = #[trigger] self@.layouts[di].allocs[k];
                        al.arch_id == p[k].arch_id && al.offset == p[k].offset && al.size
                            == p[k].size
                    } by {
                        assert(0 <= p[k].offset && p[k].offset + p[k].size <= plan_total(p));
                    }
                    assert(allocs_match_plan(self@.layouts[di].allocs, p));
                } else {
                    assert(self@.layouts[di] == gold.layouts[di]);
                    assert(allocs_match_plan(gold.layouts[di].allocs, p));
                }
            }
            lemma_relayout_wf(gold, wv);
        }
        Ok(true)
    }

    /// Overwrites `bytes.len()` bytes of the given buffer starting at
    /// `offset`.  This models the driver-level queue write a sync system
    /// issues; it never moves regions or versions.
    pub fn write_buffer(&mut self, buffer: usize, offset: usize, bytes: &[u8])
        requires
            old(self)@.wf(),
            buffer < old(self)@.layouts.len(),
            offset + bytes@.len() <= old(self)@.layouts[buffer as int].data.len(),
        ensures
            final(self)@.wf(),
            final(self)@ == gpu_with_write(old(self)@, buffer as int, offset as int, bytes@),
    {
        let n = bytes.len();
        let total = self.layouts[buffer].data.len();
        for k in 0..n
            invariant
                n == bytes@.len(),
                offset + n <= total,
                buffer < self.layouts@.len(),
                total == self.layouts@[buffer as int].data@.len(),
                self.layout_version == old(self)@.layout_version,
                self.destinations@ == old(self)@.destinations,
                self.layouts@.len() == old(self)@.layouts.len(),
                forall|l: int|
                    0 <= l < self.layouts@.len() && l != buffer ==> #[trigger] self.layouts@[l]@
                        == old(self)@.layouts[l],
                self.layouts@[buffer as int]@.allocs == old(self)@.layouts[buffer as int].allocs,
                forall|i: int|
                    0 <= i < total ==> self.layouts@[buffer as int].data@[i] == (if offset <= i
                        < offset + k {
                        bytes@[i - offset]
                    } else {
                        old(self)@.layouts[buffer as int].data[i]
                    }),
        {
            self.layouts[buffer].data[offset + k] = bytes[k];
        }
        proof {
            assert(self@.layouts[buffer as int].data =~= splice_bytes(
                old(self)@.layouts[buffer as int].data,
                offset as int,
                bytes@,
            ));
            assert(self@.layouts =~= old(self)@.layouts.update(
                buffer as int,
                DestLayoutView {
                    allocs: old(self)@.layouts[buffer as int].allocs,
                    data: splice_bytes(
                        old(self)@.layouts[buffer as int].data,
                        offset as int,
                        bytes@,
                    ),
                },
            ));
        }
    }
}

} // verus!
