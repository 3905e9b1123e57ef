//! The guarantees the sync layer is built around, stated and proved as
//! standalone facts: unchanged state costs no GPU writes, every change is
//! reported exactly once, a layout move alone forces a re-upload, and an
//! archetype without a buffer region is skipped untouched.

use vstd::prelude::*;

use crate::ecs::WorldView;
use crate::gpu_world::GpuWorldView;
use crate::sync::DirectSystemView;
use crate::sync::GpuComponentMap;
use crate::sync::MappedSystemView;
use crate::sync::TrackerView;
use crate::sync::direct_pass;
use crate::sync::direct_step;
use crate::sync::mapped_pass;
use crate::sync::mapped_step;
use crate::sync::tracker_record;
use crate::sync::tracker_reports;

verus! {

/// A change of layout version alone forces a re-sync: whatever the data
/// version does, a check against a layout version different from the
/// recorded one reports a change.
pub proof fn lemma_layout_change_forces_report(
    t: TrackerView,
    arch_id: int,
    data_version: u64,
    layout_version: u64,
)
    requires
        t.layout_versions.contains_key(arch_id) ==> t.layout_versions[arch_id] != layout_version,
    ensures
        tracker_reports(t, arch_id, data_version, layout_version),
{
}

/// A change of data version alone forces a re-sync, layout moved or not.
pub proof fn lemma_data_change_forces_report(
    t: TrackerView,
    arch_id: int,
    data_version: u64,
    layout_version: u64,
)
    requires
        t.data_versions.contains_key(arch_id) ==> t.data_versions[arch_id] != data_version,
    ensures
        tracker_reports(t, arch_id, data_version, layout_version),
{
}

/// The tracker after a sequence of checks for one archetype, each handing
/// it the versions current at that check.
pub open spec fn tracker_after(t: TrackerView, arch_id: int, obs: Seq<(u64, u64)>) -> TrackerView
    decreases obs.len(),
{
    if obs.len() == 0 {
        t
    } else {
        tracker_record(
            tracker_after(t, arch_id, obs.drop_last()),
            arch_id,
            obs.last().0,
            obs.last().1,
        )
    }
}

/// What each check of such a sequence reports, in order.
pub open spec fn tracker_results(t: TrackerView, arch_id: int, obs: Seq<(u64, u64)>) -> Seq<bool>
    decreases obs.len(),
{
    if obs.len() == 0 {
        Seq::empty()
    } else {
        tracker_results(t, arch_id, obs.drop_last()).push(
            tracker_reports(
                tracker_after(t, arch_id, obs.drop_last()),
                arch_id,
                obs.last().0,
                obs.last().1,
            ),
        )
    }
}

/// How many checks of a sequence reported a change.
pub open spec fn count_true(s: Seq<bool>) -> int
    decreases s.len(),
{
    if s.len() == 0 {
        0
    } else {
        count_true(s.drop_last()) + if s.last() {
            1int
        } else {
            0int
        }
    }
}

/// How many observations of a sequence differ from their predecessor (the
/// first observation always counts: there is nothing recorded before it).
pub open spec fn count_version_moves(obs: Seq<(u64, u64)>) -> int
    decreases obs.len(),
{
    if obs.len() == 0 {
        0
    } else {
        count_version_moves(obs.drop_last()) + if obs.len() == 1 || obs.last() != obs[obs.len()
            - 2] {
            1int
        } else {
            0int
        }
    }
}

/// Change detection is edge-triggered: over any sequence of checks of one
/// archetype, starting from a tracker with no record of it, exactly as
/// many checks report a change as there are observations that differ from
/// their predecessor (the first included).  Since every component write
/// bumps the column's data version and every region move bumps its layout
/// version, each change is reported exactly once — at the next check —
/// and repeated checks of unchanged versions report nothing.
pub proof fn lemma_each_change_reported_once(t: TrackerView, arch_id: int, obs: Seq<(u64, u64)>)
    requires
        !t.data_versions.contains_key(arch_id),
    ensures
        count_true(tracker_results(t, arch_id, obs)) == count_version_moves(obs),
    decreases obs.len(),
{
    if obs.len() > 0 {
        let p = obs.drop_last();
        lemma_each_change_reported_once(t, arch_id, p);
        let rs = tracker_results(t, arch_id, obs);
        assert(rs.drop_last() =~= tracker_results(t, arch_id, p));
        assert(count_true(rs) == count_true(tracker_results(t, arch_id, p)) + if rs.last() {
            1int
        } else {
            0int
        });
        if p.len() > 0 {
            assert(tracker_after(t, arch_id, p).data_versions[arch_id] == p.last().0);
            assert(tracker_after(t, arch_id, p).layout_versions[arch_id] == p.last().1);
            assert(p.last() == obs[obs.len() - 2]);
            let last = obs.last();
            if last == obs[obs.len() - 2] {
                assert(!tracker_reports(tracker_after(t, arch_id, p), arch_id, last.0, last.1));
            } else {
                assert(last.0 != p.last().0 || last.1 != p.last().1);
                assert(tracker_reports(tracker_after(t, arch_id, p), arch_id, last.0, last.1));
            }
        }
    }
}

/// A sync pass never moves regions: buffers keep their length and their
/// region tables, the destination registry and the layout version stay.
pub proof fn lemma_direct_pass_preserves_layout(
    s: DirectSystemView,
    w: WorldView,
    g: GpuWorldView,
    t: TrackerView,
    n: int,
)
    requires
        n >= 0,
        g.wf(),
    ensures
        direct_pass(s, w, g, t, n).0.destinations == g.destinations,
        direct_pass(s, w, g, t, n).0.layout_version == g.layout_version,
        direct_pass(s, w, g, t, n).0.layouts.len() == g.layouts.len(),
        forall|di: int|
            0 <= di < g.layouts.len() ==> (#[trigger] direct_pass(s, w, g, t, n).0.layouts[
                di
            ]).allocs == g.layouts[di].allocs && direct_pass(s, w, g, t, n).0.layouts[di].data.len()
                == g.layouts[di].data.len(),
    decreases n,
{
    if n > 0 {
        lemma_direct_pass_preserves_layout(s, w, g, t, n - 1);
        let prev = direct_pass(s, w, g, t, n - 1);
        let next = direct_pass(s, w, g, t, n);
        let a = w.archs[n - 1];
        assert(next == direct_step(s, a, prev.0, prev.1));
        if s.filter.matches(a) && prev.0.has_dest(s.format, s.dest) && prev.0.dest_has_arch(
            prev.0.dest_index_of(s.format, s.dest),
            a.id,
        ) {
            let di0 = prev.0.dest_index_of(s.format, s.dest);
            assert(0 <= di0 < prev.0.destinations.len());
            assert(prev.0.destinations.len() == g.layouts.len());
            assert forall|di: int|
                0 <= di < g.layouts.len() implies (#[trigger] next.0.layouts[di]).allocs
                == g.layouts[di].allocs && next.0.layouts[di].data.len() == g.layouts[
                di
            ].data.len() by {
                assert(prev.0.layouts[di].allocs == g.layouts[di].allocs);
                assert(prev.0.layouts[di].data.len() == g.layouts[di].data.len());
            }
        } else {
            assert forall|di: int|
                0 <= di < g.layouts.len() implies (#[trigger] next.0.layouts[di]).allocs
                == g.layouts[di].allocs && next.0.layouts[di].data.len() == g.layouts[
                di
            ].data.len() by {
                assert(prev.0.layouts[di].allocs == g.layouts[di].allocs);
                assert(prev.0.layouts[di].data.len() == g.layouts[di].data.len());
            }
        }
    }
}

/// If, for every archetype a pass would touch, the tracker already
/// records the current data and layout versions, the pass issues no GPU
/// write at all: the GPU world comes out exactly as it went in, and the
/// tracker still records the same versions.
pub proof fn lemma_unchanged_pass_writes_nothing(
    s: DirectSystemView,
    w: WorldView,
    g: GpuWorldView,
    t: TrackerView,
    n: int,
)
    requires
        0 <= n <= w.archs.len(),
        forall|i: int|
            0 <= i < n ==> {
                let a = #[trigger] w.archs[i];
                (s.filter.matches(a) && g.has_dest(s.format, s.dest) && g.dest_has_arch(
                    g.dest_index_of(s.format, s.dest),
                    a.id,
                )) ==> !tracker_reports(
                    t,
                    a.id as int,
                    a.column_of(s.source.id).data_version,
                    g.alloc_of(g.dest_index_of(s.format, s.dest), a.id).layout_version,
                )
            },
    ensures
        direct_pass(s, w, g, t, n).0 == g,
        direct_pass(s, w, g, t, n).1 == t,
    decreases n,
{
    if n > 0 {
        lemma_unchanged_pass_writes_nothing(s, w, g, t, n - 1);
        let a = w.archs[n - 1];
        if s.filter.matches(a) && g.has_dest(s.format, s.dest) && g.dest_has_arch(
            g.dest_index_of(s.format, s.dest),
            a.id,
        ) {
            let dv = a.column_of(s.source.id).data_version;
            let lv = g.alloc_of(g.dest_index_of(s.format, s.dest), a.id).layout_version;
            assert(!tracker_reports(t, a.id as int, dv, lv));
            assert(tracker_record(t, a.id as int, dv, lv).data_versions =~= t.data_versions);
            assert(tracker_record(t, a.id as int, dv, lv).layout_versions =~= t.layout_versions);
            assert(direct_pass(s, w, g, t, n).1 == t);
        }
    }
}

/// After a pass, the tracker records, for every archetype the pass
/// touched, exactly the versions that were current.
pub proof fn lemma_pass_records_current(
    s: DirectSystemView,
    w: WorldView,
    g: GpuWorldView,
    t: TrackerView,
    n: int,
)
    requires
        w.wf(),
        g.wf(),
        0 <= n <= w.archs.len(),
    ensures
        forall|i: int|
            0 <= i < n ==> {
                let a = #[trigger] w.archs[i];
                (s.filter.matches(a) && g.has_dest(s.format, s.dest) && g.dest_has_arch(
                    g.dest_index_of(s.format, s.dest),
                    a.id,
                )) ==> {
                    let tr = direct_pass(s, w, g, t, n).1;
                    &&& tr.data_versions.contains_key(a.id as int)
                    &&& tr.data_versions[a.id as int] == a.column_of(s.source.id).data_version
                    &&& tr.layout_versions.contains_key(a.id as int)
                    &&& tr.layout_versions[a.id as int] == g.alloc_of(
                        g.dest_index_of(s.format, s.dest),
                        a.id,
                    ).layout_version
                }
            },
    decreases n,
{
    if n > 0 {
        lemma_pass_records_current(s, w, g, t, n - 1);
        lemma_direct_pass_preserves_layout(s, w, g, t, n - 1);
        let prev = direct_pass(s, w, g, t, n - 1);
        let a = w.archs[n - 1];
        assert forall|di: int|
            0 <= di < g.layouts.len() implies prev.0.layouts[di].allocs == g.layouts[
            di
        ].allocs by {}
        assert(prev.0.destinations == g.destinations);
        if s.filter.matches(a) && g.has_dest(s.format, s.dest) {
            let di = g.dest_index_of(s.format, s.dest);
            assert(prev.0.has_dest(s.format, s.dest) == g.has_dest(s.format, s.dest));
            assert(prev.0.dest_index_of(s.format, s.dest) == di);
            if g.dest_has_arch(di, a.id) {
                assert(prev.0.dest_has_arch(di, a.id));
                assert(prev.0.alloc_of(di, a.id) == g.alloc_of(di, a.id));
            }
        }
        assert forall|i: int| 0 <= i < n - 1 implies w.archs[i].id != a.id by {
            assert(w.archs[i].id < w.archs[n - 1].id);
        }
    }
}

/// No re-upload without a cause: a second pass straight after a first
/// one, with no component write and no layout recompute in between,
/// issues no GPU write — the buffers come out of the second pass exactly
/// as the first pass left them.
pub proof fn lemma_second_pass_writes_nothing(
    s: DirectSystemView,
    w: WorldView,
    g: GpuWorldView,
    t: TrackerView,
    n: int,
)
    requires
        w.wf(),
        g.wf(),
        0 <= n <= w.archs.len(),
    ensures
        ({
            let first = direct_pass(s, w, g, t, n);
            direct_pass(s, w, first.0, first.1, n).0 == first.0
        }),
{
    let first = direct_pass(s, w, g, t, n);
    lemma_pass_records_current(s, w, g, t, n);
    lemma_direct_pass_preserves_layout(s, w, g, t, n);
    assert forall|i: int|
        0 <= i < n implies {
        let a = #[trigger] w.archs[i];
        (s.filter.matches(a) && first.0.has_dest(s.format, s.dest) && first.0.dest_has_arch(
            first.0.dest_index_of(s.format, s.dest),
            a.id,
        )) ==> !tracker_reports(
            first.1,
            a.id as int,
            a.column_of(s.source.id).data_version,
            first.0.alloc_of(first.0.dest_index_of(s.format, s.dest), a.id).layout_version,
        )
    } by {
        let a = w.archs[i];
        assert(first.0.destinations == g.destinations);
        assert forall|di: int|
            0 <= di < g.layouts.len() implies first.0.layouts[di].allocs == g.layouts[
            di
        ].allocs by {}
        if s.filter.matches(a) && first.0.has_dest(s.format, s.dest) {
            let di = g.dest_index_of(s.format, s.dest);
            assert(first.0.has_dest(s.format, s.dest) == g.has_dest(s.format, s.dest));
            assert(first.0.dest_index_of(s.format, s.dest) == di);
            if first.0.dest_has_arch(di, a.id) {
                assert(g.dest_has_arch(di, a.id));
                assert(first.0.alloc_of(di, a.id) == g.alloc_of(di, a.id));
            }
        }
    }
    lemma_unchanged_pass_writes_nothing(s, w, first.0, first.1, n);
}

/// A mapped system's pass never moves regions either.
pub proof fn lemma_mapped_pass_preserves_layout<M: GpuComponentMap>(
    s: MappedSystemView<M>,
    w: WorldView,
    g: GpuWorldView,
    t: TrackerView,
    n: int,
)
    requires
        n >= 0,
        g.wf(),
    ensures
        mapped_pass(s, w, g, t, n).0.destinations == g.destinations,
        mapped_pass(s, w, g, t, n).0.layout_version == g.layout_version,
        mapped_pass(s, w, g, t, n).0.layouts.len() == g.layouts.len(),
        forall|di: int|
            0 <= di < g.layouts.len() ==> (#[trigger] mapped_pass(s, w, g, t, n).0.layouts[
                di
            ]).allocs == g.layouts[di].allocs && mapped_pass(s, w, g, t, n).0.layouts[di].data.len()
                == g.layouts[di].data.len(),
    decreases n,
{
    if n > 0 {
        lemma_mapped_pass_preserves_layout(s, w, g, t, n - 1);
        let prev = mapped_pass(s, w, g, t, n - 1);
        let next = mapped_pass(s, w, g, t, n);
        let a = w.archs[n - 1];
        assert(next == mapped_step(s, w, a, prev.0, prev.1));
        if prev.0.has_dest(s.format, s.dest) && prev.0.dest_has_arch(
            prev.0.dest_index_of(s.format, s.dest),
            a.id,
        ) {
            let di0 = prev.0.dest_index_of(s.format, s.dest);
            assert(0 <= di0 < prev.0.destinations.len());
            assert(prev.0.destinations.len() == g.layouts.len());
            assert forall|di: int|
                0 <= di < g.layouts.len() implies (#[trigger] next.0.layouts[di]).allocs
                == g.layouts[di].allocs && next.0.layouts[di].data.len() == g.layouts[
                di
            ].data.len() by {
                assert(prev.0.layouts[di].allocs == g.layouts[di].allocs);
                assert(prev.0.layouts[di].data.len() == g.layouts[di].data.len());
            }
        } else {
            assert forall|di: int|
                0 <= di < g.layouts.len() implies (#[trigger] next.0.layouts[di]).allocs
                == g.layouts[di].allocs && next.0.layouts[di].data.len() == g.layouts[
                di
            ].data.len() by {
                assert(prev.0.layouts[di].allocs == g.layouts[di].allocs);
                assert(prev.0.layouts[di].data.len() == g.layouts[di].data.len());
            }
        }
    }
}

/// As [`lemma_unchanged_pass_writes_nothing`], for the mapped variant.
pub proof fn lemma_mapped_unchanged_pass_writes_nothing<M: GpuComponentMap>(
    s: MappedSystemView<M>,
    w: WorldView,
    g: GpuWorldView,
    t: TrackerView,
    n: int,
)
    requires
        0 <= n <= w.archs.len(),
        forall|i: int|
            0 <= i < n ==> {
                let a = #[trigger] w.archs[i];
                (g.has_dest(s.format, s.dest) && g.dest_has_arch(
                    g.dest_index_of(s.format, s.dest),
                    a.id,
                )) ==> !tracker_reports(
                    t,
                    a.id as int,
                    a.column_of(s.source.id).data_version,
                    g.alloc_of(g.dest_index_of(s.format, s.dest), a.id).layout_version,
                )
            },
    ensures
        mapped_pass(s, w, g, t, n).0 == g,
        mapped_pass(s, w, g, t, n).1 == t,
    decreases n,
{
    if n > 0 {
        lemma_mapped_unchanged_pass_writes_nothing(s, w, g, t, n - 1);
        let a = w.archs[n - 1];
        if g.has_dest(s.format, s.dest) && g.dest_has_arch(
            g.dest_index_of(s.format, s.dest),
            a.id,
        ) {
            let dv = a.column_of(s.source.id).data_version;
            let lv = g.alloc_of(g.dest_index_of(s.format, s.dest), a.id).layout_version;
            assert(!tracker_reports(t, a.id as int, dv, lv));
            assert(tracker_record(t, a.id as int, dv, lv).data_versions =~= t.data_versions);
            assert(tracker_record(t, a.id as int, dv, lv).layout_versions =~= t.layout_versions);
            assert(mapped_pass(s, w, g, t, n).1 == t);
        }
    }
}

/// As [`lemma_pass_records_current`], for the mapped variant.
pub proof fn lemma_mapped_pass_records_current<M: GpuComponentMap>(
    s: MappedSystemView<M>,
    w: WorldView,
    g: GpuWorldView,
    t: TrackerView,
    n: int,
)
    requires
        w.wf(),
        g.wf(),
        0 <= n <= w.archs.len(),
    ensures
        forall|i: int|
            0 <= i < n ==> {
                let a = #[trigger] w.archs[i];
                (g.has_dest(s.format, s.dest) && g.dest_has_arch(
                    g.dest_index_of(s.format, s.dest),
                    a.id,
                )) ==> {
                    let tr = mapped_pass(s, w, g, t, n).1;
                    &&& tr.data_versions.contains_key(a.id as int)
                    &&& tr.data_versions[a.id as int] == a.column_of(s.source.id).data_version
                    &&& tr.layout_versions.contains_key(a.id as int)
                    &&& tr.layout_versions[a.id as int] == g.alloc_of(
                        g.dest_index_of(s.format, s.dest),
                        a.id,
                    ).layout_version
                }
            },
    decreases n,
{
    if n > 0 {
        lemma_mapped_pass_records_current(s, w, g, t, n - 1);
        lemma_mapped_pass_preserves_layout(s, w, g, t, n - 1);
        let prev = mapped_pass(s, w, g, t, n - 1);
        let a = w.archs[n - 1];
        assert forall|di: int|
            0 <= di < g.layouts.len() implies prev.0.layouts[di].allocs == g.layouts[
            di
        ].allocs by {}
        assert(prev.0.destinations == g.destinations);
        if g.has_dest(s.format, s.dest) {
            let di = g.dest_index_of(s.format, s.dest);
            assert(prev.0.has_dest(s.format, s.dest) == g.has_dest(s.format, s.dest));
            assert(prev.0.dest_index_of(s.format, s.dest) == di);
            if g.dest_has_arch(di, a.id) {
                assert(prev.0.dest_has_arch(di, a.id));
                assert(prev.0.alloc_of(di, a.id) == g.alloc_of(di, a.id));
            }
        }
        assert forall|i: int| 0 <= i < n - 1 implies w.archs[i].id != a.id by {
            assert(w.archs[i].id < w.archs[n - 1].id);
        }
    }
}

/// As [`lemma_second_pass_writes_nothing`], for the mapped variant: with
/// no mutation between two passes, the second issues no GPU write.
pub proof fn lemma_mapped_second_pass_writes_nothing<M: GpuComponentMap>(
    s: MappedSystemView<M>,
    w: WorldView,
    g: GpuWorldView,
    t: TrackerView,
    n: int,
)
    requires
        w.wf(),
        g.wf(),
        0 <= n <= w.archs.len(),
    ensures
        ({
            let first = mapped_pass(s, w, g, t, n);
            mapped_pass(s, w, first.0, first.1, n).0 == first.0
        }),
{
    let first = mapped_pass(s, w, g, t, n);
    lemma_mapped_pass_records_current(s, w, g, t, n);
    lemma_mapped_pass_preserves_layout(s, w, g, t, n);
    assert forall|i: int|
        0 <= i < n implies {
        let a = #[trigger] w.archs[i];
        (first.0.has_dest(s.format, s.dest) && first.0.dest_has_arch(
            first.0.dest_index_of(s.format, s.dest),
            a.id,
        )) ==> !tracker_reports(
            first.1,
            a.id as int,
            a.column_of(s.source.id).data_version,
            first.0.alloc_of(first.0.dest_index_of(s.format, s.dest), a.id).layout_version,
        )
    } by {
        let a = w.archs[i];
        assert(first.0.destinations == g.destinations);
        assert forall|di: int|
            0 <= di < g.layouts.len() implies first.0.layouts[di].allocs == g.layouts[
            di
        ].allocs by {}
        if first.0.has_dest(s.format, s.dest) {
            let di = g.dest_index_of(s.format, s.dest);
            assert(first.0.has_dest(s.format, s.dest) == g.has_dest(s.format, s.dest));
            assert(first.0.dest_index_of(s.format, s.dest) == di);
            if first.0.dest_has_arch(di, a.id) {
                assert(g.dest_has_arch(di, a.id));
                assert(first.0.alloc_of(di, a.id) == g.alloc_of(di, a.id));
            }
        }
    }
    lemma_mapped_unchanged_pass_writes_nothing(s, w, first.0, first.1, n);
}

/// An archetype for which the GPU world has no buffer region is skipped
/// without error and without effect: neither the GPU world nor the
/// tracker moves.
pub proof fn lemma_skip_on_missing_buffer(
    s: DirectSystemView,
    a: crate::ecs::ArchetypeView,
    g: GpuWorldView,
    t: TrackerView,
)
    requires
        !(g.has_dest(s.format, s.dest) && g.dest_has_arch(
            g.dest_index_of(s.format, s.dest),
            a.id,
        )),
    ensures
        direct_step(s, a, g, t) == (g, t),
{
}

/// The mapped variant skips an archetype without a region in the same
/// way.
pub proof fn lemma_mapped_skip_on_missing_buffer<M: GpuComponentMap>(
    s: MappedSystemView<M>,
    w: WorldView,
    a: crate::ecs::ArchetypeView,
    g: GpuWorldView,
    t: TrackerView,
)
    requires
        !(g.has_dest(s.format, s.dest) && g.dest_has_arch(
            g.dest_index_of(s.format, s.dest),
            a.id,
        )),
    ensures
        mapped_step(s, w, a, g, t) == (g, t),
{
}

} // verus!
