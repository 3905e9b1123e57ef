use gpu_ecs_sync::ecs::ArchetypeFilter;
use gpu_ecs_sync::ecs::ComponentDesc;
use gpu_ecs_sync::ecs::World;
use gpu_ecs_sync::gpu_world::GpuComponentFormat;
use gpu_ecs_sync::gpu_world::GpuDestination;
use gpu_ecs_sync::gpu_world::GpuWorld;
use gpu_ecs_sync::sync::ArchChangeDetection;
use gpu_ecs_sync::sync::ComponentToGpuSystem;
use gpu_ecs_sync::sync::GpuWorldSyncEvent;
use gpu_ecs_sync::sync::GpuWorldSyncSystems;
use gpu_ecs_sync::sync::LeadingBytesMap;
use gpu_ecs_sync::sync::MappedComponentToGpuSystem;
use gpu_ecs_sync::sync::SyncSystem;
use gpu_ecs_sync::sync::gpu_world_sync_systems;

fn world_with_positions(count: u64) -> (World, usize, usize) {
    let mut world = World::new();
    let pos = world.register_component(16);
    let arch = world
        .create_archetype(&vec![pos])
        .expect("archetype creation");
    for e in 0..count {
        assert!(world.spawn_entity(arch, e));
    }
    (world, pos, arch)
}

fn one_destination(pos: usize) -> GpuWorld {
    GpuWorld::new(vec![GpuDestination {
        format: GpuComponentFormat::Vec4,
        dest_component: 0,
        source_component: pos,
    }])
    .expect("distinct destinations")
}

/// The scenario of a hundred entities over four frames: first observation
/// syncs, a quiet frame does not, a data write does, and a growth-driven
/// layout move does even though the data version stayed.
#[test]
fn scenario_hundred_positions() {
    let (mut world, pos, arch_id) = world_with_positions(100);
    let mut gpu = one_destination(pos);
    let desc = ComponentDesc { id: pos, size: 16 };
    let mut tracker = ArchChangeDetection::new();

    // Frame 1: layout computed, first observation reports a change.
    assert_eq!(gpu.update_layout(&world), Ok(true));
    let (_, _, l1) = gpu
        .get_buffer(GpuComponentFormat::Vec4, 0, arch_id)
        .expect("buffer after layout");
    let arch = world.archetype_at(0);
    assert!(tracker.changed(arch, desc, l1));

    // Frame 2: nothing mutated, no change reported.
    assert_eq!(gpu.update_layout(&world), Ok(false));
    let (_, _, l2) = gpu.get_buffer(GpuComponentFormat::Vec4, 0, arch_id).unwrap();
    assert_eq!(l1, l2);
    let arch = world.archetype_at(0);
    assert!(!tracker.changed(arch, desc, l2));

    // Frame 3: one entity's value mutated, change reported again.
    assert!(world.write_component(arch_id, pos, 7, &[1u8; 16]));
    assert_eq!(gpu.update_layout(&world), Ok(false));
    let (_, _, l3) = gpu.get_buffer(GpuComponentFormat::Vec4, 0, arch_id).unwrap();
    let arch = world.archetype_at(0);
    assert!(tracker.changed(arch, desc, l3));

    // Frame 4: the archetype grows to 150 entities, the layout moves, and
    // the change is reported even though no component was written.
    for e in 100..150 {
        assert!(world.spawn_entity(arch_id, e));
    }
    assert_eq!(gpu.update_layout(&world), Ok(true));
    let (_, _, l4) = gpu.get_buffer(GpuComponentFormat::Vec4, 0, arch_id).unwrap();
    assert_ne!(l3, l4);
    let arch = world.archetype_at(0);
    assert!(tracker.changed(arch, desc, l4));
}

/// A quiet frame issues no GPU write: the buffer bytes are bit-identical
/// before and after the second run.
#[test]
fn unchanged_state_writes_nothing() {
    let (mut world, pos, arch_id) = world_with_positions(3);
    assert!(world.write_component(arch_id, pos, 1, &[9u8; 16]));
    let mut gpu = one_destination(pos);
    let mut sys = ComponentToGpuSystem::new(
        GpuComponentFormat::Vec4,
        ComponentDesc { id: pos, size: 16 },
        0,
    );
    let event = GpuWorldSyncEvent {};

    assert_eq!(gpu.update_layout(&world), Ok(true));
    sys.run(&world, &mut gpu, &event);
    let (buf, _, _) = gpu.get_buffer(GpuComponentFormat::Vec4, 0, arch_id).unwrap();
    let after_first = gpu.buffer_data(buf).clone();

    // Second frame with no mutation: same bytes, no re-upload.
    assert_eq!(gpu.update_layout(&world), Ok(false));
    sys.run(&world, &mut gpu, &event);
    assert_eq!(gpu.buffer_data(buf), &after_first);
    // The written element really is there.
    assert_eq!(&after_first[16..32], &[9u8; 16]);
}

/// Each write is reported exactly once over a run of checks interleaved
/// with quiet frames.
#[test]
fn edge_triggered_detection() {
    let (mut world, pos, arch_id) = world_with_positions(2);
    let mut gpu = one_destination(pos);
    let desc = ComponentDesc { id: pos, size: 16 };
    let mut tracker = ArchChangeDetection::new();
    assert_eq!(gpu.update_layout(&world), Ok(true));
    let (_, _, lv) = gpu.get_buffer(GpuComponentFormat::Vec4, 0, arch_id).unwrap();

    let mut reported = 0;
    for frame in 0..10 {
        if frame == 3 || frame == 7 {
            assert!(world.write_component(arch_id, pos, 0, &[frame as u8; 16]));
        }
        let arch = world.archetype_at(0);
        if tracker.changed(arch, desc, lv) {
            reported += 1;
        }
    }
    // One report for the first observation, one per write: never more.
    assert_eq!(reported, 3);
}

/// A layout move alone forces a re-sync even with the data untouched.
#[test]
fn layout_change_forces_resync() {
    let (mut world, pos, arch_id) = world_with_positions(4);
    let mut gpu = one_destination(pos);
    let desc = ComponentDesc { id: pos, size: 16 };
    let mut tracker = ArchChangeDetection::new();
    assert_eq!(gpu.update_layout(&world), Ok(true));
    let (_, _, l1) = gpu.get_buffer(GpuComponentFormat::Vec4, 0, arch_id).unwrap();
    let arch = world.archetype_at(0);
    assert!(tracker.changed(arch, desc, l1));

    // Growing the archetype moves its region; no component was written.
    assert!(world.spawn_entity(arch_id, 99));
    assert_eq!(gpu.update_layout(&world), Ok(true));
    let (_, _, l2) = gpu.get_buffer(GpuComponentFormat::Vec4, 0, arch_id).unwrap();
    assert_ne!(l1, l2);
    let arch = world.archetype_at(0);
    assert!(tracker.changed(arch, desc, l2));
}

/// Constructing a direct-copy system over mismatched byte sizes fails at
/// construction, before any frame runs.
#[test]
fn format_size_mismatch_fails_fast() {
    // U32 is 4 bytes; the component holds 16-byte values.
    let bad = ComponentToGpuSystem::try_new(
        GpuComponentFormat::U32,
        ComponentDesc { id: 0, size: 16 },
        0,
    );
    assert!(bad.is_none());
    let good = ComponentToGpuSystem::try_new(
        GpuComponentFormat::Vec4,
        ComponentDesc { id: 0, size: 16 },
        0,
    );
    assert!(good.is_some());
}

/// The mapped variant checks its output size the same way.
#[test]
fn mapped_format_size_mismatch_fails_fast() {
    let bad = MappedComponentToGpuSystem::try_new(
        GpuComponentFormat::Vec4,
        ComponentDesc { id: 0, size: 16 },
        0,
        LeadingBytesMap { packed_size: 4 },
    );
    assert!(bad.is_none());
    let good = MappedComponentToGpuSystem::try_new(
        GpuComponentFormat::U32,
        ComponentDesc { id: 0, size: 16 },
        0,
        LeadingBytesMap { packed_size: 4 },
    );
    assert!(good.is_some());
}

/// An archetype without a buffer region is skipped: no write, no error.
#[test]
fn skip_on_missing_buffer() {
    let mut world = World::new();
    let pos = world.register_component(16);
    let other = world.register_component(4);
    let arch_pos = world.create_archetype(&vec![pos]).unwrap();
    let arch_other = world.create_archetype(&vec![other]).unwrap();
    assert!(world.spawn_entity(arch_pos, 1));
    assert!(world.spawn_entity(arch_other, 2));

    // The destination only covers the position component; the other
    // archetype gets no region.
    let mut gpu = one_destination(pos);
    assert_eq!(gpu.update_layout(&world), Ok(true));
    assert!(gpu.get_buffer(GpuComponentFormat::Vec4, 0, arch_other).is_none());

    // A full frame over both archetypes runs without error, and the one
    // region that exists belongs to the position archetype.
    let mut sys = ComponentToGpuSystem::new(
        GpuComponentFormat::Vec4,
        ComponentDesc { id: pos, size: 16 },
        0,
    );
    sys.run(&world, &mut gpu, &GpuWorldSyncEvent {});
    let (buf, off, _) = gpu.get_buffer(GpuComponentFormat::Vec4, 0, arch_pos).unwrap();
    assert_eq!(off, 0);
    assert_eq!(gpu.buffer_data(buf).len(), 16);
}

/// An archetype with no entities gets no region either.
#[test]
fn empty_archetype_has_no_region() {
    let mut world = World::new();
    let pos = world.register_component(16);
    let arch = world.create_archetype(&vec![pos]).unwrap();
    let mut gpu = one_destination(pos);
    assert_eq!(gpu.update_layout(&world), Ok(false));
    assert!(gpu.get_buffer(GpuComponentFormat::Vec4, 0, arch).is_none());
}

/// A direct system uploads exactly the column bytes at the region's
/// offset, for every archetype it covers.
#[test]
fn direct_copy_uploads_column() {
    let mut world = World::new();
    let val = world.register_component(4);
    let a1 = world.create_archetype(&vec![val]).unwrap();
    let a2 = world.create_archetype(&vec![val]).unwrap();
    assert!(world.spawn_entity(a1, 1));
    assert!(world.spawn_entity(a2, 2));
    assert!(world.spawn_entity(a2, 3));
    assert!(world.write_component(a1, val, 0, &[1, 2, 3, 4]));
    assert!(world.write_component(a2, val, 0, &[5, 6, 7, 8]));
    assert!(world.write_component(a2, val, 1, &[9, 10, 11, 12]));

    let mut gpu = GpuWorld::new(vec![GpuDestination {
        format: GpuComponentFormat::U32,
        dest_component: 3,
        source_component: val,
    }])
    .unwrap();
    let mut sys = ComponentToGpuSystem::new(
        GpuComponentFormat::U32,
        ComponentDesc { id: val, size: 4 },
        3,
    );
    assert_eq!(gpu.update_layout(&world), Ok(true));
    sys.run(&world, &mut gpu, &GpuWorldSyncEvent {});

    let (b1, o1, _) = gpu.get_buffer(GpuComponentFormat::U32, 3, a1).unwrap();
    let (b2, o2, _) = gpu.get_buffer(GpuComponentFormat::U32, 3, a2).unwrap();
    assert_eq!(b1, b2);
    assert_eq!((o1, o2), (0, 4));
    assert_eq!(gpu.buffer_data(b1).as_slice(), &[1, 2, 3, 4, 5, 6, 7, 8, 9, 10, 11, 12]);
}

/// A mapped system uploads the transformed column: here, each 16-byte
/// value packed down to its 4 leading bytes.
#[test]
fn mapped_copy_packs_elements() {
    let mut world = World::new();
    let pos = world.register_component(16);
    let arch = world.create_archetype(&vec![pos]).unwrap();
    assert!(world.spawn_entity(arch, 1));
    assert!(world.spawn_entity(arch, 2));
    let mut first = [0u8; 16];
    first[0..4].copy_from_slice(&[10, 11, 12, 13]);
    let mut second = [0u8; 16];
    second[0..4].copy_from_slice(&[20, 21, 22, 23]);
    assert!(world.write_component(arch, pos, 0, &first));
    assert!(world.write_component(arch, pos, 1, &second));

    let mut gpu = GpuWorld::new(vec![GpuDestination {
        format: GpuComponentFormat::U32,
        dest_component: 9,
        source_component: pos,
    }])
    .unwrap();
    let mut sys = MappedComponentToGpuSystem::new(
        GpuComponentFormat::U32,
        ComponentDesc { id: pos, size: 16 },
        9,
        LeadingBytesMap { packed_size: 4 },
    );
    assert_eq!(gpu.update_layout(&world), Ok(true));
    sys.run(&world, &mut gpu, &GpuWorldSyncEvent {});
    let (buf, _, _) = gpu.get_buffer(GpuComponentFormat::U32, 9, arch).unwrap();
    assert_eq!(gpu.buffer_data(buf).as_slice(), &[10, 11, 12, 13, 20, 21, 22, 23]);
}

/// The frame driver runs the layout recompute first and the systems
/// after; a whole frame leaves the buffers mirroring the CPU columns.
#[test]
fn frame_driver_orders_layout_before_sync() {
    let mut world = World::new();
    let val = world.register_component(4);
    let arch = world.create_archetype(&vec![val]).unwrap();
    assert!(world.spawn_entity(arch, 1));
    assert!(world.write_component(arch, val, 0, &[4, 3, 2, 1]));

    let mut gpu = GpuWorld::new(vec![GpuDestination {
        format: GpuComponentFormat::U32,
        dest_component: 0,
        source_component: val,
    }])
    .unwrap();
    let mut systems: GpuWorldSyncSystems<LeadingBytesMap> = gpu_world_sync_systems();
    systems.add(SyncSystem::Direct(ComponentToGpuSystem::new(
        GpuComponentFormat::U32,
        ComponentDesc { id: val, size: 4 },
        0,
    )));

    // First frame: the layout moves (a region appears) and the data lands.
    assert_eq!(systems.run_frame(&world, &mut gpu), Ok(true));
    let (buf, _, _) = gpu.get_buffer(GpuComponentFormat::U32, 0, arch).unwrap();
    assert_eq!(gpu.buffer_data(buf).as_slice(), &[4, 3, 2, 1]);

    // Second frame: nothing moved, layout version untouched.
    let v = gpu.current_layout_version();
    assert_eq!(systems.run_frame(&world, &mut gpu), Ok(false));
    assert_eq!(gpu.current_layout_version(), v);
}

/// Each format has its fixed element size.
#[test]
fn format_sizes() {
    assert_eq!(GpuComponentFormat::Mat4.size(), 64);
    assert_eq!(GpuComponentFormat::Vec4.size(), 16);
    assert_eq!(GpuComponentFormat::UVec4.size(), 16);
    assert_eq!(GpuComponentFormat::U32.size(), 4);
}

/// Two destinations may not share a format and GPU component.
#[test]
fn duplicate_destination_keys_are_refused() {
    let dup = GpuDestination {
        format: GpuComponentFormat::U32,
        dest_component: 5,
        source_component: 0,
    };
    assert!(GpuWorld::new(vec![dup, dup]).is_none());
    // The same GPU component in another format is a different key.
    let other = GpuDestination {
        format: GpuComponentFormat::Vec4,
        dest_component: 5,
        source_component: 0,
    };
    assert!(GpuWorld::new(vec![dup, other]).is_some());
}

/// A repeated or unregistered component set is refused at archetype
/// creation.
#[test]
fn archetype_component_sets_are_checked() {
    let mut world = World::new();
    let c = world.register_component(4);
    assert!(world.create_archetype(&vec![c, c]).is_none());
    assert!(world.create_archetype(&vec![c + 1]).is_none());
    assert!(world.create_archetype(&vec![c]).is_some());
}

/// The layout version moves by exactly one per recompute that changed
/// something, and not at all otherwise.
#[test]
fn layout_version_moves_by_exactly_one() {
    let (mut world, pos, arch_id) = world_with_positions(1);
    let mut gpu = one_destination(pos);
    assert_eq!(gpu.current_layout_version(), 0);
    assert_eq!(gpu.update_layout(&world), Ok(true));
    assert_eq!(gpu.current_layout_version(), 1);
    assert_eq!(gpu.update_layout(&world), Ok(false));
    assert_eq!(gpu.current_layout_version(), 1);
    assert!(world.spawn_entity(arch_id, 50));
    assert_eq!(gpu.update_layout(&world), Ok(true));
    assert_eq!(gpu.current_layout_version(), 2);
}

/// Destroying an archetype removes its region at the next recompute; the
/// monotonic archetype ids mean a later archetype can never be mistaken
/// for it.
#[test]
fn destroyed_archetype_loses_region() {
    let (mut world, pos, arch_id) = world_with_positions(2);
    let mut gpu = one_destination(pos);
    assert_eq!(gpu.update_layout(&world), Ok(true));
    assert!(gpu.get_buffer(GpuComponentFormat::Vec4, 0, arch_id).is_some());
    assert!(world.destroy_archetype(arch_id));
    assert_eq!(gpu.update_layout(&world), Ok(true));
    assert!(gpu.get_buffer(GpuComponentFormat::Vec4, 0, arch_id).is_none());
    // A fresh archetype gets a fresh id, never the old one.
    let again = world.create_archetype(&vec![pos]).unwrap();
    assert_ne!(again, arch_id);
}

/// A narrowed filter keeps a system away from archetypes it excludes.
#[test]
fn arch_filter_narrows_iteration() {
    let mut world = World::new();
    let val = world.register_component(4);
    let tag = world.register_component(1);
    let plain = world.create_archetype(&vec![val]).unwrap();
    let tagged = world.create_archetype(&vec![val, tag]).unwrap();
    assert!(world.spawn_entity(plain, 1));
    assert!(world.spawn_entity(tagged, 2));
    assert!(world.write_component(plain, val, 0, &[1, 1, 1, 1]));
    assert!(world.write_component(tagged, val, 0, &[2, 2, 2, 2]));

    let mut gpu = GpuWorld::new(vec![GpuDestination {
        format: GpuComponentFormat::U32,
        dest_component: 0,
        source_component: val,
    }])
    .unwrap();
    // Only archetypes that carry `val` and also `tag` are synchronized.
    let mut sys = ComponentToGpuSystem::new(
        GpuComponentFormat::U32,
        ComponentDesc { id: val, size: 4 },
        0,
    )
    .with_arch_filter(ArchetypeFilter::new().incl(val).incl(tag));
    assert_eq!(gpu.update_layout(&world), Ok(true));
    sys.run(&world, &mut gpu, &GpuWorldSyncEvent {});

    let (buf, o_plain, _) = gpu.get_buffer(GpuComponentFormat::U32, 0, plain).unwrap();
    let (_, o_tagged, _) = gpu.get_buffer(GpuComponentFormat::U32, 0, tagged).unwrap();
    let data = gpu.buffer_data(buf);
    // The filtered-out archetype's region stayed zeroed; the tagged one
    // was uploaded.
    assert_eq!(&data[o_plain..o_plain + 4], &[0, 0, 0, 0]);
    assert_eq!(&data[o_tagged..o_tagged + 4], &[2, 2, 2, 2]);
}
