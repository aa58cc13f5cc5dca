use voxel_terrain::chunk::Chunk;
use voxel_terrain::coords::ChunkPos;
use voxel_terrain::streaming::{
    load_new_chunks_from_queue, manage_chunk_loading_state, spawn_loaded_chunk, ChunkUpdateEvent,
    StreamingState, WorldAnchor, WorldAnchorInChunkPos, MAX_LOADING_TASKS,
};
use voxel_terrain::world::{World, WORLD_HEIGHT_CHUNKS};

fn anchor_at(x: i32, y: i32, z: i32, radius: u32) -> (WorldAnchorInChunkPos, WorldAnchor) {
    (WorldAnchorInChunkPos { pos: ChunkPos::new(x, y, z) }, WorldAnchor { load_radius: radius })
}

#[test]
fn default_anchor_radius() {
    assert_eq!(WorldAnchor::default().load_radius, 2);
}

#[test]
fn radius_two_at_origin_wants_exact_square() {
    let mut world: World<()> = World::new();
    let mut state = StreamingState::new();
    let anchors = vec![anchor_at(0, 0, 9, 2)];
    let events = manage_chunk_loading_state(&mut world, &mut state, &anchors);
    assert!(events.is_empty());
    // exactly the columns within 1 of the origin, over the full chunk height
    assert_eq!(state.queue.len(), 3 * 3 * WORLD_HEIGHT_CHUNKS);
    for e in &state.queue {
        assert!((-1..=1).contains(&e.pos.x));
        assert!((-1..=1).contains(&e.pos.y));
        assert!((0..WORLD_HEIGHT_CHUNKS as i32).contains(&e.pos.z));
    }
    let has = |x: i32, y: i32, z: i32| state.queue.iter().any(|e| e.pos == ChunkPos::new(x, y, z));
    assert!(has(1, 1, 15));
    assert!(has(-1, -1, 0));
    assert!(!state.queue.iter().any(|e| e.pos.x == 2 || e.pos.y == -2 || e.pos.z == 16));
    // sorted by squared distance to the anchor column, closest first
    assert_eq!(state.queue[0].pos, ChunkPos::new(0, 0, 0));
    assert_eq!(state.queue[0].priority, 0);
    for w in state.queue.windows(2) {
        assert!(w[0].priority <= w[1].priority);
    }
    // priority is the squared distance to the anchor's column (z zeroed)
    let priority_of =
        |x, y, z| state.queue.iter().find(|e| e.pos == ChunkPos::new(x, y, z)).unwrap().priority;
    assert_eq!(priority_of(1, 1, 0), 2);
    assert_eq!(priority_of(0, 0, 15), 225);
    assert_eq!(priority_of(-1, 1, 2), 6);
}

#[test]
fn radius_zero_loads_nothing() {
    let mut world: World<()> = World::new();
    let mut state = StreamingState::new();
    let anchors = vec![anchor_at(0, 0, 0, 0)];
    let events = manage_chunk_loading_state(&mut world, &mut state, &anchors);
    assert!(events.is_empty());
    assert!(state.queue.is_empty());
}

#[test]
fn recompute_is_idempotent_without_observer_movement() {
    let mut world: World<()> = World::new();
    let mut state = StreamingState::new();
    let anchors = vec![anchor_at(3, -2, 0, 2), anchor_at(10, 10, 0, 1)];
    let first_events = manage_chunk_loading_state(&mut world, &mut state, &anchors);
    let first_queue = state.queue.clone();
    let second_events = manage_chunk_loading_state(&mut world, &mut state, &anchors);
    assert!(second_events.is_empty());
    assert_eq!(state.queue, first_queue);
    assert!(first_events.is_empty());
}

#[test]
fn dispatch_respects_batch_limit() {
    let mut world: World<()> = World::new();
    let mut state = StreamingState::new();
    // radius 3: 5 * 5 * 16 = 400 wanted chunks, more than one batch
    let anchors = vec![anchor_at(0, 0, 0, 3)];
    manage_chunk_loading_state(&mut world, &mut state, &anchors);
    assert_eq!(state.queue.len(), 400);
    let to_spawn = load_new_chunks_from_queue(&mut state);
    assert_eq!(to_spawn.len(), MAX_LOADING_TASKS);
    assert_eq!(state.in_flight.len(), MAX_LOADING_TASKS);
    assert_eq!(state.queue.len(), 400 - MAX_LOADING_TASKS);
    // the closest chunk goes out first
    assert_eq!(to_spawn[0], ChunkPos::new(0, 0, 0));
    // a second dispatch with no room hands out nothing
    let again = load_new_chunks_from_queue(&mut state);
    assert!(again.is_empty());
    assert_eq!(state.queue.len(), 400 - MAX_LOADING_TASKS);
}

#[test]
fn completed_task_enters_store_with_load_event() {
    let mut world: World<()> = World::new();
    let mut state = StreamingState::new();
    let anchors = vec![anchor_at(0, 0, 0, 1)];
    manage_chunk_loading_state(&mut world, &mut state, &anchors);
    let to_spawn = load_new_chunks_from_queue(&mut state);
    assert_eq!(to_spawn.len(), 16);
    let pos = to_spawn[0];
    let r = spawn_loaded_chunk(&mut world, &mut state, pos, Chunk::new(()));
    assert_eq!(r, Some(ChunkUpdateEvent::Loaded(pos)));
    assert!(world.is_chunk_loaded(&pos));
    assert!(!state.in_flight.contains(&pos));
}

#[test]
fn unwanted_result_is_discarded_not_inserted() {
    let mut world: World<()> = World::new();
    let mut state = StreamingState::new();
    let near = vec![anchor_at(0, 0, 0, 1)];
    manage_chunk_loading_state(&mut world, &mut state, &near);
    let to_spawn = load_new_chunks_from_queue(&mut state);
    let pos = to_spawn[0];
    // the observer teleports far away before the task finishes
    let far = vec![anchor_at(1000, 1000, 0, 1)];
    let events = manage_chunk_loading_state(&mut world, &mut state, &far);
    assert!(events.is_empty());
    assert!(state.in_flight.is_empty());
    // the task's result arrives late: it must be dropped
    let r = spawn_loaded_chunk(&mut world, &mut state, pos, Chunk::new(()));
    assert_eq!(r, None);
    assert!(!world.is_chunk_loaded(&pos));
}

#[test]
fn observer_movement_unloads_chunks_with_events() {
    let mut world: World<()> = World::new();
    let mut state = StreamingState::new();
    let here = vec![anchor_at(0, 0, 0, 1)];
    manage_chunk_loading_state(&mut world, &mut state, &here);
    // finish every pending generation task
    loop {
        let to_spawn = load_new_chunks_from_queue(&mut state);
        if to_spawn.is_empty() {
            break;
        }
        for pos in to_spawn {
            spawn_loaded_chunk(&mut world, &mut state, pos, Chunk::new(()));
        }
    }
    assert_eq!(world.get_chunk_keys().len(), 16);
    // moving one column over keeps nothing: radius 1 wants a single column
    let there = vec![anchor_at(5, 0, 0, 1)];
    let events = manage_chunk_loading_state(&mut world, &mut state, &there);
    assert_eq!(events.len(), 16);
    for e in &events {
        match e {
            ChunkUpdateEvent::Unloaded(p) => assert_eq!((p.x, p.y), (0, 0)),
            ChunkUpdateEvent::Loaded(_) => panic!("recompute must not emit load events"),
        }
    }
    assert!(world.get_chunk_keys().is_empty());
}

#[test]
fn resident_chunks_are_not_requeued() {
    let mut world: World<()> = World::new();
    let mut state = StreamingState::new();
    let anchors = vec![anchor_at(0, 0, 0, 1)];
    manage_chunk_loading_state(&mut world, &mut state, &anchors);
    loop {
        let to_spawn = load_new_chunks_from_queue(&mut state);
        if to_spawn.is_empty() {
            break;
        }
        for pos in to_spawn {
            spawn_loaded_chunk(&mut world, &mut state, pos, Chunk::new(()));
        }
    }
    // everything wanted is resident: a recompute finds nothing to do
    let events = manage_chunk_loading_state(&mut world, &mut state, &anchors);
    assert!(events.is_empty());
    assert!(state.queue.is_empty());
    assert_eq!(world.get_chunk_keys().len(), 16);
}

#[test]
fn wanted_sets_of_observers_union() {
    let mut world: World<()> = World::new();
    let mut state = StreamingState::new();
    let anchors = vec![anchor_at(0, 0, 0, 1), anchor_at(3, 0, 0, 1)];
    manage_chunk_loading_state(&mut world, &mut state, &anchors);
    // two disjoint single columns
    assert_eq!(state.queue.len(), 32);
    assert!(state.queue.iter().any(|e| e.pos == ChunkPos::new(0, 0, 7)));
    assert!(state.queue.iter().any(|e| e.pos == ChunkPos::new(3, 0, 7)));
    assert!(!state.queue.iter().any(|e| e.pos == ChunkPos::new(1, 0, 7)));
}
