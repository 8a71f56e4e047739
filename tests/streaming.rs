use ymir::streaming::TerrainStreamer;

fn sorted(mut v: Vec<(i32, i32)>) -> Vec<(i32, i32)> {
    v.sort();
    v
}

fn ball(cx: i32, cy: i32, d: i32) -> Vec<(i32, i32)> {
    let mut out = Vec::new();
    for x in cx - d..=cx + d {
        for y in cy - d..=cy + d {
            out.push((x, y));
        }
    }
    sorted(out)
}

#[test]
fn desired_set_distance_one_has_nine_chunks() {
    let st = TerrainStreamer::new(1);
    let desired = sorted(st.desired_chunks());
    assert_eq!(desired.len(), 9);
    assert!(desired.contains(&(-1, -1)));
    assert!(desired.contains(&(1, 1)));
    assert_eq!(desired, ball(0, 0, 1));
}

#[test]
fn desired_set_size_is_square_of_diameter() {
    for d in 0..5 {
        let st = TerrainStreamer::new(d);
        let n = (2 * d + 1) as usize;
        assert_eq!(st.desired_chunks().len(), n * n);
    }
}

#[test]
fn desired_set_follows_observer() {
    let mut st = TerrainStreamer::new(2);
    assert!(st.move_observer((-3, 7)));
    assert_eq!(st.player_chunk(), (-3, 7));
    assert_eq!(sorted(st.desired_chunks()), ball(-3, 7, 2));
}

#[test]
fn zero_distance_desires_only_observer_chunk() {
    let st = TerrainStreamer::new(0);
    assert_eq!(st.desired_chunks(), vec![(0, 0)]);
}

#[test]
fn negative_distance_desires_nothing() {
    let st = TerrainStreamer::new(-1);
    assert!(st.desired_chunks().is_empty());
}

#[test]
fn observer_same_chunk_does_not_rebuild() {
    let mut st = TerrainStreamer::new(1);
    assert_eq!(st.player_chunk(), (0, 0));
    assert!(!st.move_observer((0, 0)));
    assert_eq!(sorted(st.desired_chunks()), ball(0, 0, 1));
}

#[test]
fn observer_moving_to_next_chunk_rebuilds() {
    let mut st = TerrainStreamer::new(1);
    assert!(st.move_observer((1, 0)));
    assert_eq!(st.player_chunk(), (1, 0));
    let desired = sorted(st.desired_chunks());
    assert!(desired.contains(&(2, 1)));
    assert!(!desired.contains(&(-1, 0)));
    assert_eq!(desired, ball(1, 0, 1));
}

#[test]
fn schedule_returns_each_desired_chunk_once() {
    let mut st = TerrainStreamer::new(1);
    let spawn = sorted(st.schedule());
    assert_eq!(spawn, ball(0, 0, 1));
    assert_eq!(sorted(st.reserved_chunks()), ball(0, 0, 1));
    assert!(st.is_reserved((1, -1)));
    assert!(!st.is_reserved((2, 0)));
}

#[test]
fn reserved_chunk_is_never_scheduled_again() {
    let mut st = TerrainStreamer::new(1);
    let first = st.schedule();
    assert_eq!(first.len(), 9);
    let second = st.schedule();
    assert!(second.is_empty());
    assert!(st.move_observer((1, 0)));
    let third = sorted(st.schedule());
    assert_eq!(third, vec![(2, -1), (2, 0), (2, 1)]);
    for c in &third {
        assert!(!first.contains(c));
    }
    assert!(st.move_observer((0, 0)));
    assert!(st.schedule().is_empty());
}

#[test]
fn integrate_records_placed_chunks() {
    let mut st = TerrainStreamer::new(1);
    st.schedule();
    st.integrate((0, 0));
    st.integrate((1, 1));
    assert_eq!(st.live_chunks(), &[(0, 0), (1, 1)]);
}

#[test]
fn regenerate_clears_reservations_and_chunks() {
    let mut st = TerrainStreamer::new(1);
    st.schedule();
    st.integrate((0, 0));
    st.integrate((-1, 0));
    let removed = st.regenerate();
    assert_eq!(removed, vec![(0, 0), (-1, 0)]);
    assert!(st.reserved_chunks().is_empty());
    assert!(st.live_chunks().is_empty());
    assert_eq!(sorted(st.schedule()), ball(0, 0, 1));
}

#[test]
fn tick_schedules_integrates_and_keeps_chunks() {
    let mut st = TerrainStreamer::new(1);
    let out = st.tick(None, &[], false);
    assert_eq!(sorted(out.spawn), ball(0, 0, 1));
    assert!(out.despawn.is_empty());
    let out = st.tick(None, &[(0, 0), (1, 0)], false);
    assert!(out.spawn.is_empty());
    assert!(out.despawn.is_empty());
    assert_eq!(st.live_chunks(), &[(0, 0), (1, 0)]);
}

#[test]
fn tick_moves_observer_before_scheduling() {
    let mut st = TerrainStreamer::new(1);
    st.tick(None, &[], false);
    let out = st.tick(Some((0, 1)), &[], false);
    assert_eq!(st.player_chunk(), (0, 1));
    assert_eq!(sorted(out.spawn), vec![(-1, 2), (0, 2), (1, 2)]);
}

#[test]
fn config_change_removes_all_chunks_in_same_cycle() {
    let mut st = TerrainStreamer::new(1);
    st.tick(None, &[], false);
    st.tick(None, &[(0, 0), (1, 1)], false);
    let out = st.tick(None, &[(-1, -1)], true);
    assert!(out.spawn.is_empty());
    assert_eq!(out.despawn, vec![(0, 0), (1, 1), (-1, -1)]);
    assert!(st.reserved_chunks().is_empty());
    assert!(st.live_chunks().is_empty());
    let out = st.tick(None, &[], false);
    assert_eq!(sorted(out.spawn), ball(0, 0, 1));
}

#[test]
fn stale_job_after_regeneration_is_still_placed() {
    let mut st = TerrainStreamer::new(0);
    st.tick(None, &[], false);
    st.tick(None, &[], true);
    let out = st.tick(None, &[(0, 0)], false);
    assert_eq!(out.spawn, vec![(0, 0)]);
    assert_eq!(st.live_chunks(), &[(0, 0)]);
}
