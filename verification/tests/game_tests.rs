use asteroids_core::collide::CollisionEvent;
use asteroids_core::game::{
    apply_outcome, control_ship, game_tick, handle_collisions, lookup_role, setup_scene,
    spawn_asteroid, spawn_laser_shot, AsteroidSpawnRequest, ButtonTracker, GameStats, PlayerShip,
    RepeatTimer, Role, ShipInput, Tagged, World,
};
use asteroids_core::motion::{Vec2i, Velocity};

fn tagged(entity: u64, role: Role, cleanup: bool) -> Tagged {
    Tagged {
        entity,
        role,
        cleanup,
    }
}

fn scene() -> Vec<Tagged> {
    vec![
        tagged(0, Role::Untagged, true),  // camera
        tagged(1, Role::Ship, true),
        tagged(2, Role::Asteroid, true),
        tagged(3, Role::Projectile, true),
        tagged(4, Role::Asteroid, false), // not swept by resets
    ]
}

#[test]
fn projectile_asteroid_pair_despawns_both_and_scores_ten() {
    let ents = scene();
    let pairs = vec![CollisionEvent(3, 2)];
    let out = handle_collisions(&pairs, &ents);
    assert_eq!(out.despawns, vec![3, 2]);
    assert_eq!(out.score_delta, 10);
    assert!(!out.reset);
}

#[test]
fn projectile_asteroid_pair_matches_in_either_order() {
    let ents = scene();
    let pairs = vec![CollisionEvent(2, 3)];
    let out = handle_collisions(&pairs, &ents);
    // the projectile is despawned first, whichever side it stood on
    assert_eq!(out.despawns, vec![3, 2]);
    assert_eq!(out.score_delta, 10);
    assert!(!out.reset);
}

#[test]
fn ship_asteroid_pair_sweeps_cleanup_and_resets() {
    let ents = scene();
    let pairs = vec![CollisionEvent(1, 2)];
    let out = handle_collisions(&pairs, &ents);
    assert_eq!(out.despawns, vec![0, 1, 2, 3]); // every cleanup-tagged entity
    assert_eq!(out.score_delta, 0);
    assert!(out.reset);
}

#[test]
fn unrelated_pairs_are_ignored() {
    let ents = scene();
    let pairs = vec![CollisionEvent(2, 4), CollisionEvent(0, 2)];
    let out = handle_collisions(&pairs, &ents);
    assert_eq!(out.despawns.len(), 0);
    assert_eq!(out.score_delta, 0);
    assert!(!out.reset);
}

#[test]
fn two_kills_in_one_tick_score_twenty() {
    let mut ents = scene();
    ents.push(tagged(5, Role::Projectile, true));
    let pairs = vec![CollisionEvent(3, 2), CollisionEvent(5, 4)];
    let out = handle_collisions(&pairs, &ents);
    assert_eq!(out.despawns, vec![3, 2, 5, 4]);
    assert_eq!(out.score_delta, 20);
    assert!(!out.reset);
}

#[test]
fn applying_a_kill_removes_both_entities_and_adds_score() {
    let mut world = World::new();
    for t in scene() {
        world.ents.push(t);
    }
    world.next_id = 5;
    let mut score: u32 = 7;
    let pairs = vec![CollisionEvent(3, 2)];
    let out = handle_collisions(&pairs, &world.ents);
    apply_outcome(&mut world, &mut score, &out);
    assert_eq!(score, 17);
    let ids: Vec<u64> = world.ents.iter().map(|t| t.entity).collect();
    assert_eq!(ids, vec![0, 1, 4]);
}

#[test]
fn applying_a_ship_crash_sweeps_the_scene_and_respawns_the_ship() {
    let mut world = World::new();
    for t in scene() {
        world.ents.push(t);
    }
    world.next_id = 5;
    let mut score: u32 = 0;
    let pairs = vec![CollisionEvent(2, 1)];
    let out = handle_collisions(&pairs, &world.ents);
    apply_outcome(&mut world, &mut score, &out);
    assert_eq!(score, 0);
    // the only survivor of the old scene is the entity without a cleanup tag,
    // followed by the fresh camera and the fresh ship
    let ids: Vec<u64> = world.ents.iter().map(|t| t.entity).collect();
    assert_eq!(ids, vec![4, 5, 6]);
    assert_eq!(world.ents[2].role, Role::Ship);
    assert_eq!(world.next_id, 7);
}

#[test]
fn setup_scene_spawns_camera_and_ship() {
    let mut world = World::new();
    setup_scene(&mut world);
    assert_eq!(world.ents.len(), 2);
    assert_eq!(world.ents[0].role, Role::Untagged);
    assert!(world.ents[0].cleanup);
    assert_eq!(world.ents[1].role, Role::Ship);
    assert!(world.ents[1].cleanup);
    assert_eq!(world.next_id, 2);
}

#[test]
fn lookup_role_finds_the_recorded_role() {
    let ents = scene();
    assert_eq!(lookup_role(&ents, 1), Role::Ship);
    assert_eq!(lookup_role(&ents, 2), Role::Asteroid);
    assert_eq!(lookup_role(&ents, 3), Role::Projectile);
    assert_eq!(lookup_role(&ents, 99), Role::Untagged);
}

#[test]
fn timer_fires_once_per_period_and_keeps_the_overshoot() {
    let mut t = RepeatTimer::new(500);
    t.tick(300);
    assert!(!t.just_finished());
    assert_eq!(t.elapsed_ms, 300);
    t.tick(300);
    assert!(t.just_finished());
    assert_eq!(t.elapsed_ms, 100);
    t.tick(100);
    assert!(!t.just_finished());
    assert_eq!(t.elapsed_ms, 200);
}

#[test]
fn full_spawn_chance_spawns_on_every_firing() {
    let mut stats = GameStats::default();
    stats.roid_chance = 100;
    let mut spawned: u32 = 0;
    for _ in 0..1000 {
        // one full timer period per tick: the timer fires every time
        if let Some(req) = game_tick(&mut stats, 500) {
            spawned += 1;
            assert!((-550_000_000..55_000_000).contains(&req.location.x));
            assert!((-550_000_000..55_000_000).contains(&req.location.y));
            assert!((-3_141_592..3_141_592).contains(&req.heading));
            assert!((-200..200).contains(&req.speed));
            assert!((-3_141..3_141).contains(&req.angular));
        }
    }
    assert_eq!(spawned, 1000);
}

#[test]
fn zero_spawn_chance_never_spawns() {
    let mut stats = GameStats::default();
    stats.roid_chance = 0;
    for _ in 0..1000 {
        assert!(game_tick(&mut stats, 500).is_none());
    }
}

#[test]
fn no_spawn_while_the_timer_has_not_fired() {
    let mut stats = GameStats::default();
    stats.roid_chance = 100;
    assert!(game_tick(&mut stats, 499).is_none());
    assert!(game_tick(&mut stats, 1).is_some());
}

#[test]
fn spawned_asteroid_moves_along_its_facing() {
    let req = AsteroidSpawnRequest {
        location: Vec2i {
            x: -100_000_000,
            y: 50_000_000,
        },
        heading: 0,
        speed: 200,
        angular: 1_000,
    };
    // facing straight up, scaled by 1000
    let b = spawn_asteroid(&req, Vec2i { x: 0, y: 1000 });
    assert_eq!(b.transform.translation.x, -100_000_000);
    assert_eq!(b.transform.rotation, 0);
    assert_eq!(b.velocity.linear.x, 0);
    assert_eq!(b.velocity.linear.y, 200_000); // 200 units per second
    assert_eq!(b.velocity.angular, 1_000);
    assert_eq!(b.velocity.linear_drag, Vec2i { x: 0, y: 0 });
    assert_eq!(b.collider.radius, 50_000_000);
    assert_eq!(b.role, Role::Asteroid);
    assert!(b.cleanup);
    assert!(b.variant < 4);

    // a negative speed moves it backward along the same facing
    let mut req2 = req;
    req2.speed = -200;
    let b2 = spawn_asteroid(&req2, Vec2i { x: 0, y: 1000 });
    assert_eq!(b2.velocity.linear.y, -200_000);
}

#[test]
fn spawn_request_speed_is_in_world_units_per_second() {
    let mut stats = GameStats::default();
    stats.roid_chance = 100;
    let req = loop {
        if let Some(r) = game_tick(&mut stats, 500) {
            break r;
        }
    };
    // facing straight up: the stored velocity is the requested speed in
    // world units per second times 1000, so at most 200 units per second
    let b = spawn_asteroid(&req, Vec2i { x: 0, y: 1000 });
    assert_eq!(b.velocity.linear.y, req.speed * 1000);
    assert!(b.velocity.linear.y.abs() < 200_000);
}

#[test]
fn laser_inherits_the_ships_momentum() {
    let b = spawn_laser_shot(
        Vec2i { x: 1, y: 2 },
        0,
        Vec2i { x: 0, y: 1000 },
        Vec2i { x: 30_000, y: -5_000 },
    );
    assert_eq!(b.transform.translation, Vec2i { x: 1, y: 2 });
    assert_eq!(b.velocity.linear.x, 30_000);
    assert_eq!(b.velocity.linear.y, 400_000 - 5_000); // muzzle speed plus drift
    assert_eq!(b.velocity.angular, 0);
    assert_eq!(b.collider.radius, 15_000_000);
    assert_eq!(b.role, Role::Projectile);
    assert!(b.cleanup);
}

#[test]
fn ship_controls_accumulate_velocity() {
    let ship = PlayerShip::default();
    let mut vel = Velocity::default();
    let input = ShipInput {
        forward: true,
        turn_left: true,
        turn_right: false,
        fire_just_pressed: false,
    };
    // facing up; one full second of thrust at 50 units per second squared
    let fired = control_ship(&ship, &mut vel, Vec2i { x: 0, y: 1000 }, input, 1000);
    assert!(!fired);
    assert_eq!(vel.linear.x, 0);
    assert_eq!(vel.linear.y, 50_000);
    assert_eq!(vel.angular, 6283);
    // opposite turn input for the same time cancels the spin
    let input2 = ShipInput {
        forward: false,
        turn_left: false,
        turn_right: true,
        fire_just_pressed: true,
    };
    let fired2 = control_ship(&ship, &mut vel, Vec2i { x: 0, y: 1000 }, input2, 1000);
    assert!(fired2);
    assert_eq!(vel.linear.y, 50_000);
    assert_eq!(vel.angular, 0);
}

#[test]
fn fire_fires_once_per_press_not_per_tick_held() {
    let mut fire = ButtonTracker::new();
    let mut shots: u32 = 0;
    for held in [true, true, true, false, true, true] {
        if fire.update(held) {
            shots += 1;
        }
    }
    assert_eq!(shots, 2); // two presses, not five held ticks
}
