use physarum::decay::{control_point, decay, PHEROMONE_LIFETIME};
use physarum::geometry::{direction, isqrt, length, rotate, Turn, Vec2};
use physarum::grid::{chunk_coordinate, decide, global_position, AgentCommand};
use physarum::world::{Agent, Chunk, Pheromone, World, PHEROMONE_DROP_PERIOD};

const C: i64 = 16_000;

fn quarter_turn() -> Turn {
    Turn::new(0, 1000).unwrap()
}

fn world(w: usize, h: usize) -> World {
    World::new(w, h, C, quarter_turn(), 4_000, quarter_turn()).unwrap()
}

fn total(w: &World) -> usize {
    w.chunks.iter().map(|c| c.agents.len()).sum()
}

#[test]
fn decay_is_monotonic_over_the_lifetime() {
    let mut prev = decay(0);
    for age in 1..=PHEROMONE_LIFETIME {
        let cur = decay(age);
        assert!(cur.0 >= prev.0, "radius shrank at age {}", age);
        assert!(cur.1 <= prev.1, "weight grew at age {}", age);
        prev = cur;
    }
}

#[test]
fn decay_boundaries() {
    assert_eq!(decay(0), control_point(0));
    assert_eq!(decay(0), (1000, 1000));
    let (r, w) = decay(PHEROMONE_LIFETIME - 1);
    assert!(3000 < r && r < 3500);
    assert!(0 < w && w < 50);
    assert_eq!(decay(99), (3480, 2));
    assert_eq!(decay(PHEROMONE_LIFETIME), (3500, 0));
}

#[test]
fn decay_interpolates_inside_segments() {
    // a quarter of the lifetime is the second control point
    assert_eq!(decay(25), (1500, 400));
    assert_eq!(decay(50), (2250, 150));
    assert_eq!(decay(75), (3000, 50));
    // halfway through the first segment: (1.25, 0.7)
    assert_eq!(decay(12), (1000 + 500 * 12 / 25, 1000 - 600 * 12 / 25));
    assert_eq!(decay(12), (1240, 712));
}

#[test]
fn pheromone_radius_and_weight_uses_age() {
    let p = Pheromone::new(Vec2::new(1, 2), 10);
    assert_eq!(p.radius_and_weight(10), (1000, 1000));
    assert_eq!(p.radius_and_weight(35), (1500, 400));
}

#[test]
fn chunk_coordinate_wraps() {
    assert_eq!(chunk_coordinate(5, 0, -1), 4);
    assert_eq!(chunk_coordinate(5, 4, 1), 0);
    assert_eq!(chunk_coordinate(5, 2, 0), 2);
    assert_eq!(chunk_coordinate(5, 2, 1), 3);
    assert_eq!(chunk_coordinate(1, 0, 1), 0);
}

#[test]
fn global_position_adds_chunk_origin() {
    let g = global_position(Vec2::new(500, 700), C, 2, 3);
    assert_eq!(g, Vec2::new(2 * C + 500, 3 * C + 700));
}

#[test]
fn rotation_by_a_quarter_turn() {
    let t = quarter_turn();
    assert_eq!(rotate(Vec2::new(1000, 0), t), Vec2::new(0, 1000));
    assert_eq!(rotate(Vec2::new(1000, 0), t.inverse()), Vec2::new(0, -1000));
    assert_eq!(rotate(Vec2::new(3, 4), Turn::identity()), Vec2::new(3, 4));
}

#[test]
fn turn_outside_unit_circle_is_refused() {
    assert!(Turn::new(1000, 1).is_none());
    assert!(Turn::new(600, 800).is_some());
    assert!(Turn::new(2000, 0).is_none());
}

#[test]
fn square_root_and_direction() {
    assert_eq!(isqrt(0), 0);
    assert_eq!(isqrt(24), 4);
    assert_eq!(isqrt(25), 5);
    assert_eq!(length(Vec2::new(3000, 4000)), 5000);
    assert_eq!(direction(Vec2::new(3000, 4000), 1000), Vec2::new(600, 800));
    assert_eq!(direction(Vec2::new(0, 0), 1000), Vec2::new(0, 0));
    assert_eq!(direction(Vec2::new(-3000, 4000), 5000), Vec2::new(-3000, 4000));
}

#[test]
fn steering_ties_go_forward() {
    assert_eq!(decide(0, 0, 0), AgentCommand::Forward);
    assert_eq!(decide(7, 7, 7), AgentCommand::Forward);
    assert_eq!(decide(1, 5, 5), AgentCommand::Forward);
    assert_eq!(decide(5, 5, 1), AgentCommand::Forward);
    assert_eq!(decide(1, 5, 2), AgentCommand::Left);
    assert_eq!(decide(1, 2, 5), AgentCommand::Right);
}

#[test]
fn new_rejects_long_sensor_range() {
    assert!(World::new(2, 2, C, quarter_turn(), C / 2 + 1, quarter_turn()).is_none());
    let w = World::new(2, 3, C, quarter_turn(), C / 2, quarter_turn()).unwrap();
    assert_eq!(w.chunks.len(), 6);
    assert_eq!(w.tick, 0);
    assert!(w.agent_visiblity);
    assert_eq!((w.chunks[5].x, w.chunks[5].y), (1, 2));
}

#[test]
fn set_sensor_range_is_checked() {
    let mut w = world(1, 1);
    assert!(!w.set_sensor_range(C / 2 + 1));
    assert_eq!(w.sensor_range, 4_000);
    assert!(w.set_sensor_range(C / 2));
    assert_eq!(w.sensor_range, C / 2);
    w.set_agent_visiblity(false);
    assert!(!w.agent_visiblity);
    w.set_sensor_angle(Turn::identity());
    assert_eq!(w.sensor_angle, Turn::identity());
    w.set_angle_change(Turn::identity());
    assert_eq!(w.angle_change, Turn::identity());
}

#[test]
fn add_agent_checks_bounds() {
    let mut w = world(2, 1);
    assert!(!w.add_agent(2, 0, Agent::new(Vec2::new(0, 0), Vec2::new(0, 0))));
    assert!(!w.add_agent(0, 0, Agent::new(Vec2::new(C, 0), Vec2::new(0, 0))));
    assert!(!w.add_agent(0, 0, Agent::new(Vec2::new(0, 0), Vec2::new(C, 1))));
    assert!(w.add_agent(1, 0, Agent::new(Vec2::new(0, 0), Vec2::new(C, 0))));
    assert_eq!(w.chunks[1].agents.len(), 1);
}

#[test]
fn toroidal_migration_round_trip() {
    let mut w = world(1, 1);
    assert!(w.add_agent(0, 0, Agent::new(Vec2::new(C - 500, 3000), Vec2::new(1000, 0))));
    w.update();
    assert_eq!(w.tick, 1);
    // the crossing is settled by the migration phase that opens the next tick
    w.migrate();
    assert_eq!(w.chunks[0].agents.len(), 1);
    assert_eq!(w.chunks[0].agents[0].position, Vec2::new(500, 3000));
    assert_eq!(w.chunks[0].agents[0].velocity, Vec2::new(1000, 0));
    assert_eq!(w.tick, 1);
}

#[test]
fn two_chunk_migration() {
    let mut w = world(2, 1);
    assert!(w.add_agent(0, 0, Agent::new(Vec2::new(C - 500, 3000), Vec2::new(1000, 0))));
    w.update();
    w.migrate();
    assert_eq!(w.chunks[0].agents.len(), 0);
    assert_eq!(w.chunks[1].agents.len(), 1);
    assert_eq!(w.chunks[1].agents[0].position.x, 500);
    // one more tick moves it on inside chunk (1, 0)
    w.update();
    assert_eq!(w.chunks[1].agents[0].position.x, 1500);
}

#[test]
fn migration_wraps_downwards() {
    let mut w = world(3, 2);
    assert!(w.add_agent(0, 0, Agent::new(Vec2::new(200, 300), Vec2::new(-1000, -1000))));
    w.update();
    w.migrate();
    // chunk (2, 1) of a 3 x 2 grid
    assert_eq!(w.chunks[5].agents.len(), 1);
    assert_eq!(w.chunks[5].agents[0].position, Vec2::new(C - 800, C - 700));
}

#[test]
fn marker_lifecycle() {
    assert_eq!(PHEROMONE_DROP_PERIOD, 4);
    assert_eq!(PHEROMONE_LIFETIME, 100);
    let mut w = world(1, 1);
    assert!(w.add_agent(0, 0, Agent::new(Vec2::new(8000, 8000), Vec2::new(0, 0))));
    w.update();
    assert_eq!(w.chunks[0].pheromones.len(), 1);
    assert_eq!(w.chunks[0].pheromones[0].created, 0);
    assert_eq!(w.tick - 1 - w.chunks[0].pheromones[0].created, 0);
    for _ in 1..100 {
        w.update();
    }
    // ticks 0..=99 have run: the marker of tick 0 has age 99
    assert_eq!(w.tick, 100);
    assert!(w.chunks[0].pheromones.iter().any(|p| p.created == 0));
    assert_eq!(w.chunks[0].pheromones.len(), 25);
    w.update();
    assert!(!w.chunks[0].pheromones.iter().any(|p| p.created == 0));
    assert_eq!(w.chunks[0].pheromones.len(), 25);
    assert_eq!(w.chunks[0].pheromones[0].created, 4);
}

#[test]
fn spawn_exactness() {
    let mut w = world(2, 2);
    w.spawn_random_agents(10);
    assert_eq!(total(&w), 10);
    let counts: Vec<usize> = w.chunks.iter().map(|c| c.agents.len()).collect();
    assert_eq!(counts, vec![2, 3, 2, 3]);
    for c in w.chunks.iter() {
        for a in c.agents.iter() {
            assert!(0 <= a.position.x && a.position.x < C);
            assert!(0 <= a.position.y && a.position.y < C);
            assert!(0 <= a.velocity.x && a.velocity.x < 2200);
            assert!(0 <= a.velocity.y && a.velocity.y < 2200);
        }
    }
}

#[test]
fn spawn_fewer_than_chunks() {
    let mut w = world(3, 3);
    w.spawn_random_agents(2);
    let counts: Vec<usize> = w.chunks.iter().map(|c| c.agents.len()).collect();
    assert_eq!(counts, vec![0, 0, 0, 0, 1, 0, 0, 0, 1]);
    w.spawn_random_agents(0);
    assert_eq!(total(&w), 2);
}

#[test]
fn agent_conservation_over_ticks() {
    let mut w = world(3, 2);
    w.spawn_random_agents(40);
    for _ in 0..150 {
        w.update();
        assert_eq!(total(&w), 40);
    }
    assert_eq!(w.tick, 150);
}

#[test]
fn no_markers_means_forward() {
    let mut w = world(1, 1);
    assert!(w.add_agent(0, 0, Agent::new(Vec2::new(8000, 8000), Vec2::new(1000, 0))));
    let commands = w.sense();
    assert_eq!(commands, vec![vec![AgentCommand::Forward]]);
    w.update();
    assert_eq!(w.chunks[0].agents[0].velocity, Vec2::new(1000, 0));
}

#[test]
fn marker_on_the_left_turns_left() {
    let mut w = world(1, 1);
    assert!(w.add_agent(0, 0, Agent::new(Vec2::new(8000, 8000), Vec2::new(1000, 0))));
    // the left probe sits a quarter turn to the left, at sensor range 4000
    w.chunks[0].pheromones.push(Pheromone::new(Vec2::new(8000, 12000), 0));
    assert_eq!(w.sense(), vec![vec![AgentCommand::Left]]);
    w.update();
    assert_eq!(w.chunks[0].agents[0].velocity, Vec2::new(0, 1000));
}

#[test]
fn marker_on_the_right_turns_right() {
    let mut w = world(1, 1);
    assert!(w.add_agent(0, 0, Agent::new(Vec2::new(8000, 8000), Vec2::new(1000, 0))));
    w.chunks[0].pheromones.push(Pheromone::new(Vec2::new(8000, 4000), 0));
    assert_eq!(w.sense(), vec![vec![AgentCommand::Right]]);
}

#[test]
fn neighbour_chunk_markers_are_sensed() {
    let mut w = world(2, 1);
    // agent in the right half of chunk (0, 0), heading right; the probe lands in chunk (1, 0)
    assert!(w.add_agent(0, 0, Agent::new(Vec2::new(14000, 4000), Vec2::new(0, 1000))));
    w.chunks[1].pheromones.push(Pheromone::new(Vec2::new(2000, 4000), 0));
    assert_eq!(w.sense(), vec![vec![AgentCommand::Right], vec![]]);
}

#[test]
fn chunk_new_is_empty() {
    let c = Chunk::new(3, 4);
    assert_eq!((c.x, c.y), (3, 4));
    assert!(c.agents.is_empty() && c.pheromones.is_empty());
}

#[test]
fn chunk_integrate_moves_drops_and_culls() {
    let mut c = Chunk::new(0, 0);
    c.agents.push(Agent::new(Vec2::new(100, 200), Vec2::new(10, -20)));
    c.pheromones.push(Pheromone::new(Vec2::new(1, 1), 4));
    c.pheromones.push(Pheromone::new(Vec2::new(2, 2), 5));
    // tick 104: the marker of tick 4 reaches the lifetime, a new one is dropped
    c.integrate(104, C);
    assert_eq!(c.agents[0].position, Vec2::new(110, 180));
    assert_eq!(c.pheromones.len(), 2);
    assert_eq!(c.pheromones[0].created, 5);
    assert_eq!(c.pheromones[1], Pheromone::new(Vec2::new(110, 180), 104));
    // tick 105 is no multiple of the drop period: nothing is dropped
    c.integrate(105, C);
    assert_eq!(c.agents[0].position, Vec2::new(120, 160));
    assert_eq!(c.pheromones.len(), 1);
    assert_eq!(c.pheromones[0].created, 104);
}
