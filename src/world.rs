//! The simulation kernel: agents, markers, chunks and the world that owns them.
use vstd::prelude::*;
use rand::Rng;
use crate::decay::{decay, decay_radius, decay_weight, PHEROMONE_LIFETIME};
use crate::geometry::{direction, length, length_of, rotate, rotated, scaled_to, Vec2, Turn, MAX_CHUNK_SIZE};
use crate::grid::{chunk_coordinate, decide, decision, global_position, world_position, AgentCommand, MAX_GRID_SIDE};

verus! {

/// Markers are dropped on the ticks that are multiples of this period.
pub const PHEROMONE_DROP_PERIOD: u64 = 4;

/// Bound (exclusive, milli-units per tick) of each velocity component of a
/// spawned agent.
pub const SPAWNED_AGENTS_VELOCITY: i64 = 2200;

/// A scent marker: a fixed chunk-local position and the tick it was dropped.
#[derive(Clone, Copy, Debug, PartialEq, Eq, Structural)]
pub struct Pheromone {
    pub position: Vec2,
    pub created: u64,
}

impl Pheromone {
    pub fn new(position: Vec2, created: u64) -> (r: Pheromone)
        ensures
            r.position == position,
            r.created == created,
    {
        Pheromone { position, created }
    }

    /// Influence radius and weight of the marker at tick `now`.
    pub fn radius_and_weight(&self, now: u64) -> (r: (u64, u64))
        requires
            self.created <= now,
            now - self.created <= PHEROMONE_LIFETIME,
        ensures
            r.0 == decay_radius(now - self.created),
            r.1 == decay_weight(now - self.created),
            r.0 <= 3500,
            r.1 <= 1000,
    {
        decay(now - self.created)
    }
}

/// A mobile point with a chunk-local position and a velocity.
#[derive(Clone, Copy, Debug, PartialEq, Eq, Structural)]
pub struct Agent {
    pub position: Vec2,
    pub velocity: Vec2,
}

impl Agent {
    pub fn new(position: Vec2, velocity: Vec2) -> (r: Agent)
        ensures
            r.position == position,
            r.velocity == velocity,
    {
        Agent { position, velocity }
    }
}

/// One cell of the grid with the agents and markers it owns.
pub struct Chunk {
    pub x: usize,
    pub y: usize,
    pub agents: Vec<Agent>,
    pub pheromones: Vec<Pheromone>,
}

/// A marker is still alive at tick `tick`: younger than the lifetime.
pub open spec fn alive(m: Pheromone, tick: int) -> bool {
    tick - m.created < PHEROMONE_LIFETIME
}

/// The agent after one step along its velocity.
pub open spec fn advanced(a: Agent) -> Agent {
    Agent {
        position: Vec2 {
            x: (a.position.x + a.velocity.x) as i64,
            y: (a.position.y + a.velocity.y) as i64,
        },
        velocity: a.velocity,
    }
}

/// The marker that agent `a` drops at tick `tick`.
pub open spec fn dropped(a: Agent, tick: int) -> Pheromone {
    Pheromone { position: a.position, created: tick as u64 }
}

/// The markers that `agents` drop at tick `tick`: one at each agent on the
/// ticks that are multiples of the drop period, none on the others.
pub open spec fn drops(agents: Seq<Agent>, tick: int) -> Seq<Pheromone> {
    if tick % (PHEROMONE_DROP_PERIOD as int) == 0 {
        agents.map_values(|a: Agent| dropped(a, tick))
    } else {
        Seq::empty()
    }
}

impl Chunk {
    /// One tick of the chunk's own work: every agent moves by its velocity,
    /// drops a marker where the tick is a multiple of the drop period, and
    /// the markers that have reached the lifetime are removed.
    pub fn integrate(&mut self, tick: u64, c: i64)
        requires
            0 < c <= MAX_CHUNK_SIZE,
            forall|j: int|
                0 <= j < old(self).agents@.len() ==> {
                    &&& in_box((#[trigger] old(self).agents@[j]).position, 0, c as int)
                    &&& old(self).agents@[j].velocity.norm2() <= c * c
                },
            forall|j: int|
                0 <= j < old(self).pheromones@.len() ==> marker_ok(
                    #[trigger] old(self).pheromones@[j],
                    c as int,
                    tick as int,
                ),
        ensures
            final(self).x == old(self).x,
            final(self).y == old(self).y,
            final(self).agents@ == old(self).agents@.map_values(|a: Agent| advanced(a)),
            final(self).pheromones@ == old(self).pheromones@.filter(|m: Pheromone| alive(m, tick as int))
                + drops(final(self).agents@, tick as int),
            forall|j: int|
                0 <= j < final(self).agents@.len() ==> agent_ok(#[trigger] final(self).agents@[j], c as int),
            forall|j: int|
                0 <= j < final(self).pheromones@.len() ==> marker_ok(
                    #[trigger] final(self).pheromones@[j],
                    c as int,
                    tick + 1,
                ),
    {
        let ghost a0 = self.agents@;
        let n = self.agents.len();
        let mut j: usize = 0;
        while j < n
            invariant
                0 < c <= MAX_CHUNK_SIZE,
                n == a0.len(),
                self.agents@.len() == n,
                j <= n,
                self.pheromones@ == old(self).pheromones@,
                self.x == old(self).x,
                self.y == old(self).y,
                a0 == old(self).agents@,
                forall|q: int| 0 <= q < j ==> #[trigger] self.agents@[q] == advanced(a0[q]),
                forall|q: int| j <= q < n ==> #[trigger] self.agents@[q] == a0[q],
                forall|q: int|
                    0 <= q < n ==> {
                        &&& in_box((#[trigger] a0[q]).position, 0, c as int)
                        &&& a0[q].velocity.norm2() <= c * c
                    },
            decreases n - j,
        {
            let a = self.agents[j];
            proof {
                let vx = a.velocity.x as int;
                let vy = a.velocity.y as int;
                assert(-c <= vx <= c && -c <= vy <= c) by (nonlinear_arith)
                    requires vx * vx + vy * vy <= c * c, c > 0;
            }
            let next = Agent {
                position: Vec2 { x: a.position.x + a.velocity.x, y: a.position.y + a.velocity.y },
                velocity: a.velocity,
            };
            self.agents.set(j, next);
            j = j + 1;
        }
        assert(self.agents@ =~= a0.map_values(|a: Agent| advanced(a)));
        let mut old_markers: Vec<Pheromone> = Vec::new();
        std::mem::swap(&mut old_markers, &mut self.pheromones);
        let ghost ps = old_markers@;
        let mut kept: Vec<Pheromone> = Vec::new();
        let mut i: usize = 0;
        while i < old_markers.len()
            invariant
                ps == old_markers@,
                i <= ps.len(),
                kept@ == ps.subrange(0, i as int).filter(|m: Pheromone| alive(m, tick as int)),
                forall|q: int| 0 <= q < ps.len() ==> marker_ok(#[trigger] ps[q], c as int, tick as int),
            decreases ps.len() - i,
        {
            let m = old_markers[i];
            assert(marker_ok(ps[i as int], c as int, tick as int));
            if tick - m.created < PHEROMONE_LIFETIME {
                kept.push(m);
            }
            proof {
                assert(ps.subrange(0, i as int + 1).drop_last() =~= ps.subrange(0, i as int));
                reveal_with_fuel(Seq::filter, 1);
            }
            i = i + 1;
        }
        proof {
            assert(ps.subrange(0, ps.len() as int) =~= ps);
        }
        let ghost culled = kept@;
        if tick % PHEROMONE_DROP_PERIOD == 0 {
            let mut q: usize = 0;
            while q < self.agents.len()
                invariant
                    kept@.len() == culled.len() + q,
                    kept@.subrange(0, culled.len() as int) == culled,
                    q <= self.agents@.len(),
                    forall|r: int|
                        0 <= r < q ==> #[trigger] kept@[culled.len() + r] == dropped(self.agents@[r], tick as int),
                decreases self.agents@.len() - q,
            {
                let a = self.agents[q];
                kept.push(Pheromone { position: a.position, created: tick });
                proof {
                    assert(kept@[culled.len() + q] == dropped(self.agents@[q as int], tick as int));
                }
                q = q + 1;
            }
            let ghost d = drops(self.agents@, tick as int);
            assert(d.len() == self.agents@.len());
            assert forall|r: int| 0 <= r < d.len() implies #[trigger] d[r] == kept@[culled.len() + r] by {
                assert(d[r] == dropped(self.agents@[r], tick as int));
            }
            assert forall|r: int| 0 <= r < culled.len() implies #[trigger] kept@[r] == culled[r] by {
                assert(kept@.subrange(0, culled.len() as int)[r] == kept@[r]);
            }
            assert(kept@ =~= culled + d);
        } else {
            assert(kept@ =~= culled + drops(self.agents@, tick as int));
        }
        self.pheromones = kept;
        proof {
            let c2 = c as int;
            assert forall|j: int| 0 <= j < self.agents@.len() implies agent_ok(#[trigger] self.agents@[j], c2) by {
                let a = a0[j];
                assert(-c2 <= a.velocity.x <= c2 && -c2 <= a.velocity.y <= c2) by (nonlinear_arith)
                    requires a.velocity.x * a.velocity.x + a.velocity.y * a.velocity.y <= c2 * c2, c2 > 0;
            }
            let fl = ps.filter(|m: Pheromone| alive(m, tick as int));
            assert forall|j: int| 0 <= j < self.pheromones@.len() implies marker_ok(
                #[trigger] self.pheromones@[j], c2, tick + 1) by {
                if j < culled.len() {
                    ps.lemma_filter_pred(|m: Pheromone| alive(m, tick as int), j);
                    assert(fl.contains(fl[j]));
                    ps.lemma_filter_contains_rev(|m: Pheromone| alive(m, tick as int), fl[j]);
                    let q = choose|q: int| 0 <= q < ps.len() && ps[q] == fl[j];
                    assert(marker_ok(ps[q], c2, tick as int));
                } else {
                    let r = j - culled.len();
                    assert(self.pheromones@[j] == dropped(self.agents@[r], tick as int));
                }
            }
        }
    }

    pub fn new(x: usize, y: usize) -> (r: Chunk)
        ensures
            r.x == x,
            r.y == y,
            r.agents@.len() == 0,
            r.pheromones@.len() == 0,
    {
        Chunk { x, y, agents: Vec::new(), pheromones: Vec::new() }
    }
}

/// `p` lies in `[lo, hi)` on both axes.
pub open spec fn in_box(p: Vec2, lo: int, hi: int) -> bool {
    lo <= p.x < hi && lo <= p.y < hi
}

/// The bounds every agent keeps between ticks: a local position at most one
/// chunk outside its chunk, and a speed of at most one chunk per tick.
pub open spec fn agent_ok(a: Agent, c: int) -> bool {
    in_box(a.position, -c, 2 * c) && a.velocity.norm2() <= c * c
}

/// A marker as it stands between ticks: dropped no later than `tick` and
/// at most a lifetime ago, at a position at most one chunk outside its chunk.
pub open spec fn marker_ok(m: Pheromone, c: int, tick: int) -> bool {
    in_box(m.position, -c, 2 * c) && m.created <= tick && tick - m.created <= PHEROMONE_LIFETIME
}

/// Number of agents over a sequence of chunks.
pub open spec fn total_agents(chunks: Seq<Chunk>) -> int
    decreases chunks.len(),
{
    if chunks.len() == 0 {
        0
    } else {
        total_agents(chunks.drop_last()) + chunks.last().agents@.len()
    }
}

pub proof fn lemma_total_agents_update(chunks: Seq<Chunk>, i: int, c: Chunk)
    requires
        0 <= i < chunks.len(),
    ensures
        total_agents(chunks.update(i, c)) == total_agents(chunks) - chunks[i].agents@.len()
            + c.agents@.len(),
    decreases chunks.len(),
{
    let u = chunks.update(i, c);
    if i == chunks.len() - 1 {
        assert(u.drop_last() =~= chunks.drop_last());
    } else {
        assert(u.drop_last() =~= chunks.drop_last().update(i, c));
        lemma_total_agents_update(chunks.drop_last(), i, c);
    }
}

/// Number of agents that chunk `k` of `n` receives when `count` agents are
/// spread over the grid: the growth of the running share `count * (k + 1) / n`
/// rounded down.
pub open spec fn spawn_share(count: int, n: int, k: int) -> int {
    count * (k + 1) / n - count * k / n
}

/// Bound (exclusive) of each velocity component of an agent spawned in
/// chunks of side `c`: the fixed spawn speed, but no more than half a chunk.
pub open spec fn spawn_speed(c: int) -> int {
    let half = c / 2;
    let v = if half < SPAWNED_AGENTS_VELOCITY { half } else { SPAWNED_AGENTS_VELOCITY as int };
    if v == 0 {
        1
    } else {
        v
    }
}

/// What a freshly spawned agent in chunks of side `c` satisfies.
pub open spec fn spawned_ok(a: Agent, c: int) -> bool {
    &&& in_box(a.position, 0, c)
    &&& 0 <= a.velocity.x < spawn_speed(c)
    &&& 0 <= a.velocity.y < spawn_speed(c)
}

/// Relies on rand::thread_rng and rand::Rng::gen_range: a value drawn
/// from `0..bound` (gen_range panics only on an empty range).
#[verifier::external_body]
fn random_below(bound: u64) -> (r: u64)
    requires
        bound > 0,
    ensures
        r < bound,
{
    rand::thread_rng().gen_range(0..bound)
}

fn random_agent(chunk_size: i64) -> (a: Agent)
    requires
        0 < chunk_size <= MAX_CHUNK_SIZE,
    ensures
        spawned_ok(a, chunk_size as int),
        agent_ok(a, chunk_size as int),
{
    let half = chunk_size / 2;
    let v = if half < SPAWNED_AGENTS_VELOCITY { half } else { SPAWNED_AGENTS_VELOCITY };
    let speed = if v == 0 { 1 } else { v };
    let px = random_below(chunk_size as u64) as i64;
    let py = random_below(chunk_size as u64) as i64;
    let vx = random_below(speed as u64) as i64;
    let vy = random_below(speed as u64) as i64;
    proof {
        let c = chunk_size as int;
        assert(0 <= vx <= c / 2 && 0 <= vy <= c / 2);
        assert(vx * vx + vy * vy <= c * c) by (nonlinear_arith)
            requires 0 <= vx <= c / 2, 0 <= vy <= c / 2, c > 0;
    }
    Agent { position: Vec2 { x: px, y: py }, velocity: Vec2 { x: vx, y: vy } }
}

proof fn lemma_total_agents_same_lengths(a: Seq<Chunk>, b: Seq<Chunk>)
    requires
        a.len() == b.len(),
        forall|k: int| 0 <= k < a.len() ==> (#[trigger] a[k]).agents@.len() == b[k].agents@.len(),
    ensures
        total_agents(a) == total_agents(b),
    decreases a.len(),
{
    if a.len() > 0 {
        lemma_total_agents_same_lengths(a.drop_last(), b.drop_last());
    }
}

/// Ticks neither create nor destroy agents: along any run of whole ticks
/// (without spawning), the number of agents stays what it was at the start.
pub proof fn lemma_agent_conservation(run: Seq<World>)
    requires
        run.len() > 0,
        forall|i: int| 0 < i < run.len() ==> (#[trigger] run[i]).ticked_from(&run[i - 1]),
    ensures
        run.last().agent_count() == run[0].agent_count(),
    decreases run.len(),
{
    if run.len() > 1 {
        let prefix = run.drop_last();
        assert forall|i: int| 0 < i < prefix.len() implies (#[trigger] prefix[i]).ticked_from(&prefix[i - 1]) by {
            assert(prefix[i] == run[i] && prefix[i - 1] == run[i - 1]);
        }
        lemma_agent_conservation(prefix);
        let last = run.len() - 1;
        assert(run[last].ticked_from(&run[last - 1]));
    }
}

/// Which side of a chunk of side `c` a coordinate `p` has crossed: `-1`
/// below it, `1` at or beyond its far edge, `0` inside.
pub open spec fn crossing(p: int, c: int) -> int {
    if p < 0 {
        -1
    } else if p >= c {
        1
    } else {
        0
    }
}

/// The agent with its position rebased into the frame of the chunk it has
/// crossed into.
pub open spec fn rebased(a: Agent, c: int) -> Agent {
    Agent {
        position: Vec2 {
            x: (a.position.x - crossing(a.position.x as int, c) * c) as i64,
            y: (a.position.y - crossing(a.position.y as int, c) * c) as i64,
        },
        velocity: a.velocity,
    }
}

/// The agents of `s` that lie inside a chunk of side `c`, in order.
pub open spec fn staying(s: Seq<Agent>, c: int) -> Seq<Agent> {
    s.filter(|a: Agent| in_box(a.position, 0, c))
}

/// Index of the chunk that agent `a` of chunk `k` crosses into, on a grid
/// `w` chunks wide and `h` high.
pub open spec fn target_chunk(w: int, h: int, k: int, a: Agent, c: int) -> int {
    wrap(h, k / w, crossing(a.position.y as int, c)) * w + wrap(w, k % w, crossing(a.position.x as int, c))
}

proof fn lemma_index_coords(i: int, w: int, h: int)
    requires
        0 <= i < w * h,
        0 < w,
        0 < h,
    ensures
        0 <= i % w < w,
        0 <= i / w < h,
{
    vstd::arithmetic::div_mod::lemma_fundamental_div_mod(i, w);
    vstd::arithmetic::div_mod::lemma_mod_bound(i, w);
    vstd::arithmetic::div_mod::lemma_div_pos_is_pos(i, w);
    let q = i / w;
    assert(q < h) by (nonlinear_arith)
        requires i == w * q + i % w, i % w >= 0, i < w * h, w > 0;
}

proof fn lemma_index_in_grid(x: int, y: int, w: int, h: int)
    requires
        0 <= x < w,
        0 <= y < h,
    ensures
        0 <= y * w + x < w * h,
{
    assert(0 <= y * w + x < w * h) by (nonlinear_arith)
        requires 0 <= x < w, 0 <= y < h;
}

/// Weight that marker `m`, owned by chunk `(cx, cy)`, adds at tick `tick`
/// to a probe at world position `probe`: its weight where the probe lies
/// within its radius, else nothing.
pub open spec fn marker_weight(m: Pheromone, cx: int, cy: int, c: int, tick: int, probe: (int, int)) -> int {
    let (mx, my) = world_position(m.position, c, cx, cy);
    let age = tick - m.created;
    let r = decay_radius(age);
    if (mx - probe.0) * (mx - probe.0) + (my - probe.1) * (my - probe.1) <= r * r {
        decay_weight(age)
    } else {
        0
    }
}

/// Summed weight that the markers `ms` of chunk `(cx, cy)` add to a probe.
pub open spec fn markers_weight(ms: Seq<Pheromone>, cx: int, cy: int, c: int, tick: int, probe: (int, int)) -> int
    decreases ms.len(),
{
    if ms.len() == 0 {
        0
    } else {
        markers_weight(ms.drop_last(), cx, cy, c, tick, probe) + marker_weight(ms.last(), cx, cy, c, tick, probe)
    }
}

/// Summed weight that the markers of a chunk add to a probe.
pub open spec fn chunk_weight(ch: Chunk, c: int, tick: int, probe: (int, int)) -> int {
    markers_weight(ch.pheromones@, ch.x as int, ch.y as int, c, tick, probe)
}

/// Coordinate `d` steps from `x` on a toroidal axis of `size` chunks.
pub open spec fn wrap(size: int, x: int, d: int) -> int {
    (size + x + d) % size
}

/// Which half of a chunk of side `c` a local coordinate lies in: `-1` for
/// the lower half, `1` for the upper.
pub open spec fn side(p: int, c: int) -> int {
    if 2 * p < c {
        -1
    } else {
        1
    }
}

/// `p` moved by `d`.
pub open spec fn offset(p: (int, int), d: Vec2) -> (int, int) {
    (p.0 + d.x, p.1 + d.y)
}

/// The rotation by the opposite angle.
pub open spec fn inverse_of(t: Turn) -> Turn {
    Turn { cos: t.cos, sin: (-t.sin) as i64 }
}

/// Largest magnitude of a world coordinate that sensing handles.
pub const WORLD_BOUND: i64 = 5_000_000_000_000;

/// Weight that marker `m` of chunk `(cx, cy)` adds to a probe at `probe`.
fn marker_hit(m: Pheromone, cx: usize, cy: usize, c: i64, tick: u64, probe: Vec2) -> (r: u64)
    requires
        cx < MAX_GRID_SIDE,
        cy < MAX_GRID_SIDE,
        0 < c <= MAX_CHUNK_SIZE,
        marker_ok(m, c as int, tick as int),
        probe.within(WORLD_BOUND as int),
    ensures
        r == marker_weight(m, cx as int, cy as int, c as int, tick as int, (probe.x as int, probe.y as int)),
        r <= 1000,
{
    let (rad, wt) = m.radius_and_weight(tick);
    let g = global_position(m.position, c, cx, cy);
    proof {
        assert(cx * c <= 4096 * 1_000_000_000) by (nonlinear_arith)
            requires cx <= 4096, 0 < c <= 1_000_000_000;
        assert(cy * c <= 4096 * 1_000_000_000) by (nonlinear_arith)
            requires cy <= 4096, 0 < c <= 1_000_000_000;
    }
    let dx: i128 = g.x as i128 - probe.x as i128;
    let dy: i128 = g.y as i128 - probe.y as i128;
    proof {
        assert(0 <= dx * dx <= 20_000_000_000_000 * 20_000_000_000_000) by (nonlinear_arith)
            requires -20_000_000_000_000 <= dx <= 20_000_000_000_000;
        assert(0 <= dy * dy <= 20_000_000_000_000 * 20_000_000_000_000) by (nonlinear_arith)
            requires -20_000_000_000_000 <= dy <= 20_000_000_000_000;
        assert(rad * rad <= 3500 * 3500) by (nonlinear_arith)
            requires rad <= 3500;
    }
    let rr: i128 = rad as i128 * rad as i128;
    if dx * dx + dy * dy <= rr {
        wt
    } else {
        0
    }
}

/// Velocity `v` after steering command `cmd`, turning by `t`.
pub open spec fn steered(v: Vec2, cmd: AgentCommand, t: Turn) -> Vec2 {
    match cmd {
        AgentCommand::Left => rotated(v, t),
        AgentCommand::Right => rotated(v, inverse_of(t)),
        AgentCommand::Forward => v,
    }
}

/// The kernel's state: a `size_h` by `size_w` toroidal grid of chunks, held
/// row by row, and the sensing and steering parameters.
pub struct World {
    pub size_w: usize,
    pub size_h: usize,
    pub chunk_size: i64,
    pub sensor_angle: Turn,
    pub sensor_range: i64,
    pub angle_change: Turn,
    pub agent_visiblity: bool,
    pub chunks: Vec<Chunk>,
    pub tick: u64,
}

impl World {
    /// The configuration and the grid's shape are valid.
    pub open spec fn wf_config(&self) -> bool {
        &&& 0 < self.size_w <= MAX_GRID_SIDE
        &&& 0 < self.size_h <= MAX_GRID_SIDE
        &&& 0 < self.chunk_size <= MAX_CHUNK_SIZE
        &&& 0 <= self.sensor_range
        &&& 2 * self.sensor_range <= self.chunk_size
        &&& self.sensor_angle.wf()
        &&& self.angle_change.wf()
        &&& self.chunks@.len() == self.size_w * self.size_h
        &&& forall|k: int|
            0 <= k < self.chunks@.len() ==> {
                &&& #[trigger] self.chunks@[k].x == k % (self.size_w as int)
                &&& self.chunks@[k].y == k / (self.size_w as int)
            }
    }

    /// Every agent and every marker keeps its bounds.
    pub open spec fn wf_contents(&self) -> bool {
        &&& forall|k: int, j: int|
            0 <= k < self.chunks@.len() && 0 <= j < self.chunks@[k].agents@.len() ==> agent_ok(
                #[trigger] self.chunks@[k].agents@[j],
                self.chunk_size as int,
            )
        &&& forall|k: int, j: int|
            0 <= k < self.chunks@.len() && 0 <= j < self.chunks@[k].pheromones@.len() ==> marker_ok(
                #[trigger] self.chunks@[k].pheromones@[j],
                self.chunk_size as int,
                self.tick as int,
            )
    }

    pub open spec fn wf(&self) -> bool {
        self.wf_config() && self.wf_contents()
    }

    /// Number of agents in the world.
    pub open spec fn agent_count(&self) -> int {
        total_agents(self.chunks@)
    }

    /// A world of `size_w` by `size_h` empty chunks at tick 0; `None` where
    /// the sensor range exceeds half the chunk size.
    pub fn new(
        size_w: usize,
        size_h: usize,
        chunk_size: i64,
        sensor_angle: Turn,
        sensor_range: i64,
        angle_change: Turn,
    ) -> (r: Option<World>)
        requires
            0 < size_w <= MAX_GRID_SIDE,
            0 < size_h <= MAX_GRID_SIDE,
            0 < chunk_size <= MAX_CHUNK_SIZE,
            0 <= sensor_range,
            sensor_angle.wf(),
            angle_change.wf(),
        ensures
            r is Some <==> 2 * sensor_range <= chunk_size,
            r matches Some(w) ==> {
                &&& w.wf()
                &&& w.size_w == size_w && w.size_h == size_h
                &&& w.chunk_size == chunk_size && w.sensor_range == sensor_range
                &&& w.sensor_angle == sensor_angle && w.angle_change == angle_change
                &&& w.agent_visiblity
                &&& w.tick == 0
                &&& forall|k: int| 0 <= k < w.chunks@.len() ==> {
                    &&& (#[trigger] w.chunks@[k]).agents@.len() == 0
                    &&& w.chunks@[k].pheromones@.len() == 0
                }
            },
    {
        if sensor_range > MAX_CHUNK_SIZE || 2 * sensor_range > chunk_size {
            return None;
        }
        let mut chunks: Vec<Chunk> = Vec::new();
        let mut y: usize = 0;
        while y < size_h
            invariant
                0 < size_w <= MAX_GRID_SIDE,
                0 < size_h <= MAX_GRID_SIDE,
                y <= size_h,
                chunks@.len() == y * size_w,
                forall|k: int| 0 <= k < chunks@.len() ==> {
                    &&& (#[trigger] chunks@[k]).x == k % (size_w as int)
                    &&& chunks@[k].y == k / (size_w as int)
                    &&& chunks@[k].agents@.len() == 0
                    &&& chunks@[k].pheromones@.len() == 0
                },
            decreases size_h - y,
        {
            let mut x: usize = 0;
            while x < size_w
                invariant
                    0 < size_w <= MAX_GRID_SIDE,
                    0 < size_h <= MAX_GRID_SIDE,
                    y < size_h,
                    x <= size_w,
                    chunks@.len() == y * size_w + x,
                    forall|k: int| 0 <= k < chunks@.len() ==> {
                        &&& (#[trigger] chunks@[k]).x == k % (size_w as int)
                        &&& chunks@[k].y == k / (size_w as int)
                        &&& chunks@[k].agents@.len() == 0
                        &&& chunks@[k].pheromones@.len() == 0
                    },
                decreases size_w - x,
            {
                proof {
                    vstd::arithmetic::div_mod::lemma_fundamental_div_mod_converse(
                        chunks@.len() as int, size_w as int, y as int, x as int);
                }
                let ghost before = chunks@;
                chunks.push(Chunk::new(x, y));
                assert(forall|k: int| 0 <= k < before.len() ==> chunks@[k] == before[k]);
                x = x + 1;
            }
            proof {
                assert(y * size_w + size_w == (y + 1) * size_w) by (nonlinear_arith);
            }
            y = y + 1;
        }
        proof {
            assert(size_h * size_w == size_w * size_h) by (nonlinear_arith);
        }
        Some(World {
            size_w,
            size_h,
            chunk_size,
            sensor_angle,
            sensor_range,
            angle_change,
            agent_visiblity: true,
            chunks,
            tick: 0,
        })
    }

    /// The two worlds agree on everything but the contents of their chunks.
    pub open spec fn same_settings(&self, other: &World) -> bool {
        &&& self.size_w == other.size_w
        &&& self.size_h == other.size_h
        &&& self.chunk_size == other.chunk_size
        &&& self.sensor_angle == other.sensor_angle
        &&& self.sensor_range == other.sensor_range
        &&& self.angle_change == other.angle_change
        &&& self.agent_visiblity == other.agent_visiblity
        &&& self.chunks@.len() == other.chunks@.len()
        &&& forall|k: int|
            0 <= k < self.chunks@.len() ==> {
                &&& (#[trigger] self.chunks@[k]).x == other.chunks@[k].x
                &&& self.chunks@[k].y == other.chunks@[k].y
            }
    }

    /// Adds `number` agents: chunk `k` (in row order) receives
    /// `spawn_share(number, size_w * size_h, k)` of them, each at a random
    /// position inside the chunk and with a random velocity.
    pub fn spawn_random_agents(&mut self, number: usize)
        requires
            old(self).wf(),
        ensures
            final(self).wf(),
            final(self).same_settings(old(self)),
            final(self).tick == old(self).tick,
            final(self).agent_count() == old(self).agent_count() + number,
            forall|k: int|
                0 <= k < final(self).chunks@.len() ==> {
                    let a = (#[trigger] final(self).chunks@[k]).agents@;
                    let a0 = old(self).chunks@[k].agents@;
                    &&& a.len() == a0.len() + spawn_share(
                        number as int,
                        old(self).chunks@.len() as int,
                        k,
                    )
                    &&& a.subrange(0, a0.len() as int) == a0
                    &&& forall|j: int|
                        a0.len() <= j < a.len() ==> spawned_ok(
                            #[trigger] a[j],
                            old(self).chunk_size as int,
                        )
                    &&& final(self).chunks@[k].pheromones@ == old(self).chunks@[k].pheromones@
                },
    {
        let n: usize = self.chunks.len();
        proof {
            assert(n <= 4096 * 4096) by (nonlinear_arith)
                requires n == self.size_w * self.size_h, self.size_w <= 4096, self.size_h <= 4096;
            assert(n > 0) by (nonlinear_arith)
                requires n == self.size_w * self.size_h, self.size_w > 0, self.size_h > 0;
        }
        let ghost start = *self;
        let mut k: usize = 0;
        while k < n
            invariant
                0 < n <= 4096 * 4096,
                n == self.chunks@.len(),
                k <= n,
                start.wf(),
                self.wf(),
                self.same_settings(&start),
                self.tick == start.tick,
                self.agent_count() == start.agent_count() + (number as int) * (k as int) / (n as int),
                forall|i: int|
                    0 <= i < n ==> {
                        let a = (#[trigger] self.chunks@[i]).agents@;
                        let a0 = start.chunks@[i].agents@;
                        &&& a.len() == a0.len() + (if i < k {
                            spawn_share(number as int, n as int, i)
                        } else {
                            0
                        })
                        &&& a.subrange(0, a0.len() as int) == a0
                        &&& forall|j: int|
                            a0.len() <= j < a.len() ==> spawned_ok(
                                #[trigger] a[j],
                                start.chunk_size as int,
                            )
                        &&& self.chunks@[i].pheromones@ == start.chunks@[i].pheromones@
                    },
            decreases n - k,
        {
            proof {
                assert((number as int) * (k as int) <= (number as int) * (k as int + 1))
                    by (nonlinear_arith);
                vstd::arithmetic::div_mod::lemma_div_is_ordered(
                    (number as int) * (k as int), (number as int) * (k as int + 1), n as int);
                assert((number as int) * (k as int + 1) <= 18446744073709551615 * 16777216)
                    by (nonlinear_arith)
                    requires number <= 18446744073709551615, k + 1 <= 16777216;
            }
            let hi: u128 = (number as u128) * ((k + 1) as u128) / (n as u128);
            let lo: u128 = (number as u128) * (k as u128) / (n as u128);
            let share: u128 = hi - lo;
            let mut m: u128 = 0;
            while m < share
                invariant
                    0 < n <= 4096 * 4096,
                    n == self.chunks@.len(),
                    k < n,
                    m <= share,
                    share == spawn_share(number as int, n as int, k as int),
                    start.wf(),
                    self.wf(),
                    self.same_settings(&start),
                    self.tick == start.tick,
                    self.agent_count() == start.agent_count() + (number as int) * (k as int) / (n as int) + m,
                    forall|i: int|
                        0 <= i < n ==> {
                            let a = (#[trigger] self.chunks@[i]).agents@;
                            let a0 = start.chunks@[i].agents@;
                            &&& a.len() == a0.len() + (if i < k {
                                spawn_share(number as int, n as int, i)
                            } else if i == k {
                                m as int
                            } else {
                                0
                            })
                            &&& a.subrange(0, a0.len() as int) == a0
                            &&& forall|j: int|
                                a0.len() <= j < a.len() ==> spawned_ok(
                                    #[trigger] a[j],
                                    start.chunk_size as int,
                                )
                            &&& self.chunks@[i].pheromones@ == start.chunks@[i].pheromones@
                        },
                decreases share - m,
            {
                let agent = random_agent(self.chunk_size);
                let ghost before = self.chunks@;
                self.chunks[k].agents.push(agent);
                proof {
                    lemma_total_agents_update(before, k as int, self.chunks@[k as int]);
                    assert(self.chunks@ == before.update(k as int, self.chunks@[k as int]));
                    let a = self.chunks@[k as int].agents@;
                    let a0 = start.chunks@[k as int].agents@;
                    assert(a == before[k as int].agents@.push(agent));
                    assert(a.subrange(0, a0.len() as int) =~= a0);
                }
                m = m + 1;
            }
            k = k + 1;
        }
        proof {
            vstd::arithmetic::div_mod::lemma_div_multiples_vanish(number as int, n as int);
            assert((number as int) * (n as int) == (n as int) * (number as int)) by (nonlinear_arith);
        }
    }

    /// Every agent lies inside its own chunk.
    pub open spec fn settled(&self) -> bool {
        forall|k: int, j: int|
            0 <= k < self.chunks@.len() && 0 <= j < self.chunks@[k].agents@.len() ==> in_box(
                (#[trigger] self.chunks@[k].agents@[j]).position,
                0,
                self.chunk_size as int,
            )
    }

    /// Agent `a` is what migration brings into chunk `t`: an agent of this
    /// world that left its chunk towards `t`, rebased into `t`'s frame.
    pub open spec fn arrives(&self, a: Agent, t: int) -> bool {
        exists|k: int, j: int|
            #![trigger self.chunks@[k].agents@[j]]
            0 <= k < self.chunks@.len() && 0 <= j < self.chunks@[k].agents@.len() && !in_box(
                self.chunks@[k].agents@[j].position,
                0,
                self.chunk_size as int,
            ) && target_chunk(
                self.size_w as int,
                self.size_h as int,
                k,
                self.chunks@[k].agents@[j],
                self.chunk_size as int,
            ) == t && a == rebased(self.chunks@[k].agents@[j], self.chunk_size as int)
    }

    /// `self` is what the migration phase makes of `before`.
    pub open spec fn migrated_from(&self, before: &World) -> bool {
        &&& self.wf()
        &&& self.settled()
        &&& self.same_settings(before)
        &&& self.tick == before.tick
        &&& self.agent_count() == before.agent_count()
        &&& forall|k: int|
            0 <= k < self.chunks@.len() ==> (#[trigger] self.chunks@[k]).pheromones@
                == before.chunks@[k].pheromones@
        &&& forall|t: int|
            0 <= t < self.chunks@.len() ==> {
                let fa = (#[trigger] self.chunks@[t]).agents@;
                let kept = staying(before.chunks@[t].agents@, before.chunk_size as int);
                &&& kept.len() <= fa.len()
                &&& fa.subrange(0, kept.len() as int) == kept
                &&& forall|q: int| kept.len() <= q < fa.len() ==> before.arrives(#[trigger] fa[q], t)
            }
    }

    /// Moves every agent that has left its chunk into the neighbouring chunk
    /// it crossed into (toroidally), rebasing its position into that chunk's
    /// frame. Agents that stayed keep their order, in front of the arrivals.
    pub fn migrate(&mut self)
        requires
            old(self).wf(),
        ensures
            final(self).migrated_from(old(self)),
    {
        let n: usize = self.chunks.len();
        let c: i64 = self.chunk_size;
        let w: usize = self.size_w;
        let h: usize = self.size_h;
        let ghost start = *self;
        let mut moved: Vec<(Agent, usize)> = Vec::new();
        let mut i: usize = 0;
        while i < n
            invariant
                n == self.chunks@.len(),
                c == self.chunk_size,
                w == self.size_w,
                h == self.size_h,
                i <= n,
                start.wf(),
                self.wf(),
                self.same_settings(&start),
                self.tick == start.tick,
                self.agent_count() + moved@.len() == start.agent_count(),
                forall|k: int, j: int|
                    0 <= k < i && 0 <= j < self.chunks@[k].agents@.len() ==> in_box(
                        (#[trigger] self.chunks@[k].agents@[j]).position,
                        0,
                        c as int,
                    ),
                forall|k: int| i <= k < n ==> (#[trigger] self.chunks@[k]).agents@ == start.chunks@[k].agents@,
                forall|k: int| 0 <= k < i ==> (#[trigger] self.chunks@[k]).agents@ == staying(start.chunks@[k].agents@, c as int),
                forall|k: int| 0 <= k < n ==> (#[trigger] self.chunks@[k]).pheromones@ == start.chunks@[k].pheromones@,
                forall|m: int|
                    0 <= m < moved@.len() ==> {
                        &&& (#[trigger] moved@[m]).1 < n
                        &&& in_box(moved@[m].0.position, 0, c as int)
                        &&& agent_ok(moved@[m].0, c as int)
                        &&& start.arrives(moved@[m].0, moved@[m].1 as int)
                    },
            decreases n - i,
        {
            let mut agents: Vec<Agent> = Vec::new();
            let ghost before = self.chunks@;
            std::mem::swap(&mut agents, &mut self.chunks[i].agents);
            proof {
                lemma_total_agents_update(before, i as int, self.chunks@[i as int]);
                assert(self.chunks@ == before.update(i as int, self.chunks@[i as int]));
            }
            let x = self.chunks[i].x;
            let y = self.chunks[i].y;
            proof {
                lemma_index_coords(i as int, w as int, h as int);
            }
            let mut kept: Vec<Agent> = Vec::new();
            let mut j: usize = 0;
            while j < agents.len()
                invariant
                    agents@ == start.chunks@[i as int].agents@,
                    c == start.chunk_size,
                    w == start.size_w,
                    h == start.size_h,
                    n == start.chunks@.len(),
                    x == i % w,
                    y == i / w,
                    kept@ == agents@.subrange(0, j as int).filter(|a: Agent| in_box(a.position, 0, c as int)),
                    n == self.chunks@.len(),
                    c == self.chunk_size,
                    w == self.size_w,
                    h == self.size_h,
                    i < n,
                    x < w,
                    y < h,
                    j <= agents@.len(),
                    0 < c <= MAX_CHUNK_SIZE,
                    0 < w <= MAX_GRID_SIDE,
                    0 < h <= MAX_GRID_SIDE,
                    n == w * h,
                    forall|q: int| 0 <= q < agents@.len() ==> agent_ok(#[trigger] agents@[q], c as int),
                    self.agent_count() + moved@.len() + kept@.len() + agents@.len() - j == start.agent_count(),
                    forall|q: int|
                        0 <= q < kept@.len() ==> {
                            &&& in_box((#[trigger] kept@[q]).position, 0, c as int)
                            &&& agent_ok(kept@[q], c as int)
                        },
                    forall|m: int|
                        0 <= m < moved@.len() ==> {
                            &&& (#[trigger] moved@[m]).1 < n
                            &&& in_box(moved@[m].0.position, 0, c as int)
                            &&& agent_ok(moved@[m].0, c as int)
                            &&& start.arrives(moved@[m].0, moved@[m].1 as int)
                        },
                decreases agents@.len() - j,
            {
                let a = agents[j];
                let px: isize = if a.position.x < 0 {
                    -1
                } else if a.position.x >= c {
                    1
                } else {
                    0
                };
                let py: isize = if a.position.y < 0 {
                    -1
                } else if a.position.y >= c {
                    1
                } else {
                    0
                };
                if px == 0 && py == 0 {
                    kept.push(a);
                } else {
                    let nx = if px < 0 {
                        a.position.x + c
                    } else if px > 0 {
                        a.position.x - c
                    } else {
                        a.position.x
                    };
                    let ny = if py < 0 {
                        a.position.y + c
                    } else if py > 0 {
                        a.position.y - c
                    } else {
                        a.position.y
                    };
                    let tx = crate::grid::chunk_coordinate(w, x, px);
                    let ty = crate::grid::chunk_coordinate(h, y, py);
                    proof {
                        lemma_index_in_grid(tx as int, ty as int, w as int, h as int);
                    }
                    let target = ty * w + tx;
                    let arrival = Agent { position: Vec2 { x: nx, y: ny }, velocity: a.velocity };
                    proof {
                        assert(start.chunks@[i as int].agents@[j as int] == a);
                        let cx = crossing(a.position.x as int, c as int);
                        let cy = crossing(a.position.y as int, c as int);
                        assert(cx == px as int && cy == py as int);
                        assert(cx * c == px * c && cy * c == py * c);
                        assert(nx == a.position.x - cx * c) by (nonlinear_arith)
                            requires cx == px, -1 <= px <= 1,
                                px < 0 ==> nx == a.position.x + c,
                                px > 0 ==> nx == a.position.x - c,
                                px == 0 ==> nx == a.position.x;
                        assert(ny == a.position.y - cy * c) by (nonlinear_arith)
                            requires cy == py, -1 <= py <= 1,
                                py < 0 ==> ny == a.position.y + c,
                                py > 0 ==> ny == a.position.y - c,
                                py == 0 ==> ny == a.position.y;
                        assert(arrival == rebased(a, c as int));
                        assert(target == target_chunk(w as int, h as int, i as int, a, c as int));
                        assert(start.arrives(arrival, target as int));
                    }
                    moved.push((arrival, target));
                }
                proof {
                    assert(agents@.subrange(0, j as int + 1).drop_last() =~= agents@.subrange(0, j as int));
                    reveal_with_fuel(Seq::filter, 1);
                }
                j = j + 1;
            }
            proof {
                assert(agents@.subrange(0, agents@.len() as int) =~= agents@);
            }
            let ghost before2 = self.chunks@;
            self.chunks[i].agents = kept;
            proof {
                lemma_total_agents_update(before2, i as int, self.chunks@[i as int]);
                assert(self.chunks@ == before2.update(i as int, self.chunks@[i as int]));
            }
            i = i + 1;
        }
        let mut m: usize = 0;
        while m < moved.len()
            invariant
                n == self.chunks@.len(),
                c == self.chunk_size,
                m <= moved@.len(),
                start.wf(),
                self.wf(),
                self.same_settings(&start),
                self.tick == start.tick,
                self.agent_count() + moved@.len() - m == start.agent_count(),
                self.settled(),
                forall|k: int| 0 <= k < n ==> (#[trigger] self.chunks@[k]).pheromones@ == start.chunks@[k].pheromones@,
                forall|q: int|
                    0 <= q < moved@.len() ==> {
                        &&& (#[trigger] moved@[q]).1 < n
                        &&& in_box(moved@[q].0.position, 0, c as int)
                        &&& agent_ok(moved@[q].0, c as int)
                        &&& start.arrives(moved@[q].0, moved@[q].1 as int)
                    },
                forall|t: int|
                    0 <= t < n ==> {
                        let fa = (#[trigger] self.chunks@[t]).agents@;
                        let kept = staying(start.chunks@[t].agents@, c as int);
                        &&& kept.len() <= fa.len()
                        &&& fa.subrange(0, kept.len() as int) == kept
                        &&& forall|q: int| kept.len() <= q < fa.len() ==> start.arrives(#[trigger] fa[q], t)
                    },
            decreases moved@.len() - m,
        {
            let (a, t) = moved[m];
            let ghost before = self.chunks@;
            self.chunks[t].agents.push(a);
            proof {
                lemma_total_agents_update(before, t as int, self.chunks@[t as int]);
                assert(self.chunks@ == before.update(t as int, self.chunks@[t as int]));
                let kept = staying(start.chunks@[t as int].agents@, c as int);
                assert(self.chunks@[t as int].agents@.subrange(0, kept.len() as int)
                    =~= before[t as int].agents@.subrange(0, kept.len() as int));
            }
            m = m + 1;
        }
    }

    /// The chunks probed for an agent `a` of chunk `k`: its own chunk, then
    /// the horizontal, the vertical and the diagonal neighbour on the side of
    /// the quadrant of the chunk that the agent is in.
    pub open spec fn candidates(&self, k: int, a: Agent) -> Seq<int> {
        let w = self.size_w as int;
        let h = self.size_h as int;
        let x = k % w;
        let y = k / w;
        let ex = wrap(w, x, side(a.position.x as int, self.chunk_size as int));
        let ey = wrap(h, y, side(a.position.y as int, self.chunk_size as int));
        seq![k, y * w + ex, ey * w + x, ey * w + ex]
    }

    /// Summed weight under a probe at world position `probe`, over the
    /// markers of the chunks probed for agent `a` of chunk `k`.
    pub open spec fn probe_weight(&self, k: int, a: Agent, probe: (int, int)) -> int {
        let cs = self.candidates(k, a);
        let c = self.chunk_size as int;
        let t = self.tick as int;
        chunk_weight(self.chunks@[cs[0]], c, t, probe) + chunk_weight(self.chunks@[cs[1]], c, t, probe)
            + chunk_weight(self.chunks@[cs[2]], c, t, probe) + chunk_weight(self.chunks@[cs[3]], c, t, probe)
    }

    /// The steering decision for agent `a` of chunk `k`: probes at sensor
    /// range ahead of it, and rotated by the sensor angle to its left and
    /// right; an agent too slow to have a heading goes forward.
    pub open spec fn agent_decision(&self, k: int, a: Agent) -> AgentCommand {
        let len = length_of(a.velocity);
        let ahead = scaled_to(a.velocity, self.sensor_range as int, len);
        let pos = world_position(a.position, self.chunk_size as int, k % (self.size_w as int), k / (self.size_w as int));
        if len == 0 {
            AgentCommand::Forward
        } else {
            decision(
                self.probe_weight(k, a, offset(pos, ahead)),
                self.probe_weight(k, a, offset(pos, rotated(ahead, self.sensor_angle))),
                self.probe_weight(k, a, offset(pos, rotated(ahead, inverse_of(self.sensor_angle)))),
            )
        }
    }

    /// Summed weights that the markers of chunk `k` add to three probes.
    fn probe_chunk(&self, k: usize, f: Vec2, l: Vec2, r: Vec2) -> (res: (u128, u128, u128))
        requires
            self.wf(),
            k < self.chunks@.len(),
            f.within(WORLD_BOUND as int),
            l.within(WORLD_BOUND as int),
            r.within(WORLD_BOUND as int),
        ensures
            res.0 == chunk_weight(self.chunks@[k as int], self.chunk_size as int, self.tick as int, (f.x as int, f.y as int)),
            res.1 == chunk_weight(self.chunks@[k as int], self.chunk_size as int, self.tick as int, (l.x as int, l.y as int)),
            res.2 == chunk_weight(self.chunks@[k as int], self.chunk_size as int, self.tick as int, (r.x as int, r.y as int)),
            res.0 <= 1000 * 18446744073709551616,
            res.1 <= 1000 * 18446744073709551616,
            res.2 <= 1000 * 18446744073709551616,
    {
        let ch = &self.chunks[k];
        let c = self.chunk_size;
        let tick = self.tick;
        proof {
            lemma_index_coords(k as int, self.size_w as int, self.size_h as int);
        }
        let ghost ps = ch.pheromones@;
        let ghost cx = ch.x as int;
        let ghost cy = ch.y as int;
        let mut sf: u128 = 0;
        let mut sl: u128 = 0;
        let mut sr: u128 = 0;
        let mut j: usize = 0;
        while j < ch.pheromones.len()
            invariant
                self.wf(),
                k < self.chunks@.len(),
                ch == &self.chunks@[k as int],
                ps == ch.pheromones@,
                cx == ch.x,
                cy == ch.y,
                ch.x < MAX_GRID_SIDE,
                ch.y < MAX_GRID_SIDE,
                c == self.chunk_size,
                tick == self.tick,
                f.within(WORLD_BOUND as int),
                l.within(WORLD_BOUND as int),
                r.within(WORLD_BOUND as int),
                j <= ps.len(),
                sf == markers_weight(ps.subrange(0, j as int), cx, cy, c as int, tick as int, (f.x as int, f.y as int)),
                sl == markers_weight(ps.subrange(0, j as int), cx, cy, c as int, tick as int, (l.x as int, l.y as int)),
                sr == markers_weight(ps.subrange(0, j as int), cx, cy, c as int, tick as int, (r.x as int, r.y as int)),
                sf <= 1000 * j,
                sl <= 1000 * j,
                sr <= 1000 * j,
            decreases ps.len() - j,
        {
            let m = ch.pheromones[j];
            assert(marker_ok(m, c as int, tick as int));
            let wf_ = marker_hit(m, ch.x, ch.y, c, tick, f);
            let wl_ = marker_hit(m, ch.x, ch.y, c, tick, l);
            let wr_ = marker_hit(m, ch.x, ch.y, c, tick, r);
            sf = sf + wf_ as u128;
            sl = sl + wl_ as u128;
            sr = sr + wr_ as u128;
            proof {
                assert(ps.subrange(0, j as int + 1).drop_last() =~= ps.subrange(0, j as int));
                assert(ps.subrange(0, j as int + 1).last() == m);
            }
            j = j + 1;
        }
        proof {
            assert(ps.subrange(0, ps.len() as int) =~= ps);
        }
        (sf, sl, sr)
    }

    /// The steering decision for agent `a` of chunk `k`.
    fn sense_agent(&self, k: usize, a: Agent) -> (r: AgentCommand)
        requires
            self.wf(),
            k < self.chunks@.len(),
            in_box(a.position, 0, self.chunk_size as int),
            a.velocity.norm2() <= self.chunk_size * self.chunk_size,
        ensures
            r == self.agent_decision(k as int, a),
    {
        let c = self.chunk_size;
        let w = self.size_w;
        let h = self.size_h;
        proof {
            lemma_index_coords(k as int, w as int, h as int);
            let vx = a.velocity.x as int;
            let vy = a.velocity.y as int;
            assert(-c <= vx <= c && -c <= vy <= c) by (nonlinear_arith)
                requires vx * vx + vy * vy <= c * c, c > 0;
        }
        let len = length(a.velocity);
        if len == 0 {
            return AgentCommand::Forward;
        }
        let ahead = direction(a.velocity, self.sensor_range);
        let x = self.chunks[k].x;
        let y = self.chunks[k].y;
        let pos = global_position(a.position, c, x, y);
        proof {
            assert(x * c <= 4096 * 1_000_000_000) by (nonlinear_arith)
                requires x <= 4096, 0 < c <= 1_000_000_000;
            assert(y * c <= 4096 * 1_000_000_000) by (nonlinear_arith)
                requires y <= 4096, 0 < c <= 1_000_000_000;
            assert(ahead.norm2() <= 1_000_000_000 * 1_000_000_000) by (nonlinear_arith)
                requires -500_000_000 <= ahead.x <= 500_000_000, -500_000_000 <= ahead.y <= 500_000_000;
        }
        let left = rotate(ahead, self.sensor_angle);
        let right = rotate(ahead, self.sensor_angle.inverse());
        let fp = Vec2 { x: pos.x + ahead.x, y: pos.y + ahead.y };
        let lp = Vec2 { x: pos.x + left.x, y: pos.y + left.y };
        let rp = Vec2 { x: pos.x + right.x, y: pos.y + right.y };
        let nx: isize = if 2 * a.position.x < c { -1 } else { 1 };
        let ny: isize = if 2 * a.position.y < c { -1 } else { 1 };
        let ex = chunk_coordinate(w, x, nx);
        let ey = chunk_coordinate(h, y, ny);
        proof {
            lemma_index_in_grid(ex as int, y as int, w as int, h as int);
            lemma_index_in_grid(x as int, ey as int, w as int, h as int);
            lemma_index_in_grid(ex as int, ey as int, w as int, h as int);
            assert(w * h <= 4096 * 4096) by (nonlinear_arith)
                requires 0 < w <= 4096, 0 < h <= 4096;
        }
        let kh = y * w + ex;
        let kv = ey * w + x;
        let kd = ey * w + ex;
        let (f0, l0, r0) = self.probe_chunk(k, fp, lp, rp);
        let (f1, l1, r1) = self.probe_chunk(kh, fp, lp, rp);
        let (f2, l2, r2) = self.probe_chunk(kv, fp, lp, rp);
        let (f3, l3, r3) = self.probe_chunk(kd, fp, lp, rp);
        let cmd = decide(f0 + f1 + f2 + f3, l0 + l1 + l2 + l3, r0 + r1 + r2 + r3);
        proof {
            let cs = self.candidates(k as int, a);
            assert(cs[0] == k && cs[1] == kh && cs[2] == kv && cs[3] == kd);
        }
        cmd
    }

    /// The steering decision of every agent, indexed like the agents:
    /// `r[k][j]` belongs to agent `j` of chunk `k`. Reads the world only.
    pub fn sense(&self) -> (r: Vec<Vec<AgentCommand>>)
        requires
            self.wf(),
            self.settled(),
        ensures
            r@.len() == self.chunks@.len(),
            forall|k: int|
                0 <= k < r@.len() ==> (#[trigger] r@[k])@.len() == self.chunks@[k].agents@.len(),
            forall|k: int, j: int|
                0 <= k < r@.len() && 0 <= j < r@[k]@.len() ==> (#[trigger] r@[k]@[j])
                    == self.agent_decision(k, self.chunks@[k].agents@[j]),
    {
        let mut out: Vec<Vec<AgentCommand>> = Vec::new();
        let mut k: usize = 0;
        while k < self.chunks.len()
            invariant
                self.wf(),
                self.settled(),
                k <= self.chunks@.len(),
                out@.len() == k,
                forall|q: int| 0 <= q < k ==> (#[trigger] out@[q])@.len() == self.chunks@[q].agents@.len(),
                forall|q: int, j: int|
                    0 <= q < k && 0 <= j < out@[q]@.len() ==> (#[trigger] out@[q]@[j])
                        == self.agent_decision(q, self.chunks@[q].agents@[j]),
            decreases self.chunks@.len() - k,
        {
            let mut row: Vec<AgentCommand> = Vec::new();
            let mut j: usize = 0;
            while j < self.chunks[k].agents.len()
                invariant
                    self.wf(),
                    self.settled(),
                    k < self.chunks@.len(),
                    j <= self.chunks@[k as int].agents@.len(),
                    row@.len() == j,
                    forall|q: int| 0 <= q < j ==> (#[trigger] row@[q])
                        == self.agent_decision(k as int, self.chunks@[k as int].agents@[q]),
                decreases self.chunks@[k as int].agents@.len() - j,
            {
                let a = self.chunks[k].agents[j];
                assert(agent_ok(self.chunks@[k as int].agents@[j as int], self.chunk_size as int));
                let cmd = self.sense_agent(k, a);
                row.push(cmd);
                j = j + 1;
            }
            out.push(row);
            k = k + 1;
        }
        out
    }

    /// Applies the steering decisions `commands[k][j]` to agent `j` of chunk
    /// `k`: a left turn rotates its velocity by the steering angle, a right
    /// turn by the opposite angle; positions are left alone.
    pub fn steer(&mut self, commands: &Vec<Vec<AgentCommand>>)
        requires
            old(self).wf(),
            commands@.len() == old(self).chunks@.len(),
            forall|k: int|
                0 <= k < commands@.len() ==> (#[trigger] commands@[k])@.len()
                    == old(self).chunks@[k].agents@.len(),
        ensures
            final(self).wf(),
            final(self).same_settings(old(self)),
            final(self).tick == old(self).tick,
            forall|k: int|
                0 <= k < final(self).chunks@.len() ==> {
                    &&& (#[trigger] final(self).chunks@[k]).pheromones@ == old(self).chunks@[k].pheromones@
                    &&& final(self).chunks@[k].agents@.len() == old(self).chunks@[k].agents@.len()
                },
            forall|k: int, j: int|
                0 <= k < final(self).chunks@.len() && 0 <= j < final(self).chunks@[k].agents@.len() ==> {
                    let a = old(self).chunks@[k].agents@[j];
                    #[trigger] final(self).chunks@[k].agents@[j] == (Agent {
                        position: a.position,
                        velocity: steered(a.velocity, commands@[k]@[j], old(self).angle_change),
                    })
                },
    {
        let ghost start = *self;
        let n = self.chunks.len();
        let turn = self.angle_change;
        let back = turn.inverse();
        let mut k: usize = 0;
        while k < n
            invariant
                n == self.chunks@.len(),
                k <= n,
                turn == start.angle_change,
                turn.wf(),
                back == inverse_of(turn),
                back.wf(),
                start.wf(),
                self.wf(),
                self.same_settings(&start),
                self.tick == start.tick,
                commands@.len() == n,
                forall|q: int| 0 <= q < n ==> (#[trigger] commands@[q])@.len() == start.chunks@[q].agents@.len(),
                forall|q: int|
                    0 <= q < n ==> {
                        &&& (#[trigger] self.chunks@[q]).pheromones@ == start.chunks@[q].pheromones@
                        &&& self.chunks@[q].agents@.len() == start.chunks@[q].agents@.len()
                    },
                forall|q: int, j: int|
                    0 <= q < n && 0 <= j < self.chunks@[q].agents@.len() ==> {
                        let a = start.chunks@[q].agents@[j];
                        #[trigger] self.chunks@[q].agents@[j] == (if q < k {
                            Agent { position: a.position, velocity: steered(a.velocity, commands@[q]@[j], turn) }
                        } else {
                            a
                        })
                    },
            decreases n - k,
        {
            let m = self.chunks[k].agents.len();
            let mut j: usize = 0;
            while j < m
                invariant
                    n == self.chunks@.len(),
                    k < n,
                    j <= m,
                    m == self.chunks@[k as int].agents@.len(),
                    turn == start.angle_change,
                    turn.wf(),
                    back == inverse_of(turn),
                    back.wf(),
                    start.wf(),
                    self.wf(),
                    self.same_settings(&start),
                    self.tick == start.tick,
                    commands@.len() == n,
                    forall|q: int| 0 <= q < n ==> (#[trigger] commands@[q])@.len() == start.chunks@[q].agents@.len(),
                    forall|q: int|
                        0 <= q < n ==> {
                            &&& (#[trigger] self.chunks@[q]).pheromones@ == start.chunks@[q].pheromones@
                            &&& self.chunks@[q].agents@.len() == start.chunks@[q].agents@.len()
                        },
                    forall|q: int, i: int|
                        0 <= q < n && 0 <= i < self.chunks@[q].agents@.len() ==> {
                            let a = start.chunks@[q].agents@[i];
                            #[trigger] self.chunks@[q].agents@[i] == (if q < k || (q == k && i < j) {
                                Agent { position: a.position, velocity: steered(a.velocity, commands@[q]@[i], turn) }
                            } else {
                                a
                            })
                        },
                decreases m - j,
            {
                let a = self.chunks[k].agents[j];
                let c = self.chunk_size;
                assert(agent_ok(self.chunks@[k as int].agents@[j as int], c as int));
                proof {
                    let vx = a.velocity.x as int;
                    let vy = a.velocity.y as int;
                    assert(-c <= vx <= c && -c <= vy <= c) by (nonlinear_arith)
                        requires vx * vx + vy * vy <= c * c, c > 0;
                }
                let v = match commands[k][j] {
                    AgentCommand::Left => rotate(a.velocity, turn),
                    AgentCommand::Right => rotate(a.velocity, back),
                    AgentCommand::Forward => a.velocity,
                };
                let ghost before = self.chunks@;
                self.chunks[k].agents.set(j, Agent { position: a.position, velocity: v });
                proof {
                    assert(self.chunks@ == before.update(k as int, self.chunks@[k as int]));
                    assert forall|q: int| 0 <= q < n implies (#[trigger] self.chunks@[q]).x == start.chunks@[q].x
                        && self.chunks@[q].y == start.chunks@[q].y by {
                        if q != k {
                            assert(self.chunks@[q] == before[q]);
                        }
                    }
                }
                j = j + 1;
            }
            k = k + 1;
        }
    }

    /// `self` is what integration, deposition and cull make of `before`,
    /// with the tick counter moved on by one.
    pub open spec fn advanced_from(&self, before: &World) -> bool {
        &&& self.wf()
        &&& self.same_settings(before)
        &&& self.tick == before.tick + 1
        &&& self.agent_count() == before.agent_count()
        &&& forall|k: int|
            0 <= k < self.chunks@.len() ==> {
                let ch = before.chunks@[k];
                &&& (#[trigger] self.chunks@[k]).agents@ == ch.agents@.map_values(|a: Agent| advanced(a))
                &&& self.chunks@[k].pheromones@ == ch.pheromones@.filter(
                    |m: Pheromone| alive(m, before.tick as int),
                ) + drops(self.chunks@[k].agents@, before.tick as int)
            }
    }

    /// `self` is `before` after one whole tick: migration, then steering by
    /// the decisions sensed after migration, then integration, deposition
    /// and cull.
    pub open spec fn ticked_from(&self, before: &World) -> bool {
        exists|migrated: World, steered: World|
            migrated.migrated_from(before) && steered.steered_from(&migrated) && self.advanced_from(&steered)
    }

    /// `self` is `before` with the velocity of every agent turned by the
    /// decision that sensing takes for it in `before`.
    pub open spec fn steered_from(&self, before: &World) -> bool {
        &&& self.wf()
        &&& self.settled()
        &&& self.same_settings(before)
        &&& self.tick == before.tick
        &&& self.agent_count() == before.agent_count()
        &&& forall|k: int|
            0 <= k < self.chunks@.len() ==> {
                &&& (#[trigger] self.chunks@[k]).pheromones@ == before.chunks@[k].pheromones@
                &&& self.chunks@[k].agents@.len() == before.chunks@[k].agents@.len()
            }
        &&& forall|k: int, j: int|
            0 <= k < self.chunks@.len() && 0 <= j < self.chunks@[k].agents@.len() ==> {
                let a = before.chunks@[k].agents@[j];
                #[trigger] self.chunks@[k].agents@[j] == (Agent {
                    position: a.position,
                    velocity: steered(a.velocity, before.agent_decision(k, a), before.angle_change),
                })
            }
    }

    /// Integration, deposition and cull in every chunk (see
    /// `Chunk::integrate`), then the tick counter moves on by one.
    pub fn finish_tick(&mut self)
        requires
            old(self).wf(),
            old(self).settled(),
            old(self).tick < u64::MAX,
        ensures
            final(self).advanced_from(old(self)),
    {
        let ghost start = *self;
        let n = self.chunks.len();
        let c = self.chunk_size;
        let tick = self.tick;
        let mut k: usize = 0;
        while k < n
            invariant
                n == self.chunks@.len(),
                k <= n,
                c == start.chunk_size,
                tick == start.tick,
                tick < u64::MAX,
                start.wf(),
                start.settled(),
                self.wf_config(),
                self.same_settings(&start),
                self.tick == start.tick,
                self.agent_count() == start.agent_count(),
                forall|q: int| k <= q < n ==> #[trigger] self.chunks@[q] == start.chunks@[q],
                forall|q: int|
                    0 <= q < k ==> {
                        let ch = start.chunks@[q];
                        &&& (#[trigger] self.chunks@[q]).agents@ == ch.agents@.map_values(|a: Agent| advanced(a))
                        &&& self.chunks@[q].pheromones@ == ch.pheromones@.filter(
                            |m: Pheromone| alive(m, tick as int),
                        ) + drops(self.chunks@[q].agents@, tick as int)
                        &&& forall|j: int|
                            0 <= j < self.chunks@[q].agents@.len() ==> agent_ok(
                                #[trigger] self.chunks@[q].agents@[j],
                                c as int,
                            )
                        &&& forall|j: int|
                            0 <= j < self.chunks@[q].pheromones@.len() ==> marker_ok(
                                #[trigger] self.chunks@[q].pheromones@[j],
                                c as int,
                                tick + 1,
                            )
                    },
            decreases n - k,
        {
            let ghost before = self.chunks@;
            proof {
                assert forall|j: int| 0 <= j < before[k as int].agents@.len() implies in_box(
                    (#[trigger] before[k as int].agents@[j]).position, 0, c as int) by {
                    assert(start.chunks@[k as int].agents@[j] == before[k as int].agents@[j]);
                }
                assert forall|j: int| 0 <= j < before[k as int].agents@.len() implies
                    (#[trigger] before[k as int].agents@[j]).velocity.norm2() <= c * c by {
                    assert(agent_ok(start.chunks@[k as int].agents@[j], c as int));
                }
                assert forall|j: int| 0 <= j < before[k as int].pheromones@.len() implies marker_ok(
                    #[trigger] before[k as int].pheromones@[j], c as int, tick as int) by {
                    assert(marker_ok(start.chunks@[k as int].pheromones@[j], c as int, tick as int));
                }
            }
            self.chunks[k].integrate(tick, c);
            proof {
                lemma_total_agents_update(before, k as int, self.chunks@[k as int]);
                assert(self.chunks@ == before.update(k as int, self.chunks@[k as int]));
            }
            k = k + 1;
        }
        self.tick = tick + 1;
    }

    /// Advances the simulation by one tick: migration, sensing, steering,
    /// then integration, deposition and cull, and the tick counter moves on.
    /// No agent is created or lost.
    pub fn update(&mut self)
        requires
            old(self).wf(),
            old(self).tick < u64::MAX,
        ensures
            final(self).wf(),
            final(self).same_settings(old(self)),
            final(self).tick == old(self).tick + 1,
            final(self).agent_count() == old(self).agent_count(),
            final(self).ticked_from(old(self)),
    {
        let ghost start = *self;
        self.migrate();
        let commands = self.sense();
        let ghost mid = *self;
        self.steer(&commands);
        proof {
            assert forall|k: int, j: int|
                0 <= k < self.chunks@.len() && 0 <= j < self.chunks@[k].agents@.len() implies in_box(
                    (#[trigger] self.chunks@[k].agents@[j]).position, 0, self.chunk_size as int) by {
                assert(in_box(mid.chunks@[k].agents@[j].position, 0, mid.chunk_size as int));
            }
            assert forall|k: int| 0 <= k < self.chunks@.len() implies (#[trigger] self.chunks@[k]).agents@.len()
                == mid.chunks@[k].agents@.len() by {}
            lemma_total_agents_same_lengths(self.chunks@, mid.chunks@);
            assert(self.steered_from(&mid));
        }
        let ghost steered = *self;
        self.finish_tick();
        proof {
            assert(mid.migrated_from(&start));
            assert(self.advanced_from(&steered));
        }
    }

    /// Places `agent` in chunk `(x, y)`; refused, with the world left as it
    /// is, unless the chunk exists, the agent lies inside it and its speed is
    /// at most one chunk per tick.
    pub fn add_agent(&mut self, x: usize, y: usize, agent: Agent) -> (r: bool)
        requires
            old(self).wf(),
        ensures
            r <==> (x < old(self).size_w && y < old(self).size_h && in_box(
                agent.position,
                0,
                old(self).chunk_size as int,
            ) && agent.velocity.norm2() <= old(self).chunk_size * old(self).chunk_size),
            final(self).wf(),
            final(self).same_settings(old(self)),
            final(self).tick == old(self).tick,
            final(self).agent_count() == old(self).agent_count() + (if r { 1int } else { 0 }),
            forall|k: int|
                0 <= k < final(self).chunks@.len() ==> {
                    &&& (#[trigger] final(self).chunks@[k]).pheromones@ == old(self).chunks@[k].pheromones@
                    &&& final(self).chunks@[k].agents@ == if r && k == y * old(self).size_w + x {
                        old(self).chunks@[k].agents@.push(agent)
                    } else {
                        old(self).chunks@[k].agents@
                    }
                },
    {
        let c = self.chunk_size;
        if x >= self.size_w || y >= self.size_h {
            return false;
        }
        if agent.position.x < 0 || agent.position.x >= c || agent.position.y < 0 || agent.position.y >= c {
            return false;
        }
        if agent.velocity.x < -c || agent.velocity.x > c || agent.velocity.y < -c || agent.velocity.y > c {
            proof {
                let vx = agent.velocity.x as int;
                let vy = agent.velocity.y as int;
                assert(vx * vx + vy * vy > c * c) by (nonlinear_arith)
                    requires vx < -c || vx > c || vy < -c || vy > c, c > 0;
            }
            return false;
        }
        proof {
            assert(0 <= agent.velocity.x * agent.velocity.x <= 1_000_000_000 * 1_000_000_000) by (nonlinear_arith)
                requires -1_000_000_000 <= agent.velocity.x <= 1_000_000_000;
            assert(0 <= agent.velocity.y * agent.velocity.y <= 1_000_000_000 * 1_000_000_000) by (nonlinear_arith)
                requires -1_000_000_000 <= agent.velocity.y <= 1_000_000_000;
            assert(c * c <= 1_000_000_000 * 1_000_000_000) by (nonlinear_arith)
                requires 0 < c <= 1_000_000_000;
        }
        let vx = agent.velocity.x as i128;
        let vy = agent.velocity.y as i128;
        if vx * vx + vy * vy > c as i128 * c as i128 {
            return false;
        }
        let w = self.size_w;
        proof {
            lemma_index_in_grid(x as int, y as int, w as int, self.size_h as int);
            assert(w * self.size_h <= 4096 * 4096) by (nonlinear_arith)
                requires 0 < w <= 4096, 0 < self.size_h <= 4096;
        }
        let k = y * w + x;
        let ghost before = self.chunks@;
        self.chunks[k].agents.push(agent);
        proof {
            lemma_total_agents_update(before, k as int, self.chunks@[k as int]);
            assert(self.chunks@ == before.update(k as int, self.chunks@[k as int]));
            assert forall|q: int, j: int|
                0 <= q < self.chunks@.len() && 0 <= j < self.chunks@[q].agents@.len() implies agent_ok(
                    #[trigger] self.chunks@[q].agents@[j], c as int) by {
                if q != k || j < before[q].agents@.len() {
                    assert(self.chunks@[q].agents@[j] == before[q].agents@[j]);
                }
            }
            assert forall|q: int, j: int|
                0 <= q < self.chunks@.len() && 0 <= j < self.chunks@[q].pheromones@.len() implies marker_ok(
                    #[trigger] self.chunks@[q].pheromones@[j], c as int, self.tick as int) by {
                assert(self.chunks@[q].pheromones@ == before[q].pheromones@);
            }
            assert forall|q: int| 0 <= q < self.chunks@.len() implies {
                &&& #[trigger] self.chunks@[q].x == q % (self.size_w as int)
                &&& self.chunks@[q].y == q / (self.size_w as int)
            } by {
                assert(self.chunks@[q].x == before[q].x);
            }
            assert(self.wf_config());
            assert(self.wf_contents());
        }
        true
    }

    pub fn set_sensor_angle(&mut self, sensor_angle: Turn)
        requires
            sensor_angle.wf(),
        ensures
            *final(self) == (World { sensor_angle, ..*old(self) }),
    {
        self.sensor_angle = sensor_angle;
    }

    /// Sets the sensor range; refused, with the world left as it is, where
    /// the range exceeds half the chunk size.
    pub fn set_sensor_range(&mut self, sensor_range: i64) -> (r: bool)
        requires
            0 <= sensor_range,
            old(self).wf(),
        ensures
            r <==> 2 * sensor_range <= old(self).chunk_size,
            r ==> *final(self) == (World { sensor_range, ..*old(self) }),
            !r ==> *final(self) == *old(self),
    {
        if sensor_range > MAX_CHUNK_SIZE || 2 * sensor_range > self.chunk_size {
            return false;
        }
        self.sensor_range = sensor_range;
        true
    }

    pub fn set_angle_change(&mut self, angle_change: Turn)
        requires
            angle_change.wf(),
        ensures
            *final(self) == (World { angle_change, ..*old(self) }),
    {
        self.angle_change = angle_change;
    }

    /// Sets the flag that tells a renderer whether to show agents.
    pub fn set_agent_visiblity(&mut self, agent_visiblity: bool)
        ensures
            *final(self) == (World { agent_visiblity, ..*old(self) }),
    {
        self.agent_visiblity = agent_visiblity;
    }
}

} // verus!
