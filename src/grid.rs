//! Toroidal grid topology and steering decisions.
use vstd::prelude::*;
use crate::geometry::{Vec2, MAX_CHUNK_SIZE};

verus! {

/// Largest number of chunks along either axis of the grid.
pub const MAX_GRID_SIDE: usize = 4096;

/// Coordinate of the neighbour `pc` steps away from `c` on a toroidal axis
/// of `size` chunks.
pub fn chunk_coordinate(size: usize, c: usize, pc: isize) -> (r: usize)
    requires
        c < size,
        -1 <= pc <= 1,
    ensures
        r as int == (size + c + pc) % (size as int),
        r < size,
{
    let r = if pc < 0 {
        if c == 0 {
            size - 1
        } else {
            c - 1
        }
    } else if pc > 0 {
        if c + 1 == size {
            0
        } else {
            c + 1
        }
    } else {
        c
    };
    proof {
        let x = size + c + pc;
        if x >= 2 * size {
            vstd::arithmetic::div_mod::lemma_fundamental_div_mod_converse(x, size as int, 2, r as int);
        } else if x >= size {
            vstd::arithmetic::div_mod::lemma_fundamental_div_mod_converse(x, size as int, 1, r as int);
        } else {
            vstd::arithmetic::div_mod::lemma_fundamental_div_mod_converse(x, size as int, 0, r as int);
        }
    }
    r
}

/// World position of a point with local position `position` in chunk `(x, y)`.
pub open spec fn world_position(position: Vec2, chunk_size: int, x: int, y: int) -> (int, int) {
    (x * chunk_size + position.x, y * chunk_size + position.y)
}

/// World position of a point with local position `position` in chunk `(x, y)`.
pub fn global_position(position: Vec2, chunk_size: i64, x: usize, y: usize) -> (r: Vec2)
    requires
        0 < chunk_size <= MAX_CHUNK_SIZE,
        x <= MAX_GRID_SIDE,
        y <= MAX_GRID_SIDE,
        position.within(4 * MAX_CHUNK_SIZE as int),
    ensures
        (r.x as int, r.y as int) == world_position(position, chunk_size as int, x as int, y as int),
{
    proof {
        assert(x * chunk_size <= 4096 * 1_000_000_000) by (nonlinear_arith)
            requires x <= 4096, 0 < chunk_size <= 1_000_000_000;
        assert(y * chunk_size <= 4096 * 1_000_000_000) by (nonlinear_arith)
            requires y <= 4096, 0 < chunk_size <= 1_000_000_000;
    }
    Vec2 { x: x as i64 * chunk_size + position.x, y: y as i64 * chunk_size + position.y }
}

/// What an agent does with its heading in one tick.
#[derive(Clone, Copy, Debug, PartialEq, Eq, Structural)]
pub enum AgentCommand {
    Left,
    Right,
    Forward,
}

/// The steering rule: turn towards a side only where its summed weight is
/// strictly greater than both the forward sum and the other side's sum.
pub open spec fn decision(forward: int, left: int, right: int) -> AgentCommand {
    if left > forward && left > right {
        AgentCommand::Left
    } else if right > forward && right > left {
        AgentCommand::Right
    } else {
        AgentCommand::Forward
    }
}

/// Chooses a steering command from the summed weights under the three probes.
pub fn decide(forward: u128, left: u128, right: u128) -> (r: AgentCommand)
    ensures
        r == decision(forward as int, left as int, right as int),
{
    if left > forward && left > right {
        AgentCommand::Left
    } else if right > forward && right > left {
        AgentCommand::Right
    } else {
        AgentCommand::Forward
    }
}

/// Ties never turn an agent: where the two sides weigh the same, or the
/// forward probe weighs at least as much as each side (in particular where
/// all three sums are equal, as with no markers at all), the decision is to
/// go forward.
pub proof fn lemma_ties_go_forward(forward: int, left: int, right: int)
    requires
        left == right || (left <= forward && right <= forward),
    ensures
        decision(forward, left, right) == AgentCommand::Forward,
{
}

} // verus!
