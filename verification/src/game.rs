//! How a game ended and the replay of a played game.

use vstd::prelude::*;
use crate::math::Direction;

verus! {

/// How a game ended: a winner by player index, a tie, or an abort.
#[derive(Debug, Clone, Copy, PartialEq, Eq, Structural)]
pub enum GameResult {
    Win { winner: usize },
    Tie,
    Abort,
}

impl GameResult {
    /// The index of the winning player, if there is one.
    pub fn winner(&self) -> (w: Option<usize>)
        ensures
            w == (match *self {
                GameResult::Win { winner } => Some(winner),
                _ => None,
            }),
    {
        match self {
            GameResult::Win { winner } => Some(*winner),
            _ => None,
        }
    }
}

/// The moves of one snake in a replay, with data about its player.
#[derive(Debug, Clone)]
pub struct SnakeReplay<M> {
    pub moves: Vec<Direction>,
    pub metadata: M,
}

/// A played game: its seed, how it ended and each snake's moves.
#[derive(Debug, Clone)]
pub struct GameReplay<M> {
    pub seed: u64,
    pub result: GameResult,
    pub snakes: Vec<SnakeReplay<M>>,
}

/// A replay whose players are named by an optional user id.
pub type DefaultGameReplay = GameReplay<Option<String>>;

impl<M> GameReplay<M> {
    /// The winning snake, if the game has a winner that is one of the
    /// replay's snakes.
    pub fn winner(&self) -> (w: Option<&SnakeReplay<M>>)
        ensures
            w == (match self.result {
                GameResult::Win { winner } => if winner < self.snakes@.len() {
                    Some(&self.snakes@[winner as int])
                } else {
                    None
                },
                _ => None,
            }),
    {
        match self.result.winner() {
            Some(i) => {
                if i < self.snakes.len() {
                    Some(&self.snakes[i])
                } else {
                    None
                }
            },
            None => None,
        }
    }
}

/// The directions that `moves` reports for snake `i`, in order.
pub open spec fn moves_of(moves: Seq<(usize, Direction)>, i: int) -> Seq<Direction>
    decreases moves.len(),
{
    if moves.len() == 0 {
        Seq::empty()
    } else if moves.last().0 == i {
        moves_of(moves.drop_last(), i).push(moves.last().1)
    } else {
        moves_of(moves.drop_last(), i)
    }
}

/// Records one step of a game: each reported (snake, direction) move is
/// appended to that snake's moves; moves of snakes the replay does not hold
/// are dropped.
pub fn record_moves<M>(snakes: &mut Vec<SnakeReplay<M>>, moves: &Vec<(usize, Direction)>)
    ensures
        final(snakes)@.len() == old(snakes)@.len(),
        forall|i: int|
            0 <= i < old(snakes)@.len() ==> (#[trigger] final(snakes)@[i]).moves@ == old(snakes)@[i].moves@
                + moves_of(moves@, i) && final(snakes)@[i].metadata == old(snakes)@[i].metadata,
{
    let ghost start = snakes@;
    let mut k: usize = 0;
    while k < moves.len()
        invariant
            0 <= k <= moves@.len(),
            snakes@.len() == start.len(),
            forall|i: int|
                0 <= i < start.len() ==> (#[trigger] snakes@[i]).moves@ == start[i].moves@
                    + moves_of(moves@.take(k as int), i) && snakes@[i].metadata == start[i].metadata,
        decreases moves@.len() - k,
    {
        let (j, d) = moves[k];
        let ghost before = snakes@;
        if j < snakes.len() {
            snakes[j].moves.push(d);
        }
        proof {
            assert(moves@.take(k + 1).drop_last() =~= moves@.take(k as int));
            assert(moves@.take(k + 1).last() == (j, d));
            assert forall|i: int|
                0 <= i < start.len() implies (#[trigger] snakes@[i]).moves@ == start[i].moves@
                    + moves_of(moves@.take(k + 1), i) && snakes@[i].metadata == start[i].metadata by {
                assert(before[i].moves@ == start[i].moves@ + moves_of(moves@.take(k as int), i));
                if i == j {
                    assert(snakes@[i].moves@ =~= before[i].moves@.push(d));
                    assert(start[i].moves@ + moves_of(moves@.take(k as int), i).push(d)
                        =~= (start[i].moves@ + moves_of(moves@.take(k as int), i)).push(d));
                } else {
                    assert(snakes@[i] == before[i]);
                }
            }
        }
        k = k + 1;
    }
    proof {
        assert(moves@.take(moves@.len() as int) =~= moves@);
    }
}

} // verus!
