//! The decisions of the game worker: which code each player's robot runs
//! with, and whether a queued match can start.

use std::collections::HashMap;
use vstd::prelude::*;

verus! {

broadcast use vstd::std_specs::hash::group_hash_axioms;

/// The code stored for robot `rid` among `robots` (the last entry wins).
pub open spec fn code_of(robots: Seq<(u128, String)>, rid: u128) -> Option<Seq<char>>
    decreases robots.len(),
{
    if robots.len() == 0 {
        None
    } else if robots.last().0 == rid {
        Some(robots.last().1@)
    } else {
        code_of(robots.drop_last(), rid)
    }
}

/// The code that player `i` gets: its robot's code, unless an earlier
/// player of the match already took that robot.
pub open spec fn code_for_player(players: Seq<(u128, u128)>, robots: Seq<(u128, String)>, i: int) -> Option<Seq<char>> {
    if exists|j: int| 0 <= j < i && players[j].1 == players[i].1 {
        None
    } else {
        code_of(robots, players[i].1)
    }
}

pub open spec fn opt_view(s: Option<String>) -> Option<Seq<char>> {
    match s {
        Some(x) => Some(x@),
        None => None,
    }
}

pub open spec fn map_code(m: Map<u128, String>, rid: u128) -> Option<Seq<char>> {
    if m.contains_key(rid) {
        Some(m[rid]@)
    } else {
        None
    }
}

/// Pairs each player (id, robot id) with the code of its robot, from the
/// robots' (id, code) rows the database returned; each robot's code is
/// handed out once.
pub fn robot_codes_for_players(players: Vec<(u128, u128)>, robots: Vec<(u128, String)>) -> (r: Vec<(u128, Option<String>)>)
    ensures
        r@.len() == players@.len(),
        forall|i: int|
            0 <= i < players@.len() ==> (#[trigger] r@[i]).0 == players@[i].0 && opt_view(r@[i].1)
                == code_for_player(players@, robots@, i),
{
    let ghost rs = robots@;
    let mut map: HashMap<u128, String> = HashMap::new();
    let mut k: usize = 0;
    while k < robots.len()
        invariant
            rs == robots@,
            0 <= k <= rs.len(),
            forall|rid: u128| #[trigger] map_code(map@, rid) == code_of(rs.take(k as int), rid),
        decreases rs.len() - k,
    {
        let rid = robots[k].0;
        let code = robots[k].1.clone();
        let ghost old_map = map@;
        map.insert(rid, code);
        proof {
            assert(rs.take(k + 1).drop_last() =~= rs.take(k as int));
            assert forall|x: u128| #[trigger] map_code(map@, x) == code_of(rs.take(k + 1), x) by {
                assert(rs.take(k + 1).last() == rs[k as int]);
                assert(map_code(old_map, x) == code_of(rs.take(k as int), x));
                assert(code_of(rs.take(k + 1), x) == (if rs[k as int].0 == x {
                    Some(rs[k as int].1@)
                } else {
                    code_of(rs.take(k as int), x)
                }));
            }
        }
        k = k + 1;
    }
    proof {
        assert(rs.take(rs.len() as int) =~= rs);
    }
    let ghost m0 = map@;
    let mut out: Vec<(u128, Option<String>)> = Vec::new();
    let mut i: usize = 0;
    while i < players.len()
        invariant
            0 <= i <= players@.len(),
            out@.len() == i,
            rs == robots@,
            forall|rid: u128| #[trigger] map_code(m0, rid) == code_of(rs, rid),
            forall|rid: u128|
                #[trigger] map_code(map@, rid) == (if exists|j: int| 0 <= j < i && players@[j].1 == rid {
                    None
                } else {
                    map_code(m0, rid)
                }),
            forall|q: int|
                0 <= q < i ==> (#[trigger] out@[q]).0 == players@[q].0 && opt_view(out@[q].1)
                    == code_for_player(players@, robots@, q),
        decreases players@.len() - i,
    {
        let (pid, rid) = players[i];
        let ghost before = map@;
        let code = map.remove(&rid);
        proof {
            assert(map_code(before, rid) == opt_view(code));
            assert forall|x: u128|
                #[trigger] map_code(map@, x) == (if exists|j: int| 0 <= j < i + 1 && players@[j].1 == x {
                    None
                } else {
                    map_code(m0, x)
                }) by {
                if x == rid {
                    assert(players@[i as int].1 == x);
                } else {
                    assert(map_code(map@, x) == map_code(before, x));
                    if exists|j: int| 0 <= j < i + 1 && players@[j].1 == x {
                        let j = choose|j: int| 0 <= j < i + 1 && players@[j].1 == x;
                        assert(j < i);
                    }
                }
            }
            assert(opt_view(code) == code_for_player(players@, robots@, i as int)) by {
                assert(map_code(before, players@[i as int].1) == opt_view(code));
                assert(map_code(m0, rid) == code_of(rs, rid));
            }
        }
        out.push((pid, code));
        i = i + 1;
    }
    out
}

/// Whether a queued match can start: exactly two players, both with code.
/// The two players and their code if so.
pub fn game_to_start(players: Vec<(u128, Option<String>)>) -> (r: Option<((u128, String), (u128, String))>)
    ensures
        match r {
            Some((a, b)) => {
                &&& players@.len() == 2
                &&& players@[0].0 == a.0 && players@[0].1 == Some(a.1)
                &&& players@[1].0 == b.0 && players@[1].1 == Some(b.1)
            },
            None => players@.len() != 2 || players@[0].1 is None || players@[1].1 is None,
        },
{
    if players.len() != 2 {
        return None;
    }
    let mut players = players;
    let (player2, code2) = players.pop().unwrap();
    let (player1, code1) = players.pop().unwrap();
    let code1 = match code1 {
        Some(c) => c,
        None => return None,
    };
    let code2 = match code2 {
        Some(c) => c,
        None => return None,
    };
    Some(((player1, code1), (player2, code2)))
}

/// What happened since the worker's last decision while it fills its free
/// game slots from the match queue.
#[derive(Debug, Clone, Copy, PartialEq, Eq, Structural)]
pub enum ExecuteEvent {
    /// The round begins, or a skipped match was removed from the queue.
    Ready,
    /// The queue had no match to take.
    QueueEmpty,
    /// The taken match was started as a game.
    Started,
    /// The taken match cannot be played and was skipped.
    Skipped,
    /// Starting the taken match failed.
    StartFailed,
}

/// What the worker does next.
#[derive(Debug, Clone, Copy, PartialEq, Eq, Structural)]
pub enum ExecuteAction {
    /// Take the next match from the queue.
    Take,
    /// Remove the skipped match from the queue, then report `Ready`.
    Remove,
    /// End the round.
    Finish,
}

/// Take another match while a game slot is free, else end the round.
pub open spec fn take_or_finish(running: int, max_games: int) -> ExecuteAction {
    if running < max_games {
        ExecuteAction::Take
    } else {
        ExecuteAction::Finish
    }
}

/// One decision of a round of the worker: from the games running, the
/// largest number of games, the games started in this round and what just
/// happened, the new numbers of running and started games and the next
/// action. A started game takes a slot and counts; a skipped match is
/// removed; after the rest the worker takes another match while a slot is
/// free, and an empty queue ends the round.
pub fn execute_step(running: usize, max_games: usize, started: usize, event: ExecuteEvent) -> (r: (
    usize,
    usize,
    ExecuteAction,
))
    requires
        event is Started ==> running < max_games && started < usize::MAX,
    ensures
        match event {
            ExecuteEvent::Started => r == (
                (running + 1) as usize,
                (started + 1) as usize,
                take_or_finish(running + 1, max_games as int),
            ),
            ExecuteEvent::Skipped => r == (running, started, ExecuteAction::Remove),
            ExecuteEvent::QueueEmpty => r == (running, started, ExecuteAction::Finish),
            ExecuteEvent::Ready | ExecuteEvent::StartFailed => r == (
                running,
                started,
                take_or_finish(running as int, max_games as int),
            ),
        },
{
    match event {
        ExecuteEvent::Started => {
            let running = running + 1;
            let action = if running < max_games {
                ExecuteAction::Take
            } else {
                ExecuteAction::Finish
            };
            (running, started + 1, action)
        },
        ExecuteEvent::Skipped => (running, started, ExecuteAction::Remove),
        ExecuteEvent::QueueEmpty => (running, started, ExecuteAction::Finish),
        ExecuteEvent::Ready | ExecuteEvent::StartFailed => {
            let action = if running < max_games {
                ExecuteAction::Take
            } else {
                ExecuteAction::Finish
            };
            (running, started, action)
        },
    }
}

/// What ended the worker's wait between two rounds.
#[derive(Debug, Clone, Copy, PartialEq, Eq, Structural)]
pub enum WaitEvent {
    /// The interval between rounds passed.
    Interval,
    /// The worker is asked to shut down.
    Shutdown,
    /// A game reported that it finished.
    GameFinished,
    /// The channel on which games report their end was closed.
    FinishChannelClosed,
}

/// What the worker does after its wait.
#[derive(Debug, Clone, Copy, PartialEq, Eq, Structural)]
pub enum WaitAction {
    /// Run the next round.
    NextRound,
    /// Hand the finished game back to the queue, then run the next round.
    HandleFinish,
    /// Leave the loop and cancel every running game.
    CancelAndStop,
}

/// The worker's decision after a wait: a shutdown or a closed finish
/// channel stops it (and its running games are cancelled), a finished game
/// is handled, and after the interval it runs again.
pub fn wait_step(event: WaitEvent) -> (a: WaitAction)
    ensures
        a == (match event {
            WaitEvent::Interval => WaitAction::NextRound,
            WaitEvent::GameFinished => WaitAction::HandleFinish,
            WaitEvent::Shutdown | WaitEvent::FinishChannelClosed => WaitAction::CancelAndStop,
        }),
{
    match event {
        WaitEvent::Interval => WaitAction::NextRound,
        WaitEvent::GameFinished => WaitAction::HandleFinish,
        WaitEvent::Shutdown | WaitEvent::FinishChannelClosed => WaitAction::CancelAndStop,
    }
}

} // verus!
