//! The decoded messages the simulation consumes and produces. The wire
//! transport and its encoding live outside the core: the dispatcher receives
//! already-decoded values and hands back values to send.

use vstd::prelude::*;
use crate::fixed::Vec2Fixed;

verus! {

/// A per-player positional update from the server: the player's position and
/// current input target at the reported tick.
#[derive(Clone, Copy, PartialEq, Eq, Structural, Debug)]
pub struct NewPos {
    pub input: Vec2Fixed,
    pub tick: u64,
    pub id: u128,
    pub pos: Vec2Fixed,
}

/// A movement command, as sent and received.
#[derive(Clone, Copy, PartialEq, Eq, Structural, Debug)]
pub struct PlayerInput {
    pub target: Vec2Fixed,
    pub id: u128,
    pub tick: u64,
}

impl PlayerInput {
    pub fn new(target: Vec2Fixed, id: u128, tick: u64) -> (r: PlayerInput)
        ensures
            r == (PlayerInput { target, id, tick }),
    {
        PlayerInput { target, id, tick }
    }
}

/// A score change; `tick` identifies the claimed world object, if any.
#[derive(Clone, Copy, PartialEq, Eq, Structural, Debug)]
pub struct ScoreUpdate {
    pub id: u128,
    pub score: u64,
    pub tick: u64,
}

/// The start of a session: the local player's id, the server's tick, the
/// shared session seed, and the current high-score table.
#[derive(Clone, Debug)]
pub struct NewGame {
    pub id: u128,
    pub server_tick: u64,
    pub rng_seed: u64,
    pub high_scores: Vec<(String, u64)>,
}

/// A remote player joined.
#[derive(Clone, Debug)]
pub struct PlayerConnected {
    pub id: u128,
    pub name: String,
}

/// A remote player left.
#[derive(Clone, Copy, PartialEq, Eq, Structural, Debug)]
pub struct PlayerDisconnected {
    pub id: u128,
}

/// A player was hit: `tick` identifies the claiming object, `secs_alive` the
/// player's survival time, and the high-score table may come refreshed.
#[derive(Clone, Debug)]
pub struct Damage {
    pub id: u128,
    pub tick: Option<u64>,
    pub secs_alive: u64,
    pub win: bool,
    pub high_scores: Option<Vec<(String, u64)>>,
    pub pos: Vec2Fixed,
}

/// The periodic tick-offset report: positive when the client runs ahead of
/// the server, negative when behind; the iteration number guards against
/// applying one correction twice.
#[derive(Clone, Copy, PartialEq, Eq, Structural, Debug)]
pub struct SyncMessage {
    pub tick_adjustment: i64,
    pub server_tick: u64,
    pub adjustment_iteration: u64,
}

/// Everything the server can send, already decoded.
#[derive(Clone, Debug)]
pub enum NetworkMessage {
    GameUpdate(Vec<NewPos>),
    PlayerInput(PlayerInput),
    ScoreUpdate(ScoreUpdate),
    NewGame(NewGame),
    PlayerConnected(PlayerConnected),
    PlayerDisconnected(PlayerDisconnected),
    DamagePlayer(Damage),
    SyncClient(SyncMessage),
    Ping,
}

/// Everything the client sends.
#[derive(Clone, Debug)]
pub enum ClientMessage {
    PlayerInput(PlayerInput),
    PlayerName(String),
}

/// A message whose coordinates lie outside the accepted range is malformed;
/// the dispatcher drops it silently and goes on.
pub open spec fn msg_valid(m: NetworkMessage) -> bool {
    match m {
        NetworkMessage::GameUpdate(us) => forall|i: int|
            0 <= i < us@.len() ==> (#[trigger] us@[i]).pos.in_range() && us@[i].input.in_range(),
        NetworkMessage::PlayerInput(pi) => pi.target.in_range(),
        NetworkMessage::DamagePlayer(d) => d.pos.in_range(),
        _ => true,
    }
}

/// Executable validity check, exactly `msg_valid`.
pub fn message_valid(m: &NetworkMessage) -> (b: bool)
    ensures
        b == msg_valid(*m),
{
    match m {
        NetworkMessage::GameUpdate(us) => {
            proof {
                assert(msg_valid(*m) == (forall|j: int|
                    0 <= j < us@.len() ==> (#[trigger] us@[j]).pos.in_range()
                        && us@[j].input.in_range()));
            }
            let mut i: usize = 0;
            while i < us.len()
                invariant
                    0 <= i <= us@.len(),
                    msg_valid(*m) == (forall|j: int|
                        0 <= j < us@.len() ==> (#[trigger] us@[j]).pos.in_range()
                            && us@[j].input.in_range()),
                    forall|j: int|
                        0 <= j < i ==> (#[trigger] us@[j]).pos.in_range()
                            && us@[j].input.in_range(),
                decreases us@.len() - i,
            {
                let u = us[i];
                if !(-crate::fixed::COORD_LIMIT <= u.pos.x && u.pos.x <= crate::fixed::COORD_LIMIT
                    && -crate::fixed::COORD_LIMIT <= u.pos.y && u.pos.y
                    <= crate::fixed::COORD_LIMIT && -crate::fixed::COORD_LIMIT <= u.input.x
                    && u.input.x <= crate::fixed::COORD_LIMIT && -crate::fixed::COORD_LIMIT
                    <= u.input.y && u.input.y <= crate::fixed::COORD_LIMIT) {
                    proof {
                        assert(us@[i as int] == u);
                        assert(!(u.pos.in_range() && u.input.in_range()));
                    }
                    return false;
                }
                i = i + 1;
            }
            true
        },
        NetworkMessage::PlayerInput(pi) => {
            -crate::fixed::COORD_LIMIT <= pi.target.x && pi.target.x <= crate::fixed::COORD_LIMIT
                && -crate::fixed::COORD_LIMIT <= pi.target.y && pi.target.y
                <= crate::fixed::COORD_LIMIT
        },
        NetworkMessage::DamagePlayer(d) => {
            -crate::fixed::COORD_LIMIT <= d.pos.x && d.pos.x <= crate::fixed::COORD_LIMIT
                && -crate::fixed::COORD_LIMIT <= d.pos.y && d.pos.y <= crate::fixed::COORD_LIMIT
        },
        _ => true,
    }
}

} // verus!
