//! Play sessions as the frontend sees them.
use vstd::prelude::*;

verus! {

/// One play session of a game.
#[derive(Debug, Clone)]
pub struct Session {
    pub id: String,
    pub game_id: String,
    pub name: String,
    pub started_at: i64,
    pub ended_at: Option<i64>,
    pub duration_s: Option<i64>,
    pub was_crashed: bool,
}

/// A session read from its stored columns: the game's name is left empty (the listing
/// of active sessions fills it in), and any non-zero crash flag means it crashed.
pub fn session_from_columns(
    id: String,
    game_id: String,
    started_at: i64,
    ended_at: Option<i64>,
    duration_s: Option<i64>,
    was_crashed: i64,
) -> (s: Session)
    ensures
        s.id@ == id@,
        s.game_id@ == game_id@,
        s.name@ == Seq::<char>::empty(),
        s.started_at == started_at,
        s.ended_at == ended_at,
        s.duration_s == duration_s,
        s.was_crashed == (was_crashed != 0),
{
    Session { id, game_id, name: String::new(), started_at, ended_at, duration_s, was_crashed: was_crashed != 0 }
}

} // verus!
