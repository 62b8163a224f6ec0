//! Plain launching of a game: by its executable, or by Steam's protocol URL.
use vstd::prelude::*;
use crate::number::{dec, push_dec};

verus! {

broadcast use vstd::string::group_string_axioms;

/// How a game is started.
#[derive(Debug, Clone)]
pub enum LaunchMethod {
    DirectExecutable { path: String, args: Vec<String> },
    SteamProtocol { app_id: u32 },
}

/// A started game: its process (unknown when Steam starts it), its session, and when
/// it started (Unix seconds).
#[derive(Debug, Clone)]
pub struct LaunchResult {
    pub pid: Option<u32>,
    pub session_id: String,
    pub started_at: u64,
}

/// Why a game could not be started.
#[derive(Debug, Clone)]
pub enum LaunchError {
    ProcessNotFound,
    PermissionDenied,
    Other(String),
}

/// The URL that asks Steam to run an app.
pub fn steam_run_url(app_id: u32) -> (r: String)
    ensures
        r@ == "steam://rungameid/"@ + dec(app_id as nat),
{
    let mut r = String::from_str("steam://rungameid/");
    push_dec(&mut r, app_id as u64);
    r
}

/// The outcome of a launch from what starting it gave: nothing for the protocol URL
/// (whose opening is not checked), the process id of a spawned executable, or the
/// spawn's error text.
pub fn launch_outcome(spawned: Option<Result<u32, String>>, session_id: String, started_at: u64) -> (r: Result<
    LaunchResult,
    LaunchError,
>)
    ensures
        match spawned {
            None => r matches Ok(res) && res.pid is None && res.session_id@ == session_id@
                && res.started_at == started_at,
            Some(Ok(pid)) => r matches Ok(res) && res.pid == Some(pid) && res.session_id@ == session_id@
                && res.started_at == started_at,
            Some(Err(e)) => r matches Err(LaunchError::Other(m)) && m@ == e@,
        },
{
    match spawned {
        None => Ok(LaunchResult { pid: None, session_id, started_at }),
        Some(Ok(pid)) => Ok(LaunchResult { pid: Some(pid), session_id, started_at }),
        Some(Err(e)) => Err(LaunchError::Other(e)),
    }
}

} // verus!
