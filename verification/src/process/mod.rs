//! Launching games and watching them: Steam process detection, process-name hints,
//! the session watcher, and Proton versions.
pub mod steam_launcher;
pub mod proton;
pub mod launcher;
