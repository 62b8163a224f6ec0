//! Game-library logic of a Steam-aware game launcher: parsing Steam's manifest
//! and configuration files, planning library synchronisation, the OpenID
//! sign-in exchange, Store and Web API request and response handling, and the
//! decisions of the silent Steam launch lifecycle.
use vstd::prelude::*;

pub mod text;
pub mod ids;
pub mod paths;
pub mod number;
pub mod urlcodec;
pub mod ordering;
pub mod steam;
pub mod commands;
pub mod process;

verus! {
} // verus!
