//! Text matching, lyrics parsing and request decisions for a local lyrics bridge
//! that serves Musixmatch, Deezer, Bugs and Genie lyrics to ivLyrics.
use vstd::prelude::*;

pub mod bugs;
pub mod cache;
pub mod deezer;
pub mod genie;
pub mod logging;
pub mod matching;
pub mod musixmatch;
pub mod origin;
pub mod payload;
pub mod provider_util;
pub mod resolve;
pub mod server;
pub mod text;
pub mod update;

verus! {

} // verus!
