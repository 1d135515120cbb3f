//! Records exchanged with the desktop shell around the library: status
//! events, picked paths, and summaries the shell displays.

use vstd::prelude::*;

verus! {

/// A game's running state, emitted when it starts or exits.
#[derive(Debug)]
pub struct GameStatus {
    pub game_id: String,
    pub running: bool,
}

/// A picked install directory together with whether a game was found in
/// it.
#[derive(Debug)]
pub struct GamePathResult {
    pub path: String,
    pub installed: bool,
}

/// Progress of archive extraction, emitted as each pack finishes.
#[derive(Debug)]
pub struct ExtractionProgress {
    pub game_id: String,
    /// 1-based index of the pack just handled.
    pub pack_index: usize,
    pub total_packs: usize,
    /// Whether all packs are done.
    pub done: bool,
    pub error: Option<String>,
}

/// Summary of a completed record fetch.
#[derive(Debug)]
pub struct FetchGachaResult {
    pub uid: String,
    pub total: usize,
}

/// The stored session as shown to the caller, without the raw token.
#[derive(Debug)]
pub struct HyperSessionInfo {
    pub phone_masked: String,
    pub uid: String,
}

/// The event for one extracted pack: done exactly when the last pack
/// finished without an error.
pub fn extraction_event(game_id: String, pack_index: usize, total_packs: usize, error: Option<
    String,
>) -> (r: ExtractionProgress)
    ensures
        r.game_id@ == game_id@,
        r.pack_index == pack_index,
        r.total_packs == total_packs,
        r.done == (error is None && pack_index == total_packs),
        r.error == error,
{
    let done = match &error {
        Option::None => pack_index == total_packs,
        Option::Some(_) => false,
    };
    ExtractionProgress { game_id, pack_index, total_packs, done, error }
}

} // verus!
