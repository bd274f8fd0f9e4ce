//! How the server answers a client's request for a terrain chunk.
use vstd::prelude::*;

verus! {

/// What becomes of a request for a terrain chunk.
#[derive(Clone, Copy, Debug, PartialEq, Eq, Structural)]
pub enum ChunkRequestOutcome {
    /// The client is not in the game: the request is dropped.
    DroppedNotInGame,
    /// The chunk is too far from the client: the request is dropped.
    DroppedOutOfView,
    /// The chunk is loaded and is sent from memory.
    ServedFromMemory,
    /// The chunk is not loaded: its generation is requested.
    GenerationTriggered,
}

/// What becomes of a request for a terrain chunk, given whether the client
/// is in the game, whether the chunk lies within its view distance, and
/// whether the chunk is loaded.
pub fn chunk_request_outcome(in_game: bool, in_view: bool, loaded: bool) -> (r: ChunkRequestOutcome)
    ensures
        r == if !in_game {
            ChunkRequestOutcome::DroppedNotInGame
        } else if !in_view {
            ChunkRequestOutcome::DroppedOutOfView
        } else if loaded {
            ChunkRequestOutcome::ServedFromMemory
        } else {
            ChunkRequestOutcome::GenerationTriggered
        },
{
    if !in_game {
        ChunkRequestOutcome::DroppedNotInGame
    } else if !in_view {
        ChunkRequestOutcome::DroppedOutOfView
    } else if loaded {
        ChunkRequestOutcome::ServedFromMemory
    } else {
        ChunkRequestOutcome::GenerationTriggered
    }
}

} // verus!
