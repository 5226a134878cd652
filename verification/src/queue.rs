//! The stand-in for a queue backend.
use vstd::prelude::*;

verus! {

/// What a backend finds out about a track.
#[derive(Debug)]
pub struct ScrapedData {
    /// Lyrics without times.
    pub plain_lyrics: Option<String>,
    /// Lyrics with times.
    pub synced_lyrics: Option<String>,
    /// Whether the track has no lyrics.
    pub instrumental: bool,
}

/// What the stand-in does next.
#[derive(Debug, Clone, Copy, PartialEq, Eq, Structural)]
pub enum QueueStep {
    /// Note that this number of workers is not acted upon, and wait for the
    /// next.
    Ignore(u8),
    /// Stop: nobody is left to send a number.
    Stop,
}

/// What the stand-in does with an update of the number of workers, or with
/// the end of updates.
pub fn start_queue(update: Option<u8>) -> (step: QueueStep)
    ensures
        step == (match update {
            Some(workers_count) => QueueStep::Ignore(workers_count),
            None => QueueStep::Stop,
        }),
{
    match update {
        Some(workers_count) => QueueStep::Ignore(workers_count),
        None => QueueStep::Stop,
    }
}

/// The stand-in goes on exactly as long as updates come, and notes each
/// number as it came.
pub proof fn law_stand_in_notes_every_update(update: Option<u8>, step: QueueStep)
    requires
        call_ensures(start_queue, (update,), step),
    ensures
        step is Stop <==> update is None,
        step is Ignore ==> update == Some(step->Ignore_0),
{
}

} // verus!
