use vstd::prelude::*;
use crate::errors::DownloadError;

verus! {

/// The coordinator's phases. A run walks them in order; `Failed` and `Done`
/// are terminal.
#[derive(Clone, Copy, Debug, PartialEq, Eq, Structural)]
pub enum Phase {
    /// Nothing has happened yet.
    Init,
    /// A metadata-only request for the resource's size is in flight.
    SizeDiscovery,
    /// The per-worker ranges are being computed.
    Planning,
    /// Workers are being launched, each with its range.
    Fetching,
    /// All workers have been launched; the run waits on their results.
    Joining,
    /// Every worker succeeded; the temporary files are being concatenated.
    Assembling,
    /// The output file is complete.
    Done,
    /// A fatal error ended the run; no further phase is entered.
    Failed(DownloadError),
}

/// What the driver observed while carrying out the current phase.
#[derive(Clone, Copy, Debug, PartialEq, Eq, Structural)]
pub enum Event {
    /// The run was started.
    Started,
    /// The metadata request yielded a usable total size.
    SizeKnown,
    /// The metadata request yielded no usable total size.
    SizeMissing,
    /// The ranges were computed.
    Planned,
    /// All workers and the reporter were launched.
    WorkersSpawned,
    /// Every worker was joined and none reported an error.
    WorkersJoined,
    /// A worker was joined and reported this error (the first one observed).
    WorkerFailed(DownloadError),
    /// The output file was written completely.
    Assembled,
    /// Reading a temporary file or writing the output failed.
    AssemblyFailed,
}

/// The coordinator's transition relation. Failures short-circuit all later
/// phases; an event that does not belong to the current phase changes
/// nothing.
pub open spec fn spec_step(phase: Phase, event: Event) -> Phase {
    match (phase, event) {
        (Phase::Init, Event::Started) => Phase::SizeDiscovery,
        (Phase::SizeDiscovery, Event::SizeKnown) => Phase::Planning,
        (Phase::SizeDiscovery, Event::SizeMissing) => Phase::Failed(DownloadError::SizeUnavailable),
        (Phase::Planning, Event::Planned) => Phase::Fetching,
        (Phase::Fetching, Event::WorkersSpawned) => Phase::Joining,
        (Phase::Joining, Event::WorkersJoined) => Phase::Assembling,
        (Phase::Joining, Event::WorkerFailed(e)) => Phase::Failed(e),
        (Phase::Assembling, Event::Assembled) => Phase::Done,
        (Phase::Assembling, Event::AssemblyFailed) => Phase::Failed(DownloadError::IoError),
        (p, _) => p,
    }
}

/// Advance the coordinator by one observed event.
pub fn step(phase: Phase, event: Event) -> (next: Phase)
    ensures
        next == spec_step(phase, event),
{
    match (phase, event) {
        (Phase::Init, Event::Started) => Phase::SizeDiscovery,
        (Phase::SizeDiscovery, Event::SizeKnown) => Phase::Planning,
        (Phase::SizeDiscovery, Event::SizeMissing) => Phase::Failed(DownloadError::SizeUnavailable),
        (Phase::Planning, Event::Planned) => Phase::Fetching,
        (Phase::Fetching, Event::WorkersSpawned) => Phase::Joining,
        (Phase::Joining, Event::WorkersJoined) => Phase::Assembling,
        (Phase::Joining, Event::WorkerFailed(e)) => Phase::Failed(e),
        (Phase::Assembling, Event::Assembled) => Phase::Done,
        (Phase::Assembling, Event::AssemblyFailed) => Phase::Failed(DownloadError::IoError),
        (p, _) => p,
    }
}

/// The phase reached after observing a whole sequence of events.
pub open spec fn run_from(phase: Phase, events: Seq<Event>) -> Phase
    decreases events.len(),
{
    if events.len() == 0 {
        phase
    } else {
        run_from(spec_step(phase, events.first()), events.drop_first())
    }
}

/// A failed run stays failed, whatever else is observed.
pub proof fn lemma_failed_absorbing(e: DownloadError, events: Seq<Event>)
    ensures
        run_from(Phase::Failed(e), events) == Phase::Failed(e),
    decreases events.len(),
{
    if events.len() > 0 {
        lemma_failed_absorbing(e, events.drop_first());
    }
}

/// Fatal propagation: once any worker's failure is observed while joining,
/// the run ends as `Failed` with that worker's error — the assembly phase,
/// the only phase that creates the output file, is never entered, whatever
/// further events occur.
pub proof fn lemma_fatal_propagation(e: DownloadError, events: Seq<Event>)
    ensures
        run_from(spec_step(Phase::Joining, Event::WorkerFailed(e)), events) == Phase::Failed(e),
{
    lemma_failed_absorbing(e, events);
}

/// The first error among the workers' join results, in worker order.
pub open spec fn spec_first_error(results: Seq<Option<DownloadError>>) -> Option<DownloadError>
    decreases results.len(),
{
    if results.len() == 0 {
        None
    } else if results.first() is Some {
        results.first()
    } else {
        spec_first_error(results.drop_first())
    }
}

/// There is a first error exactly when some worker failed.
pub proof fn lemma_first_error_none(results: Seq<Option<DownloadError>>)
    ensures
        spec_first_error(results) is None <==> (forall|i: int|
            0 <= i < results.len() ==> (#[trigger] results[i]) is None),
    decreases results.len(),
{
    if results.len() > 0 {
        lemma_first_error_none(results.drop_first());
        if spec_first_error(results) is None {
            assert forall|i: int| 0 <= i < results.len() implies (#[trigger] results[i]) is None by {
                if i > 0 {
                    assert(results.drop_first()[i - 1] == results[i]);
                }
            }
        }
    }
}

/// Scan the join results in worker order and return the first error, if any;
/// when several workers fail, only the first error observed is kept and the
/// rest are discarded.
pub fn first_worker_error(results: &Vec<Option<DownloadError>>) -> (r: Option<DownloadError>)
    ensures
        r == spec_first_error(results@),
        r is None <==> (forall|i: int|
            0 <= i < results@.len() ==> (#[trigger] results@[i]) is None),
{
    proof {
        lemma_first_error_none(results@);
        assert(results@.skip(0) =~= results@);
    }
    let mut i: usize = 0;
    while i < results.len()
        invariant
            i <= results@.len(),
            spec_first_error(results@) == spec_first_error(results@.skip(i as int)),
            forall|j: int| 0 <= j < i ==> (#[trigger] results@[j]) is None,
        decreases results@.len() - i,
    {
        match results[i] {
            Some(e) => {
                proof {
                    assert(results@.skip(i as int).first() == results@[i as int]);
                }
                return Some(e);
            },
            None => {
                proof {
                    assert(results@.skip(i as int).first() == results@[i as int]);
                    assert(results@.skip(i as int).drop_first() =~= results@.skip(i as int + 1));
                }
                i = i + 1;
            },
        }
    }
    proof {
        assert(results@.skip(results@.len() as int).len() == 0);
    }
    None
}

} // verus!
