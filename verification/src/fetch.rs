use vstd::prelude::*;
use crate::errors::DownloadError;
use crate::numbers::{all_digits, dec_digits, dec_val, append_u64, parse_u64};
use crate::plan::WorkerRange;
use crate::progress::ProgressTracker;

verus! {

/// The value of the `Range` request header for a worker's byte interval:
/// `bytes=<start>-<end>`, both bounds inclusive and in decimal.
pub open spec fn spec_range_header(start: u64, end: u64) -> Seq<char> {
    "bytes="@ + dec_digits(start as int) + "-"@ + dec_digits(end as int)
}

/// Render the `Range` header value a worker sends for its assigned range.
pub fn range_header_value(r: &WorkerRange) -> (h: String)
    ensures
        h@ == spec_range_header(r.start, r.end),
{
    let mut h = String::from_str("bytes=");
    append_u64(&mut h, r.start);
    h.append("-");
    append_u64(&mut h, r.end);
    proof {
        assert(h@ =~= spec_range_header(r.start, r.end));
    }
    h
}

/// Account one streamed chunk of a worker's response body: the chunk's bytes
/// join the end of the worker's artifact, and exactly that many bytes are
/// recorded on the worker's counter — so the counter always equals the
/// artifact's length, and no other worker's artifact or counter is touched.
pub fn worker_chunk(
    artifact: &mut Vec<u8>,
    tracker: &mut ProgressTracker,
    worker: usize,
    chunk: &[u8],
)
    requires
        old(tracker).wf(),
        worker < old(tracker).counters().len(),
        old(artifact)@.len() == old(tracker).counters()[worker as int],
        old(tracker).counters()[worker as int] + chunk@.len() <= old(tracker).limits()[
            worker as int
        ],
    ensures
        final(artifact)@ == old(artifact)@ + chunk@,
        final(tracker).wf(),
        final(tracker).limits() == old(tracker).limits(),
        final(tracker).counters() == old(tracker).counters().update(
            worker as int,
            (old(tracker).counters()[worker as int] + chunk@.len()) as u64,
        ),
        final(artifact)@.len() == final(tracker).counters()[worker as int],
{
    let mut i: usize = 0;
    while i < chunk.len()
        invariant
            i <= chunk@.len(),
            artifact@ == old(artifact)@ + chunk@.take(i as int),
        decreases chunk@.len() - i,
    {
        artifact.push(chunk[i]);
        proof {
            assert(chunk@.take(i + 1) =~= chunk@.take(i as int).push(chunk@[i as int]));
            assert(artifact@ =~= old(artifact)@ + chunk@.take(i + 1));
        }
        i = i + 1;
    }
    proof {
        assert(chunk@.take(chunk@.len() as int) =~= chunk@);
    }
    tracker.record(worker, chunk.len() as u64);
}

/// Interpret the metadata response's Content-Length header as the total
/// download size. A missing header means the size cannot be determined; a
/// present but malformed or oversized value is a malformed numeric header.
pub fn content_length_total(header: Option<&str>) -> (r: Result<u64, DownloadError>)
    ensures
        match header {
            None => r == Err::<u64, DownloadError>(DownloadError::SizeUnavailable),
            Some(h) => {
                if h@.len() > 0 && all_digits(h@) && dec_val(h@) <= u64::MAX {
                    r == Ok::<u64, DownloadError>((dec_val(h@)) as u64)
                } else {
                    r == Err::<u64, DownloadError>(DownloadError::ParseError)
                }
            },
        },
{
    match header {
        None => Err(DownloadError::SizeUnavailable),
        Some(h) => match parse_u64(h) {
            Some(v) => Ok(v),
            None => Err(DownloadError::ParseError),
        },
    }
}

} // verus!
