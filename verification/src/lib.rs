//! Core of a multi-worker HTTP range downloader: a download is planned as a
//! contiguous partition of the resource's bytes, one range per worker; each
//! worker streams its range into its own buffer while a shared set of
//! counters tracks progress; and the per-worker buffers are concatenated, in
//! worker order, into output that is byte-identical to the resource.
//!
//! The modules hold the planner ([`plan`]), the progress accounting
//! ([`progress`]), the reassembly ([`assemble`]), the coordinator's state
//! machine ([`coordinate`]), the request and header text handling ([`fetch`],
//! [`numbers`]), output-name resolution ([`naming`]), the command-line model
//! ([`args`]) and the error taxonomy ([`errors`]). Network and file I/O live
//! outside this crate; everything here is pure logic with proved contracts.

pub mod args;
pub mod assemble;
pub mod coordinate;
pub mod errors;
pub mod fetch;
pub mod naming;
pub mod numbers;
pub mod plan;
pub mod progress;
