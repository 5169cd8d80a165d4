//! Progress reporting: containers record progress events in an internal list
//! that the caller drains, so that long scans stay observable without any
//! callback plumbing inside the verified code.

use vstd::prelude::*;

verus! {

/// The stage a progress event belongs to.
#[derive(Clone, Copy, PartialEq, Eq, Structural, Debug)]
pub enum AAPakLoadingProgressType {
    OpeningFile,
    ReadingHeader,
    WritingHeader,
    ReadingFAT,
    WritingFAT,
    ClosingFile,
    GeneratingDirectories,
}

/// One progress notification: `step` of `maximum` within `stage`.
#[derive(Clone, Copy)]
pub struct ProgressEvent {
    pub stage: AAPakLoadingProgressType,
    pub step: u64,
    pub maximum: u64,
}

} // verus!
