//! Engine decisions: what the capability probe means for the transfer path,
//! and how the outcomes of a run's workers resolve into a final status.
use vstd::prelude::*;
use crate::planner::{plan, plan_seq, ByteRange};
use crate::task::{DownloadStatus, StatusView};

verus! {

/// How many ranges the engine asks the planner for by default.
pub const DEFAULT_CHUNK_COUNT: u32 = 8;

/// What the capability probe reported: the declared content length (zero if
/// missing or unusable) and whether byte ranges are advertised.
#[derive(Clone, Copy, PartialEq, Eq, Structural, Debug)]
pub struct ProbeResult {
    pub content_length: u64,
    pub accepts_ranges: bool,
}

/// How one engine run will fetch the payload.
pub enum TransferPlan {
    MultiStream(Vec<ByteRange>),
    SingleStream,
}

/// The decision rule: the multi-stream path is taken exactly when the server
/// advertises ranges, declares a positive length, and more than zero chunks
/// are asked for.
pub open spec fn multi_stream_chosen(p: ProbeResult, chunk_count: u32) -> bool {
    p.accepts_ranges && p.content_length > 0 && chunk_count > 0
}

/// Decides the transfer path for one engine run. On the single-stream path
/// the result carries no ranges at all, so no ranged request can be issued
/// from it.
pub fn decide_transfer(probe: &ProbeResult, chunk_count: u32) -> (t: TransferPlan)
    ensures
        multi_stream_chosen(*probe, chunk_count) ==> (t matches TransferPlan::MultiStream(v)
            && v@ == plan_seq(probe.content_length, chunk_count)),
        !multi_stream_chosen(*probe, chunk_count) ==> (t is SingleStream),
{
    if probe.accepts_ranges && probe.content_length > 0 && chunk_count > 0 {
        TransferPlan::MultiStream(plan(probe.content_length, chunk_count))
    } else {
        TransferPlan::SingleStream
    }
}

/// Index of the first failed worker outcome, or -1 if every worker
/// succeeded.
pub open spec fn first_failure(s: Seq<Result<(), String>>) -> int
    decreases s.len(),
{
    if s.len() == 0 {
        -1
    } else if s[0] is Err {
        0
    } else {
        let r = first_failure(s.subrange(1, s.len() as int));
        if r < 0 {
            -1
        } else {
            r + 1
        }
    }
}

/// A witness pins `first_failure` down.
proof fn lemma_first_failure_is(s: Seq<Result<(), String>>, i: int)
    requires
        0 <= i < s.len(),
        s[i] is Err,
        forall|j: int| 0 <= j < i ==> (#[trigger] s[j]) is Ok,
    ensures
        first_failure(s) == i,
    decreases i,
{
    let tail = s.subrange(1, s.len() as int);
    assert(forall|j: int| 0 <= j < tail.len() ==> #[trigger] tail[j] == s[j + 1]);
    assert(forall|j: int| 1 <= j < s.len() ==> #[trigger] s[j] == tail[j - 1]);
    if i == 0 {
    } else {
        lemma_first_failure_is(tail, i - 1);
    }
}

/// If every worker succeeded, there is no first failure.
proof fn lemma_first_failure_none(s: Seq<Result<(), String>>)
    requires
        forall|j: int| 0 <= j < s.len() ==> (#[trigger] s[j]) is Ok,
    ensures
        first_failure(s) == -1,
    decreases s.len(),
{
    if s.len() == 0 {
    } else {
        let tail = s.subrange(1, s.len() as int);
        assert(forall|j: int| 0 <= j < tail.len() ==> #[trigger] tail[j] == s[j + 1]);
        assert(forall|j: int| 1 <= j < s.len() ==> #[trigger] s[j] == tail[j - 1]);
        lemma_first_failure_none(tail);
    }
}

/// Aggregates the joined workers' outcomes: the task completes only if every
/// worker succeeded; otherwise the first failure's reason becomes the task's
/// error, and the run must not report completion.
pub fn resolve_final_status(outcomes: &Vec<Result<(), String>>) -> (st: DownloadStatus)
    ensures
        first_failure(outcomes@) < 0 ==> st@ == StatusView::Completed,
        first_failure(outcomes@) >= 0 ==> st@ == StatusView::Error(
            outcomes@[first_failure(outcomes@)]->Err_0@,
        ),
{
    let mut j: usize = 0;
    while j < outcomes.len()
        invariant
            j <= outcomes@.len(),
            forall|k: int| 0 <= k < j ==> (#[trigger] outcomes@[k]) is Ok,
        decreases outcomes@.len() - j,
    {
        match &outcomes[j] {
            Result::Err(reason) => {
                proof {
                    lemma_first_failure_is(outcomes@, j as int);
                }
                return DownloadStatus::Error(reason.clone());
            },
            Result::Ok(_) => {},
        }
        j = j + 1;
    }
    proof {
        lemma_first_failure_none(outcomes@);
    }
    DownloadStatus::Completed
}

} // verus!
