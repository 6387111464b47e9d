//! Requests for the investigation of divergences, and the reports on them.
//!
//! A request names stored proofs of indexing. Every two of them that can be
//! compared and differ are bisected; the runs make up the report. A report
//! that has reached its end, complete or failed, does not change any more.

use crate::bisect::{BisectionFailure, BisectionRun, BisectionStep, Phase};
use crate::rows::{row_views, StoredPoi, StoredPoiView};
use crate::types::DivergingBlock;
use vstd::prelude::*;
use vstd::string::*;

verus! {

/// The identifier of a request and of its report: the number of a UUID.
pub type ReportUuid = u128;

/// A request to investigate the divergences among some stored proofs of
/// indexing, named by their digests.
#[derive(Debug)]
pub struct DivergenceInvestigationRequest {
    pub pois: Vec<String>,
}

/// A request together with the identifier under which it was queued.
#[derive(Debug)]
pub struct DivergenceInvestigationRequestWithUuid {
    pub uuid: ReportUuid,
    pub req: DivergenceInvestigationRequest,
}

/// Whether `number` is the number of a random UUID: one of version 4 in
/// the variant of RFC 9562.
pub open spec fn is_random_uuid(number: u128) -> bool {
    (number >> 76) & 0xf == 4 && (number >> 62) & 0x3 == 2
}

/// Calls `uuid::Uuid::new_v4` and takes the number of the result.
/// Trusted: the number is drawn at random, and all that is claimed of it
/// is that it carries the marks of a random UUID. The call does not return
/// where the system has no random bytes to give.
#[verifier::external_body]
fn fresh_uuid() -> (number: u128)
    ensures
        is_random_uuid(number),
{
    uuid::Uuid::new_v4().as_u128()
}

/// Gives a request the identifier under which it is queued and its report
/// is found later: a random UUID. Whatever identifier is drawn, the request
/// stays as it is.
pub fn queue_cross_check_report(req: DivergenceInvestigationRequest) -> (queued:
    DivergenceInvestigationRequestWithUuid)
    ensures
        queued.req == req,
        is_random_uuid(queued.uuid),
{
    with_uuid(fresh_uuid(), req)
}

/// The request `req` under the identifier `uuid`.
pub fn with_uuid(uuid: ReportUuid, req: DivergenceInvestigationRequest) -> (queued:
    DivergenceInvestigationRequestWithUuid)
    ensures
        queued.uuid == uuid,
        queued.req == req,
{
    DivergenceInvestigationRequestWithUuid { uuid, req }
}

/// Whether two stored proofs of indexing call for a bisection: they are
/// of the same deployment and block, and their digests differ.
pub open spec fn diverge(a: StoredPoiView, b: StoredPoiView) -> bool {
    a.poi.deployment == b.poi.deployment && a.poi.block == b.poi.block && a.poi.proof_of_indexing
        != b.poi.proof_of_indexing
}

/// Whether the pair `a` comes before the pair `b`: by first position, then
/// by second.
pub open spec fn pair_before(a: (usize, usize), b: (usize, usize)) -> bool {
    a.0 < b.0 || (a.0 == b.0 && a.1 < b.1)
}

/// Whether `pairs` are the pairs of positions in `pois` to bisect: every
/// two proofs of indexing that diverge, once, lower position first, in order.
pub open spec fn pairs_to_bisect(pois: Seq<StoredPoiView>, pairs: Seq<(usize, usize)>) -> bool {
    &&& forall|k: int|
        0 <= k < pairs.len() ==> (#[trigger] pairs[k]).0 < pairs[k].1 < pois.len() && diverge(
            pois[pairs[k].0 as int],
            pois[pairs[k].1 as int],
        )
    &&& forall|k: int, l: int|
        0 <= k < l < pairs.len() ==> pair_before(#[trigger] pairs[k], #[trigger] pairs[l])
    &&& forall|i: usize, j: usize|
        #![trigger pairs.contains((i, j))]
        i < j < pois.len() && diverge(pois[i as int], pois[j as int]) ==> pairs.contains((i, j))
}

/// Whether `a` and `b` call for a bisection.
pub fn rows_diverge(a: &StoredPoi, b: &StoredPoi) -> (differ: bool)
    ensures
        differ == diverge(a@, b@),
{
    a.poi.deployment == b.poi.deployment && a.poi.block == b.poi.block && a.poi.proof_of_indexing
        != b.poi.proof_of_indexing
}

/// The pairs of positions in `pois` to bisect.
pub fn bisection_pairs(pois: &Vec<StoredPoi>) -> (pairs: Vec<(usize, usize)>)
    ensures
        pairs_to_bisect(row_views(pois@), pairs@),
{
    let ghost views = row_views(pois@);
    let mut pairs: Vec<(usize, usize)> = Vec::new();
    let mut i: usize = 0;
    while i < pois.len()
        invariant
            i <= pois@.len(),
            views == row_views(pois@),
            forall|k: int|
                0 <= k < pairs@.len() ==> (#[trigger] pairs@[k]).0 < pairs@[k].1 < views.len()
                    && pairs@[k].0 < i && diverge(
                    views[pairs@[k].0 as int],
                    views[pairs@[k].1 as int],
                ),
            forall|k: int, l: int|
                0 <= k < l < pairs@.len() ==> pair_before(#[trigger] pairs@[k], #[trigger] pairs@[l]),
            forall|a: usize, b: usize|
                #![trigger pairs@.contains((a, b))]
                a < i && a < b < views.len() && diverge(views[a as int], views[b as int])
                    ==> pairs@.contains((a, b)),
        decreases pois@.len() - i,
    {
        let mut j: usize = i + 1;
        while j < pois.len()
            invariant
                i < j <= pois@.len(),
                views == row_views(pois@),
                forall|k: int|
                    0 <= k < pairs@.len() ==> (#[trigger] pairs@[k]).0 < pairs@[k].1 < views.len() && (
                    pairs@[k].0 < i || (pairs@[k].0 == i && pairs@[k].1 < j)) && diverge(
                        views[pairs@[k].0 as int],
                        views[pairs@[k].1 as int],
                    ),
                forall|k: int, l: int|
                    0 <= k < l < pairs@.len() ==> pair_before(
                        #[trigger] pairs@[k],
                        #[trigger] pairs@[l],
                    ),
                forall|a: usize, b: usize|
                    #![trigger pairs@.contains((a, b))]
                    (a < i || (a == i && b < j)) && a < b < views.len() && diverge(
                        views[a as int],
                        views[b as int],
                    ) ==> pairs@.contains((a, b)),
            decreases pois@.len() - j,
        {
            if rows_diverge(&pois[i], &pois[j]) {
                let ghost before = pairs@;
                pairs.push((i, j));
                proof {
                    assert(pairs@[before.len() as int] == (i, j));
                    assert forall|a: usize, b: usize|
                        (a < i || (a == i && b < j + 1)) && a < b < views.len() && diverge(
                            views[a as int],
                            views[b as int],
                        ) implies #[trigger] pairs@.contains((a, b)) by {
                        if a == i && b == j {
                            assert(pairs@[before.len() as int] == (a, b));
                        } else {
                            assert(before.contains((a, b)));
                            let at = before.index_of((a, b));
                            assert(pairs@[at] == (a, b));
                        }
                    }
                    assert forall|k: int, l: int| 0 <= k < l < pairs@.len() implies pair_before(
                        #[trigger] pairs@[k],
                        #[trigger] pairs@[l],
                    ) by {
                        assert(pairs@[k] == before[k]);
                        if l < before.len() {
                            assert(pairs@[l] == before[l]);
                        }
                    }
                }
            }
            j = j + 1;
        }
        i = i + 1;
    }
    pairs
}

/// How far an investigation, or one of its runs, has come.
#[derive(Debug, Clone, Copy, PartialEq, Eq, Structural)]
pub enum DivergenceInvestigationStatus {
    InProgress,
    Complete,
    Failed,
}

impl DivergenceInvestigationStatus {
    /// Whether the status is one of the two at which nothing changes any more.
    pub open spec fn terminal(self) -> bool {
        self != DivergenceInvestigationStatus::InProgress
    }
}

/// The report on one bisection run.
#[derive(Debug)]
pub struct BisectionRunReport {
    pub uuid: ReportUuid,
    /// The two proofs of indexing that were bisected, by their digests.
    pub poi1: String,
    pub poi2: String,
    pub status: DivergenceInvestigationStatus,
    /// The probes of the run, in order.
    pub bisection_steps: Vec<BisectionStep>,
    /// The first diverging block, where the run confirmed one.
    pub diverging_block: Option<DivergingBlock>,
    /// What went wrong, in the run or in gathering evidence after it.
    pub error: Option<String>,
}

/// The word for a failure in a report.
pub open spec fn failure_word(failure: BisectionFailure) -> Seq<char> {
    match failure {
        BisectionFailure::Gap => "gap"@,
        BisectionFailure::Unindexed => "unindexed"@,
    }
}

/// The report on a run that has ended. A run that still probes has no report.
pub fn run_report(uuid: ReportUuid, poi1: String, poi2: String, run: &BisectionRun) -> (res: Option<
    BisectionRunReport,
>)
    ensures
        res is None <==> run@.phase == Phase::Probing,
        res matches Some(report) ==> {
            &&& report.uuid == uuid
            &&& report.poi1 == poi1
            &&& report.poi2 == poi2
            &&& report.bisection_steps@ == run@.steps
            &&& match run@.phase {
                Phase::Confirmed => report.status == DivergenceInvestigationStatus::Complete
                    && report.diverging_block == Some(run@.diverging) && report.error is None,
                Phase::Failed(failure) => report.status == DivergenceInvestigationStatus::Failed
                    && report.diverging_block is None && (report.error matches Some(text) && text@
                    == failure_word(failure)),
                Phase::Probing => false,
            }
        },
{
    let (status, diverging_block, error) = match run.phase() {
        Phase::Probing => {
            return None;
        },
        Phase::Confirmed => (DivergenceInvestigationStatus::Complete, Some(run.diverging()), None),
        Phase::Failed(BisectionFailure::Gap) => (
            DivergenceInvestigationStatus::Failed,
            None,
            Some(String::from_str("gap")),
        ),
        Phase::Failed(BisectionFailure::Unindexed) => (
            DivergenceInvestigationStatus::Failed,
            None,
            Some(String::from_str("unindexed")),
        ),
    };
    let steps = run.steps();
    let mut bisection_steps: Vec<BisectionStep> = Vec::new();
    let mut i: usize = 0;
    while i < steps.len()
        invariant
            i <= steps@.len(),
            bisection_steps@ == steps@.take(i as int),
        decreases steps@.len() - i,
    {
        bisection_steps.push(steps[i]);
        assert(bisection_steps@ =~= steps@.take(i + 1));
        i = i + 1;
    }
    assert(steps@.take(i as int) =~= steps@);
    Some(BisectionRunReport { uuid, poi1, poi2, status, bisection_steps, diverging_block, error })
}

impl BisectionRunReport {
    /// Notes that a piece of evidence could not be had. The note is added
    /// to what the report says went wrong, after a semicolon; the status and
    /// the diverging block stay as they are.
    pub fn note_evidence_failure(&mut self, message: &str)
        ensures
            final(self).error matches Some(text) && text@ == (match old(self).error {
                Some(before) => before@ + "; "@ + message@,
                None => message@,
            }),
            final(self).status == old(self).status,
            final(self).diverging_block == old(self).diverging_block,
            final(self).bisection_steps == old(self).bisection_steps,
            final(self).uuid == old(self).uuid,
            final(self).poi1 == old(self).poi1,
            final(self).poi2 == old(self).poi2,
    {
        let text = match &self.error {
            Some(before) => {
                let mut text = before.clone();
                text.append("; ");
                text.append(message);
                text
            },
            None => String::from_str(message),
        };
        self.error = Some(text);
    }
}

/// The report on an investigation: the runs made for one request.
#[derive(Debug)]
pub struct DivergenceInvestigationReport {
    pub uuid: ReportUuid,
    pub status: DivergenceInvestigationStatus,
    pub bisection_runs: Vec<BisectionRunReport>,
    pub error: Option<String>,
}

impl DivergenceInvestigationReport {
    /// The report on an investigation that has just begun.
    pub fn new(uuid: ReportUuid) -> (report: DivergenceInvestigationReport)
        ensures
            report.uuid == uuid,
            report.status == DivergenceInvestigationStatus::InProgress,
            report.bisection_runs@.len() == 0,
            report.error is None,
    {
        DivergenceInvestigationReport {
            uuid,
            status: DivergenceInvestigationStatus::InProgress,
            bisection_runs: Vec::new(),
            error: None,
        }
    }

    /// Adds the report on a run, unless the investigation has ended, and
    /// says whether it did.
    pub fn append_run(&mut self, run: BisectionRunReport) -> (added: bool)
        ensures
            added == !old(self).status.terminal(),
            added ==> final(self).bisection_runs@ == old(self).bisection_runs@.push(run),
            !added ==> final(self).bisection_runs == old(self).bisection_runs,
            final(self).uuid == old(self).uuid,
            final(self).status == old(self).status,
            final(self).error == old(self).error,
    {
        match self.status {
            DivergenceInvestigationStatus::InProgress => {
                self.bisection_runs.push(run);
                true
            },
            _ => false,
        }
    }

    /// Ends the investigation as complete, unless it has ended already.
    pub fn complete(&mut self)
        ensures
            old(self).status.terminal() ==> *final(self) == *old(self),
            !old(self).status.terminal() ==> final(self).status
                == DivergenceInvestigationStatus::Complete && final(self).error == old(self).error,
            final(self).uuid == old(self).uuid,
            final(self).bisection_runs == old(self).bisection_runs,
            final(self).status.terminal(),
    {
        match self.status {
            DivergenceInvestigationStatus::InProgress => {
                self.status = DivergenceInvestigationStatus::Complete;
            },
            _ => {},
        }
    }

    /// Ends the investigation as failed for the reason given, unless it
    /// has ended already.
    pub fn fail(&mut self, error: String)
        ensures
            old(self).status.terminal() ==> *final(self) == *old(self),
            !old(self).status.terminal() ==> final(self).status
                == DivergenceInvestigationStatus::Failed && final(self).error == Some(error),
            final(self).uuid == old(self).uuid,
            final(self).bisection_runs == old(self).bisection_runs,
            final(self).status.terminal(),
    {
        match self.status {
            DivergenceInvestigationStatus::InProgress => {
                self.status = DivergenceInvestigationStatus::Failed;
                self.error = Some(error);
            },
            _ => {},
        }
    }
}

/// The report to show for the identifier `uuid`: the stored report where
/// there is one; for a request that is known but has no report yet, a report
/// in progress without runs; and nothing for an identifier that is not known.
pub fn divergence_investigation_report(
    uuid: ReportUuid,
    stored: Option<DivergenceInvestigationReport>,
    request_exists: bool,
) -> (shown: Option<DivergenceInvestigationReport>)
    ensures
        stored is Some ==> shown == stored,
        stored is None && request_exists ==> (shown matches Some(report) && report.uuid == uuid
            && report.status == DivergenceInvestigationStatus::InProgress
            && report.bisection_runs@.len() == 0 && report.error is None),
        stored is None && !request_exists ==> shown is None,
{
    match stored {
        Some(report) => Some(report),
        None => if request_exists {
            Some(DivergenceInvestigationReport::new(uuid))
        } else {
            None
        },
    }
}

} // verus!
