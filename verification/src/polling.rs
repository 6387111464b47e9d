//! The fan-out polling engine, without the fan-out itself: what to ask each
//! indexer, and what a round of answers amounts to.
//!
//! A round has two halves. First every indexer is asked for its indexing
//! statuses; [`gather_indexing_statuses`] turns the answers into the
//! statuses of the round and one outcome per indexer for the metrics. Then
//! [`plan_poi_requests`] says which proofs of indexing to ask of which
//! indexer, and [`gather_proofs_of_indexing`] joins what came back.

use crate::block_choice::{chosen_block, status_views, BlockChoicePolicy};
use crate::error::ErrorKind;
use crate::types::{
    Indexer, IndexerView, IndexingStatus, IndexingStatusView, PoiRequest, PoiRequestView, PoiView,
    ProofOfIndexing, SubgraphDeployment,
};
use vstd::prelude::*;

verus! {

/// What one indexer answered when asked for its indexing statuses.
#[derive(Debug)]
pub struct StatusResponse {
    pub indexer: Indexer,
    pub result: Result<Vec<IndexingStatus>, ErrorKind>,
}

/// A status response as contracts see it.
pub struct StatusResponseView {
    pub indexer: IndexerView,
    pub result: Result<Seq<IndexingStatusView>, ErrorKind>,
}

impl View for StatusResponse {
    type V = StatusResponseView;

    open spec fn view(&self) -> StatusResponseView {
        StatusResponseView {
            indexer: self.indexer@,
            result: match self.result {
                Ok(statuses) => Ok(status_views(statuses@)),
                Err(e) => Err(e),
            },
        }
    }
}

/// One sample for the request counters: which indexer, and whether it answered.
#[derive(Debug)]
pub struct RequestOutcome {
    pub indexer: Indexer,
    pub ok: bool,
}

/// A counter sample as contracts see it.
pub struct RequestOutcomeView {
    pub indexer: IndexerView,
    pub ok: bool,
}

impl View for RequestOutcome {
    type V = RequestOutcomeView;

    open spec fn view(&self) -> RequestOutcomeView {
        RequestOutcomeView { indexer: self.indexer@, ok: self.ok }
    }
}

/// What a round of status queries amounts to.
#[derive(Debug)]
pub struct StatusRound {
    /// The statuses of all indexers that answered.
    pub statuses: Vec<IndexingStatus>,
    /// One sample per indexer asked, in the order of the answers.
    pub outcomes: Vec<RequestOutcome>,
    /// How many indexers answered.
    pub successes: usize,
    /// How many did not.
    pub failures: usize,
}

/// The views of `responses`, in order.
pub open spec fn response_views(responses: Seq<StatusResponse>) -> Seq<StatusResponseView> {
    responses.map_values(|r: StatusResponse| r@)
}

/// The views of `outcomes`, in order.
pub open spec fn outcome_views(outcomes: Seq<RequestOutcome>) -> Seq<RequestOutcomeView> {
    outcomes.map_values(|o: RequestOutcome| o@)
}

/// The statuses of the answers that succeeded, joined in order.
pub open spec fn gathered_statuses(responses: Seq<StatusResponseView>) -> Seq<IndexingStatusView>
    decreases responses.len(),
{
    if responses.len() == 0 {
        Seq::empty()
    } else {
        gathered_statuses(responses.drop_last()) + match responses.last().result {
            Ok(statuses) => statuses,
            Err(_) => Seq::empty(),
        }
    }
}

/// How many of the answers succeeded.
pub open spec fn success_count(responses: Seq<StatusResponseView>) -> nat
    decreases responses.len(),
{
    if responses.len() == 0 {
        0
    } else {
        success_count(responses.drop_last()) + if responses.last().result is Ok {
            1nat
        } else {
            0nat
        }
    }
}

/// The counter sample that an answer gives rise to.
pub open spec fn outcome_of(response: StatusResponseView) -> RequestOutcomeView {
    RequestOutcomeView { indexer: response.indexer, ok: response.result is Ok }
}

/// Joins the answers of a round of status queries.
///
/// An indexer that failed contributes no status and one failure sample; it
/// does not keep the statuses of the others from being returned.
pub fn gather_indexing_statuses(responses: &Vec<StatusResponse>) -> (round: StatusRound)
    ensures
        status_views(round.statuses@) == gathered_statuses(response_views(responses@)),
        outcome_views(round.outcomes@) == response_views(responses@).map_values(
            |r: StatusResponseView| outcome_of(r),
        ),
        round.successes == success_count(response_views(responses@)),
        round.successes + round.failures == responses@.len(),
{
    let ghost views = response_views(responses@);
    let mut statuses: Vec<IndexingStatus> = Vec::new();
    let mut outcomes: Vec<RequestOutcome> = Vec::new();
    let mut successes: usize = 0;
    let mut failures: usize = 0;
    let mut i: usize = 0;
    while i < responses.len()
        invariant
            i <= responses@.len(),
            views == response_views(responses@),
            status_views(statuses@) == gathered_statuses(views.take(i as int)),
            outcome_views(outcomes@) == views.take(i as int).map_values(
                |r: StatusResponseView| outcome_of(r),
            ),
            successes == success_count(views.take(i as int)),
            successes + failures == i,
        decreases responses@.len() - i,
    {
        let response = &responses[i];
        let ghost before = status_views(statuses@);
        proof {
            assert(views.take(i + 1).drop_last() =~= views.take(i as int));
            assert(views.take(i + 1).last() == response@);
        }
        match &response.result {
            Ok(found) => {
                let mut j: usize = 0;
                while j < found.len()
                    invariant
                        j <= found@.len(),
                        status_views(statuses@) == before + status_views(found@).take(j as int),
                    decreases found@.len() - j,
                {
                    let copy = found[j].clone();
                    let ghost so_far = status_views(statuses@);
                    statuses.push(copy);
                    proof {
                        assert(status_views(found@)[j as int] == copy@);
                        assert(status_views(statuses@) =~= so_far.push(copy@));
                        assert(status_views(found@).take(j + 1) =~= status_views(found@).take(
                            j as int,
                        ).push(copy@));
                    }
                    j = j + 1;
                }
                assert(status_views(found@).take(j as int) =~= status_views(found@));
                successes = successes + 1;
                let ghost samples = outcome_views(outcomes@);
                let sample = RequestOutcome { indexer: response.indexer.clone(), ok: true };
                assert(sample@ == outcome_of(response@));
                outcomes.push(sample);
                assert(outcome_views(outcomes@) =~= samples.push(outcome_of(response@)));
            },
            Err(_) => {
                assert(status_views(statuses@) =~= before + Seq::empty());
                failures = failures + 1;
                let ghost samples = outcome_views(outcomes@);
                let sample = RequestOutcome { indexer: response.indexer.clone(), ok: false };
                assert(sample@ == outcome_of(response@));
                outcomes.push(sample);
                assert(outcome_views(outcomes@) =~= samples.push(outcome_of(response@)));
            },
        }
        proof {
            assert(outcome_views(outcomes@) =~= views.take(i + 1).map_values(
                |r: StatusResponseView| outcome_of(r),
            ));
        }
        i = i + 1;
    }
    assert(views.take(i as int) =~= views);
    StatusRound { statuses, outcomes, successes, failures }
}

/// The proofs of indexing of all answers, joined in order.
pub open spec fn gathered_pois(responses: Seq<Seq<PoiView>>) -> Seq<PoiView>
    decreases responses.len(),
{
    if responses.len() == 0 {
        Seq::empty()
    } else {
        gathered_pois(responses.drop_last()) + responses.last()
    }
}

/// The views of `pois`, in order.
pub open spec fn poi_views(pois: Seq<ProofOfIndexing>) -> Seq<PoiView> {
    pois.map_values(|p: ProofOfIndexing| p@)
}

/// The views of the answers to a round of queries for proofs of indexing.
pub open spec fn poi_response_views(responses: Seq<Vec<ProofOfIndexing>>) -> Seq<Seq<PoiView>> {
    responses.map_values(|r: Vec<ProofOfIndexing>| poi_views(r@))
}

/// Joins the proofs of indexing that the indexers returned. An indexer
/// whose query failed is one that returned none.
pub fn gather_proofs_of_indexing(responses: &Vec<Vec<ProofOfIndexing>>) -> (pois: Vec<
    ProofOfIndexing,
>)
    ensures
        poi_views(pois@) == gathered_pois(poi_response_views(responses@)),
{
    let ghost views = poi_response_views(responses@);
    let mut pois: Vec<ProofOfIndexing> = Vec::new();
    let mut i: usize = 0;
    while i < responses.len()
        invariant
            i <= responses@.len(),
            views == poi_response_views(responses@),
            poi_views(pois@) == gathered_pois(views.take(i as int)),
        decreases responses@.len() - i,
    {
        let found = &responses[i];
        let ghost before = poi_views(pois@);
        proof {
            assert(views.take(i + 1).drop_last() =~= views.take(i as int));
            assert(views.take(i + 1).last() == poi_views(found@));
        }
        let mut j: usize = 0;
        while j < found.len()
            invariant
                j <= found@.len(),
                poi_views(pois@) == before + poi_views(found@).take(j as int),
            decreases found@.len() - j,
        {
            let copy = found[j].clone();
            let ghost so_far = poi_views(pois@);
            pois.push(copy);
            proof {
                assert(poi_views(found@)[j as int] == copy@);
                assert(poi_views(pois@) =~= so_far.push(copy@));
                assert(poi_views(found@).take(j + 1) =~= poi_views(found@).take(j as int).push(
                    copy@,
                ));
            }
            j = j + 1;
        }
        assert(poi_views(found@).take(j as int) =~= poi_views(found@));
        i = i + 1;
    }
    assert(views.take(i as int) =~= views);
    pois
}

/// The requests to send to one indexer.
#[derive(Debug)]
pub struct IndexerPoiRequests {
    pub indexer: Indexer,
    pub requests: Vec<PoiRequest>,
}

/// The requests for one indexer as contracts see them.
pub struct IndexerPoiRequestsView {
    pub indexer: IndexerView,
    pub requests: Seq<PoiRequestView>,
}

/// The views of `requests`, in order.
pub open spec fn request_views(requests: Seq<PoiRequest>) -> Seq<PoiRequestView> {
    requests.map_values(|r: PoiRequest| r@)
}

impl View for IndexerPoiRequests {
    type V = IndexerPoiRequestsView;

    open spec fn view(&self) -> IndexerPoiRequestsView {
        IndexerPoiRequestsView { indexer: self.indexer@, requests: request_views(self.requests@) }
    }
}

/// The views of the entries of a plan, in order.
pub open spec fn plan_views(plan: Seq<IndexerPoiRequests>) -> Seq<IndexerPoiRequestsView> {
    plan.map_values(|e: IndexerPoiRequests| e@)
}

/// Whether one of `statuses` comes from the indexer with address `address`.
pub open spec fn has_indexer(statuses: Seq<IndexingStatusView>, address: Seq<u8>) -> bool {
    exists|i: int| 0 <= i < statuses.len() && #[trigger] statuses[i].indexer.address == address
}

/// Whether one of `statuses` reports on `deployment`.
pub open spec fn has_deployment(statuses: Seq<IndexingStatusView>, deployment: Seq<char>) -> bool {
    exists|i: int| 0 <= i < statuses.len() && #[trigger] statuses[i].deployment == deployment
}

/// The indexers behind `statuses`, each once, in the order in which they
/// first occur.
pub open spec fn distinct_indexers(statuses: Seq<IndexingStatusView>) -> Seq<IndexerView>
    decreases statuses.len(),
{
    if statuses.len() == 0 {
        Seq::empty()
    } else {
        let before = distinct_indexers(statuses.drop_last());
        if has_indexer(statuses.drop_last(), statuses.last().indexer.address) {
            before
        } else {
            before.push(statuses.last().indexer)
        }
    }
}

/// The deployments that `statuses` report on, each once, in the order in
/// which they first occur.
pub open spec fn distinct_deployments(statuses: Seq<IndexingStatusView>) -> Seq<Seq<char>>
    decreases statuses.len(),
{
    if statuses.len() == 0 {
        Seq::empty()
    } else {
        let before = distinct_deployments(statuses.drop_last());
        if has_deployment(statuses.drop_last(), statuses.last().deployment) {
            before
        } else {
            before.push(statuses.last().deployment)
        }
    }
}

/// The latest blocks that the indexers report for `deployment`, in order.
pub open spec fn deployment_numbers(statuses: Seq<IndexingStatusView>, deployment: Seq<char>) -> Seq<
    u64,
>
    decreases statuses.len(),
{
    if statuses.len() == 0 {
        Seq::empty()
    } else {
        let before = deployment_numbers(statuses.drop_last(), deployment);
        if statuses.last().deployment == deployment {
            before.push(statuses.last().latest_block.number)
        } else {
            before
        }
    }
}

/// The block at which `deployment` is compared in this round, if any.
pub open spec fn target_block(
    statuses: Seq<IndexingStatusView>,
    policy: BlockChoicePolicy,
    deployment: Seq<char>,
) -> Option<u64> {
    chosen_block(policy, deployment_numbers(statuses, deployment))
}

/// Whether the indexer with address `address` reports `deployment` at or
/// beyond `block`.
pub open spec fn has_reached(
    statuses: Seq<IndexingStatusView>,
    address: Seq<u8>,
    deployment: Seq<char>,
    block: u64,
) -> bool {
    exists|i: int|
        0 <= i < statuses.len() && (#[trigger] statuses[i]).indexer.address == address
            && statuses[i].deployment == deployment && statuses[i].latest_block.number >= block
}

/// The request, if any, that goes to the indexer with address `address`
/// for `deployment`: one for the deployment's target block, provided the
/// indexer has reached it.
pub open spec fn request_for(
    statuses: Seq<IndexingStatusView>,
    policy: BlockChoicePolicy,
    address: Seq<u8>,
    deployment: Seq<char>,
) -> Option<PoiRequestView> {
    match target_block(statuses, policy, deployment) {
        Some(block) => if has_reached(statuses, address, deployment, block) {
            Some(PoiRequestView { deployment, block_number: block })
        } else {
            None
        },
        None => None,
    }
}

/// The requests that go to one indexer for the given deployments, in order.
pub open spec fn requests_for(
    statuses: Seq<IndexingStatusView>,
    policy: BlockChoicePolicy,
    address: Seq<u8>,
    deployments: Seq<Seq<char>>,
) -> Seq<PoiRequestView>
    decreases deployments.len(),
{
    if deployments.len() == 0 {
        Seq::empty()
    } else {
        let before = requests_for(statuses, policy, address, deployments.drop_last());
        match request_for(statuses, policy, address, deployments.last()) {
            Some(request) => before.push(request),
            None => before,
        }
    }
}

/// The plan of a round: for each indexer behind `statuses`, the requests
/// for the deployments whose target block it has reached.
pub open spec fn poi_request_plan(statuses: Seq<IndexingStatusView>, policy: BlockChoicePolicy) -> Seq<
    IndexerPoiRequestsView,
> {
    distinct_indexers(statuses).map_values(
        |indexer: IndexerView|
            IndexerPoiRequestsView {
                indexer,
                requests: requests_for(
                    statuses,
                    policy,
                    indexer.address,
                    distinct_deployments(statuses),
                ),
            },
    )
}

/// Whether a status before position `upto` comes from the indexer of `indexer`.
fn indexer_seen_before(statuses: &Vec<IndexingStatus>, upto: usize, indexer: &Indexer) -> (seen:
    bool)
    requires
        upto <= statuses@.len(),
    ensures
        seen == has_indexer(status_views(statuses@).take(upto as int), indexer@.address),
{
    let ghost views = status_views(statuses@).take(upto as int);
    let mut j: usize = 0;
    while j < upto
        invariant
            j <= upto <= statuses@.len(),
            views == status_views(statuses@).take(upto as int),
            forall|k: int| 0 <= k < j ==> (#[trigger] views[k]).indexer.address != indexer@.address,
        decreases upto - j,
    {
        if statuses[j].indexer.same_as(indexer) {
            assert(views[j as int].indexer.address == indexer@.address);
            return true;
        }
        j = j + 1;
    }
    false
}

/// Whether a status before position `upto` reports on `deployment`.
fn deployment_seen_before(
    statuses: &Vec<IndexingStatus>,
    upto: usize,
    deployment: &SubgraphDeployment,
) -> (seen: bool)
    requires
        upto <= statuses@.len(),
    ensures
        seen == has_deployment(status_views(statuses@).take(upto as int), deployment@),
{
    let ghost views = status_views(statuses@).take(upto as int);
    let mut j: usize = 0;
    while j < upto
        invariant
            j <= upto <= statuses@.len(),
            views == status_views(statuses@).take(upto as int),
            forall|k: int| 0 <= k < j ==> (#[trigger] views[k]).deployment != deployment@,
        decreases upto - j,
    {
        if statuses[j].deployment == *deployment {
            assert(views[j as int].deployment == deployment@);
            return true;
        }
        j = j + 1;
    }
    false
}

/// The views of `indexers`, in order.
pub open spec fn indexer_views(indexers: Seq<Indexer>) -> Seq<IndexerView> {
    indexers.map_values(|i: Indexer| i@)
}

/// The views of `deployments`, in order.
pub open spec fn deployment_views(deployments: Seq<SubgraphDeployment>) -> Seq<Seq<char>> {
    deployments.map_values(|d: SubgraphDeployment| d@)
}

/// The indexers behind `statuses`, each once, in order of first occurrence.
pub fn indexers_of(statuses: &Vec<IndexingStatus>) -> (indexers: Vec<Indexer>)
    ensures
        indexer_views(indexers@) == distinct_indexers(status_views(statuses@)),
{
    let ghost views = status_views(statuses@);
    let mut indexers: Vec<Indexer> = Vec::new();
    let mut i: usize = 0;
    while i < statuses.len()
        invariant
            i <= statuses@.len(),
            views == status_views(statuses@),
            indexer_views(indexers@) == distinct_indexers(views.take(i as int)),
        decreases statuses@.len() - i,
    {
        proof {
            assert(views.take(i + 1).drop_last() =~= views.take(i as int));
            assert(views.take(i + 1).last() == statuses@[i as int]@);
        }
        let ghost before = indexer_views(indexers@);
        if !indexer_seen_before(statuses, i, &statuses[i].indexer) {
            indexers.push(statuses[i].indexer.clone());
            assert(indexer_views(indexers@) =~= before.push(statuses@[i as int]@.indexer));
        }
        i = i + 1;
    }
    assert(views.take(i as int) =~= views);
    indexers
}

/// The deployments that `statuses` report on, each once, in order of
/// first occurrence.
pub fn deployments_of(statuses: &Vec<IndexingStatus>) -> (deployments: Vec<SubgraphDeployment>)
    ensures
        deployment_views(deployments@) == distinct_deployments(status_views(statuses@)),
{
    let ghost views = status_views(statuses@);
    let mut deployments: Vec<SubgraphDeployment> = Vec::new();
    let mut i: usize = 0;
    while i < statuses.len()
        invariant
            i <= statuses@.len(),
            views == status_views(statuses@),
            deployment_views(deployments@) == distinct_deployments(views.take(i as int)),
        decreases statuses@.len() - i,
    {
        proof {
            assert(views.take(i + 1).drop_last() =~= views.take(i as int));
            assert(views.take(i + 1).last() == statuses@[i as int]@);
        }
        let ghost before = deployment_views(deployments@);
        if !deployment_seen_before(statuses, i, &statuses[i].deployment) {
            deployments.push(statuses[i].deployment.clone());
            assert(deployment_views(deployments@) =~= before.push(statuses@[i as int]@.deployment));
        }
        i = i + 1;
    }
    assert(views.take(i as int) =~= views);
    deployments
}

/// The block at which `deployment` is compared, given the statuses of a
/// round: what `policy` picks among the latest blocks reported for it.
pub fn target_block_of(
    statuses: &Vec<IndexingStatus>,
    policy: &BlockChoicePolicy,
    deployment: &SubgraphDeployment,
) -> (target: Option<u64>)
    ensures
        target == target_block(status_views(statuses@), *policy, deployment@),
{
    let ghost views = status_views(statuses@);
    let mut numbers: Vec<u64> = Vec::new();
    let mut i: usize = 0;
    while i < statuses.len()
        invariant
            i <= statuses@.len(),
            views == status_views(statuses@),
            numbers@ == deployment_numbers(views.take(i as int), deployment@),
        decreases statuses@.len() - i,
    {
        proof {
            assert(views.take(i + 1).drop_last() =~= views.take(i as int));
            assert(views.take(i + 1).last() == statuses@[i as int]@);
        }
        if statuses[i].deployment == *deployment {
            numbers.push(statuses[i].latest_block.number);
        }
        i = i + 1;
    }
    assert(views.take(i as int) =~= views);
    policy.choose_among(&numbers)
}

/// Whether `indexer` reports `deployment` at or beyond `block`.
pub fn indexer_has_reached(
    statuses: &Vec<IndexingStatus>,
    indexer: &Indexer,
    deployment: &SubgraphDeployment,
    block: u64,
) -> (reached: bool)
    ensures
        reached == has_reached(status_views(statuses@), indexer@.address, deployment@, block),
{
    let ghost views = status_views(statuses@);
    let mut i: usize = 0;
    while i < statuses.len()
        invariant
            i <= statuses@.len(),
            views == status_views(statuses@),
            forall|k: int|
                0 <= k < i ==> !((#[trigger] views[k]).indexer.address == indexer@.address
                    && views[k].deployment == deployment@ && views[k].latest_block.number
                    >= block),
        decreases statuses@.len() - i,
    {
        let status = &statuses[i];
        if status.latest_block.number >= block && status.indexer.same_as(indexer)
            && status.deployment == *deployment {
            assert(views[i as int] == status@);
            return true;
        }
        i = i + 1;
    }
    false
}

/// Says which proofs of indexing to ask of which indexer.
///
/// Statuses are grouped by deployment and `policy` picks one block per
/// deployment. Each indexer is then asked for that block of every
/// deployment for which it has itself reached the block. Indexers and
/// deployments keep the order in which the statuses first name them.
pub fn plan_poi_requests(statuses: &Vec<IndexingStatus>, policy: &BlockChoicePolicy) -> (plan: Vec<
    IndexerPoiRequests,
>)
    ensures
        plan_views(plan@) == poi_request_plan(status_views(statuses@), *policy),
{
    let ghost views = status_views(statuses@);
    let deployments = deployments_of(statuses);
    let ghost dviews = deployment_views(deployments@);
    let mut targets: Vec<Option<u64>> = Vec::new();
    let mut k: usize = 0;
    while k < deployments.len()
        invariant
            k <= deployments@.len(),
            views == status_views(statuses@),
            dviews == deployment_views(deployments@),
            targets@.len() == k,
            forall|j: int|
                0 <= j < k ==> #[trigger] targets@[j] == target_block(views, *policy, dviews[j]),
        decreases deployments@.len() - k,
    {
        let target = target_block_of(statuses, policy, &deployments[k]);
        targets.push(target);
        k = k + 1;
    }
    let indexers = indexers_of(statuses);
    let ghost iviews = indexer_views(indexers@);
    let mut plan: Vec<IndexerPoiRequests> = Vec::new();
    let mut n: usize = 0;
    while n < indexers.len()
        invariant
            n <= indexers@.len(),
            views == status_views(statuses@),
            dviews == deployment_views(deployments@),
            dviews == distinct_deployments(views),
            iviews == indexer_views(indexers@),
            iviews == distinct_indexers(views),
            targets@.len() == deployments@.len(),
            forall|j: int|
                0 <= j < targets@.len() ==> #[trigger] targets@[j] == target_block(
                    views,
                    *policy,
                    dviews[j],
                ),
            plan_views(plan@) == poi_request_plan(views, *policy).take(n as int),
        decreases indexers@.len() - n,
    {
        let indexer = &indexers[n];
        let mut requests: Vec<PoiRequest> = Vec::new();
        let mut d: usize = 0;
        while d < deployments.len()
            invariant
                d <= deployments@.len(),
                views == status_views(statuses@),
                dviews == deployment_views(deployments@),
                targets@.len() == deployments@.len(),
                forall|j: int|
                    0 <= j < targets@.len() ==> #[trigger] targets@[j] == target_block(
                        views,
                        *policy,
                        dviews[j],
                    ),
                request_views(requests@) == requests_for(
                    views,
                    *policy,
                    indexer@.address,
                    dviews.take(d as int),
                ),
            decreases deployments@.len() - d,
        {
            proof {
                assert(dviews.take(d + 1).drop_last() =~= dviews.take(d as int));
                assert(dviews.take(d + 1).last() == deployments@[d as int]@);
                assert(targets@[d as int] == target_block(views, *policy, dviews[d as int]));
            }
            let ghost before = request_views(requests@);
            match targets[d] {
                Some(block) => {
                    if indexer_has_reached(statuses, indexer, &deployments[d], block) {
                        requests.push(
                            PoiRequest { deployment: deployments[d].clone(), block_number: block },
                        );
                        assert(request_views(requests@) =~= before.push(
                            PoiRequestView { deployment: dviews[d as int], block_number: block },
                        ));
                    }
                },
                None => {},
            }
            d = d + 1;
        }
        assert(dviews.take(d as int) =~= dviews);
        let ghost before = plan_views(plan@);
        plan.push(IndexerPoiRequests { indexer: indexer.clone(), requests });
        proof {
            let whole = poi_request_plan(views, *policy);
            assert(whole[n as int].indexer == iviews[n as int]);
            assert(plan_views(plan@) =~= before.push(whole[n as int]));
            assert(whole.take(n + 1) =~= whole.take(n as int).push(whole[n as int]));
        }
        n = n + 1;
    }
    assert(poi_request_plan(views, *policy).take(n as int) =~= poi_request_plan(views, *policy));
    plan
}

/// Every indexer behind `statuses` has its entry among the distinct indexers.
pub proof fn lemma_indexer_listed(statuses: Seq<IndexingStatusView>, k: int)
    requires
        0 <= k < statuses.len(),
    ensures
        exists|e: int|
            0 <= e < distinct_indexers(statuses).len() && (#[trigger] distinct_indexers(
                statuses,
            )[e]).address == statuses[k].indexer.address,
    decreases statuses.len(),
{
    let before = statuses.drop_last();
    let last = statuses.last();
    if has_indexer(before, last.indexer.address) {
        let w = if k < statuses.len() - 1 {
            k
        } else {
            choose|i: int|
                0 <= i < before.len() && #[trigger] before[i].indexer.address
                    == last.indexer.address
        };
        lemma_indexer_listed(before, w);
        let e = choose|e: int|
            0 <= e < distinct_indexers(before).len() && (#[trigger] distinct_indexers(
                before,
            )[e]).address == before[w].indexer.address;
        assert(distinct_indexers(statuses)[e].address == statuses[k].indexer.address);
    } else if k < statuses.len() - 1 {
        lemma_indexer_listed(before, k);
        let e = choose|e: int|
            0 <= e < distinct_indexers(before).len() && (#[trigger] distinct_indexers(
                before,
            )[e]).address == before[k].indexer.address;
        assert(distinct_indexers(statuses)[e].address == statuses[k].indexer.address);
    } else {
        let e = distinct_indexers(before).len() as int;
        assert(distinct_indexers(statuses)[e].address == statuses[k].indexer.address);
    }
}

/// Every deployment that `statuses` report on is among the distinct deployments.
pub proof fn lemma_deployment_listed(statuses: Seq<IndexingStatusView>, k: int)
    requires
        0 <= k < statuses.len(),
    ensures
        distinct_deployments(statuses).contains(statuses[k].deployment),
    decreases statuses.len(),
{
    let before = statuses.drop_last();
    let last = statuses.last();
    if has_deployment(before, last.deployment) {
        let w = if k < statuses.len() - 1 {
            k
        } else {
            choose|i: int| 0 <= i < before.len() && #[trigger] before[i].deployment == last.deployment
        };
        lemma_deployment_listed(before, w);
    } else if k < statuses.len() - 1 {
        lemma_deployment_listed(before, k);
        let at = distinct_deployments(before).index_of(statuses[k].deployment);
        assert(distinct_deployments(statuses)[at] == statuses[k].deployment);
    } else {
        let at = distinct_deployments(before).len() as int;
        assert(distinct_deployments(statuses)[at] == statuses[k].deployment);
    }
}

/// A request that is due for one of `deployments` is among the requests
/// for all of them.
pub proof fn lemma_request_listed(
    statuses: Seq<IndexingStatusView>,
    policy: BlockChoicePolicy,
    address: Seq<u8>,
    deployments: Seq<Seq<char>>,
    deployment: Seq<char>,
)
    requires
        deployments.contains(deployment),
        request_for(statuses, policy, address, deployment) is Some,
    ensures
        requests_for(statuses, policy, address, deployments).contains(
            request_for(statuses, policy, address, deployment).unwrap(),
        ),
    decreases deployments.len(),
{
    let wanted = request_for(statuses, policy, address, deployment).unwrap();
    let all = requests_for(statuses, policy, address, deployments);
    let before = requests_for(statuses, policy, address, deployments.drop_last());
    if deployments.last() == deployment {
        assert(all[before.len() as int] == wanted);
    } else {
        let at = deployments.index_of(deployment);
        assert(deployments.drop_last()[at] == deployment);
        lemma_request_listed(statuses, policy, address, deployments.drop_last(), deployment);
        let w = before.index_of(wanted);
        assert(all[w] == wanted);
    }
}

/// The statuses of an indexer that answered are statuses of the round,
/// whatever became of the other indexers.
pub proof fn lemma_answered_statuses_kept(responses: Seq<StatusResponseView>, i: int, j: int)
    requires
        0 <= i < responses.len(),
        responses[i].result is Ok,
        0 <= j < responses[i].result->Ok_0.len(),
    ensures
        gathered_statuses(responses).contains(responses[i].result->Ok_0[j]),
    decreases responses.len(),
{
    let before = gathered_statuses(responses.drop_last());
    let all = gathered_statuses(responses);
    if i < responses.len() - 1 {
        lemma_answered_statuses_kept(responses.drop_last(), i, j);
        let at = before.index_of(responses[i].result->Ok_0[j]);
        assert(all[at] == responses[i].result->Ok_0[j]);
    } else {
        assert(all[before.len() + j] == responses[i].result->Ok_0[j]);
    }
}

/// A status of the round whose indexer has reached the target block of its
/// deployment leads to a request for that block to that indexer.
pub proof fn lemma_status_is_planned(
    statuses: Seq<IndexingStatusView>,
    policy: BlockChoicePolicy,
    k: int,
    block: u64,
)
    requires
        0 <= k < statuses.len(),
        target_block(statuses, policy, statuses[k].deployment) == Some(block),
        statuses[k].latest_block.number >= block,
    ensures
        exists|e: int|
            0 <= e < poi_request_plan(statuses, policy).len() && (#[trigger] poi_request_plan(
                statuses,
                policy,
            )[e]).indexer.address == statuses[k].indexer.address && poi_request_plan(
                statuses,
                policy,
            )[e].requests.contains(
                PoiRequestView { deployment: statuses[k].deployment, block_number: block },
            ),
{
    let status = statuses[k];
    lemma_indexer_listed(statuses, k);
    lemma_deployment_listed(statuses, k);
    let e = choose|e: int|
        0 <= e < distinct_indexers(statuses).len() && (#[trigger] distinct_indexers(
            statuses,
        )[e]).address == status.indexer.address;
    assert(has_reached(statuses, status.indexer.address, status.deployment, block));
    lemma_request_listed(
        statuses,
        policy,
        status.indexer.address,
        distinct_deployments(statuses),
        status.deployment,
    );
    let plan = poi_request_plan(statuses, policy);
    assert(plan[e].indexer.address == status.indexer.address);
}

/// A round survives the failure of some of its indexers: each indexer that
/// did answer is still asked for the target block of every deployment for
/// which it reported a status at or beyond that block.
pub proof fn lemma_fanout_resilience(
    responses: Seq<StatusResponseView>,
    policy: BlockChoicePolicy,
    i: int,
    j: int,
    block: u64,
)
    requires
        0 <= i < responses.len(),
        responses[i].result is Ok,
        0 <= j < responses[i].result->Ok_0.len(),
        target_block(
            gathered_statuses(responses),
            policy,
            responses[i].result->Ok_0[j].deployment,
        ) == Some(block),
        responses[i].result->Ok_0[j].latest_block.number >= block,
    ensures
        ({
            let status = responses[i].result->Ok_0[j];
            let plan = poi_request_plan(gathered_statuses(responses), policy);
            exists|e: int|
                0 <= e < plan.len() && (#[trigger] plan[e]).indexer.address
                    == status.indexer.address && plan[e].requests.contains(
                    PoiRequestView { deployment: status.deployment, block_number: block },
                )
        }),
{
    let status = responses[i].result->Ok_0[j];
    let statuses = gathered_statuses(responses);
    lemma_answered_statuses_kept(responses, i, j);
    let k = statuses.index_of(status);
    lemma_status_is_planned(statuses, policy, k, block);
}

} // verus!
