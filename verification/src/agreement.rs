//! Agreement among the live proofs of indexing of a deployment.

use crate::error::ErrorKind;
use crate::models::{IntId, PoI, PoIView};
use crate::types::bytes_eq;
use vstd::prelude::*;

verus! {

/// How one proof of indexing stands among the live ones of its deployment.
#[derive(Debug, Clone, Copy, PartialEq, Eq)]
pub struct PoiAgreementRatio {
    pub poi_id: IntId,
    /// How many indexers have a live proof of indexing for the deployment.
    pub total_indexers: u64,
    /// How many of them hold the same digest as this one.
    pub n_agreeing_indexers: u64,
    /// How many hold another.
    pub n_disagreeing_indexers: u64,
    /// Whether one digest is held by a strict majority.
    pub has_consensus: bool,
    /// Whether this digest is the one that the majority holds.
    pub in_consensus: bool,
}

/// Why no agreement could be computed. Both are violations of the data
/// model: the caller handed over rows that do not fit together.
#[derive(Debug, Clone, Copy, PartialEq, Eq)]
pub enum AgreementError {
    /// The deployment of a proof of indexing has no live proof of indexing.
    NoPoisForDeployment,
    /// The deployment has live proofs of indexing, but none with this digest.
    NoMatchingPoi,
}

impl AgreementError {
    /// The kind of either error: a violated invariant.
    pub fn kind(&self) -> (kind: ErrorKind)
        ensures
            kind == ErrorKind::Invariant,
    {
        ErrorKind::Invariant
    }
}

/// How often `digest` occurs among `digests`.
pub open spec fn occurrences(digests: Seq<Seq<u8>>, digest: Seq<u8>) -> nat
    decreases digests.len(),
{
    if digests.len() == 0 {
        0
    } else {
        occurrences(digests.drop_last(), digest) + if digests.last() == digest {
            1nat
        } else {
            0nat
        }
    }
}

/// Whether `digest` is held by a strict majority: by more than half of
/// the indexers, halves rounded down.
pub open spec fn has_majority(digests: Seq<Seq<u8>>, digest: Seq<u8>) -> bool {
    occurrences(digests, digest) > digests.len() / 2
}

/// Whether some digest is held by a strict majority.
pub open spec fn has_consensus(digests: Seq<Seq<u8>>) -> bool {
    exists|digest: Seq<u8>| has_majority(digests, digest)
}

/// The digests of the proofs of indexing of deployment `cid`, in order.
pub open spec fn deployment_digests(pois: Seq<PoIView>, cid: Seq<char>) -> Seq<Seq<u8>>
    decreases pois.len(),
{
    if pois.len() == 0 {
        Seq::empty()
    } else {
        let before = deployment_digests(pois.drop_last(), cid);
        if pois.last().cid == cid {
            before.push(pois.last().poi)
        } else {
            before
        }
    }
}

/// The agreement of the proof of indexing `poi_id` with digest `digest`
/// among `digests`, the live digests of its deployment.
pub open spec fn agreement_of(poi_id: IntId, digest: Seq<u8>, digests: Seq<Seq<u8>>) -> Result<
    PoiAgreementRatio,
    AgreementError,
> {
    if digests.len() == 0 {
        Err(AgreementError::NoPoisForDeployment)
    } else if occurrences(digests, digest) == 0 {
        Err(AgreementError::NoMatchingPoi)
    } else {
        Ok(
            PoiAgreementRatio {
                poi_id,
                total_indexers: digests.len() as u64,
                n_agreeing_indexers: occurrences(digests, digest) as u64,
                n_disagreeing_indexers: (digests.len() - occurrences(digests, digest)) as u64,
                has_consensus: has_consensus(digests),
                in_consensus: has_consensus(digests) && has_majority(digests, digest),
            },
        )
    }
}

/// The agreement of the stored proof of indexing `poi` among `live`, the
/// live proofs of indexing of all deployments concerned.
pub open spec fn agreement_among(poi: PoIView, live: Seq<PoIView>) -> Result<
    PoiAgreementRatio,
    AgreementError,
> {
    agreement_of(poi.id, poi.poi, deployment_digests(live, poi.cid))
}

/// The first of `pois` whose agreement cannot be computed, or `pois.len()`.
pub open spec fn first_failure(pois: Seq<PoIView>, live: Seq<PoIView>) -> int
    decreases pois.len(),
{
    if pois.len() == 0 {
        0
    } else if agreement_among(pois[0], live) is Err {
        0
    } else {
        1 + first_failure(pois.skip(1), live)
    }
}

/// The views of `pois`, in order.
pub open spec fn stored_views(pois: Seq<PoI>) -> Seq<PoIView> {
    pois.map_values(|p: PoI| p@)
}

/// The views of `digests`, in order.
pub open spec fn digest_views(digests: Seq<Vec<u8>>) -> Seq<Seq<u8>> {
    digests.map_values(|d: Vec<u8>| d@)
}

/// No digest occurs more often than there are digests.
pub proof fn lemma_occurrences_bounded(digests: Seq<Seq<u8>>, digest: Seq<u8>)
    ensures
        occurrences(digests, digest) <= digests.len(),
    decreases digests.len(),
{
    if digests.len() > 0 {
        lemma_occurrences_bounded(digests.drop_last(), digest);
    }
}

/// Two different digests together occur no more often than there are digests.
pub proof fn lemma_occurrences_disjoint(digests: Seq<Seq<u8>>, a: Seq<u8>, b: Seq<u8>)
    requires
        a != b,
    ensures
        occurrences(digests, a) + occurrences(digests, b) <= digests.len(),
    decreases digests.len(),
{
    if digests.len() > 0 {
        lemma_occurrences_disjoint(digests.drop_last(), a, b);
    }
}

/// A digest that occurs at all is one of the digests.
pub proof fn lemma_occurring_is_member(digests: Seq<Seq<u8>>, digest: Seq<u8>)
    requires
        occurrences(digests, digest) > 0,
    ensures
        exists|i: int| 0 <= i < digests.len() && digests[i] == digest,
    decreases digests.len(),
{
    if digests.last() == digest {
        assert(digests[digests.len() - 1] == digest);
    } else {
        lemma_occurring_is_member(digests.drop_last(), digest);
        let i = choose|i: int| 0 <= i < digests.drop_last().len() && digests.drop_last()[i] == digest;
        assert(digests[i] == digest);
    }
}

/// The size of the largest bucket among the first `upto` digests: how
/// often the most frequent of them occurs among all.
pub open spec fn largest_bucket(digests: Seq<Seq<u8>>, upto: nat) -> nat
    decreases upto,
{
    if upto == 0 {
        0
    } else {
        let before = largest_bucket(digests, (upto - 1) as nat);
        let here = occurrences(digests, digests[upto - 1]);
        if here > before {
            here
        } else {
            before
        }
    }
}

/// The largest bucket is as large as any, and some digest fills it.
pub proof fn lemma_largest_bucket(digests: Seq<Seq<u8>>, upto: nat)
    requires
        upto <= digests.len(),
    ensures
        forall|i: int|
            0 <= i < upto ==> occurrences(digests, #[trigger] digests[i]) <= largest_bucket(
                digests,
                upto,
            ),
        upto > 0 ==> exists|i: int|
            0 <= i < upto && occurrences(digests, #[trigger] digests[i]) == largest_bucket(
                digests,
                upto,
            ),
    decreases upto,
{
    if upto > 0 {
        lemma_largest_bucket(digests, (upto - 1) as nat);
        let before = largest_bucket(digests, (upto - 1) as nat);
        let here = occurrences(digests, digests[upto - 1]);
        if here > before {
            assert(occurrences(digests, digests[upto - 1]) == largest_bucket(digests, upto));
        } else if upto > 1 {
            let i = choose|i: int|
                0 <= i < upto - 1 && occurrences(digests, #[trigger] digests[i]) == before;
            assert(occurrences(digests, digests[i]) == largest_bucket(digests, upto));
        } else {
            assert(occurrences(digests, digests[0]) == largest_bucket(digests, upto)) by {
                lemma_occurrences_of_member(digests, 0);
            }
        }
    }
}

/// A digest that stands among the digests occurs at least once.
pub proof fn lemma_occurrences_of_member(digests: Seq<Seq<u8>>, i: int)
    requires
        0 <= i < digests.len(),
    ensures
        occurrences(digests, digests[i]) >= 1,
    decreases digests.len(),
{
    if i < digests.len() - 1 {
        lemma_occurrences_of_member(digests.drop_last(), i);
    }
}

/// There is consensus exactly when the largest bucket holds more than
/// half of the digests, and then a digest is in consensus exactly when it
/// fills the largest bucket.
pub proof fn lemma_consensus_by_largest_bucket(digests: Seq<Seq<u8>>)
    ensures
        has_consensus(digests) <==> largest_bucket(digests, digests.len()) > digests.len() / 2,
        has_consensus(digests) ==> forall|digest: Seq<u8>|
            #[trigger] has_majority(digests, digest) <==> occurrences(digests, digest)
                == largest_bucket(digests, digests.len()),
{
    let largest = largest_bucket(digests, digests.len());
    lemma_largest_bucket(digests, digests.len());
    if has_consensus(digests) {
        let majority = choose|digest: Seq<u8>| has_majority(digests, digest);
        lemma_occurring_is_member(digests, majority);
        let i = choose|i: int| 0 <= i < digests.len() && digests[i] == majority;
        assert(occurrences(digests, digests[i]) <= largest);
        let top = choose|i: int|
            0 <= i < digests.len() && occurrences(digests, #[trigger] digests[i]) == largest;
        if digests[top] != majority {
            lemma_occurrences_disjoint(digests, digests[top], majority);
        }
        assert forall|digest: Seq<u8>| #[trigger]
            has_majority(digests, digest) <==> occurrences(digests, digest) == largest by {
            if digest != majority {
                lemma_occurrences_disjoint(digests, digest, majority);
            }
        }
    }
    if largest > digests.len() / 2 {
        let top = choose|i: int|
            0 <= i < digests.len() && occurrences(digests, #[trigger] digests[i]) == largest;
        assert(has_majority(digests, digests[top]));
    }
}

/// Where a strict majority of the indexers of a deployment holds one
/// digest, there is consensus, the indexers holding that digest are in
/// consensus, and all others are not.
pub proof fn lemma_unique_majority(digests: Seq<Seq<u8>>, majority: Seq<u8>)
    requires
        occurrences(digests, majority) > digests.len() / 2,
    ensures
        has_consensus(digests),
        forall|poi_id: IntId, digest: Seq<u8>|
            digest == majority ==> match #[trigger] agreement_of(poi_id, digest, digests) {
                Ok(ratio) => ratio.has_consensus && ratio.in_consensus,
                Err(_) => false,
            },
        forall|poi_id: IntId, digest: Seq<u8>|
            digest != majority ==> match #[trigger] agreement_of(poi_id, digest, digests) {
                Ok(ratio) => ratio.has_consensus && !ratio.in_consensus,
                Err(_) => true,
            },
{
    assert(has_majority(digests, majority));
    lemma_occurrences_bounded(digests, majority);
    assert forall|poi_id: IntId, digest: Seq<u8>| digest != majority implies match #[trigger] agreement_of(
        poi_id,
        digest,
        digests,
    ) {
        Ok(ratio) => ratio.has_consensus && !ratio.in_consensus,
        Err(_) => true,
    } by {
        lemma_occurrences_disjoint(digests, digest, majority);
    }
}

/// How often `digest` occurs among `digests`.
pub fn count_occurrences(digests: &Vec<Vec<u8>>, digest: &Vec<u8>) -> (count: usize)
    ensures
        count == occurrences(digest_views(digests@), digest@),
{
    let ghost views = digest_views(digests@);
    let mut count: usize = 0;
    let mut i: usize = 0;
    while i < digests.len()
        invariant
            i <= digests@.len(),
            views == digest_views(digests@),
            count == occurrences(views.take(i as int), digest@),
            count <= i,
        decreases digests@.len() - i,
    {
        proof {
            assert(views.take(i + 1).drop_last() =~= views.take(i as int));
            assert(views.take(i + 1).last() == digests@[i as int]@);
        }
        if bytes_eq(digests[i].as_slice(), digest.as_slice()) {
            count = count + 1;
        }
        i = i + 1;
    }
    assert(views.take(i as int) =~= views);
    count
}

/// Whether some digest among `digests` is held by a strict majority.
pub fn some_majority(digests: &Vec<Vec<u8>>) -> (found: bool)
    ensures
        found == has_consensus(digest_views(digests@)),
{
    let ghost views = digest_views(digests@);
    let half = digests.len() / 2;
    let mut i: usize = 0;
    while i < digests.len()
        invariant
            i <= digests@.len(),
            views == digest_views(digests@),
            half == digests@.len() / 2,
            forall|j: int| 0 <= j < i ==> !has_majority(views, #[trigger] views[j]),
        decreases digests@.len() - i,
    {
        if count_occurrences(digests, &digests[i]) > half {
            assert(has_majority(views, views[i as int]));
            return true;
        }
        i = i + 1;
    }
    proof {
        assert forall|digest: Seq<u8>| !has_majority(views, digest) by {
            if has_majority(views, digest) {
                lemma_occurring_is_member(views, digest);
                let j = choose|j: int| 0 <= j < views.len() && views[j] == digest;
                assert(!has_majority(views, views[j]));
            }
        }
    }
    false
}

/// The agreement of one proof of indexing among the live digests of its
/// deployment.
///
/// Fails when the deployment has no live digest at all, and when it has
/// some but none equal to `digest`.
pub fn agreement_ratio(poi_id: IntId, digest: &Vec<u8>, digests: &Vec<Vec<u8>>) -> (res: Result<
    PoiAgreementRatio,
    AgreementError,
>)
    ensures
        res == agreement_of(poi_id, digest@, digest_views(digests@)),
{
    let ghost views = digest_views(digests@);
    if digests.len() == 0 {
        return Err(AgreementError::NoPoisForDeployment);
    }
    let agreeing = count_occurrences(digests, digest);
    if agreeing == 0 {
        return Err(AgreementError::NoMatchingPoi);
    }
    proof {
        lemma_occurrences_bounded(views, digest@);
    }
    let total = digests.len();
    let consensus = some_majority(digests);
    let in_consensus = consensus && agreeing > total / 2;
    Ok(
        PoiAgreementRatio {
            poi_id,
            total_indexers: total as u64,
            n_agreeing_indexers: agreeing as u64,
            n_disagreeing_indexers: (total - agreeing) as u64,
            has_consensus: consensus,
            in_consensus,
        },
    )
}

/// The digests of the proofs of indexing of deployment `cid` among `pois`.
pub fn digests_of_deployment(pois: &Vec<PoI>, cid: &String) -> (digests: Vec<Vec<u8>>)
    ensures
        digest_views(digests@) == deployment_digests(stored_views(pois@), cid@),
{
    let ghost views = stored_views(pois@);
    let mut digests: Vec<Vec<u8>> = Vec::new();
    let mut i: usize = 0;
    while i < pois.len()
        invariant
            i <= pois@.len(),
            views == stored_views(pois@),
            digest_views(digests@) == deployment_digests(views.take(i as int), cid@),
        decreases pois@.len() - i,
    {
        proof {
            assert(views.take(i + 1).drop_last() =~= views.take(i as int));
            assert(views.take(i + 1).last() == pois@[i as int]@);
        }
        if pois[i].sg_deployment.cid == *cid {
            let ghost before = digest_views(digests@);
            let copy = crate::types::copy_bytes(pois[i].poi.as_slice());
            digests.push(copy);
            assert(digest_views(digests@) =~= before.push(pois@[i as int]@.poi));
        }
        i = i + 1;
    }
    assert(views.take(i as int) =~= views);
    digests
}

/// The agreement of each of an indexer's live proofs of indexing among
/// `live`, the live proofs of indexing of the deployments concerned.
///
/// Succeeds when every one of `indexer_pois` has its own digest among the
/// live digests of its deployment, and otherwise fails with the error of
/// the first that has not.
pub fn poi_agreement_ratios(indexer_pois: &Vec<PoI>, live: &Vec<PoI>) -> (res: Result<
    Vec<PoiAgreementRatio>,
    AgreementError,
>)
    ensures
        match res {
            Ok(ratios) => {
                &&& ratios@.len() == indexer_pois@.len()
                &&& forall|i: int|
                    0 <= i < ratios@.len() ==> Ok::<PoiAgreementRatio, AgreementError>(
                        #[trigger] ratios@[i],
                    ) == agreement_among(stored_views(indexer_pois@)[i], stored_views(live@))
            },
            Err(e) => {
                let at = first_failure(stored_views(indexer_pois@), stored_views(live@));
                &&& at < indexer_pois@.len()
                &&& Err::<PoiAgreementRatio, AgreementError>(e) == agreement_among(
                    stored_views(indexer_pois@)[at],
                    stored_views(live@),
                )
            },
        },
{
    let ghost views = stored_views(indexer_pois@);
    let ghost all = stored_views(live@);
    let mut ratios: Vec<PoiAgreementRatio> = Vec::new();
    let mut i: usize = 0;
    assert(views.skip(0) =~= views);
    while i < indexer_pois.len()
        invariant
            i <= indexer_pois@.len(),
            views == stored_views(indexer_pois@),
            all == stored_views(live@),
            ratios@.len() == i,
            forall|j: int|
                0 <= j < i ==> Ok::<PoiAgreementRatio, AgreementError>(#[trigger] ratios@[j])
                    == agreement_among(views[j], all),
            first_failure(views, all) == i + first_failure(views.skip(i as int), all),
        decreases indexer_pois@.len() - i,
    {
        let poi = &indexer_pois[i];
        let digests = digests_of_deployment(live, &poi.sg_deployment.cid);
        proof {
            assert(views[i as int] == poi@);
            assert(views.skip(i as int)[0] == views[i as int]);
            assert(views.skip(i as int).skip(1) =~= views.skip(i + 1));
        }
        match agreement_ratio(poi.id, &poi.poi, &digests) {
            Ok(ratio) => {
                ratios.push(ratio);
            },
            Err(e) => {
                return Err(e);
            },
        }
        i = i + 1;
    }
    Ok(ratios)
}

} // verus!
